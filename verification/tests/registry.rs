use buffer_manager::registry::{get_sensor_count, register_sensor, SensorRegistry};

#[test]
fn registry_counts_distinct_ids() {
    let mut r: SensorRegistry<&str> = SensorRegistry::new();
    assert_eq!(get_sensor_count(&r), 0);
    let id = register_sensor(&mut r, "sensor-0".to_string(), "thermo", 10);
    assert_eq!(id, "sensor-0");
    register_sensor(&mut r, "sensor-1".to_string(), "accel", 20);
    assert_eq!(get_sensor_count(&r), 2);
    // the same id again replaces, it does not add
    let id = register_sensor(&mut r, "sensor-0".to_string(), "force", 15);
    assert_eq!(id, "sensor-0");
    assert_eq!(get_sensor_count(&r), 2);
    assert_eq!(r.count(), 2);
}
