# buffer_manager

Buffers for sensor readings, verified with Verus.

- `src/bounded.rs`: a first-in first-out buffer of fixed capacity that
  refuses pushes when full and keeps usage statistics.
- `src/manager.rs`: a buffer fed by reader threads whose capacity grows
  under load, depending on how many readers are registered.
- `src/protocol.rs`: the line protocol of sensor pipes (`RATE`, `AVAIL`,
  `T`, `A`, `F`): splitting, integer parsing and classification.
- `src/reader.rs`: what a pipe reader decides on each line: how long to pause, from the
  rate and queue availability a sensor reports, and when to hand a batch of
  readings to the buffer.
- `src/registry.rs`: sensors by id.
- `src/counters.rs`: wrapping statistics counters and percentage thresholds.

`app/` holds the threads, locks, pipes and child processes around the
library, and the sensor types, whose readings carry floating-point values.
