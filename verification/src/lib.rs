//! Sensor reading buffers: a fixed-capacity buffer, a growable buffer
//! manager with reader-thread bookkeeping, the line protocol spoken by
//! sensor pipes, and a registry of sensors.

pub mod counters;
pub mod bounded;
pub mod manager;
pub mod protocol;
pub mod reader;
pub mod registry;
