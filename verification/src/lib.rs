//! Host telemetry sampling: parsing of the kernel's per-core counters and CPU
//! descriptors, utilization from successive counter snapshots, parsing of
//! sensor and storage-temperature readings, and session-wide statistics.

pub mod errors;
pub mod text;
pub mod number;
pub mod cpu;
pub mod sensors;
pub mod hdd;
pub mod sample;
pub mod stats;
pub mod session;
