//! Licensing: trial periods, activation and the state kept on the device.
//!
//! The library holds the rules.  Talking to the license server, reading the
//! clock's zone or the disk, and asking the platform for a device identifier
//! are the application's part; it hands the results in as plain values.

pub mod api;
pub mod config;
pub mod device;
pub mod manager;
pub mod storage;
pub mod types;
