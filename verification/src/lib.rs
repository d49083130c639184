//! Decision core of a GPU fan-control daemon.
//!
//! Given a measured temperature, the library computes the commanded fan
//! duty cycle from a validated fan curve, and given the names found under
//! the kernel's device registry it decides which entries are controllable
//! AMD fan interfaces.  All temperatures and speeds are fixed-point values
//! counted in thousandths of a unit, so a speed of `51.066` percent is
//! stored as `51_066`.

pub mod config;
pub mod device;
pub mod error;
pub mod hw_mon;
pub mod utils;
