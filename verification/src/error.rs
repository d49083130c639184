//! The shared failure taxonomy of the control core.
//!
//! Every kind is a structured value handed back to the caller, who
//! decides whether to abort or to continue; nothing here terminates the
//! process.

use vstd::prelude::*;

use crate::config::ConfigError;
use crate::device::AmdGpuError;

verus! {

/// Aggregate error of the control core's startup and discovery paths.
#[derive(Clone, Debug)]
pub enum VoltageError {
    /// No controllable AMD GPU was found.
    NoAmdGpu,
    /// A hardware module name this core does not manage.
    UnknownHardwareModule(String),
    /// A registry name failed to parse.
    AmdGpu(AmdGpuError),
    /// The configuration failed validation.
    Config(ConfigError),
    /// A filesystem resource other than a missing config file failed;
    /// carries the reported reason.
    Io(String),
}

impl From<ConfigError> for VoltageError {
    fn from(e: ConfigError) -> (r: VoltageError) {
        VoltageError::Config(e)
    }
}

impl vstd::std_specs::convert::FromSpecImpl<ConfigError> for VoltageError {
    open spec fn obeys_from_spec() -> bool {
        true
    }

    open spec fn from_spec(e: ConfigError) -> VoltageError {
        VoltageError::Config(e)
    }
}

impl From<AmdGpuError> for VoltageError {
    fn from(e: AmdGpuError) -> (r: VoltageError) {
        VoltageError::AmdGpu(e)
    }
}

impl vstd::std_specs::convert::FromSpecImpl<AmdGpuError> for VoltageError {
    open spec fn obeys_from_spec() -> bool {
        true
    }

    open spec fn from_spec(e: AmdGpuError) -> VoltageError {
        VoltageError::AmdGpu(e)
    }
}

} // verus!
