//! Errors surfaced by boot sequencing, platform validation and planning.

use vstd::prelude::*;
use vstd::string::*;

use crate::boot::BootTransitionError;
use crate::cpu_topology::CpuTopologyError;
use crate::ept::error::EptPlanError;
use crate::platform::validate::PlatformValidationError;

verus! {

/// Errors surfaced by platform validation and resolution.
#[derive(Clone, Debug, PartialEq, Eq)]
pub enum CoreError {
    /// Boot state transition failed.
    BootTransition(BootTransitionError),
    /// Boot info rejected.
    BootInfo(&'static str),
    /// Platform contract validation failed.
    Validation(PlatformValidationError),
    /// CPU topology planning failed.
    Cpu(CpuTopologyError),
    /// EPT planning failed.
    Ept(EptPlanError),
}


/// Human-readable description of a core error: that of the wrapped error.
pub open spec fn core_error_text(e: CoreError) -> Seq<char> {
    match e {
        CoreError::BootTransition(err) => crate::boot::transition_error_text(err),
        CoreError::BootInfo(msg) => "boot info error: "@ + msg@,
        CoreError::Validation(err) => crate::platform::validate::platform_error_text(err),
        CoreError::Cpu(err) => crate::cpu_topology::cpu_topology_error_text(err),
        CoreError::Ept(err) => crate::ept::error::ept_error_text(err),
    }
}

impl CoreError {
    /// Human-readable description of the error.
    pub fn message(&self) -> (r: String)
        ensures
            r@ == core_error_text(*self),
    {
        match self {
            CoreError::BootTransition(err) => err.message(),
            CoreError::BootInfo(msg) => {
                let mut out = String::from_str("boot info error: ");
                out.append(msg);
                out
            },
            CoreError::Validation(err) => err.message(),
            CoreError::Cpu(err) => err.message(),
            CoreError::Ept(err) => err.message(),
        }
    }
}

} // verus!
