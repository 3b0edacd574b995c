//! EPT planner and installer errors.

use vstd::prelude::*;
use vstd::string::*;

use crate::text::{decimal, push_decimal};

verus! {

/// Errors produced while building or installing EPT mappings.
#[derive(Clone, Debug, PartialEq, Eq)]
pub enum EptPlanError {
    /// Guest RAM backing region missing from memory plan.
    MissingGuestRam {
        /// VM identifier.
        vm_id: u32,
    },
    /// EPT mapping overlap within a partition.
    MappingOverlap {
        /// VM identifier.
        vm_id: u32,
    },
    /// Address overflow while building mappings.
    Overflow,
    /// The install buffer has no room for another table.
    BufferTooSmall,
    /// A mapping base is not 4 KiB aligned.
    MisalignedMapping,
    /// No mappings were given to install.
    EmptyMappings,
    /// The install buffer's host address is not 4 KiB aligned.
    MisalignedBuffer,
    /// Two mappings to install share guest addresses without being the same mapping.
    OverlappingMappings,
    /// A channel's shared region is missing from the memory plan.
    MissingIpcChannel {
        /// VM identifier.
        vm_id: u32,
        /// Channel name.
        channel: String,
    },
}

/// Description of an EPT error, the channel name by its text.
pub ghost enum EptErrorSpec {
    /// Guest RAM backing missing for a VM.
    MissingGuestRam(u32),
    /// Mappings of a VM overlap.
    Overlap(u32),
    /// Address overflow.
    Overflow,
    /// A channel region missing for a VM.
    MissingIpc(u32, Seq<char>),
}

/// The error `e` is the one `s` describes.
pub open spec fn ept_error_is(e: EptPlanError, s: EptErrorSpec) -> bool {
    match s {
        EptErrorSpec::MissingGuestRam(vm) => e == EptPlanError::MissingGuestRam { vm_id: vm },
        EptErrorSpec::Overlap(vm) => e == EptPlanError::MappingOverlap { vm_id: vm },
        EptErrorSpec::Overflow => e == EptPlanError::Overflow,
        EptErrorSpec::MissingIpc(vm, name) => e matches EptPlanError::MissingIpcChannel {
            vm_id,
            channel,
        } && vm_id == vm && channel@ == name,
    }
}


/// Human-readable description of an EPT planning or installation failure.
pub open spec fn ept_error_text(e: EptPlanError) -> Seq<char> {
    match e {
        EptPlanError::MissingGuestRam { vm_id } => "missing guest RAM backing for vm"@ + decimal(
            vm_id as nat,
        ),
        EptPlanError::MappingOverlap { vm_id } => "EPT mappings overlap for vm"@ + decimal(vm_id as nat),
        EptPlanError::Overflow => "EPT planner overflow"@,
        EptPlanError::BufferTooSmall => "EPT install buffer too small"@,
        EptPlanError::MisalignedMapping => "EPT mapping not 4 KiB aligned"@,
        EptPlanError::EmptyMappings => "no EPT mappings to install"@,
        EptPlanError::MisalignedBuffer => "EPT install buffer not 4 KiB aligned"@,
        EptPlanError::OverlappingMappings => "EPT mappings to install overlap"@,
        EptPlanError::MissingIpcChannel { vm_id, channel } => "missing shared region of channel `"@
            + channel@ + "` for vm"@ + decimal(vm_id as nat),
    }
}

impl EptPlanError {
    /// Human-readable description of the failure.
    pub fn message(&self) -> (r: String)
        ensures
            r@ == ept_error_text(*self),
    {
        match self {
            EptPlanError::MissingGuestRam { vm_id } => {
                let mut out = String::from_str("missing guest RAM backing for vm");
                push_decimal(&mut out, *vm_id as u64);
                out
            },
            EptPlanError::MappingOverlap { vm_id } => {
                let mut out = String::from_str("EPT mappings overlap for vm");
                push_decimal(&mut out, *vm_id as u64);
                out
            },
            EptPlanError::Overflow => String::from_str("EPT planner overflow"),
            EptPlanError::BufferTooSmall => String::from_str("EPT install buffer too small"),
            EptPlanError::MisalignedMapping => String::from_str("EPT mapping not 4 KiB aligned"),
            EptPlanError::EmptyMappings => String::from_str("no EPT mappings to install"),
            EptPlanError::MisalignedBuffer => String::from_str("EPT install buffer not 4 KiB aligned"),
            EptPlanError::OverlappingMappings => String::from_str("EPT mappings to install overlap"),
            EptPlanError::MissingIpcChannel { vm_id, channel } => {
                let mut out = String::from_str("missing shared region of channel `");
                out.append(channel.as_str());
                out.append("` for vm");
                push_decimal(&mut out, *vm_id as u64);
                out
            },
        }
    }
}

} // verus!
