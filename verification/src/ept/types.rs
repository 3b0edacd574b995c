//! EPT mapping types.

use vstd::prelude::*;

use crate::types::{GuestPhysAddr, HostPhysAddr};

verus! {

/// EPT page permissions.
#[derive(Clone, Copy, Debug, PartialEq, Eq, Structural)]
pub struct EptPermissions {
    /// Read allowed.
    pub read: bool,
    /// Write allowed.
    pub write: bool,
    /// Execute allowed.
    pub execute: bool,
}

impl EptPermissions {
    /// Guest RAM permissions: read, write and execute.
    pub open spec fn spec_guest_ram() -> EptPermissions {
        EptPermissions { read: true, write: true, execute: true }
    }

    /// MMIO permissions: read and write, no execute.
    pub open spec fn spec_mmio() -> EptPermissions {
        EptPermissions { read: true, write: true, execute: false }
    }

    /// Guest RAM permissions: read, write and execute.
    #[verifier::when_used_as_spec(spec_guest_ram)]
    pub fn guest_ram() -> (r: EptPermissions)
        ensures
            r == Self::spec_guest_ram(),
    {
        EptPermissions { read: true, write: true, execute: true }
    }

    /// MMIO permissions: read and write, no execute.
    #[verifier::when_used_as_spec(spec_mmio)]
    pub fn mmio() -> (r: EptPermissions)
        ensures
            r == Self::spec_mmio(),
    {
        EptPermissions { read: true, write: true, execute: false }
    }
}

/// EPT memory type.
#[derive(Clone, Copy, Debug, PartialEq, Eq, Structural)]
pub enum EptMemoryType {
    /// Write-back memory.
    WriteBack,
    /// Uncacheable MMIO.
    Uncacheable,
}

/// One EPT mapping entry.
#[derive(Clone, Copy, Debug, PartialEq, Eq, Structural)]
pub struct EptMapping {
    /// Guest physical base.
    pub guest_phys: GuestPhysAddr,
    /// Host physical base.
    pub host_phys: HostPhysAddr,
    /// Mapping size in bytes.
    pub size: u64,
    /// Permissions.
    pub permissions: EptPermissions,
    /// Memory type.
    pub memory_type: EptMemoryType,
}

} // verus!
