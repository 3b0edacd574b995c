//! Host memory plan consumed by the EPT planner: placed regions and what
//! each one backs.

use vstd::prelude::*;

use crate::types::HostPhysAddr;

verus! {

/// What a planned host memory region backs.
#[derive(Clone, Debug, PartialEq, Eq)]
pub enum MemoryPurpose {
    /// Private guest RAM of a partition.
    PartitionGuestRam {
        /// Raw VM identifier.
        vm_id: u32,
    },
    /// Shared ring memory of an IPC channel.
    IpcChannel {
        /// Channel name.
        name: String,
    },
}

/// A placed host memory region.
#[derive(Clone, Debug, PartialEq, Eq)]
pub struct MemoryRegion {
    /// Host physical base.
    pub base: HostPhysAddr,
    /// Size in bytes.
    pub size: u64,
    /// What the region backs.
    pub purpose: MemoryPurpose,
}

/// Placed host memory regions.
#[derive(Clone, Debug, PartialEq, Eq)]
pub struct MemoryPlan {
    /// Regions in placement order.
    pub regions: Vec<MemoryRegion>,
}

} // verus!
