//! Versioned guest boot ABI: partition identity, memory layout, IPC regions
//! and device assignments handed to each guest, and the layout checks applied
//! to a guest boot info blob.

use vstd::prelude::*;

use crate::types::{GuestPhysAddr, VcpuId, VmId};

verus! {

/// Major guest ABI version.
pub const GUEST_ABI_VERSION_MAJOR: u16 = 1;

/// Minor guest ABI version.
pub const GUEST_ABI_VERSION_MINOR: u16 = 0;

/// Magic signature for guest boot info.
pub const GUEST_BOOT_INFO_MAGIC: u64 = 0x4755_E572_5F42_494E;

/// Header for guest boot information.
#[derive(Clone, Copy, Debug, PartialEq, Eq)]
pub struct GuestBootInfoHeader {
    /// Magic signature [`GUEST_BOOT_INFO_MAGIC`].
    pub magic: u64,
    /// Major ABI version.
    pub version_major: u16,
    /// Minor ABI version.
    pub version_minor: u16,
    /// Total structure size in bytes.
    pub total_size: u32,
    /// Assigned VM identifier.
    pub vm_id: u32,
    /// Current vCPU identifier.
    pub vcpu_id: u32,
}

impl GuestBootInfoHeader {
    /// The header carries the guest magic and the compiled major version.
    pub open spec fn spec_compatible(&self) -> bool {
        self.magic == GUEST_BOOT_INFO_MAGIC && self.version_major == GUEST_ABI_VERSION_MAJOR
    }

    /// Returns true when the header matches the compiled ABI major version.
    pub fn is_compatible(&self) -> (r: bool)
        ensures
            r == self.spec_compatible(),
    {
        self.magic == GUEST_BOOT_INFO_MAGIC && self.version_major == GUEST_ABI_VERSION_MAJOR
    }

    /// Returns the typed VM identifier.
    pub fn vm_id(&self) -> (r: VmId)
        ensures
            r == VmId(self.vm_id),
    {
        VmId::new(self.vm_id)
    }

    /// Returns the typed vCPU identifier.
    pub fn vcpu_id(&self) -> (r: VcpuId)
        ensures
            r == VcpuId(self.vcpu_id),
    {
        VcpuId::new(self.vcpu_id)
    }
}

/// Guest RAM region descriptor.
#[derive(Clone, Copy, Debug, PartialEq, Eq)]
pub struct GuestMemoryRegion {
    /// Guest physical base address.
    pub base: u64,
    /// Region size in bytes.
    pub size: u64,
    /// Attribute flags defined by future ABI versions.
    pub flags: u32,
    /// Reserved.
    pub reserved: u32,
}

impl GuestMemoryRegion {
    /// Returns the typed guest physical base address.
    pub fn base(&self) -> (r: GuestPhysAddr)
        ensures
            r == GuestPhysAddr(self.base),
    {
        GuestPhysAddr::new(self.base)
    }
}

/// IPC region visible to a guest.
#[derive(Clone, Copy, Debug, PartialEq, Eq)]
pub struct GuestIpcRegion {
    /// Channel name hash for stable identification.
    pub name_hash: u64,
    /// Producer VM ID.
    pub producer_vm_id: u32,
    /// Consumer VM ID.
    pub consumer_vm_id: u32,
    /// Shared memory guest physical base.
    pub base: u64,
    /// Shared memory size in bytes.
    pub size: u64,
    /// Role flags: bit0 producer, bit1 consumer.
    pub role_flags: u32,
    /// Reserved.
    pub reserved: u32,
}

/// MMIO region descriptor for an assigned device BAR.
#[derive(Clone, Copy, Debug, PartialEq, Eq)]
pub struct GuestMmioRegion {
    /// Guest physical base address.
    pub base: u64,
    /// Region size in bytes.
    pub size: u64,
    /// Device identifier hash.
    pub device_hash: u64,
}

/// Fixed-layout guest boot info prefix; the region tables follow it.
#[derive(Clone, Copy, Debug, PartialEq, Eq)]
pub struct GuestBootInfo {
    /// Header and identity.
    pub header: GuestBootInfoHeader,
    /// Number of memory regions following the prefix.
    pub memory_region_count: u32,
    /// Number of IPC regions following the memory table.
    pub ipc_region_count: u32,
    /// Number of MMIO regions following the IPC table.
    pub mmio_region_count: u32,
    /// Reserved.
    pub reserved: u32,
}

/// Fixed prefix size in bytes (the [`GuestBootInfo`] struct).
pub const GUEST_BOOT_INFO_FIXED_PREFIX_BYTES: usize = 40;

/// Size in bytes of one [`GuestMemoryRegion`].
pub const GUEST_MEMORY_REGION_BYTES: usize = 24;

/// Size in bytes of one [`GuestIpcRegion`].
pub const GUEST_IPC_REGION_BYTES: usize = 40;

/// Size in bytes of one [`GuestMmioRegion`].
pub const GUEST_MMIO_REGION_BYTES: usize = 24;

/// Alignment in bytes of every guest region table entry.
pub const GUEST_REGION_ALIGN: usize = 8;

/// Errors validating a guest boot info blob layout.
#[derive(Clone, Copy, Debug, PartialEq, Eq)]
pub enum GuestLayoutError {
    /// Pointer is null.
    NullPointer,
    /// Total byte count is smaller than the fixed prefix.
    BufferTooSmall,
    /// `total_size` does not match the provided total size.
    SizeMismatch {
        /// Declared size in the header.
        declared: u32,
        /// Caller-provided total size.
        provided: usize,
    },
    /// Header `total_size` does not match the prefix field.
    HeaderTotalSizeMismatch {
        /// Header field.
        header_total: u32,
        /// Prefix field.
        prefix_total: u32,
    },
    /// A trailing table extends past the buffer.
    TableOutOfBounds {
        /// Table name for diagnostics.
        table: &'static str,
        /// Required bytes for the full blob.
        required: usize,
        /// Provided buffer size.
        provided: usize,
    },
    /// Magic or major version is incompatible.
    IncompatibleHeader,
    /// A trailing table would be misaligned.
    MisalignedTable {
        /// Table name for diagnostics.
        table: &'static str,
    },
    /// Integer overflow computing layout sizes.
    Overflow,
}

/// Diagnostic label of each guest layout error.
pub open spec fn guest_layout_label(e: GuestLayoutError) -> &'static str {
    match e {
        GuestLayoutError::NullPointer => "null guest boot info pointer",
        GuestLayoutError::BufferTooSmall => "guest boot info buffer too small",
        GuestLayoutError::SizeMismatch { .. } => "guest total_size mismatch",
        GuestLayoutError::HeaderTotalSizeMismatch { .. } => "guest header total_size mismatch",
        GuestLayoutError::TableOutOfBounds { .. } => "guest boot info table out of bounds",
        GuestLayoutError::IncompatibleHeader => "incompatible guest boot info header",
        GuestLayoutError::MisalignedTable { .. } => "misaligned guest boot info table",
        GuestLayoutError::Overflow => "guest boot info layout overflow",
    }
}

impl GuestLayoutError {
    /// Returns a static label for diagnostics.
    pub fn as_str(self) -> (r: &'static str)
        ensures
            r == guest_layout_label(self),
    {
        match self {
            GuestLayoutError::NullPointer => "null guest boot info pointer",
            GuestLayoutError::BufferTooSmall => "guest boot info buffer too small",
            GuestLayoutError::SizeMismatch { .. } => "guest total_size mismatch",
            GuestLayoutError::HeaderTotalSizeMismatch { .. } => "guest header total_size mismatch",
            GuestLayoutError::TableOutOfBounds { .. } => "guest boot info table out of bounds",
            GuestLayoutError::IncompatibleHeader => "incompatible guest boot info header",
            GuestLayoutError::MisalignedTable { .. } => "misaligned guest boot info table",
            GuestLayoutError::Overflow => "guest boot info layout overflow",
        }
    }
}

/// Outcome of sizing one trailing table of `count` entries against `total` bytes.
pub open spec fn table_check(count: int, entry: int, table: &'static str, total: int) -> Option<
    GuestLayoutError,
> {
    if count * entry > usize::MAX || GUEST_BOOT_INFO_FIXED_PREFIX_BYTES + count * entry > usize::MAX {
        Some(GuestLayoutError::Overflow)
    } else if GUEST_BOOT_INFO_FIXED_PREFIX_BYTES + count * entry > total {
        Some(
            GuestLayoutError::TableOutOfBounds {
                table,
                required: (GUEST_BOOT_INFO_FIXED_PREFIX_BYTES + count * entry) as usize,
                provided: total as usize,
            },
        )
    } else {
        None
    }
}

/// Exact blob size for the given table counts.
pub open spec fn guest_blob_bytes(memory: int, ipc: int, mmio: int) -> int {
    GUEST_BOOT_INFO_FIXED_PREFIX_BYTES + memory * GUEST_MEMORY_REGION_BYTES + ipc
        * GUEST_IPC_REGION_BYTES + mmio * GUEST_MMIO_REGION_BYTES
}

/// Outcome of validating a guest boot info prefix against `total` caller-provided bytes.
pub open spec fn guest_layout_result(info: Option<GuestBootInfo>, total: int) -> Result<
    (),
    GuestLayoutError,
> {
    match info {
        None => Err(GuestLayoutError::NullPointer),
        Some(i) => {
            if total < GUEST_BOOT_INFO_FIXED_PREFIX_BYTES {
                Err(GuestLayoutError::BufferTooSmall)
            } else if !i.header.spec_compatible() {
                Err(GuestLayoutError::IncompatibleHeader)
            } else if i.header.total_size != total {
                Err(GuestLayoutError::SizeMismatch { declared: i.header.total_size, provided: total as usize })
            } else if table_check(i.memory_region_count as int, GUEST_MEMORY_REGION_BYTES as int, "memory", total) is Some {
                Err(table_check(i.memory_region_count as int, GUEST_MEMORY_REGION_BYTES as int, "memory", total)->Some_0)
            } else if table_check(i.ipc_region_count as int, GUEST_IPC_REGION_BYTES as int, "ipc", total) is Some {
                Err(table_check(i.ipc_region_count as int, GUEST_IPC_REGION_BYTES as int, "ipc", total)->Some_0)
            } else if table_check(i.mmio_region_count as int, GUEST_MMIO_REGION_BYTES as int, "mmio", total) is Some {
                Err(table_check(i.mmio_region_count as int, GUEST_MMIO_REGION_BYTES as int, "mmio", total)->Some_0)
            } else if guest_blob_bytes(
                i.memory_region_count as int,
                i.ipc_region_count as int,
                i.mmio_region_count as int,
            ) > usize::MAX {
                Err(GuestLayoutError::Overflow)
            } else if guest_blob_bytes(
                i.memory_region_count as int,
                i.ipc_region_count as int,
                i.mmio_region_count as int,
            ) != total {
                Err(
                    GuestLayoutError::TableOutOfBounds {
                        table: "guest boot info",
                        required: guest_blob_bytes(
                            i.memory_region_count as int,
                            i.ipc_region_count as int,
                            i.mmio_region_count as int,
                        ) as usize,
                        provided: total as usize,
                    },
                )
            } else {
                Ok(())
            }
        },
    }
}

fn table_bytes(count: u32, entry_size: usize, table: &'static str, total_bytes: usize) -> (r: Result<
    usize,
    GuestLayoutError,
>)
    ensures
        table_check(count as int, entry_size as int, table, total_bytes as int) matches Some(e)
            ==> r == Err::<usize, GuestLayoutError>(e),
        table_check(count as int, entry_size as int, table, total_bytes as int) is None ==> r
            == Ok::<usize, GuestLayoutError>((count * entry_size) as usize),
{
    let bytes = match (count as usize).checked_mul(entry_size) {
        Some(v) => v,
        None => return Err(GuestLayoutError::Overflow),
    };
    let prefix_end = match GUEST_BOOT_INFO_FIXED_PREFIX_BYTES.checked_add(bytes) {
        Some(v) => v,
        None => return Err(GuestLayoutError::Overflow),
    };
    if prefix_end > total_bytes {
        return Err(
            GuestLayoutError::TableOutOfBounds { table, required: prefix_end, provided: total_bytes },
        );
    }
    Ok(bytes)
}

/// Validates a guest boot info prefix (`None` standing for a null pointer)
/// against the caller-provided total byte count of the blob.
pub fn validate_guest_boot_info_layout(info: Option<&GuestBootInfo>, total_bytes: usize) -> (r:
    Result<(), GuestLayoutError>)
    ensures
        r == guest_layout_result(
            match info {
                Some(i) => Some(*i),
                None => None,
            },
            total_bytes as int,
        ),
{
    let info = match info {
        None => return Err(GuestLayoutError::NullPointer),
        Some(i) => i,
    };
    if total_bytes < GUEST_BOOT_INFO_FIXED_PREFIX_BYTES {
        return Err(GuestLayoutError::BufferTooSmall);
    }
    if !info.header.is_compatible() {
        return Err(GuestLayoutError::IncompatibleHeader);
    }
    if (info.header.total_size as u64) != (total_bytes as u64) {
        return Err(
            GuestLayoutError::SizeMismatch { declared: info.header.total_size, provided: total_bytes },
        );
    }
    let memory_bytes = table_bytes(
        info.memory_region_count,
        GUEST_MEMORY_REGION_BYTES,
        "memory",
        total_bytes,
    )?;
    let ipc_bytes = table_bytes(info.ipc_region_count, GUEST_IPC_REGION_BYTES, "ipc", total_bytes)?;
    let mmio_bytes = table_bytes(
        info.mmio_region_count,
        GUEST_MMIO_REGION_BYTES,
        "mmio",
        total_bytes,
    )?;
    let required = match GUEST_BOOT_INFO_FIXED_PREFIX_BYTES.checked_add(memory_bytes) {
        Some(a) => match a.checked_add(ipc_bytes) {
            Some(b) => match b.checked_add(mmio_bytes) {
                Some(c) => c,
                None => return Err(GuestLayoutError::Overflow),
            },
            None => return Err(GuestLayoutError::Overflow),
        },
        None => return Err(GuestLayoutError::Overflow),
    };
    if required != total_bytes {
        return Err(
            GuestLayoutError::TableOutOfBounds {
                table: "guest boot info",
                required,
                provided: total_bytes,
            },
        );
    }
    let memory_offset = GUEST_BOOT_INFO_FIXED_PREFIX_BYTES;
    if memory_offset % GUEST_REGION_ALIGN != 0 {
        return Err(GuestLayoutError::MisalignedTable { table: "memory" });
    }
    let ipc_offset = memory_offset + memory_bytes;
    if ipc_offset % GUEST_REGION_ALIGN != 0 {
        return Err(GuestLayoutError::MisalignedTable { table: "ipc" });
    }
    let mmio_offset = ipc_offset + ipc_bytes;
    if mmio_offset % GUEST_REGION_ALIGN != 0 {
        return Err(GuestLayoutError::MisalignedTable { table: "mmio" });
    }
    Ok(())
}

/// Computes total guest boot info bytes for the given table counts.
pub fn compute_guest_boot_info_bytes(
    memory_region_count: u32,
    ipc_region_count: u32,
    mmio_region_count: u32,
) -> (r: Result<usize, GuestLayoutError>)
    ensures
        ({
            let m = memory_region_count * GUEST_MEMORY_REGION_BYTES;
            let i = ipc_region_count * GUEST_IPC_REGION_BYTES;
            let x = mmio_region_count * GUEST_MMIO_REGION_BYTES;
            let total = guest_blob_bytes(
                memory_region_count as int,
                ipc_region_count as int,
                mmio_region_count as int,
            );
            &&& (m <= usize::MAX && i <= usize::MAX && x <= usize::MAX && total <= usize::MAX)
                ==> r == Ok::<usize, GuestLayoutError>(total as usize)
            &&& !(m <= usize::MAX && i <= usize::MAX && x <= usize::MAX && total <= usize::MAX)
                ==> r == Err::<usize, GuestLayoutError>(GuestLayoutError::Overflow)
        }),
{
    let memory = table_size(memory_region_count, GUEST_MEMORY_REGION_BYTES)?;
    let ipc = table_size(ipc_region_count, GUEST_IPC_REGION_BYTES)?;
    let mmio = table_size(mmio_region_count, GUEST_MMIO_REGION_BYTES)?;
    match GUEST_BOOT_INFO_FIXED_PREFIX_BYTES.checked_add(memory) {
        Some(a) => match a.checked_add(ipc) {
            Some(b) => match b.checked_add(mmio) {
                Some(c) => Ok(c),
                None => Err(GuestLayoutError::Overflow),
            },
            None => Err(GuestLayoutError::Overflow),
        },
        None => Err(GuestLayoutError::Overflow),
    }
}

fn table_size(count: u32, entry_size: usize) -> (r: Result<usize, GuestLayoutError>)
    ensures
        count * entry_size <= usize::MAX ==> r == Ok::<usize, GuestLayoutError>(
            (count * entry_size) as usize,
        ),
        count * entry_size > usize::MAX ==> r == Err::<usize, GuestLayoutError>(
            GuestLayoutError::Overflow,
        ),
{
    match (count as usize).checked_mul(entry_size) {
        Some(v) => Ok(v),
        None => Err(GuestLayoutError::Overflow),
    }
}

/// An accepted guest header carries the guest boot-info magic
/// (0x4755_E572_5F42_494E) and major version 1: a blob without that magic is
/// refused as an incompatible header once it is long enough to hold the
/// fixed prefix, and no validation of a guest layout succeeds without it.
pub proof fn accepted_guest_layout_carries_guest_magic(info: GuestBootInfo, total: int)
    ensures
        info.header.spec_compatible() <==> info.header.magic == 0x4755_E572_5F42_494Eu64
            && info.header.version_major == 1,
        guest_layout_result(Some(info), total) is Ok ==> info.header.magic == 0x4755_E572_5F42_494Eu64
            && info.header.version_major == 1,
        total >= 40 && info.header.magic != 0x4755_E572_5F42_494Eu64 ==> guest_layout_result(Some(info), total)
            == Err::<(), GuestLayoutError>(GuestLayoutError::IncompatibleHeader),
{
}

} // verus!
