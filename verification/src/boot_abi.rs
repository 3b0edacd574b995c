//! Versioned boot ABI between the UEFI loader and the hypervisor, and the
//! layout checks applied to a boot info blob before it is trusted.
//!
//! An incompatible layout change bumps [`BOOT_ABI_VERSION_MAJOR`];
//! compatible additions bump [`BOOT_ABI_VERSION_MINOR`].

use vstd::prelude::*;

verus! {

/// Major boot ABI version. Incompatible changes require a bump.
pub const BOOT_ABI_VERSION_MAJOR: u16 = 1;

/// Minor boot ABI version for backward-compatible additions.
pub const BOOT_ABI_VERSION_MINOR: u16 = 0;

/// Magic signature for [`BootInfoHeader`].
pub const BOOT_INFO_MAGIC: u64 = 0x1484_1484_1484_1484;

/// Header prefixed to every boot info blob.
#[derive(Clone, Copy, Debug, PartialEq, Eq)]
pub struct BootInfoHeader {
    /// Magic signature [`BOOT_INFO_MAGIC`].
    pub magic: u64,
    /// Major ABI version.
    pub version_major: u16,
    /// Minor ABI version.
    pub version_minor: u16,
    /// Total boot info size in bytes including this header.
    pub total_size: u32,
    /// SHA-256 hash of the validated configuration.
    pub config_hash: [u8; 32],
}

impl BootInfoHeader {
    /// The header carries the boot magic and the compiled major version.
    pub open spec fn spec_compatible(&self) -> bool {
        self.magic == BOOT_INFO_MAGIC && self.version_major == BOOT_ABI_VERSION_MAJOR
    }

    /// Returns true when the header matches the compiled ABI version.
    pub fn is_compatible(&self) -> (r: bool)
        ensures
            r == self.spec_compatible(),
    {
        self.magic == BOOT_INFO_MAGIC && self.version_major == BOOT_ABI_VERSION_MAJOR
    }
}

/// Descriptor for a UEFI memory map entry copied into boot info.
#[derive(Clone, Copy, Debug, PartialEq, Eq)]
pub struct BootMemoryDescriptor {
    /// Descriptor type copied from UEFI.
    pub typ: u32,
    /// Physical start address.
    pub physical_start: u64,
    /// Number of bytes.
    pub number_of_bytes: u64,
    /// UEFI attribute bits.
    pub attribute: u64,
}

/// ACPI RSDP pointer handed to the hypervisor.
#[derive(Clone, Copy, Debug, PartialEq, Eq)]
pub struct BootAcpiInfo {
    /// Physical address of the RSDP.
    pub rsdp_address: u64,
}

/// Fixed-layout boot info prefix; the memory map descriptors follow it.
#[derive(Clone, Copy, Debug, PartialEq, Eq)]
pub struct BootInfo {
    /// Header with versioning and config hash.
    pub header: BootInfoHeader,
    /// ACPI discovery information.
    pub acpi: BootAcpiInfo,
    /// Number of memory map entries following the fixed prefix.
    pub memory_map_entry_count: u32,
    /// Reserved for future flags.
    pub flags: u32,
    /// Physical load address of the hypervisor image.
    pub hypervisor_load_address: u64,
    /// Total bytes of the boot info blob, prefix and descriptors together.
    pub boot_info_bytes: u32,
}

/// Fixed prefix size in bytes (the [`BootInfo`] struct).
pub const BOOT_INFO_FIXED_PREFIX_BYTES: usize = 80;

/// Size in bytes of one [`BootMemoryDescriptor`].
pub const BOOT_MEMORY_DESCRIPTOR_BYTES: usize = 32;

/// Alignment in bytes of [`BootMemoryDescriptor`].
pub const BOOT_MEMORY_DESCRIPTOR_ALIGN: usize = 8;

/// Errors validating a boot info blob layout.
#[derive(Clone, Copy, Debug, PartialEq, Eq)]
pub enum BootLayoutError {
    /// Pointer is null.
    NullPointer,
    /// Total byte count is smaller than the fixed prefix.
    BufferTooSmall,
    /// `boot_info_bytes` does not match the provided total size.
    SizeMismatch {
        /// Declared size in the struct.
        declared: u32,
        /// Caller-provided total size.
        provided: usize,
    },
    /// Header `total_size` does not match `boot_info_bytes`.
    HeaderTotalSizeMismatch {
        /// Header field.
        header_total: u32,
        /// Struct field.
        boot_info_bytes: u32,
    },
    /// Memory map entry count overflows or extends past the buffer.
    MemoryMapOutOfBounds {
        /// Entry count from boot info.
        entry_count: u32,
        /// Required bytes for the full blob.
        required: usize,
        /// Provided buffer size.
        provided: usize,
    },
    /// Magic or major version is incompatible.
    IncompatibleHeader,
    /// Descriptor slice would be misaligned.
    MisalignedMemoryMap,
}

/// Diagnostic label of each boot layout error.
pub open spec fn boot_layout_label(e: BootLayoutError) -> &'static str {
    match e {
        BootLayoutError::NullPointer => "null boot info pointer",
        BootLayoutError::BufferTooSmall => "boot info buffer too small",
        BootLayoutError::SizeMismatch { .. } => "boot_info_bytes mismatch",
        BootLayoutError::HeaderTotalSizeMismatch { .. } => "header total_size mismatch",
        BootLayoutError::MemoryMapOutOfBounds { .. } => "memory map out of bounds",
        BootLayoutError::IncompatibleHeader => "incompatible boot info header",
        BootLayoutError::MisalignedMemoryMap => "misaligned memory map slice",
    }
}

impl BootLayoutError {
    /// Returns a static label for diagnostics.
    pub fn as_str(self) -> (r: &'static str)
        ensures
            r == boot_layout_label(self),
    {
        match self {
            BootLayoutError::NullPointer => "null boot info pointer",
            BootLayoutError::BufferTooSmall => "boot info buffer too small",
            BootLayoutError::SizeMismatch { .. } => "boot_info_bytes mismatch",
            BootLayoutError::HeaderTotalSizeMismatch { .. } => "header total_size mismatch",
            BootLayoutError::MemoryMapOutOfBounds { .. } => "memory map out of bounds",
            BootLayoutError::IncompatibleHeader => "incompatible boot info header",
            BootLayoutError::MisalignedMemoryMap => "misaligned memory map slice",
        }
    }
}

/// Outcome of validating a boot info prefix against `total` caller-provided bytes.
pub open spec fn boot_layout_result(info: Option<BootInfo>, total: int) -> Result<(), BootLayoutError> {
    match info {
        None => Err(BootLayoutError::NullPointer),
        Some(i) => {
            let desc = i.memory_map_entry_count * BOOT_MEMORY_DESCRIPTOR_BYTES;
            let required = BOOT_INFO_FIXED_PREFIX_BYTES + desc;
            if total < BOOT_INFO_FIXED_PREFIX_BYTES {
                Err(BootLayoutError::BufferTooSmall)
            } else if !i.header.spec_compatible() {
                Err(BootLayoutError::IncompatibleHeader)
            } else if i.boot_info_bytes != total {
                Err(
                    BootLayoutError::SizeMismatch {
                        declared: i.boot_info_bytes,
                        provided: total as usize,
                    },
                )
            } else if i.header.total_size != i.boot_info_bytes {
                Err(
                    BootLayoutError::HeaderTotalSizeMismatch {
                        header_total: i.header.total_size,
                        boot_info_bytes: i.boot_info_bytes,
                    },
                )
            } else if desc > u32::MAX || required > usize::MAX {
                Err(
                    BootLayoutError::MemoryMapOutOfBounds {
                        entry_count: i.memory_map_entry_count,
                        required: usize::MAX,
                        provided: total as usize,
                    },
                )
            } else if required != total {
                Err(
                    BootLayoutError::MemoryMapOutOfBounds {
                        entry_count: i.memory_map_entry_count,
                        required: required as usize,
                        provided: total as usize,
                    },
                )
            } else {
                Ok(())
            }
        },
    }
}

/// Validates a boot info prefix (`None` standing for a null pointer) against
/// the caller-provided total byte count of the blob.
pub fn validate_boot_info_layout(info: Option<&BootInfo>, total_bytes: usize) -> (r: Result<
    (),
    BootLayoutError,
>)
    ensures
        r == boot_layout_result(
            match info {
                Some(i) => Some(*i),
                None => None,
            },
            total_bytes as int,
        ),
{
    let info = match info {
        None => return Err(BootLayoutError::NullPointer),
        Some(i) => i,
    };
    if total_bytes < BOOT_INFO_FIXED_PREFIX_BYTES {
        return Err(BootLayoutError::BufferTooSmall);
    }
    if !info.header.is_compatible() {
        return Err(BootLayoutError::IncompatibleHeader);
    }
    if (info.boot_info_bytes as u64) != (total_bytes as u64) {
        return Err(
            BootLayoutError::SizeMismatch { declared: info.boot_info_bytes, provided: total_bytes },
        );
    }
    if info.header.total_size != info.boot_info_bytes {
        return Err(
            BootLayoutError::HeaderTotalSizeMismatch {
                header_total: info.header.total_size,
                boot_info_bytes: info.boot_info_bytes,
            },
        );
    }
    let desc_bytes = match info.memory_map_entry_count.checked_mul(BOOT_MEMORY_DESCRIPTOR_BYTES as u32) {
        Some(v) => v as usize,
        None => {
            return Err(
                BootLayoutError::MemoryMapOutOfBounds {
                    entry_count: info.memory_map_entry_count,
                    required: usize::MAX,
                    provided: total_bytes,
                },
            );
        },
    };
    let required = match BOOT_INFO_FIXED_PREFIX_BYTES.checked_add(desc_bytes) {
        Some(v) => v,
        None => {
            return Err(
                BootLayoutError::MemoryMapOutOfBounds {
                    entry_count: info.memory_map_entry_count,
                    required: usize::MAX,
                    provided: total_bytes,
                },
            );
        },
    };
    if required != total_bytes {
        return Err(
            BootLayoutError::MemoryMapOutOfBounds {
                entry_count: info.memory_map_entry_count,
                required,
                provided: total_bytes,
            },
        );
    }
    if BOOT_INFO_FIXED_PREFIX_BYTES % BOOT_MEMORY_DESCRIPTOR_ALIGN != 0 {
        return Err(BootLayoutError::MisalignedMemoryMap);
    }
    Ok(())
}

/// An accepted boot header carries the boot-info magic
/// (0x1484_1484_1484_1484) and major version 1: a blob without that magic is
/// refused as an incompatible header once it is long enough to hold the
/// fixed prefix, and no validation of a boot layout succeeds without it.
pub proof fn accepted_boot_layout_carries_boot_magic(info: BootInfo, total: int)
    ensures
        info.header.spec_compatible() <==> info.header.magic == 0x1484_1484_1484_1484u64
            && info.header.version_major == 1,
        boot_layout_result(Some(info), total) is Ok ==> info.header.magic == 0x1484_1484_1484_1484u64
            && info.header.version_major == 1,
        total >= 80 && info.header.magic != 0x1484_1484_1484_1484u64 ==> boot_layout_result(Some(info), total)
            == Err::<(), BootLayoutError>(BootLayoutError::IncompatibleHeader),
{
}

} // verus!
