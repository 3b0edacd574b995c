//! EPT paging entry format: constants and entry encoders.

use vstd::prelude::*;

verus! {

/// EPT page table entry size in bytes.
pub const EPT_ENTRY_SIZE: usize = 8;

/// EPT page table entries per table.
pub const EPT_ENTRIES_PER_TABLE: usize = 512;

/// EPT page table size in bytes.
pub const EPT_TABLE_SIZE: usize = 4096;

/// EPT permission: read.
pub const EPT_READ: u64 = 1;

/// EPT permission: write.
pub const EPT_WRITE: u64 = 2;

/// EPT permission: execute.
pub const EPT_EXECUTE: u64 = 4;

/// EPT memory type field shift.
pub const EPT_MEMORY_TYPE_SHIFT: u32 = 3;

/// EPT ignore PAT bit.
pub const EPT_IGNORE_PAT: u64 = 0x40;

/// EPT large page bit (2 MiB or 1 GiB).
pub const EPT_LARGE_PAGE: u64 = 0x80;

/// EPT memory type: uncacheable.
pub const EPT_MEMTYPE_UC: u64 = 0;

/// EPT memory type: write-back.
pub const EPT_MEMTYPE_WB: u64 = 6;

/// EPT page shift for 4 KiB pages.
pub const EPT_PAGE_SHIFT: u32 = 12;

/// EPT page size for 4 KiB pages.
pub const EPT_PAGE_SIZE: u64 = 4096;

/// EPT huge page shift for 2 MiB pages.
pub const EPT_HUGE_2M_SHIFT: u32 = 21;

/// EPT huge page size for 2 MiB pages.
pub const EPT_HUGE_2M_SIZE: u64 = 0x20_0000;

/// Physical address bits of a 4 KiB-aligned table or page.
pub const EPT_ADDR_MASK_4K: u64 = 0x000F_FFFF_FFFF_F000;

/// Physical address bits of a 2 MiB page.
pub const EPT_ADDR_MASK_2M: u64 = 0x000F_FFFF_FFE0_0000;

/// Permission bits for read/write/execute flags.
pub open spec fn permission_bits(read: bool, write: bool, execute: bool) -> u64 {
    ((if read { 1u64 } else { 0u64 }) | (if write { 2u64 } else { 0u64 })) | (if execute {
        4u64
    } else {
        0u64
    })
}

/// Builds permission bits from read/write/execute flags.
pub fn ept_permissions(read: bool, write: bool, execute: bool) -> (r: u64)
    ensures
        r == permission_bits(read, write, execute),
        r < 8,
{
    let r_bit: u64 = if read { EPT_READ } else { 0 };
    let w_bit: u64 = if write { EPT_WRITE } else { 0 };
    let x_bit: u64 = if execute { EPT_EXECUTE } else { 0 };
    let r = (r_bit | w_bit) | x_bit;
    assert(r < 8) by (bit_vector)
        requires
            r_bit <= 1,
            w_bit == 0 || w_bit == 2,
            x_bit == 0 || x_bit == 4,
            r == (r_bit | w_bit) | x_bit,
    ;
    r
}

/// Non-leaf entry pointing at a child table.
pub open spec fn pointer_entry(child_hpa: u64) -> u64 {
    (child_hpa & EPT_ADDR_MASK_4K) | 7u64
}

/// 4 KiB leaf entry.
pub open spec fn leaf_4k_entry(host_hpa: u64, perms: u64, memtype: u64) -> u64 {
    ((host_hpa & EPT_ADDR_MASK_4K) | perms) | (memtype << 3u64)
}

/// 2 MiB leaf entry.
pub open spec fn leaf_2m_entry(host_hpa: u64, perms: u64, memtype: u64) -> u64 {
    (((host_hpa & EPT_ADDR_MASK_2M) | perms) | (memtype << 3u64)) | EPT_LARGE_PAGE
}

/// Builds a non-leaf EPT entry pointing at a child table.
pub fn ept_pointer_entry(child_hpa: u64) -> (r: u64)
    ensures
        r == pointer_entry(child_hpa),
{
    let r = (child_hpa & EPT_ADDR_MASK_4K) | EPT_READ | EPT_WRITE | EPT_EXECUTE;
    assert(r == (child_hpa & 0x000F_FFFF_FFFF_F000u64) | 7u64) by (bit_vector)
        requires
            r == (((child_hpa & 0x000F_FFFF_FFFF_F000u64) | 1u64) | 2u64) | 4u64,
    ;
    r
}

/// Builds a 4 KiB leaf EPT entry.
pub fn ept_4k_entry(host_hpa: u64, perms: u64, memtype: u64) -> (r: u64)
    ensures
        r == leaf_4k_entry(host_hpa, perms, memtype),
{
    (host_hpa & EPT_ADDR_MASK_4K) | perms | (memtype << 3u64)
}

/// Builds a 2 MiB leaf EPT entry.
pub fn ept_2m_entry(host_hpa: u64, perms: u64, memtype: u64) -> (r: u64)
    ensures
        r == leaf_2m_entry(host_hpa, perms, memtype),
{
    (host_hpa & EPT_ADDR_MASK_2M) | perms | (memtype << 3u64) | EPT_LARGE_PAGE
}

/// A pointer entry to a 4 KiB-aligned table below 2^52 gives back the table's
/// address and has no large-page bit.
pub proof fn pointer_entry_round_trip(child_hpa: u64)
    requires
        child_hpa % 4096 == 0,
        child_hpa < 0x10_0000_0000_0000,
    ensures
        pointer_entry(child_hpa) & EPT_ADDR_MASK_4K == child_hpa,
        pointer_entry(child_hpa) & EPT_LARGE_PAGE == 0,
        pointer_entry(child_hpa) != 0,
        pointer_entry(child_hpa) & 7 == 7,
{
    assert((((child_hpa & 0x000F_FFFF_FFFF_F000u64) | 7u64) & 0x000F_FFFF_FFFF_F000u64) == child_hpa
        && (((child_hpa & 0x000F_FFFF_FFFF_F000u64) | 7u64) & 0x80u64) == 0
        && ((child_hpa & 0x000F_FFFF_FFFF_F000u64) | 7u64) != 0
        && (((child_hpa & 0x000F_FFFF_FFFF_F000u64) | 7u64) & 7u64) == 7u64) by (bit_vector)
        requires
            child_hpa % 4096 == 0,
            child_hpa < 0x10_0000_0000_0000,
    ;
}

} // verus!
