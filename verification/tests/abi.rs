use core::mem::{align_of, size_of};

use hypster::boot_abi::{
    validate_boot_info_layout, BootAcpiInfo, BootInfo, BootInfoHeader, BootLayoutError,
    BootMemoryDescriptor, BOOT_ABI_VERSION_MAJOR, BOOT_ABI_VERSION_MINOR,
    BOOT_INFO_FIXED_PREFIX_BYTES, BOOT_INFO_MAGIC,
};
use hypster::guest_abi::{
    compute_guest_boot_info_bytes, validate_guest_boot_info_layout, GuestBootInfo,
    GuestBootInfoHeader, GuestLayoutError, GUEST_ABI_VERSION_MAJOR, GUEST_ABI_VERSION_MINOR,
    GUEST_BOOT_INFO_FIXED_PREFIX_BYTES, GUEST_BOOT_INFO_MAGIC,
};

fn sample_info(entry_count: u32) -> (BootInfo, usize) {
    let desc_bytes = entry_count as usize * size_of::<BootMemoryDescriptor>();
    let total = BOOT_INFO_FIXED_PREFIX_BYTES + desc_bytes;
    let info = BootInfo {
        header: BootInfoHeader {
            magic: BOOT_INFO_MAGIC,
            version_major: BOOT_ABI_VERSION_MAJOR,
            version_minor: BOOT_ABI_VERSION_MINOR,
            total_size: total as u32,
            config_hash: [0; 32],
        },
        acpi: BootAcpiInfo { rsdp_address: 0 },
        memory_map_entry_count: entry_count,
        flags: 0,
        hypervisor_load_address: 0x100000,
        boot_info_bytes: total as u32,
    };
    (info, total)
}

fn sample_prefix(memory_count: u32, ipc_count: u32, mmio_count: u32) -> (GuestBootInfo, usize) {
    let total = compute_guest_boot_info_bytes(memory_count, ipc_count, mmio_count).expect("bytes");
    let info = GuestBootInfo {
        header: GuestBootInfoHeader {
            magic: GUEST_BOOT_INFO_MAGIC,
            version_major: GUEST_ABI_VERSION_MAJOR,
            version_minor: GUEST_ABI_VERSION_MINOR,
            total_size: total as u32,
            vm_id: 1,
            vcpu_id: 0,
        },
        memory_region_count: memory_count,
        ipc_region_count: ipc_count,
        mmio_region_count: mmio_count,
        reserved: 0,
    };
    (info, total)
}

#[test]
fn boot_info_fixed_prefix_size_matches_struct() {
    assert_eq!(BOOT_INFO_FIXED_PREFIX_BYTES, size_of::<BootInfo>());
    assert_eq!(size_of::<BootInfo>(), 80);
    assert_eq!(size_of::<BootMemoryDescriptor>(), 32);
    assert_eq!(align_of::<BootInfo>(), 8);
}

#[test]
fn validate_accepts_zero_entry_blob() {
    let (info, total) = sample_info(0);
    let result = validate_boot_info_layout(Some(&info), total);
    assert!(result.is_ok());
}

#[test]
fn validate_rejects_size_mismatch() {
    let (info, total) = sample_info(2);
    let result = validate_boot_info_layout(Some(&info), total - 1);
    assert!(matches!(result, Err(BootLayoutError::SizeMismatch { .. })));
}

#[test]
fn boot_layout_rejects_null_pointer() {
    assert_eq!(validate_boot_info_layout(None, 80), Err(BootLayoutError::NullPointer));
}

#[test]
fn boot_layout_rejects_short_buffer() {
    let (info, _total) = sample_info(0);
    assert_eq!(validate_boot_info_layout(Some(&info), 79), Err(BootLayoutError::BufferTooSmall));
}

#[test]
fn boot_layout_rejects_incompatible_header() {
    let (mut info, total) = sample_info(1);
    info.header.version_major = BOOT_ABI_VERSION_MAJOR + 1;
    assert_eq!(
        validate_boot_info_layout(Some(&info), total),
        Err(BootLayoutError::IncompatibleHeader)
    );
}

#[test]
fn boot_layout_accepts_two_entries() {
    let (info, total) = sample_info(2);
    assert_eq!(total, 144);
    assert_eq!(validate_boot_info_layout(Some(&info), total), Ok(()));
}

#[test]
fn boot_info_header_size_is_stable() {
    assert_eq!(size_of::<BootInfoHeader>(), 48);
    assert_eq!(align_of::<BootInfoHeader>(), 8);
}

#[test]
fn compatible_header_matches_current_major() {
    let header = BootInfoHeader {
        magic: BOOT_INFO_MAGIC,
        version_major: BOOT_ABI_VERSION_MAJOR,
        version_minor: BOOT_ABI_VERSION_MINOR,
        total_size: size_of::<BootInfoHeader>() as u32,
        config_hash: [0; 32],
    };
    assert!(header.is_compatible());
}

#[test]
fn wrong_magic_is_incompatible() {
    let header = BootInfoHeader {
        magic: 0,
        version_major: BOOT_ABI_VERSION_MAJOR,
        version_minor: BOOT_ABI_VERSION_MINOR,
        total_size: 48,
        config_hash: [0; 32],
    };
    assert!(!header.is_compatible());
}

#[test]
fn guest_boot_info_fixed_prefix_size_matches_struct() {
    assert_eq!(GUEST_BOOT_INFO_FIXED_PREFIX_BYTES, size_of::<GuestBootInfo>());
    assert_eq!(size_of::<GuestBootInfo>(), 40);
    assert_eq!(align_of::<GuestBootInfo>(), 8);
}

#[test]
fn validate_accepts_zero_tables() {
    let (info, total) = sample_prefix(0, 0, 0);
    let result = validate_guest_boot_info_layout(Some(&info), total);
    assert!(result.is_ok());
}

#[test]
fn layout_validate_rejects_size_mismatch() {
    let (info, total) = sample_prefix(1, 1, 0);
    let result = validate_guest_boot_info_layout(Some(&info), total - 1);
    assert!(matches!(result, Err(GuestLayoutError::SizeMismatch { .. })));
}

#[test]
fn guest_blob_bytes_sum_all_tables() {
    assert_eq!(compute_guest_boot_info_bytes(1, 1, 1), Ok(40 + 24 + 40 + 24));
    assert_eq!(compute_guest_boot_info_bytes(0, 0, 0), Ok(40));
}

#[test]
fn guest_layout_rejects_null_pointer() {
    assert_eq!(validate_guest_boot_info_layout(None, 40), Err(GuestLayoutError::NullPointer));
}

#[test]
fn guest_layout_rejects_short_buffer() {
    let (info, _total) = sample_prefix(0, 0, 0);
    assert_eq!(
        validate_guest_boot_info_layout(Some(&info), 39),
        Err(GuestLayoutError::BufferTooSmall)
    );
}

#[test]
fn guest_boot_info_header_layout() {
    assert_eq!(size_of::<GuestBootInfoHeader>(), 24);
    assert_eq!(align_of::<GuestBootInfoHeader>(), 8);
}

#[test]
fn guest_header_reports_compatible_version() {
    let header = GuestBootInfoHeader {
        magic: GUEST_BOOT_INFO_MAGIC,
        version_major: GUEST_ABI_VERSION_MAJOR,
        version_minor: GUEST_ABI_VERSION_MINOR,
        total_size: size_of::<GuestBootInfo>() as u32,
        vm_id: 1,
        vcpu_id: 0,
    };
    assert!(header.is_compatible());
    assert_eq!(header.vm_id().raw(), 1);
}
