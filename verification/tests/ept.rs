use hypster::ept::error::EptPlanError;
use hypster::ept::install::install_ept_mappings;
use hypster::ept::table::{
    ept_2m_entry, ept_4k_entry, ept_permissions, ept_pointer_entry, EPT_HUGE_2M_SIZE,
    EPT_LARGE_PAGE, EPT_MEMTYPE_UC, EPT_MEMTYPE_WB, EPT_TABLE_SIZE,
};
use hypster::ept::types::{EptMapping, EptMemoryType, EptPermissions};
use hypster::types::{GuestPhysAddr, HostPhysAddr};

const ONE_GIB: u64 = 1024 * 1024 * 1024;

fn ram(gpa: u64, hpa: u64, size: u64) -> EptMapping {
    EptMapping {
        guest_phys: GuestPhysAddr::new(gpa),
        host_phys: HostPhysAddr::new(hpa),
        size,
        permissions: EptPermissions::guest_ram(),
        memory_type: EptMemoryType::WriteBack,
    }
}

fn entry(buffer: &[u8], table: usize, index: usize) -> u64 {
    let at = table * EPT_TABLE_SIZE + index * 8;
    u64::from_le_bytes(buffer[at..at + 8].try_into().expect("8 bytes"))
}

#[test]
fn one_gib_identity_mapping_uses_reasonable_page_count() {
    let mut buffer = [0u8; 64 * 1024];
    let mapping = EptMapping {
        guest_phys: GuestPhysAddr::new(0),
        host_phys: HostPhysAddr::new(0),
        size: ONE_GIB,
        permissions: EptPermissions::guest_ram(),
        memory_type: EptMemoryType::WriteBack,
    };
    let result = install_ept_mappings(&mut buffer, HostPhysAddr::new(0x10_0000), &[mapping])
        .expect("install EPT");
    assert_eq!(result.root_hpa, HostPhysAddr::new(0x10_0000));
    assert_eq!(result.bytes_used, 3 * EPT_TABLE_SIZE);
    let expected_2m_pages = ONE_GIB / EPT_HUGE_2M_SIZE;
    assert_eq!(expected_2m_pages, 512);
}

#[test]
fn installed_tables_link_root_to_leaves() {
    let mut buffer = vec![0u8; 16 * 4096];
    let base = 0x10_0000u64;
    install_ept_mappings(&mut buffer, HostPhysAddr::new(base), &[ram(0, 0x4000_0000, 4 << 20)])
        .expect("install");
    assert_eq!(entry(&buffer, 0, 0), ept_pointer_entry(base + 0x1000));
    assert_eq!(entry(&buffer, 1, 0), ept_pointer_entry(base + 0x2000));
    assert_eq!(entry(&buffer, 2, 0), ept_2m_entry(0x4000_0000, 7, EPT_MEMTYPE_WB));
    assert_eq!(entry(&buffer, 2, 1), ept_2m_entry(0x4020_0000, 7, EPT_MEMTYPE_WB));
    assert_eq!(entry(&buffer, 2, 2), 0);
}

#[test]
fn small_mapping_uses_four_kib_pages() {
    let mut buffer = vec![0xffu8; 8 * 4096];
    let mapping = EptMapping {
        guest_phys: GuestPhysAddr::new(0x1000),
        host_phys: HostPhysAddr::new(0x9000),
        size: 0x2000,
        permissions: EptPermissions::mmio(),
        memory_type: EptMemoryType::Uncacheable,
    };
    let result = install_ept_mappings(&mut buffer, HostPhysAddr::new(0), &[mapping]).expect("install");
    assert_eq!(result.bytes_used, 4 * EPT_TABLE_SIZE);
    assert_eq!(entry(&buffer, 3, 1), ept_4k_entry(0x9000, 3, EPT_MEMTYPE_UC));
    assert_eq!(entry(&buffer, 3, 2), ept_4k_entry(0xa000, 3, EPT_MEMTYPE_UC));
    assert_eq!(entry(&buffer, 3, 0), 0);
    assert!(buffer[4 * 4096..].iter().all(|b| *b == 0xff));
}

#[test]
fn install_errors_are_reported() {
    let mut buffer = vec![0u8; 4 * 4096];
    assert_eq!(install_ept_mappings(&mut buffer, HostPhysAddr::new(0), &[]), Err(EptPlanError::EmptyMappings));
    assert_eq!(
        install_ept_mappings(&mut buffer, HostPhysAddr::new(0), &[ram(0, 0, 0)]),
        Err(EptPlanError::BufferTooSmall)
    );
    assert_eq!(
        install_ept_mappings(&mut buffer, HostPhysAddr::new(0), &[ram(0x800, 0, 0x1000)]),
        Err(EptPlanError::MisalignedMapping)
    );
    let mut tiny = vec![0u8; 2 * 4096];
    assert_eq!(
        install_ept_mappings(&mut tiny, HostPhysAddr::new(0), &[ram(0, 0, 0x1000)]),
        Err(EptPlanError::BufferTooSmall)
    );
    assert_eq!(
        install_ept_mappings(&mut buffer, HostPhysAddr::new(0), &[ram(0, u64::MAX - 0xfff, 0x2000)]),
        Err(EptPlanError::Overflow)
    );
}

#[test]
fn permission_and_entry_bits() {
    assert_eq!(ept_permissions(true, false, false), 1);
    assert_eq!(ept_permissions(true, true, false), 3);
    assert_eq!(ept_permissions(true, true, true), 7);
    assert_eq!(ept_pointer_entry(0x12_3456), 0x12_3007);
    assert_eq!(ept_4k_entry(0x5000, 3, EPT_MEMTYPE_UC), 0x5003);
    assert_eq!(ept_2m_entry(0x20_1000, 7, EPT_MEMTYPE_WB), 0x20_0000 | 7 | (6 << 3) | EPT_LARGE_PAGE);
}

/// Follows the four-level tables in `buffer` (root at offset 0) the way the
/// processor does, returning the host address and leaf entry for `gpa`.
fn walk(buffer: &[u8], base: u64, gpa: u64) -> Option<(u64, u64)> {
    let read = |table: u64, index: u64| -> u64 {
        let at = (table + index * 8) as usize;
        u64::from_le_bytes(buffer[at..at + 8].try_into().expect("8 bytes"))
    };
    let mut table = 0u64;
    for (level, shift) in [39u64, 30, 21, 12].iter().enumerate() {
        let entry = read(table, (gpa >> shift) & 0x1ff);
        if entry & 7 == 0 {
            return None;
        }
        if level == 2 && entry & EPT_LARGE_PAGE != 0 {
            return Some(((entry & 0x000F_FFFF_FFE0_0000) + gpa % 0x20_0000, entry));
        }
        if level == 3 {
            return Some(((entry & 0x000F_FFFF_FFFF_F000) + gpa % 4096, entry));
        }
        table = (entry & 0x000F_FFFF_FFFF_F000) - base;
    }
    None
}

#[test]
fn installed_tables_translate_mapped_addresses() {
    let base = 0x80_0000u64;
    let mut buffer = vec![0u8; 32 * 4096];
    let mappings = [
        ram(0, 0x4000_0000, 0x40_1000),
        EptMapping {
            guest_phys: GuestPhysAddr::new(0xFEB0_0000),
            host_phys: HostPhysAddr::new(0x1_1720_0000),
            size: 0x2_0000,
            permissions: EptPermissions::mmio(),
            memory_type: EptMemoryType::Uncacheable,
        },
    ];
    install_ept_mappings(&mut buffer, HostPhysAddr::new(base), &mappings).expect("install");
    for m in &mappings {
        for gpa in [m.guest_phys.raw(), m.guest_phys.raw() + 0x123, m.guest_phys.raw() + m.size - 1] {
            let (host, leaf) = walk(&buffer, base, gpa).expect("mapped");
            assert_eq!(host, m.host_phys.raw() + (gpa - m.guest_phys.raw()));
            let perms = ept_permissions(m.permissions.read, m.permissions.write, m.permissions.execute);
            assert_eq!(leaf & 7, perms);
            let memtype = match m.memory_type {
                EptMemoryType::WriteBack => EPT_MEMTYPE_WB,
                EptMemoryType::Uncacheable => EPT_MEMTYPE_UC,
            };
            assert_eq!((leaf >> 3) & 7, memtype);
        }
    }
    // Addresses whose page lies in no mapping do not translate.
    for gpa in [0x40_1000u64, 0x40_2fff, 0x1000_0000, 0xFEAF_F000, 0xFEB2_0000, 0x7F_FFFF_F000] {
        assert_eq!(walk(&buffer, base, gpa), None);
    }
}

#[test]
fn buffer_holding_the_install_budget_suffices() {
    // One 4 KiB page: the root plus two tables per upper level and two page
    // tables, the budget of a mapping below 2 MiB.
    let len = 4096 + 6 * 4096;
    let mut buffer = vec![0u8; len];
    let res = install_ept_mappings(&mut buffer, HostPhysAddr::new(0x10_0000), &[ram(0x5000, 0x9000, 0x1000)])
        .expect("the budget is enough");
    assert_eq!(res.root_hpa, HostPhysAddr::new(0x10_0000));
    assert_eq!(res.bytes_used, 4 * 4096);
    assert!(res.bytes_used <= len);
}

#[test]
fn misaligned_buffer_and_conflicting_mappings_are_refused() {
    let mut buffer = vec![0u8; 64 * 1024];
    assert_eq!(
        install_ept_mappings(&mut buffer, HostPhysAddr::new(0x10_0800), &[ram(0, 0, 0x1000)]),
        Err(EptPlanError::MisalignedBuffer)
    );
    assert_eq!(
        install_ept_mappings(&mut buffer, HostPhysAddr::new(0x10_0000), &[ram(0, 0, 0x2000), ram(0x1000, 0x9000, 0x1000)]),
        Err(EptPlanError::OverlappingMappings)
    );
}

#[test]
fn repeated_mapping_installs_like_a_single_one() {
    let mut once = vec![0u8; 64 * 1024];
    let mut twice = vec![0u8; 64 * 1024];
    let m = ram(0x20_0000, 0x40_0000, 0x20_3000);
    let a = install_ept_mappings(&mut once, HostPhysAddr::new(0x10_0000), &[m]).expect("install once");
    let b = install_ept_mappings(&mut twice, HostPhysAddr::new(0x10_0000), &[m, m]).expect("install twice");
    assert_eq!(a, b);
    assert_eq!(once, twice);
}
