use hypster::acpi::dmar::{
    parse_dmar, DMAR_BODY_LEN, DMAR_FLAG_INTR_REMAP, DMAR_SIGNATURE, DMAR_TYPE_DRHD,
    DRHD_ENTRY_LEN, DRHD_FLAG_INCLUDE_PCI_ALL,
};
use hypster::acpi::error::AcpiError;
use hypster::acpi::madt::{
    parse_madt, LOCAL_APIC_ENABLED, LOCAL_APIC_ENTRY_LEN, LOCAL_X2APIC_ENTRY_LEN, MADT_BODY_LEN,
    MADT_SIGNATURE, MADT_TYPE_LOCAL_APIC, MADT_TYPE_LOCAL_X2APIC,
};
use hypster::acpi::mcfg::{parse_mcfg, MCFG_ENTRY_LEN, MCFG_RESERVED_LEN, MCFG_SIGNATURE};
use hypster::acpi::rsdp::{parse_rsdp, RSDP_SIGNATURE, RSDP_V1_LEN, RSDP_V2_LEN};
use hypster::acpi::sdt::{parse_rsdt, parse_xsdt, RSDT_SIGNATURE, XSDT_SIGNATURE};
use hypster::acpi::summary::AcpiPlatformSummary;
use hypster::acpi::table::{parse_sdt_header, validate_checksum, SDT_HEADER_LEN};
use hypster::types::{ApicId, HostPhysAddr, PciBus, PciSegment};

fn sum_bytes(bytes: &[u8]) -> u8 {
    bytes.iter().fold(0u8, |acc, &b| acc.wrapping_add(b))
}

fn sdt_header(signature: [u8; 4], total_len: u32) -> [u8; SDT_HEADER_LEN] {
    let mut header = [0u8; SDT_HEADER_LEN];
    header[..4].copy_from_slice(&signature);
    header[4..8].copy_from_slice(&total_len.to_le_bytes());
    header[8] = 1;
    let sum = sum_bytes(&header);
    header[9] = header[9].wrapping_sub(sum);
    header
}

fn fix_table_checksum(table: &mut [u8]) {
    table[9] = 0;
    let sum = sum_bytes(table);
    table[9] = table[9].wrapping_sub(sum);
}

#[test]
fn parse_dmar_drhd_with_intr_remap_fixture() {
    let total_len = SDT_HEADER_LEN + DMAR_BODY_LEN + usize::from(DRHD_ENTRY_LEN);
    let mut table = vec![0u8; total_len];
    table[..SDT_HEADER_LEN].copy_from_slice(&sdt_header(DMAR_SIGNATURE, total_len as u32));
    table[SDT_HEADER_LEN] = 39;
    table[SDT_HEADER_LEN + 1] = DMAR_FLAG_INTR_REMAP;

    let entry_off = SDT_HEADER_LEN + DMAR_BODY_LEN;
    table[entry_off..entry_off + 2].copy_from_slice(&DMAR_TYPE_DRHD.to_le_bytes());
    table[entry_off + 2..entry_off + 4].copy_from_slice(&DRHD_ENTRY_LEN.to_le_bytes());
    table[entry_off + 4] = DRHD_FLAG_INCLUDE_PCI_ALL;
    table[entry_off + 6..entry_off + 8].copy_from_slice(&1u16.to_le_bytes());
    table[entry_off + 8..entry_off + 16].copy_from_slice(&0xFED9_0000u64.to_le_bytes());

    let sum = sum_bytes(&table);
    table[9] = table[9].wrapping_sub(sum);
    validate_checksum(&table).expect("valid checksum");

    let dmar = parse_dmar(&table).expect("valid DMAR");
    assert_eq!(dmar.host_address_width, 39);
    assert!(dmar.interrupt_remapping);
    assert_eq!(dmar.drhd_entries.len(), 1);
    assert_eq!(dmar.drhd_entries[0].segment, PciSegment::new(1));
    assert_eq!(dmar.drhd_entries[0].register_base, HostPhysAddr::new(0xFED9_0000));
    assert!(dmar.drhd_entries[0].include_all_pci);
    assert!(dmar.has_drhd());
}

#[test]
fn parse_dmar_without_intr_remap_fixture() {
    let total_len = SDT_HEADER_LEN + DMAR_BODY_LEN;
    let mut table = vec![0u8; total_len];
    table[..SDT_HEADER_LEN].copy_from_slice(&sdt_header(DMAR_SIGNATURE, total_len as u32));
    table[SDT_HEADER_LEN] = 39;
    table[SDT_HEADER_LEN + 1] = 0;

    let sum = sum_bytes(&table);
    table[9] = table[9].wrapping_sub(sum);
    validate_checksum(&table).expect("valid checksum");

    let dmar = parse_dmar(&table).expect("valid DMAR");
    assert!(!dmar.interrupt_remapping);
    assert!(dmar.drhd_entries.is_empty());
    assert!(!dmar.has_drhd());
}

#[test]
fn parse_madt_local_apic_fixture() {
    let total_len = SDT_HEADER_LEN + MADT_BODY_LEN + usize::from(LOCAL_APIC_ENTRY_LEN);
    let mut table = vec![0u8; total_len];
    table[..SDT_HEADER_LEN].copy_from_slice(&sdt_header(MADT_SIGNATURE, total_len as u32));
    table[SDT_HEADER_LEN..SDT_HEADER_LEN + 4].copy_from_slice(&0xFEE0_0000u32.to_le_bytes());

    let entry_off = SDT_HEADER_LEN + MADT_BODY_LEN;
    table[entry_off] = MADT_TYPE_LOCAL_APIC;
    table[entry_off + 1] = LOCAL_APIC_ENTRY_LEN;
    table[entry_off + 2] = 1;
    table[entry_off + 3] = 4;
    table[entry_off + 4..entry_off + 8].copy_from_slice(&LOCAL_APIC_ENABLED.to_le_bytes());

    let sum = sum_bytes(&table);
    table[9] = table[9].wrapping_sub(sum);
    validate_checksum(&table).expect("valid checksum");

    let madt = parse_madt(&table).expect("valid MADT");
    assert_eq!(madt.local_apic_address, HostPhysAddr::new(0xFEE0_0000));
    assert!(!madt.pc_at_compatible);
    assert_eq!(madt.local_apics.len(), 1);
    assert_eq!(madt.local_apics[0].processor_uid, 1);
    assert_eq!(madt.local_apics[0].apic_id, ApicId::new(4));
    assert!(madt.local_apics[0].enabled);
    assert!(madt.x2_apics.is_empty());
    assert_eq!(madt.enabled_processor_count(), 1);
}

#[test]
fn parse_madt_x2apic_fixture() {
    let total_len = SDT_HEADER_LEN + MADT_BODY_LEN + usize::from(LOCAL_X2APIC_ENTRY_LEN);
    let mut table = vec![0u8; total_len];
    table[..SDT_HEADER_LEN].copy_from_slice(&sdt_header(MADT_SIGNATURE, total_len as u32));
    table[SDT_HEADER_LEN..SDT_HEADER_LEN + 4].copy_from_slice(&0xFEE0_0000u32.to_le_bytes());

    let entry_off = SDT_HEADER_LEN + MADT_BODY_LEN;
    table[entry_off] = MADT_TYPE_LOCAL_X2APIC;
    table[entry_off + 1] = LOCAL_X2APIC_ENTRY_LEN;
    table[entry_off + 4..entry_off + 8].copy_from_slice(&256u32.to_le_bytes());
    table[entry_off + 8..entry_off + 12].copy_from_slice(&LOCAL_APIC_ENABLED.to_le_bytes());
    table[entry_off + 12..entry_off + 16].copy_from_slice(&2u32.to_le_bytes());

    let sum = sum_bytes(&table);
    table[9] = table[9].wrapping_sub(sum);
    validate_checksum(&table).expect("valid checksum");

    let madt = parse_madt(&table).expect("valid MADT");
    assert!(madt.has_x2apic());
    assert_eq!(madt.x2_apics.len(), 1);
    assert_eq!(madt.x2_apics[0].processor_uid, 2);
    assert_eq!(madt.x2_apics[0].apic_id, ApicId::new(256));
    assert!(madt.x2_apics[0].enabled);
}

#[test]
fn madt_zero_length_entry_is_rejected() {
    let total_len = SDT_HEADER_LEN + MADT_BODY_LEN + 2;
    let mut table = vec![0u8; total_len];
    table[..SDT_HEADER_LEN].copy_from_slice(&sdt_header(MADT_SIGNATURE, total_len as u32));
    fix_table_checksum(&mut table);
    let err = parse_madt(&table).expect_err("zero-length entry");
    assert_eq!(
        err,
        AcpiError::InvalidStructure { kind: "MADT entry", reason: "zero-length structure" }
    );
}

#[test]
fn parse_mcfg_fixture() {
    let total_len = SDT_HEADER_LEN + MCFG_RESERVED_LEN + MCFG_ENTRY_LEN;
    let mut table = vec![0u8; total_len];
    table[..SDT_HEADER_LEN].copy_from_slice(&sdt_header(MCFG_SIGNATURE, total_len as u32));

    let entry_off = SDT_HEADER_LEN + MCFG_RESERVED_LEN;
    table[entry_off..entry_off + 8].copy_from_slice(&0xE000_0000u64.to_le_bytes());
    table[entry_off + 8..entry_off + 10].copy_from_slice(&0u16.to_le_bytes());
    table[entry_off + 10] = 0;
    table[entry_off + 11] = 255;

    let sum = sum_bytes(&table);
    table[9] = table[9].wrapping_sub(sum);
    validate_checksum(&table).expect("valid checksum");

    let mcfg = parse_mcfg(&table).expect("valid MCFG");
    assert_eq!(mcfg.entries.len(), 1);
    assert_eq!(mcfg.entries[0].base_address, HostPhysAddr::new(0xE000_0000));
    assert_eq!(mcfg.entries[0].segment, PciSegment::new(0));
    assert_eq!(mcfg.entries[0].start_bus, PciBus::new(0));
    assert_eq!(mcfg.entries[0].end_bus, PciBus::new(255));
    assert_eq!(mcfg.entries[0].bus_count(), 256);
    assert!(mcfg.has_ecam());
}

fn rsdp_with_checksum(mut table: [u8; RSDP_V2_LEN]) -> [u8; RSDP_V2_LEN] {
    let sum_v1 = sum_bytes(&table[..RSDP_V1_LEN]);
    table[8] = table[8].wrapping_sub(sum_v1);
    let sum_v2 = sum_bytes(&table);
    table[32] = table[32].wrapping_sub(sum_v2);
    table
}

#[test]
fn parse_rsdp_v2_fixture() {
    let mut raw = [0u8; RSDP_V2_LEN];
    raw[..8].copy_from_slice(&RSDP_SIGNATURE);
    raw[15] = 2;
    raw[16..20].copy_from_slice(&0x1000u32.to_le_bytes());
    raw[20..24].copy_from_slice(&(RSDP_V2_LEN as u32).to_le_bytes());
    raw[24..32].copy_from_slice(&0x2000u64.to_le_bytes());
    let table = rsdp_with_checksum(raw);

    let rsdp = parse_rsdp(&table).expect("valid RSDP fixture");
    assert_eq!(rsdp.revision, 2);
    assert_eq!(rsdp.rsdt_address, Some(HostPhysAddr::new(0x1000)));
    assert_eq!(rsdp.xsdt_address, Some(HostPhysAddr::new(0x2000)));
    assert_eq!(rsdp.root_table_address(), Some(HostPhysAddr::new(0x2000)));
}

#[test]
fn parse_rsdp_rejects_bad_signature() {
    let mut raw = [0u8; RSDP_V2_LEN];
    raw[15] = 2;
    raw[20..24].copy_from_slice(&(RSDP_V2_LEN as u32).to_le_bytes());
    let table = rsdp_with_checksum(raw);
    let err = parse_rsdp(&table).expect_err("bad signature");
    assert!(matches!(err, AcpiError::InvalidSignature { .. }));
}

#[test]
fn rsdp_v1_has_no_xsdt() {
    let mut raw = [0u8; RSDP_V2_LEN];
    raw[..8].copy_from_slice(&RSDP_SIGNATURE);
    raw[15] = 0;
    raw[16..20].copy_from_slice(&0x1000u32.to_le_bytes());
    let table = rsdp_with_checksum(raw);
    let rsdp = parse_rsdp(&table[..RSDP_V1_LEN]).expect("valid v1 RSDP");
    assert_eq!(rsdp.xsdt_address, None);
    assert_eq!(rsdp.root_table_address(), Some(HostPhysAddr::new(0x1000)));
}

#[test]
fn rsdp_short_buffer_is_rejected() {
    let err = parse_rsdp(&[0u8; 10]).expect_err("short");
    assert_eq!(err, AcpiError::BufferTooShort { needed: RSDP_V1_LEN, available: 10 });
}

#[test]
fn parse_rsdt_fixture() {
    let total_len = SDT_HEADER_LEN + 8;
    let mut table = vec![0u8; total_len];
    table[..SDT_HEADER_LEN].copy_from_slice(&sdt_header(RSDT_SIGNATURE, total_len as u32));
    table[SDT_HEADER_LEN..SDT_HEADER_LEN + 4].copy_from_slice(&0x3000u32.to_le_bytes());
    table[SDT_HEADER_LEN + 4..SDT_HEADER_LEN + 8].copy_from_slice(&0x4000u32.to_le_bytes());
    fix_table_checksum(&mut table);
    validate_checksum(&table).expect("valid checksum");

    let rsdt = parse_rsdt(&table).expect("valid RSDT");
    assert_eq!(rsdt.entries.len(), 2);
    assert_eq!(rsdt.entries[0], HostPhysAddr::new(0x3000));
    assert_eq!(rsdt.entries[1], HostPhysAddr::new(0x4000));
}

#[test]
fn parse_xsdt_fixture() {
    let total_len = SDT_HEADER_LEN + 16;
    let mut table = vec![0u8; total_len];
    table[..SDT_HEADER_LEN].copy_from_slice(&sdt_header(XSDT_SIGNATURE, total_len as u32));
    table[SDT_HEADER_LEN..SDT_HEADER_LEN + 8].copy_from_slice(&0x5000u64.to_le_bytes());
    table[SDT_HEADER_LEN + 8..SDT_HEADER_LEN + 16].copy_from_slice(&0x6000u64.to_le_bytes());
    fix_table_checksum(&mut table);
    validate_checksum(&table).expect("valid checksum");

    let xsdt = parse_xsdt(&table).expect("valid XSDT");
    assert_eq!(xsdt.entries.len(), 2);
    assert_eq!(xsdt.entries[0], HostPhysAddr::new(0x5000));
    assert_eq!(xsdt.entries[1], HostPhysAddr::new(0x6000));
}

#[test]
fn bad_checksum_is_rejected() {
    let total_len = SDT_HEADER_LEN + 8;
    let mut table = vec![0u8; total_len];
    table[..SDT_HEADER_LEN].copy_from_slice(&sdt_header(RSDT_SIGNATURE, total_len as u32));
    table[SDT_HEADER_LEN] = 1;
    assert_eq!(validate_checksum(&table), Err(AcpiError::InvalidChecksum));
    assert_eq!(parse_sdt_header(&table), Err(AcpiError::InvalidChecksum));
}

#[test]
fn summary_reports_dmar_and_madt_features() {
    let mut summary = AcpiPlatformSummary::new();
    assert!(!summary.interrupt_remapping_available());
    assert!(!summary.x2apic_available());
    assert_eq!(summary.enabled_processor_count(), None);
    assert!(summary.root_table_pointers().is_empty());

    let total_len = SDT_HEADER_LEN + MADT_BODY_LEN + usize::from(LOCAL_X2APIC_ENTRY_LEN);
    let mut table = vec![0u8; total_len];
    table[..SDT_HEADER_LEN].copy_from_slice(&sdt_header(MADT_SIGNATURE, total_len as u32));
    let entry_off = SDT_HEADER_LEN + MADT_BODY_LEN;
    table[entry_off] = MADT_TYPE_LOCAL_X2APIC;
    table[entry_off + 1] = LOCAL_X2APIC_ENTRY_LEN;
    table[entry_off + 8..entry_off + 12].copy_from_slice(&LOCAL_APIC_ENABLED.to_le_bytes());
    fix_table_checksum(&mut table);
    summary.madt = Some(parse_madt(&table).expect("valid MADT"));
    assert!(summary.x2apic_available());
    assert_eq!(summary.enabled_processor_count(), Some(1));
}

#[test]
fn acpi_error_messages() {
    assert_eq!(
        AcpiError::BufferTooShort { needed: 36, available: 4 }.message(),
        "buffer too short: need 36 bytes, have 4"
    );
    assert_eq!(
        AcpiError::InvalidSignature { expected: "DMAR", found: *b"APIC" }.message(),
        "invalid signature: expected DMAR, found [41, 50, 49, 43]"
    );
    assert_eq!(AcpiError::InvalidChecksum.message(), "invalid ACPI checksum");
    assert_eq!(
        AcpiError::InvalidLength { context: "MADT", length: 7 }.message(),
        "invalid MADT length: 7"
    );
    assert_eq!(
        AcpiError::InvalidStructure { kind: "MADT entry", reason: "zero length" }.message(),
        "invalid MADT entry: zero length"
    );
    assert_eq!(
        AcpiError::UnsupportedRevision { table: "RSDP", revision: 9 }.message(),
        "unsupported RSDP revision: 9"
    );
}
