use hypster::elf::{
    parse_elf64, ElfError, EI_CLASS, EI_DATA, ELF64_EHDR_SIZE, ELF64_PHDR_SIZE, ELFCLASS64,
    ELFDATA2LSB, ELF_MAGIC, EM_X86_64, E_ENTRY_OFFSET, E_MACHINE_OFFSET, E_PHENTSIZE_OFFSET,
    E_PHNUM_OFFSET, E_PHOFF_OFFSET, E_TYPE_OFFSET, PF_R, PF_W, PF_X, PT_LOAD,
};

fn write_u16_le(buf: &mut [u8], offset: usize, value: u16) {
    buf[offset..offset + 2].copy_from_slice(&value.to_le_bytes());
}

fn write_u32_le(buf: &mut [u8], offset: usize, value: u32) {
    buf[offset..offset + 4].copy_from_slice(&value.to_le_bytes());
}

fn write_u64_le(buf: &mut [u8], offset: usize, value: u64) {
    buf[offset..offset + 8].copy_from_slice(&value.to_le_bytes());
}

fn write_header(buf: &mut [u8], entry: u64, phoff: u64, phnum: u16) {
    buf[0..4].copy_from_slice(&ELF_MAGIC);
    buf[EI_CLASS] = ELFCLASS64;
    buf[EI_DATA] = ELFDATA2LSB;
    write_u16_le(buf, E_TYPE_OFFSET, 2);
    write_u16_le(buf, E_MACHINE_OFFSET, EM_X86_64);
    write_u64_le(buf, E_ENTRY_OFFSET, entry);
    write_u64_le(buf, E_PHOFF_OFFSET, phoff);
    write_u16_le(buf, E_PHENTSIZE_OFFSET, ELF64_PHDR_SIZE as u16);
    write_u16_le(buf, E_PHNUM_OFFSET, phnum);
}

fn write_load_phdr(
    buf: &mut [u8],
    offset: usize,
    file_offset: u64,
    virt_addr: u64,
    file_size: u64,
    mem_size: u64,
    flags: u32,
) {
    write_u32_le(buf, offset, PT_LOAD);
    write_u32_le(buf, offset + 4, flags);
    write_u64_le(buf, offset + 8, file_offset);
    write_u64_le(buf, offset + 16, virt_addr);
    write_u64_le(buf, offset + 24, virt_addr);
    write_u64_le(buf, offset + 32, file_size);
    write_u64_le(buf, offset + 40, mem_size);
    write_u64_le(buf, offset + 48, 0x1000);
}

fn minimal_valid_elf() -> Vec<u8> {
    let phoff = ELF64_EHDR_SIZE as u64;
    let file_offset = phoff + ELF64_PHDR_SIZE as u64;
    let total = (file_offset + 4) as usize;
    let mut image = vec![0u8; total];
    write_header(&mut image, 0x1000, phoff, 1);
    write_load_phdr(&mut image, ELF64_EHDR_SIZE, file_offset, 0x1000, 4, 4, PF_R | PF_X);
    image[file_offset as usize..total].copy_from_slice(&[0x90, 0x90, 0x90, 0xC3]);
    image
}

fn two_segment_elf(second_virt: u64) -> Vec<u8> {
    let phoff = ELF64_EHDR_SIZE as u64;
    let file_offset = phoff + (2 * ELF64_PHDR_SIZE) as u64;
    let total = (file_offset + 8) as usize;
    let mut image = vec![0u8; total];
    write_header(&mut image, 0x1000, phoff, 2);
    write_load_phdr(&mut image, ELF64_EHDR_SIZE, file_offset, 0x1000, 4, 0x1000, PF_R | PF_X);
    write_load_phdr(
        &mut image,
        ELF64_EHDR_SIZE + ELF64_PHDR_SIZE,
        file_offset + 4,
        second_virt,
        4,
        0x1000,
        PF_R | PF_W,
    );
    image
}

#[test]
fn parse_valid_minimal_elf() {
    let image = minimal_valid_elf();
    let elf = parse_elf64(&image).expect("valid ELF should parse");
    assert_eq!(elf.entry_point(), 0x1000);
    assert_eq!(elf.segments().len(), 1);
    let segment = &elf.segments()[0];
    assert!(segment.is_load());
    assert!(segment.is_readable());
    assert!(segment.is_executable());
    assert!(!segment.is_writable());
    assert_eq!(segment.file_size, 4);
    assert_eq!(segment.mem_size, 4);
}

#[test]
fn rejects_truncated_header() {
    let err = parse_elf64(&[0x7f, b'E', b'L']).expect_err("short buffer");
    assert!(matches!(err, ElfError::BufferTooShort { needed: ELF64_EHDR_SIZE, available: 3 }));
}

#[test]
fn rejects_invalid_magic() {
    let mut image = minimal_valid_elf();
    image[0] = b'X';
    assert_eq!(parse_elf64(&image).err(), Some(ElfError::InvalidMagic));
}

#[test]
fn rejects_non_64_bit_class() {
    let mut image = minimal_valid_elf();
    image[EI_CLASS] = 1;
    assert_eq!(parse_elf64(&image).err(), Some(ElfError::UnsupportedClass { found: 1 }));
}

#[test]
fn rejects_big_endian() {
    let mut image = minimal_valid_elf();
    image[EI_DATA] = 2;
    assert_eq!(parse_elf64(&image).err(), Some(ElfError::UnsupportedEndianness { found: 2 }));
}

#[test]
fn rejects_non_x86_64_machine() {
    let mut image = minimal_valid_elf();
    write_u16_le(&mut image, E_MACHINE_OFFSET, 0xB7);
    assert_eq!(parse_elf64(&image).err(), Some(ElfError::UnsupportedMachine { found: 0xB7 }));
}

#[test]
fn rejects_zero_program_headers() {
    let mut image = minimal_valid_elf();
    write_u16_le(&mut image, E_PHNUM_OFFSET, 0);
    assert_eq!(parse_elf64(&image).err(), Some(ElfError::ProgramHeaderTableOutOfBounds));
}

#[test]
fn rejects_program_header_table_out_of_bounds() {
    let mut image = minimal_valid_elf();
    write_u64_le(&mut image, E_PHOFF_OFFSET, 0x1000);
    assert_eq!(parse_elf64(&image).err(), Some(ElfError::ProgramHeaderTableOutOfBounds));
}

#[test]
fn rejects_invalid_program_header_entry_size() {
    let mut image = minimal_valid_elf();
    write_u16_le(&mut image, E_PHENTSIZE_OFFSET, 32);
    assert_eq!(
        parse_elf64(&image).err(),
        Some(ElfError::InvalidProgramHeaderEntrySize { found: 32 })
    );
}

#[test]
fn rejects_segment_file_data_out_of_bounds() {
    let mut image = minimal_valid_elf();
    write_u64_le(&mut image, ELF64_EHDR_SIZE + 32, 0x1000);
    assert_eq!(
        parse_elf64(&image).err(),
        Some(ElfError::SegmentFileDataOutOfBounds { index: 0 })
    );
}

#[test]
fn rejects_overlapping_load_segments() {
    let mut image = two_segment_elf(0x1800);
    write_u64_le(&mut image, E_ENTRY_OFFSET, 0x2000);
    assert_eq!(
        parse_elf64(&image).err(),
        Some(ElfError::SegmentOverlap { first: 0, second: 1 })
    );
}

#[test]
fn allows_adjacent_non_overlapping_load_segments() {
    let image = two_segment_elf(0x2000);
    let elf = parse_elf64(&image).expect("adjacent segments should parse");
    assert_eq!(elf.load_segments().len(), 2);
}

#[test]
fn rejects_segment_file_range_overflow() {
    let mut image = minimal_valid_elf();
    write_u64_le(&mut image, ELF64_EHDR_SIZE + 8, u64::MAX);
    write_u64_le(&mut image, ELF64_EHDR_SIZE + 32, 1);
    assert_eq!(
        parse_elf64(&image).err(),
        Some(ElfError::SegmentFileDataOutOfBounds { index: 0 })
    );
}

#[test]
fn non_load_segments_are_not_checked_for_overlap() {
    let mut image = two_segment_elf(0x1800);
    write_u32_le(&mut image, ELF64_EHDR_SIZE + ELF64_PHDR_SIZE, 4);
    let elf = parse_elf64(&image).expect("note segment may overlap");
    assert_eq!(elf.segments().len(), 2);
    assert_eq!(elf.load_segments().len(), 1);
    assert!(!elf.segments()[1].is_load());
    assert!(elf.segments()[1].is_writable());
}

#[test]
fn parsed_image_keeps_its_bytes() {
    let image = minimal_valid_elf();
    let elf = parse_elf64(&image).expect("parse");
    assert_eq!(elf.data(), &image[..]);
}

#[test]
fn elf_error_messages() {
    assert_eq!(
        ElfError::BufferTooShort { needed: 64, available: 3 }.message(),
        "buffer too short: need 64 bytes, have 3"
    );
    assert_eq!(ElfError::InvalidMagic.message(), "invalid ELF magic");
    assert_eq!(ElfError::UnsupportedMachine { found: 183 }.message(), "unsupported machine type: 183");
    assert_eq!(
        ElfError::SegmentOverlap { first: 0, second: 1 }.message(),
        "loadable segments 0 and 1 overlap"
    );
    assert_eq!(
        ElfError::SegmentFileDataOutOfBounds { index: 12 }.message(),
        "segment 12 file data out of bounds"
    );
}
