//! Minimal ELF64 parser for guest images: magic, class, endianness, machine,
//! program-header table bounds, per-segment file bounds and loadable-segment
//! overlap are checked with overflow-safe arithmetic.

use vstd::prelude::*;

use vstd::string::*;

use crate::bytes::{get_u16, get_u32, get_u64, le_u16, le_u32, le_u64};
use crate::text::{decimal, push_decimal};
use crate::types::{checked_add_u64, checked_add_usize, checked_mul_usize, ranges_overlap, ranges_overlap_u64};

verus! {

/// ELF magic bytes `\x7fELF`.
pub const ELF_MAGIC: [u8; 4] = [0x7f, 0x45, 0x4c, 0x46];
/// Index of the ELF class byte in `e_ident`.
pub const EI_CLASS: usize = 4;
/// Index of the ELF data-encoding byte in `e_ident`.
pub const EI_DATA: usize = 5;
/// 64-bit ELF objects.
pub const ELFCLASS64: u8 = 2;
/// Little-endian data encoding.
pub const ELFDATA2LSB: u8 = 1;
/// x86-64 machine type (`EM_X86_64`).
pub const EM_X86_64: u16 = 62;
/// Size of the ELF64 executable header in bytes.
pub const ELF64_EHDR_SIZE: usize = 64;
/// Size of one ELF64 program header in bytes.
pub const ELF64_PHDR_SIZE: usize = 56;
/// Byte offset of `e_type` in an ELF64 header.
pub const E_TYPE_OFFSET: usize = 16;
/// Byte offset of `e_machine` in an ELF64 header.
pub const E_MACHINE_OFFSET: usize = 18;
/// Byte offset of `e_entry` in an ELF64 header.
pub const E_ENTRY_OFFSET: usize = 24;
/// Byte offset of `e_phoff` in an ELF64 header.
pub const E_PHOFF_OFFSET: usize = 32;
/// Byte offset of `e_phentsize` in an ELF64 header.
pub const E_PHENTSIZE_OFFSET: usize = 54;
/// Byte offset of `e_phnum` in an ELF64 header.
pub const E_PHNUM_OFFSET: usize = 56;

/// Program header type for a loadable segment (`PT_LOAD`).
pub const PT_LOAD: u32 = 1;
/// Segment is readable (`PF_R`).
pub const PF_R: u32 = 4;
/// Segment is writable (`PF_W`).
pub const PF_W: u32 = 2;
/// Segment is executable (`PF_X`).
pub const PF_X: u32 = 1;

/// Errors produced while parsing or validating an ELF64 image.
#[allow(inconsistent_fields)]
#[derive(Clone, Copy, Debug, PartialEq, Eq, Hash)]
pub enum ElfError {
    /// Input buffer is shorter than the required minimum.
    BufferTooShort {
        /// Minimum bytes required for the operation.
        needed: usize,
        /// Bytes available in the input buffer.
        available: usize,
    },
    /// ELF magic bytes are missing or incorrect.
    InvalidMagic,
    /// ELF class is not 64-bit.
    UnsupportedClass {
        /// Value of `e_ident[EI_CLASS]`.
        found: u8,
    },
    /// Endianness is not little-endian.
    UnsupportedEndianness {
        /// Value of `e_ident[EI_DATA]`.
        found: u8,
    },
    /// Machine type is not x86-64.
    UnsupportedMachine {
        /// Value of `e_machine`.
        found: u16,
    },
    /// Program header entry size is not the ELF64 size.
    InvalidProgramHeaderEntrySize {
        /// Value of `e_phentsize`.
        found: u16,
    },
    /// Program header table lies outside the input buffer.
    ProgramHeaderTableOutOfBounds,
    /// A program header entry lies outside the input buffer.
    ProgramHeaderOutOfBounds {
        /// Zero-based program header index.
        index: usize,
    },
    /// A segment's file-backed range extends past the end of the input buffer.
    SegmentFileDataOutOfBounds {
        /// Zero-based program header index.
        index: usize,
    },
    /// Two loadable segments overlap in virtual address space.
    SegmentOverlap {
        /// Index of the first overlapping segment.
        first: usize,
        /// Index of the second overlapping segment.
        second: usize,
    },
    /// An address or size calculation overflowed.
    Overflow,
}

/// Human-readable description of an ELF error.
pub open spec fn elf_error_text(e: ElfError) -> Seq<char> {
    match e {
        ElfError::BufferTooShort { needed, available } => "buffer too short: need "@ + decimal(
            needed as nat,
        ) + " bytes, have "@ + decimal(available as nat),
        ElfError::InvalidMagic => "invalid ELF magic"@,
        ElfError::UnsupportedClass { found } => "unsupported ELF class: "@ + decimal(found as nat),
        ElfError::UnsupportedEndianness { found } => "unsupported ELF endianness: "@ + decimal(
            found as nat,
        ),
        ElfError::UnsupportedMachine { found } => "unsupported machine type: "@ + decimal(found as nat),
        ElfError::InvalidProgramHeaderEntrySize { found } => "invalid ELF64 program header entry size: "@
            + decimal(found as nat),
        ElfError::ProgramHeaderTableOutOfBounds => "program header table out of bounds"@,
        ElfError::ProgramHeaderOutOfBounds { index } => "program header "@ + decimal(index as nat)
            + " out of bounds"@,
        ElfError::SegmentFileDataOutOfBounds { index } => "segment "@ + decimal(index as nat)
            + " file data out of bounds"@,
        ElfError::SegmentOverlap { first, second } => "loadable segments "@ + decimal(first as nat)
            + " and "@ + decimal(second as nat) + " overlap"@,
        ElfError::Overflow => "arithmetic overflow"@,
    }
}

impl ElfError {
    /// Human-readable description of the error.
    pub fn message(&self) -> (r: String)
        ensures
            r@ == elf_error_text(*self),
    {
        match *self {
            ElfError::BufferTooShort { needed, available } => {
                let mut out = String::from_str("buffer too short: need ");
                push_decimal(&mut out, needed as u64);
                out.append(" bytes, have ");
                push_decimal(&mut out, available as u64);
                out
            },
            ElfError::InvalidMagic => String::from_str("invalid ELF magic"),
            ElfError::UnsupportedClass { found } => {
                let mut out = String::from_str("unsupported ELF class: ");
                push_decimal(&mut out, found as u64);
                out
            },
            ElfError::UnsupportedEndianness { found } => {
                let mut out = String::from_str("unsupported ELF endianness: ");
                push_decimal(&mut out, found as u64);
                out
            },
            ElfError::UnsupportedMachine { found } => {
                let mut out = String::from_str("unsupported machine type: ");
                push_decimal(&mut out, found as u64);
                out
            },
            ElfError::InvalidProgramHeaderEntrySize { found } => {
                let mut out = String::from_str("invalid ELF64 program header entry size: ");
                push_decimal(&mut out, found as u64);
                out
            },
            ElfError::ProgramHeaderTableOutOfBounds => String::from_str("program header table out of bounds"),
            ElfError::ProgramHeaderOutOfBounds { index } => {
                let mut out = String::from_str("program header ");
                push_decimal(&mut out, index as u64);
                out.append(" out of bounds");
                out
            },
            ElfError::SegmentFileDataOutOfBounds { index } => {
                let mut out = String::from_str("segment ");
                push_decimal(&mut out, index as u64);
                out.append(" file data out of bounds");
                out
            },
            ElfError::SegmentOverlap { first, second } => {
                let mut out = String::from_str("loadable segments ");
                push_decimal(&mut out, first as u64);
                out.append(" and ");
                push_decimal(&mut out, second as u64);
                out.append(" overlap");
                out
            },
            ElfError::Overflow => String::from_str("arithmetic overflow"),
        }
    }
}

/// A validated ELF64 program header describing one segment.
#[derive(Clone, Copy, Debug, PartialEq, Eq)]
pub struct Elf64Segment {
    /// Program header type (`p_type`).
    pub typ: u32,
    /// Segment flags (`p_flags`).
    pub flags: u32,
    /// File offset of the segment (`p_offset`).
    pub file_offset: u64,
    /// Virtual address of the segment (`p_vaddr`).
    pub virt_addr: u64,
    /// Physical address of the segment (`p_paddr`).
    pub phys_addr: u64,
    /// Size of the segment in the file (`p_filesz`).
    pub file_size: u64,
    /// Size of the segment in memory (`p_memsz`).
    pub mem_size: u64,
    /// Segment alignment (`p_align`).
    pub align: u64,
}

impl Elf64Segment {
    /// Returns true when this is a loadable segment.
    pub fn is_load(&self) -> (r: bool)
        ensures
            r == (self.typ == PT_LOAD),
    {
        self.typ == PT_LOAD
    }

    /// Returns true when the segment is mapped readable.
    pub fn is_readable(&self) -> (r: bool)
        ensures
            r == (self.flags & PF_R != 0),
    {
        self.flags & PF_R != 0
    }

    /// Returns true when the segment is mapped writable.
    pub fn is_writable(&self) -> (r: bool)
        ensures
            r == (self.flags & PF_W != 0),
    {
        self.flags & PF_W != 0
    }

    /// Returns true when the segment is mapped executable.
    pub fn is_executable(&self) -> (r: bool)
        ensures
            r == (self.flags & PF_X != 0),
    {
        self.flags & PF_X != 0
    }
}

/// A validated ELF64 x86-64 image.
#[derive(Clone, Debug, PartialEq, Eq)]
pub struct Elf64<'a> {
    data: &'a [u8],
    entry_point: u64,
    segments: Vec<Elf64Segment>,
}

impl<'a> Elf64<'a> {
    /// The raw image bytes.
    pub closed spec fn spec_data(&self) -> Seq<u8> {
        self.data@
    }

    /// The program entry point.
    pub closed spec fn spec_entry(&self) -> u64 {
        self.entry_point
    }

    /// All parsed program headers in table order.
    pub closed spec fn spec_segments(&self) -> Seq<Elf64Segment> {
        self.segments@
    }

    /// Returns the raw image bytes.
    pub fn data(&self) -> (r: &'a [u8])
        ensures
            r@ == self.spec_data(),
    {
        self.data
    }

    /// Returns the program entry point (`e_entry`).
    pub fn entry_point(&self) -> (r: u64)
        ensures
            r == self.spec_entry(),
    {
        self.entry_point
    }

    /// Returns all parsed program headers.
    pub fn segments(&self) -> (r: &[Elf64Segment])
        ensures
            r@ == self.spec_segments(),
    {
        self.segments.as_slice()
    }

    /// Returns only the loadable (`PT_LOAD`) segments, in table order.
    pub fn load_segments(&self) -> (r: Vec<Elf64Segment>)
        ensures
            r@ == self.spec_segments().filter(|s: Elf64Segment| s.typ == PT_LOAD),
    {
        let mut out: Vec<Elf64Segment> = Vec::new();
        let mut i: usize = 0;
        while i < self.segments.len()
            invariant
                i <= self.segments@.len(),
                out@ == self.segments@.subrange(0, i as int).filter(
                    |s: Elf64Segment| s.typ == PT_LOAD,
                ),
            decreases self.segments@.len() - i,
        {
            let seg = self.segments[i];
            proof {
                let pre = self.segments@.subrange(0, i as int);
                let post = self.segments@.subrange(0, i + 1);
                assert(post.drop_last() =~= pre);
                reveal(Seq::filter);
            }
            if seg.typ == PT_LOAD {
                out.push(seg);
            }
            i = i + 1;
        }
        assert(self.segments@.subrange(0, self.segments@.len() as int) =~= self.segments@);
        out
    }
}

/// Program header type of the header at `off`.
pub open spec fn segment_at(d: Seq<u8>, off: int) -> Elf64Segment {
    Elf64Segment {
        typ: le_u32(d, off) as u32,
        flags: le_u32(d, off + 4) as u32,
        file_offset: le_u64(d, off + 8) as u64,
        virt_addr: le_u64(d, off + 16) as u64,
        phys_addr: le_u64(d, off + 24) as u64,
        file_size: le_u64(d, off + 32) as u64,
        mem_size: le_u64(d, off + 40) as u64,
        align: le_u64(d, off + 48) as u64,
    }
}

/// `e_phoff`.
pub open spec fn ph_offset(d: Seq<u8>) -> int {
    le_u64(d, E_PHOFF_OFFSET as int)
}

/// `e_phnum`.
pub open spec fn ph_count(d: Seq<u8>) -> int {
    le_u16(d, E_PHNUM_OFFSET as int)
}

/// The first failure among the executable-header checks, if any.
pub open spec fn elf_header_error(d: Seq<u8>) -> Option<ElfError> {
    if d.len() < ELF64_EHDR_SIZE {
        Some(ElfError::BufferTooShort { needed: ELF64_EHDR_SIZE, available: d.len() as usize })
    } else if d.subrange(0, 4) != ELF_MAGIC@ {
        Some(ElfError::InvalidMagic)
    } else if d[EI_CLASS as int] != ELFCLASS64 {
        Some(ElfError::UnsupportedClass { found: d[EI_CLASS as int] })
    } else if d[EI_DATA as int] != ELFDATA2LSB {
        Some(ElfError::UnsupportedEndianness { found: d[EI_DATA as int] })
    } else if le_u16(d, E_MACHINE_OFFSET as int) != EM_X86_64 {
        Some(ElfError::UnsupportedMachine { found: le_u16(d, E_MACHINE_OFFSET as int) as u16 })
    } else if le_u16(d, E_PHENTSIZE_OFFSET as int) != ELF64_PHDR_SIZE {
        Some(
            ElfError::InvalidProgramHeaderEntrySize {
                found: le_u16(d, E_PHENTSIZE_OFFSET as int) as u16,
            },
        )
    } else if ph_count(d) == 0 {
        Some(ElfError::ProgramHeaderTableOutOfBounds)
    } else if ph_offset(d) > d.len() {
        Some(ElfError::ProgramHeaderTableOutOfBounds)
    } else if ph_offset(d) + ph_count(d) * ELF64_PHDR_SIZE > usize::MAX {
        Some(ElfError::Overflow)
    } else if ph_offset(d) + ph_count(d) * ELF64_PHDR_SIZE > d.len() {
        Some(ElfError::ProgramHeaderTableOutOfBounds)
    } else {
        None
    }
}

/// The program headers of an image whose header checks pass.
pub open spec fn elf_segments(d: Seq<u8>) -> Seq<Elf64Segment> {
    Seq::new(
        ph_count(d) as nat,
        |i: int| segment_at(d, ph_offset(d) + i * ELF64_PHDR_SIZE),
    )
}

/// The segment's file-backed bytes lie inside an image of `len` bytes.
pub open spec fn file_range_ok(seg: Elf64Segment, len: int) -> bool {
    seg.file_size == 0 || seg.file_offset + seg.file_size <= len
}

/// Both segments are non-empty loadable segments whose virtual ranges overlap.
pub open spec fn load_conflict(a: Elf64Segment, b: Elf64Segment) -> bool {
    &&& a.typ == PT_LOAD
    &&& b.typ == PT_LOAD
    &&& ranges_overlap(a.virt_addr as int, a.mem_size as int, b.virt_addr as int, b.mem_size as int)
}

/// No pair `(i, j)`, `i < j`, lexicographically before `(fi, fj)` conflicts.
pub open spec fn no_conflict_before(segs: Seq<Elf64Segment>, fi: int, fj: int) -> bool {
    forall|i: int, j: int|
        0 <= i < j < segs.len() && (i < fi || (i == fi && j < fj)) ==> !load_conflict(
            #[trigger] segs[i],
            #[trigger] segs[j],
        )
}

fn read_segment(data: &[u8], off: usize) -> (r: Elf64Segment)
    requires
        off + ELF64_PHDR_SIZE <= data.len(),
    ensures
        r == segment_at(data@, off as int),
{
    Elf64Segment {
        typ: get_u32(data, off),
        flags: get_u32(data, off + 4),
        file_offset: get_u64(data, off + 8),
        virt_addr: get_u64(data, off + 16),
        phys_addr: get_u64(data, off + 24),
        file_size: get_u64(data, off + 32),
        mem_size: get_u64(data, off + 40),
        align: get_u64(data, off + 48),
    }
}

fn validate_ident(data: &[u8]) -> (r: Result<(), ElfError>)
    ensures
        r is Ok ==> data@.len() >= ELF64_EHDR_SIZE && data@.subrange(0, 4) == ELF_MAGIC@
            && data@[EI_CLASS as int] == ELFCLASS64 && data@[EI_DATA as int] == ELFDATA2LSB
            && le_u16(data@, E_MACHINE_OFFSET as int) == EM_X86_64,
        r matches Err(e) ==> elf_header_error(data@) == Some(e),
{
    if data.len() < ELF64_EHDR_SIZE {
        return Err(ElfError::BufferTooShort { needed: ELF64_EHDR_SIZE, available: data.len() });
    }
    if data[0] != 0x7f || data[1] != 0x45 || data[2] != 0x4c || data[3] != 0x46 {
        proof {
            if data@.subrange(0, 4) == ELF_MAGIC@ {
                assert(data@.subrange(0, 4)[0] == data@[0]);
                assert(data@.subrange(0, 4)[1] == data@[1]);
                assert(data@.subrange(0, 4)[2] == data@[2]);
                assert(data@.subrange(0, 4)[3] == data@[3]);
            }
        }
        return Err(ElfError::InvalidMagic);
    }
    assert(data@.subrange(0, 4) =~= ELF_MAGIC@);
    let class = data[EI_CLASS];
    if class != ELFCLASS64 {
        return Err(ElfError::UnsupportedClass { found: class });
    }
    let encoding = data[EI_DATA];
    if encoding != ELFDATA2LSB {
        return Err(ElfError::UnsupportedEndianness { found: encoding });
    }
    let machine = get_u16(data, E_MACHINE_OFFSET);
    if machine != EM_X86_64 {
        return Err(ElfError::UnsupportedMachine { found: machine });
    }
    Ok(())
}

/// Parses and validates an ELF64 little-endian x86-64 image.
///
/// Header checks run first (in the order of `elf_header_error`), then every
/// program header's file range is checked in table order, then every pair of
/// non-empty loadable segments is checked for virtual-address overlap in
/// lexicographic pair order; the first failure is reported.
pub fn parse_elf64(data: &[u8]) -> (r: Result<Elf64<'_>, ElfError>)
    ensures
        elf_header_error(data@) matches Some(e) ==> r == Err::<Elf64<'_>, ElfError>(e),
        elf_header_error(data@) is None ==> {
            let segs = elf_segments(data@);
            let n = segs.len() as int;
            &&& (r is Ok <==> (forall|i: int| 0 <= i < n ==> file_range_ok(
                #[trigger] segs[i],
                data@.len() as int,
            )) && no_conflict_before(segs, n, n))
            &&& (r matches Ok(elf) ==> elf.spec_data() == data@ && elf.spec_segments() == segs
                && elf.spec_entry() == le_u64(data@, E_ENTRY_OFFSET as int))
            &&& (r matches Err(ElfError::SegmentFileDataOutOfBounds { index }) ==> {
                &&& 0 <= index < n
                &&& !file_range_ok(segs[index as int], data@.len() as int)
                &&& forall|i: int| 0 <= i < index ==> file_range_ok(
                    #[trigger] segs[i],
                    data@.len() as int,
                )
            })
            &&& (r matches Err(ElfError::SegmentOverlap { first, second }) ==> {
                &&& 0 <= first < second < n
                &&& load_conflict(segs[first as int], segs[second as int])
                &&& no_conflict_before(segs, first as int, second as int)
                &&& forall|i: int| 0 <= i < n ==> file_range_ok(
                    #[trigger] segs[i],
                    data@.len() as int,
                )
            })
            &&& (r is Err ==> r->Err_0 is SegmentFileDataOutOfBounds || r->Err_0 is SegmentOverlap)
        },
{
    validate_ident(data)?;
    let entry_point = get_u64(data, E_ENTRY_OFFSET);
    let phoff = get_u64(data, E_PHOFF_OFFSET);
    let phentsize = get_u16(data, E_PHENTSIZE_OFFSET);
    let phnum = get_u16(data, E_PHNUM_OFFSET);
    if phentsize != ELF64_PHDR_SIZE as u16 {
        return Err(ElfError::InvalidProgramHeaderEntrySize { found: phentsize });
    }
    if phnum == 0 {
        return Err(ElfError::ProgramHeaderTableOutOfBounds);
    }
    let phnum_usize = phnum as usize;
    let table_bytes = match checked_mul_usize(phnum_usize, ELF64_PHDR_SIZE) {
        Ok(v) => v,
        Err(_) => return Err(ElfError::Overflow),
    };
    if phoff > data.len() as u64 {
        return Err(ElfError::ProgramHeaderTableOutOfBounds);
    }
    let phoff_usize = phoff as usize;
    let table_end = match checked_add_usize(phoff_usize, table_bytes) {
        Ok(v) => v,
        Err(_) => return Err(ElfError::Overflow),
    };
    if table_end > data.len() {
        return Err(ElfError::ProgramHeaderTableOutOfBounds);
    }
    assert(elf_header_error(data@) is None);
    let ghost segs = elf_segments(data@);
    let mut segments: Vec<Elf64Segment> = Vec::new();
    let mut index: usize = 0;
    while index < phnum_usize
        invariant
            elf_header_error(data@) is None,
            segs == elf_segments(data@),
            phnum_usize == segs.len(),
            phoff_usize == ph_offset(data@),
            table_end == phoff_usize + phnum_usize * ELF64_PHDR_SIZE,
            table_end <= data.len(),
            index <= phnum_usize,
            segments@ == segs.subrange(0, index as int),
            forall|i: int| 0 <= i < index ==> file_range_ok(#[trigger] segs[i], data@.len() as int),
        decreases phnum_usize - index,
    {
        proof {
            assert(index * ELF64_PHDR_SIZE + ELF64_PHDR_SIZE <= phnum_usize * ELF64_PHDR_SIZE)
                by (nonlinear_arith)
                requires
                    index < phnum_usize,
            ;
        }
        let header_offset = phoff_usize + index * ELF64_PHDR_SIZE;
        let segment = read_segment(data, header_offset);
        assert(segment == segs[index as int]);
        if segment.file_size != 0 {
            match checked_add_u64(segment.file_offset, segment.file_size) {
                Ok(end) => {
                    if end > data.len() as u64 {
                        return Err(ElfError::SegmentFileDataOutOfBounds { index });
                    }
                },
                Err(_) => return Err(ElfError::SegmentFileDataOutOfBounds { index }),
            }
        }
        segments.push(segment);
        index = index + 1;
        proof {
            assert(segments@ =~= segs.subrange(0, index as int));
        }
    }
    assert(segments@ =~= segs);
    match validate_load_segment_overlaps(&segments) {
        Ok(()) => {},
        Err(e) => return Err(e),
    }
    Ok(Elf64 { data, entry_point, segments })
}

fn validate_load_segment_overlaps(segments: &Vec<Elf64Segment>) -> (r: Result<(), ElfError>)
    ensures
        r is Ok <==> no_conflict_before(segments@, segments@.len() as int, segments@.len() as int),
        r is Err ==> (r->Err_0 matches ElfError::SegmentOverlap { first, second } && {
            &&& 0 <= first < second < segments@.len()
            &&& load_conflict(segments@[first as int], segments@[second as int])
            &&& no_conflict_before(segments@, first as int, second as int)
        }),
{
    let n = segments.len();
    let mut first: usize = 0;
    while first < n
        invariant
            n == segments@.len(),
            first <= n,
            no_conflict_before(segments@, first as int, 0),
        decreases n - first,
    {
        let left = segments[first];
        let mut second: usize = first + 1;
        while second < n
            invariant
                n == segments@.len(),
                first < n,
                first + 1 <= second <= n,
                left == segments@[first as int],
                no_conflict_before(segments@, first as int, second as int),
            decreases n - second,
        {
            let right = segments[second];
            if left.typ == PT_LOAD && left.mem_size != 0 && right.typ == PT_LOAD && right.mem_size != 0
                && ranges_overlap_u64(left.virt_addr, left.mem_size, right.virt_addr, right.mem_size) {
                return Err(ElfError::SegmentOverlap { first, second });
            }
            second = second + 1;
        }
        first = first + 1;
    }
    Ok(())
}

/// Loadable segments of an accepted image never overlap in virtual memory.
pub proof fn accepted_load_segments_do_not_overlap(segs: Seq<Elf64Segment>)
    requires
        no_conflict_before(segs, segs.len() as int, segs.len() as int),
    ensures
        forall|i: int, j: int|
            0 <= i < j < segs.len() && (#[trigger] segs[i]).typ == PT_LOAD && (#[trigger] segs[j]).typ == PT_LOAD
                ==> !ranges_overlap(
                segs[i].virt_addr as int,
                segs[i].mem_size as int,
                segs[j].virt_addr as int,
                segs[j].mem_size as int,
            ),
{
    assert forall|i: int, j: int|
        0 <= i < j < segs.len() && (#[trigger] segs[i]).typ == PT_LOAD && (#[trigger] segs[j]).typ == PT_LOAD implies !ranges_overlap(
            segs[i].virt_addr as int,
            segs[i].mem_size as int,
            segs[j].virt_addr as int,
            segs[j].mem_size as int,
        ) by {
        assert(!load_conflict(segs[i], segs[j]));
    }
}

/// Program-header layout: the `i`-th segment of an image whose header checks
/// pass is read from the 56-byte program header at `e_phoff + 56 * i`
/// (`e_phoff` being the little-endian quadword at byte 32): its type and
/// flags are the words at bytes 0 and 4, its file offset, virtual address
/// (`p_vaddr`), physical address (`p_paddr`), file size, memory size and
/// alignment the quadwords at bytes 8, 16, 24, 32, 40 and 48.
pub proof fn segments_follow_program_header_layout(d: Seq<u8>, i: int)
    requires
        elf_header_error(d) is None,
        0 <= i < elf_segments(d).len(),
    ensures
        ({
            let o = le_u64(d, 32) + 56 * i;
            let s = elf_segments(d)[i];
            &&& s.typ == le_u32(d, o) as u32
            &&& s.flags == le_u32(d, o + 4) as u32
            &&& s.file_offset == le_u64(d, o + 8) as u64
            &&& s.virt_addr == le_u64(d, o + 16) as u64
            &&& s.phys_addr == le_u64(d, o + 24) as u64
            &&& s.file_size == le_u64(d, o + 32) as u64
            &&& s.mem_size == le_u64(d, o + 40) as u64
            &&& s.align == le_u64(d, o + 48) as u64
        }),
{
}

} // verus!
