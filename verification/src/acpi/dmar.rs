//! DMA Remapping (DMAR) table parser.

use vstd::prelude::*;

use crate::acpi::error::AcpiError;
use crate::acpi::sdt::same_signature;
use crate::acpi::table::{
    parse_sdt_header, sdt_header_error, sdt_header_of, sdt_header_valid, SdtHeader, SDT_HEADER_LEN,
};
use crate::bytes::{get_u16, get_u64, le_u16, le_u32, le_u64};
use crate::types::{HostPhysAddr, PciSegment};

verus! {

/// DMAR signature.
pub const DMAR_SIGNATURE: [u8; 4] = [0x44, 0x4d, 0x41, 0x52];

/// Fixed-length body prefix following the SDT header.
pub const DMAR_BODY_LEN: usize = 12;

/// DMA-remapping hardware definition structure type.
pub const DMAR_TYPE_DRHD: u16 = 0;

/// Minimum length of a DRHD structure.
pub const DRHD_ENTRY_LEN: u16 = 16;

/// DMAR flags: interrupt remapping is supported.
pub const DMAR_FLAG_INTR_REMAP: u8 = 1;

/// DRHD flags: all PCI devices behind this unit are included.
pub const DRHD_FLAG_INCLUDE_PCI_ALL: u8 = 1;

/// Summary of a DRHD remapping structure.
#[derive(Clone, Copy, Debug, PartialEq, Eq)]
pub struct DrhdEntry {
    /// PCI segment number for this remapping hardware unit.
    pub segment: PciSegment,
    /// MMIO base of the remapping hardware registers.
    pub register_base: HostPhysAddr,
    /// When set, all PCI devices in the segment are under this unit.
    pub include_all_pci: bool,
}

/// Parsed DMAR summary for platform observation.
#[derive(Clone, Debug, PartialEq, Eq)]
pub struct DmarSummary {
    /// SDT header for the DMAR table.
    pub header: SdtHeader,
    /// Host address width minus one (e.g. 39 means 40-bit addresses).
    pub host_address_width: u8,
    /// When set, the platform advertises interrupt remapping support.
    pub interrupt_remapping: bool,
    /// DRHD remapping hardware definitions.
    pub drhd_entries: Vec<DrhdEntry>,
}

impl DmarSummary {
    /// Returns true when at least one DRHD entry is present.
    pub fn has_drhd(&self) -> (r: bool)
        ensures
            r == (self.drhd_entries@.len() > 0),
    {
        self.drhd_entries.len() != 0
    }
}

/// The DRHD structure stored at `off`.
pub open spec fn drhd_at(d: Seq<u8>, off: int) -> DrhdEntry {
    DrhdEntry {
        segment: PciSegment(le_u16(d, off + 6) as u16),
        register_base: HostPhysAddr(le_u64(d, off + 8) as u64),
        include_all_pci: d[off + 4] & DRHD_FLAG_INCLUDE_PCI_ALL != 0,
    }
}

/// Entries collected so far, prepended to the outcome of the rest of the walk.
pub open spec fn dmar_prepend(l: Seq<DrhdEntry>, rest: Result<Seq<DrhdEntry>, AcpiError>) -> Result<
    Seq<DrhdEntry>,
    AcpiError,
> {
    match rest {
        Ok(a) => Ok(l + a),
        Err(e) => Err(e),
    }
}

/// Walk over the remapping structures in `d[off..end)`; a tail shorter than a
/// structure header is ignored.
pub open spec fn dmar_walk(d: Seq<u8>, off: int, end: int) -> Result<Seq<DrhdEntry>, AcpiError>
    decreases end - off,
{
    if off + 4 > end {
        Ok(Seq::empty())
    } else {
        let ty = le_u16(d, off);
        let slen = le_u16(d, off + 2);
        if slen == 0 {
            Err(
                AcpiError::InvalidStructure {
                    kind: "DMAR structure",
                    reason: "zero-length structure",
                },
            )
        } else if off + slen > usize::MAX {
            Err(
                AcpiError::InvalidStructure {
                    kind: "DMAR structure",
                    reason: "structure length overflow",
                },
            )
        } else if off + slen > end {
            Err(
                AcpiError::InvalidStructure {
                    kind: "DMAR structure",
                    reason: "structure extends past table end",
                },
            )
        } else if ty == DMAR_TYPE_DRHD && slen < DRHD_ENTRY_LEN {
            Err(AcpiError::InvalidStructure { kind: "DRHD", reason: "structure shorter than minimum" })
        } else if ty == DMAR_TYPE_DRHD {
            dmar_prepend(seq![drhd_at(d, off)], dmar_walk(d, off + slen, end))
        } else {
            dmar_walk(d, off + slen, end)
        }
    }
}

/// Parses a DMAR table from `data`. DRHD structures are collected; other
/// remapping structure types are skipped by their declared lengths.
pub fn parse_dmar(data: &[u8]) -> (r: Result<DmarSummary, AcpiError>)
    ensures
        !sdt_header_valid(data@) ==> r == Err::<DmarSummary, AcpiError>(sdt_header_error(data@)),
        sdt_header_valid(data@) && data@.subrange(0, 4) != DMAR_SIGNATURE@ ==> (r is Err && (
        r->Err_0 matches AcpiError::InvalidSignature { expected, found } && expected == "DMAR"
            && found@ == data@.subrange(0, 4))),
        sdt_header_valid(data@) && data@.subrange(0, 4) == DMAR_SIGNATURE@ ==> {
            let len = le_u32(data@, 4);
            let body = SDT_HEADER_LEN + DMAR_BODY_LEN;
            &&& len < body ==> r == Err::<DmarSummary, AcpiError>(
                AcpiError::InvalidLength { context: "DMAR", length: len as u32 },
            )
            &&& len >= body ==> match dmar_walk(data@, body as int, len) {
                Err(e) => r == Err::<DmarSummary, AcpiError>(e),
                Ok(entries) => r matches Ok(m) && {
                    &&& sdt_header_of(data@, m.header)
                    &&& m.host_address_width == data@[36]
                    &&& m.interrupt_remapping == (data@[37] & DMAR_FLAG_INTR_REMAP != 0)
                    &&& m.drhd_entries@ == entries
                },
            }
        },
{
    let header = parse_sdt_header(data)?;
    if !same_signature(header.signature, DMAR_SIGNATURE) {
        return Err(AcpiError::InvalidSignature { expected: "DMAR", found: header.signature });
    }
    let table_len = header.length as usize;
    if table_len < SDT_HEADER_LEN + DMAR_BODY_LEN {
        return Err(AcpiError::InvalidLength { context: "DMAR", length: header.length });
    }
    let host_address_width = data[SDT_HEADER_LEN];
    let flags = data[SDT_HEADER_LEN + 1];
    let interrupt_remapping = flags & DMAR_FLAG_INTR_REMAP != 0;
    let mut drhd_entries: Vec<DrhdEntry> = Vec::new();
    let mut offset: usize = SDT_HEADER_LEN + DMAR_BODY_LEN;
    let ghost start = offset as int;
    while offset <= table_len - 4
        invariant
            sdt_header_valid(data@),
            data@.subrange(0, 4) == DMAR_SIGNATURE@,
            table_len == le_u32(data@, 4),
            table_len <= data@.len(),
            table_len >= 4,
            start == SDT_HEADER_LEN + DMAR_BODY_LEN,
            start <= offset <= table_len,
            dmar_walk(data@, start, table_len as int) == dmar_prepend(
                drhd_entries@,
                dmar_walk(data@, offset as int, table_len as int),
            ),
        decreases table_len - offset,
    {
        let structure_type = get_u16(data, offset);
        let structure_len = get_u16(data, offset + 2);
        if structure_len == 0 {
            return Err(
                AcpiError::InvalidStructure {
                    kind: "DMAR structure",
                    reason: "zero-length structure",
                },
            );
        }
        let end = match offset.checked_add(structure_len as usize) {
            Some(v) => v,
            None => {
                return Err(
                    AcpiError::InvalidStructure {
                        kind: "DMAR structure",
                        reason: "structure length overflow",
                    },
                );
            },
        };
        if end > table_len {
            return Err(
                AcpiError::InvalidStructure {
                    kind: "DMAR structure",
                    reason: "structure extends past table end",
                },
            );
        }
        if structure_type == DMAR_TYPE_DRHD {
            if structure_len < DRHD_ENTRY_LEN {
                return Err(
                    AcpiError::InvalidStructure {
                        kind: "DRHD",
                        reason: "structure shorter than minimum",
                    },
                );
            }
            let drhd_flags = data[offset + 4];
            let entry = DrhdEntry {
                segment: PciSegment::new(get_u16(data, offset + 6)),
                register_base: HostPhysAddr::new(get_u64(data, offset + 8)),
                include_all_pci: drhd_flags & DRHD_FLAG_INCLUDE_PCI_ALL != 0,
            };
            proof {
                assert(entry == drhd_at(data@, offset as int));
                let rest = dmar_walk(data@, end as int, table_len as int);
                assert(dmar_walk(data@, offset as int, table_len as int) == dmar_prepend(seq![entry], rest));
                match rest {
                    Ok(a) => {
                        assert(drhd_entries@ + (seq![entry] + a) =~= (drhd_entries@ + seq![entry]) + a);
                    },
                    Err(_) => {},
                }
            }
            let ghost before = drhd_entries@;
            drhd_entries.push(entry);
            assert(drhd_entries@ =~= before + seq![entry]);
        } else {
            assert(dmar_walk(data@, offset as int, table_len as int) == dmar_walk(
                data@,
                end as int,
                table_len as int,
            ));
        }
        offset = end;
    }
    assert(drhd_entries@ + Seq::<DrhdEntry>::empty() =~= drhd_entries@);
    Ok(DmarSummary { header, host_address_width, interrupt_remapping, drhd_entries })
}

} // verus!
