//! PCI Express MCFG table parser.

use vstd::prelude::*;

use crate::acpi::error::AcpiError;
use crate::acpi::sdt::sig_eq;
use crate::acpi::table::{
    parse_sdt_header, sdt_header_error, sdt_header_of, sdt_header_valid, SdtHeader, SDT_HEADER_LEN,
};
use crate::bytes::{get_u16, get_u64, le_u16, le_u32, le_u64};
use crate::types::{HostPhysAddr, PciBus, PciSegment};

verus! {

/// MCFG signature.
pub const MCFG_SIGNATURE: [u8; 4] = [0x4d, 0x43, 0x46, 0x47];

/// Reserved bytes following the SDT header.
pub const MCFG_RESERVED_LEN: usize = 8;

/// Length of each MCFG allocation structure.
pub const MCFG_ENTRY_LEN: usize = 44;

/// Summary of one MCFG allocation structure.
#[derive(Clone, Copy, Debug, PartialEq, Eq)]
pub struct McfgEntry {
    /// ECAM base address for this segment and bus range.
    pub base_address: HostPhysAddr,
    /// PCI segment (domain) number.
    pub segment: PciSegment,
    /// First bus number covered by this ECAM window.
    pub start_bus: PciBus,
    /// Last bus number covered by this ECAM window.
    pub end_bus: PciBus,
}

impl McfgEntry {
    /// Returns the inclusive number of buses covered by this entry, computed
    /// with 16-bit wrapping arithmetic.
    pub fn bus_count(&self) -> (r: u16)
        ensures
            r == (self.end_bus.0 - self.start_bus.0 + 1 + 0x1_0000) % 0x1_0000,
    {
        let end = self.end_bus.raw() as u16;
        let start = self.start_bus.raw() as u16;
        end.wrapping_sub(start).wrapping_add(1)
    }
}

/// Parsed MCFG summary for platform observation.
#[derive(Clone, Debug, PartialEq, Eq)]
pub struct McfgSummary {
    /// SDT header for the MCFG table.
    pub header: SdtHeader,
    /// ECAM allocation entries.
    pub entries: Vec<McfgEntry>,
}

impl McfgSummary {
    /// Returns true when at least one ECAM allocation is present.
    pub fn has_ecam(&self) -> (r: bool)
        ensures
            r == (self.entries@.len() > 0),
    {
        self.entries.len() != 0
    }
}

/// The allocation structure stored at `off`.
pub open spec fn mcfg_entry_at(d: Seq<u8>, off: int) -> McfgEntry {
    McfgEntry {
        base_address: HostPhysAddr(le_u64(d, off) as u64),
        segment: PciSegment(le_u16(d, off + 8) as u16),
        start_bus: PciBus(d[off + 10]),
        end_bus: PciBus(d[off + 11]),
    }
}

/// First byte of the allocation array.
pub open spec fn mcfg_body_start() -> int {
    SDT_HEADER_LEN + MCFG_RESERVED_LEN
}

/// All allocation structures of a table of `len` declared bytes.
pub open spec fn mcfg_entries(d: Seq<u8>, len: int) -> Seq<McfgEntry> {
    Seq::new(
        ((len - mcfg_body_start()) / MCFG_ENTRY_LEN as int) as nat,
        |i: int| mcfg_entry_at(d, mcfg_body_start() + i * MCFG_ENTRY_LEN),
    )
}

/// An allocation whose bus range is inverted.
pub open spec fn mcfg_entry_bad(e: McfgEntry) -> bool {
    e.end_bus.0 < e.start_bus.0
}

/// Parses an MCFG table from `data`.
pub fn parse_mcfg(data: &[u8]) -> (r: Result<McfgSummary, AcpiError>)
    ensures
        !sdt_header_valid(data@) ==> r == Err::<McfgSummary, AcpiError>(sdt_header_error(data@)),
        sdt_header_valid(data@) && data@.subrange(0, 4) != MCFG_SIGNATURE@ ==> (r is Err && (
        r->Err_0 matches AcpiError::InvalidSignature { expected, found } && expected == "MCFG"
            && found@ == data@.subrange(0, 4))),
        sdt_header_valid(data@) && data@.subrange(0, 4) == MCFG_SIGNATURE@ ==> {
            let len = le_u32(data@, 4);
            let entries = mcfg_entries(data@, len);
            &&& len < mcfg_body_start() ==> r == Err::<McfgSummary, AcpiError>(
                AcpiError::InvalidLength { context: "MCFG", length: len as u32 },
            )
            &&& len >= mcfg_body_start() && (len - mcfg_body_start()) % MCFG_ENTRY_LEN as int != 0
                ==> r == Err::<McfgSummary, AcpiError>(
                AcpiError::InvalidStructure {
                    kind: "MCFG",
                    reason: "allocation array length is not a multiple of 44",
                },
            )
            &&& len >= mcfg_body_start() && (len - mcfg_body_start()) % MCFG_ENTRY_LEN as int == 0
                ==> {
                &&& (exists|i: int| 0 <= i < entries.len() && mcfg_entry_bad(#[trigger] entries[i]))
                    ==> r == Err::<McfgSummary, AcpiError>(
                    AcpiError::InvalidStructure {
                        kind: "MCFG entry",
                        reason: "end bus is less than start bus",
                    },
                )
                &&& (forall|i: int| 0 <= i < entries.len() ==> !mcfg_entry_bad(#[trigger] entries[i]))
                    ==> (r matches Ok(m) && sdt_header_of(data@, m.header) && m.entries@ == entries)
            }
        },
{
    let header = parse_sdt_header(data)?;
    if !crate::acpi::sdt::same_signature(header.signature, MCFG_SIGNATURE) {
        return Err(AcpiError::InvalidSignature { expected: "MCFG", found: header.signature });
    }
    let table_len = header.length as usize;
    let min_len = SDT_HEADER_LEN + MCFG_RESERVED_LEN;
    if table_len < min_len {
        return Err(AcpiError::InvalidLength { context: "MCFG", length: header.length });
    }
    let body_len = table_len - min_len;
    if body_len % MCFG_ENTRY_LEN != 0 {
        return Err(
            AcpiError::InvalidStructure {
                kind: "MCFG",
                reason: "allocation array length is not a multiple of 44",
            },
        );
    }
    let ghost entries = mcfg_entries(data@, table_len as int);
    let n = body_len / MCFG_ENTRY_LEN;
    let mut out: Vec<McfgEntry> = Vec::new();
    let mut i: usize = 0;
    while i < n
        invariant
            sdt_header_valid(data@),
            data@.subrange(0, 4) == MCFG_SIGNATURE@,
            table_len == le_u32(data@, 4),
            n == entries.len(),
            min_len == mcfg_body_start(),
            table_len == min_len + n * MCFG_ENTRY_LEN,
            table_len <= data@.len(),
            entries == mcfg_entries(data@, table_len as int),
            i <= n,
            out@ == entries.subrange(0, i as int),
            forall|j: int| 0 <= j < i ==> !mcfg_entry_bad(#[trigger] entries[j]),
        decreases n - i,
    {
        proof {
            assert(i * MCFG_ENTRY_LEN + MCFG_ENTRY_LEN <= n * MCFG_ENTRY_LEN) by (nonlinear_arith)
                requires
                    i < n,
            ;
        }
        let offset = min_len + i * MCFG_ENTRY_LEN;
        let entry = McfgEntry {
            base_address: HostPhysAddr::new(get_u64(data, offset)),
            segment: PciSegment::new(get_u16(data, offset + 8)),
            start_bus: PciBus::new(data[offset + 10]),
            end_bus: PciBus::new(data[offset + 11]),
        };
        assert(entry == entries[i as int]);
        if entry.end_bus.raw() < entry.start_bus.raw() {
            return Err(
                AcpiError::InvalidStructure {
                    kind: "MCFG entry",
                    reason: "end bus is less than start bus",
                },
            );
        }
        out.push(entry);
        i = i + 1;
        proof {
            assert(out@ =~= entries.subrange(0, i as int));
        }
    }
    assert(out@ =~= entries);
    Ok(McfgSummary { header, entries: out })
}

} // verus!
