//! Multiple APIC Description Table (MADT) parser.

use vstd::prelude::*;

use crate::acpi::error::AcpiError;
use crate::acpi::sdt::same_signature;
use crate::acpi::table::{
    parse_sdt_header, read_u8, sdt_header_error, sdt_header_of, sdt_header_valid, too_short,
    SdtHeader, SDT_HEADER_LEN,
};
use crate::bytes::{get_u32, le_u32};
use crate::types::{ApicId, HostPhysAddr};

verus! {

/// MADT signature.
pub const MADT_SIGNATURE: [u8; 4] = [0x41, 0x50, 0x49, 0x43];

/// Fixed-length body prefix following the SDT header.
pub const MADT_BODY_LEN: usize = 8;

/// Processor Local APIC structure type.
pub const MADT_TYPE_LOCAL_APIC: u8 = 0;

/// Processor Local x2APIC structure type.
pub const MADT_TYPE_LOCAL_X2APIC: u8 = 9;

/// Minimum length of a Processor Local APIC structure.
pub const LOCAL_APIC_ENTRY_LEN: u8 = 8;

/// Minimum length of a Processor Local x2APIC structure.
pub const LOCAL_X2APIC_ENTRY_LEN: u8 = 16;

/// Local APIC flags: processor is enabled.
pub const LOCAL_APIC_ENABLED: u32 = 1;

/// Summary of a Processor Local APIC entry.
#[derive(Clone, Copy, Debug, PartialEq, Eq)]
pub struct LocalApicEntry {
    /// ACPI processor UID.
    pub processor_uid: u8,
    /// Local APIC ID.
    pub apic_id: ApicId,
    /// Whether the processor is enabled in ACPI.
    pub enabled: bool,
}

/// Summary of a Processor Local x2APIC entry.
#[derive(Clone, Copy, Debug, PartialEq, Eq)]
pub struct X2ApicEntry {
    /// ACPI processor UID.
    pub processor_uid: u32,
    /// x2APIC ID.
    pub apic_id: ApicId,
    /// Whether the processor is enabled in ACPI.
    pub enabled: bool,
}

/// Parsed MADT summary for platform observation.
#[derive(Clone, Debug, PartialEq, Eq)]
pub struct MadtSummary {
    /// SDT header for the MADT.
    pub header: SdtHeader,
    /// Local APIC MMIO base address.
    pub local_apic_address: HostPhysAddr,
    /// When set, the platform also has dual 8259 PICs.
    pub pc_at_compatible: bool,
    /// Enabled and disabled local APIC processor entries.
    pub local_apics: Vec<LocalApicEntry>,
    /// Enabled and disabled x2APIC processor entries.
    pub x2_apics: Vec<X2ApicEntry>,
}

/// Number of enabled local APIC entries.
pub open spec fn enabled_local(s: Seq<LocalApicEntry>) -> int
    decreases s.len(),
{
    if s.len() == 0 {
        0
    } else {
        enabled_local(s.drop_last()) + if s.last().enabled { 1int } else { 0 }
    }
}

/// Number of enabled x2APIC entries.
pub open spec fn enabled_x2(s: Seq<X2ApicEntry>) -> int
    decreases s.len(),
{
    if s.len() == 0 {
        0
    } else {
        enabled_x2(s.drop_last()) + if s.last().enabled { 1int } else { 0 }
    }
}

proof fn lemma_enabled_local_bound(s: Seq<LocalApicEntry>)
    ensures
        0 <= enabled_local(s) <= s.len(),
    decreases s.len(),
{
    if s.len() > 0 {
        lemma_enabled_local_bound(s.drop_last());
    }
}

proof fn lemma_enabled_x2_bound(s: Seq<X2ApicEntry>)
    ensures
        0 <= enabled_x2(s) <= s.len(),
    decreases s.len(),
{
    if s.len() > 0 {
        lemma_enabled_x2_bound(s.drop_last());
    }
}

impl MadtSummary {
    /// Number of enabled processors across local APIC and x2APIC entries.
    pub open spec fn spec_enabled_count(&self) -> int {
        enabled_local(self.local_apics@) + enabled_x2(self.x2_apics@)
    }

    /// Returns the count of enabled local and x2APIC processors.
    pub fn enabled_processor_count(&self) -> (r: usize)
        requires
            self.local_apics@.len() + self.x2_apics@.len() <= usize::MAX,
        ensures
            r == self.spec_enabled_count(),
    {
        let mut local: usize = 0;
        let mut i: usize = 0;
        while i < self.local_apics.len()
            invariant
                i <= self.local_apics@.len(),
                local == enabled_local(self.local_apics@.subrange(0, i as int)),
                local <= i,
            decreases self.local_apics@.len() - i,
        {
            proof {
                assert(self.local_apics@.subrange(0, i + 1).drop_last() =~= self.local_apics@.subrange(
                    0,
                    i as int,
                ));
            }
            if self.local_apics[i].enabled {
                local = local + 1;
            }
            i = i + 1;
        }
        let mut x2: usize = 0;
        let mut j: usize = 0;
        while j < self.x2_apics.len()
            invariant
                j <= self.x2_apics@.len(),
                x2 == enabled_x2(self.x2_apics@.subrange(0, j as int)),
                x2 <= j,
            decreases self.x2_apics@.len() - j,
        {
            proof {
                assert(self.x2_apics@.subrange(0, j + 1).drop_last() =~= self.x2_apics@.subrange(
                    0,
                    j as int,
                ));
            }
            if self.x2_apics[j].enabled {
                x2 = x2 + 1;
            }
            j = j + 1;
        }
        assert(self.local_apics@.subrange(0, self.local_apics@.len() as int) =~= self.local_apics@);
        assert(self.x2_apics@.subrange(0, self.x2_apics@.len() as int) =~= self.x2_apics@);
        local + x2
    }

    /// Returns true when any x2APIC entries are present.
    pub fn has_x2apic(&self) -> (r: bool)
        ensures
            r == (self.x2_apics@.len() > 0),
    {
        self.x2_apics.len() != 0
    }
}

/// The Local APIC entry stored at `off`.
pub open spec fn local_apic_at(d: Seq<u8>, off: int) -> LocalApicEntry {
    LocalApicEntry {
        processor_uid: d[off + 2],
        apic_id: ApicId(d[off + 3] as u32),
        enabled: (le_u32(d, off + 4) as u32) & LOCAL_APIC_ENABLED != 0,
    }
}

/// The x2APIC entry stored at `off`.
pub open spec fn x2apic_at(d: Seq<u8>, off: int) -> X2ApicEntry {
    X2ApicEntry {
        processor_uid: le_u32(d, off + 12) as u32,
        apic_id: ApicId(le_u32(d, off + 4) as u32),
        enabled: (le_u32(d, off + 8) as u32) & LOCAL_APIC_ENABLED != 0,
    }
}

/// Entries collected so far, prepended to the outcome of the rest of the walk.
pub open spec fn madt_prepend(
    l: Seq<LocalApicEntry>,
    x: Seq<X2ApicEntry>,
    rest: Result<(Seq<LocalApicEntry>, Seq<X2ApicEntry>), AcpiError>,
) -> Result<(Seq<LocalApicEntry>, Seq<X2ApicEntry>), AcpiError> {
    match rest {
        Ok((a, b)) => Ok((l + a, x + b)),
        Err(e) => Err(e),
    }
}

/// Walk over the interrupt controller structures in `d[off..end)`.
pub open spec fn madt_walk(d: Seq<u8>, off: int, end: int) -> Result<
    (Seq<LocalApicEntry>, Seq<X2ApicEntry>),
    AcpiError,
>
    decreases end - off,
{
    if off >= end {
        Ok((Seq::empty(), Seq::empty()))
    } else if off + 2 > d.len() {
        Err(too_short(off + 2, d.len() as int))
    } else {
        let ty = d[off];
        let elen = d[off + 1] as int;
        if elen == 0 {
            Err(
                AcpiError::InvalidStructure {
                    kind: "MADT entry",
                    reason: "zero-length structure",
                },
            )
        } else if off + elen > usize::MAX {
            Err(
                AcpiError::InvalidStructure {
                    kind: "MADT entry",
                    reason: "structure length overflow",
                },
            )
        } else if off + elen > end {
            Err(
                AcpiError::InvalidStructure {
                    kind: "MADT entry",
                    reason: "structure extends past table end",
                },
            )
        } else if ty == MADT_TYPE_LOCAL_APIC && elen < LOCAL_APIC_ENTRY_LEN {
            Err(
                AcpiError::InvalidStructure {
                    kind: "Local APIC",
                    reason: "structure shorter than minimum",
                },
            )
        } else if ty == MADT_TYPE_LOCAL_X2APIC && elen < LOCAL_X2APIC_ENTRY_LEN {
            Err(
                AcpiError::InvalidStructure {
                    kind: "Local x2APIC",
                    reason: "structure shorter than minimum",
                },
            )
        } else if ty == MADT_TYPE_LOCAL_APIC {
            madt_prepend(seq![local_apic_at(d, off)], Seq::empty(), madt_walk(d, off + elen, end))
        } else if ty == MADT_TYPE_LOCAL_X2APIC {
            madt_prepend(Seq::empty(), seq![x2apic_at(d, off)], madt_walk(d, off + elen, end))
        } else {
            madt_walk(d, off + elen, end)
        }
    }
}

proof fn lemma_madt_prepend_assoc(
    l1: Seq<LocalApicEntry>,
    x1: Seq<X2ApicEntry>,
    l2: Seq<LocalApicEntry>,
    x2: Seq<X2ApicEntry>,
    rest: Result<(Seq<LocalApicEntry>, Seq<X2ApicEntry>), AcpiError>,
)
    ensures
        madt_prepend(l1, x1, madt_prepend(l2, x2, rest)) == madt_prepend(l1 + l2, x1 + x2, rest),
{
    match rest {
        Ok((a, b)) => {
            assert(l1 + (l2 + a) =~= (l1 + l2) + a);
            assert(x1 + (x2 + b) =~= (x1 + x2) + b);
        },
        Err(_) => {},
    }
}

/// Parses a MADT from `data`. Local APIC and x2APIC entries are collected;
/// other interrupt controller structures are skipped by their declared lengths.
pub fn parse_madt(data: &[u8]) -> (r: Result<MadtSummary, AcpiError>)
    requires
        data@.len() < usize::MAX,
    ensures
        !sdt_header_valid(data@) ==> r == Err::<MadtSummary, AcpiError>(sdt_header_error(data@)),
        sdt_header_valid(data@) && data@.subrange(0, 4) != MADT_SIGNATURE@ ==> (r is Err && (
        r->Err_0 matches AcpiError::InvalidSignature { expected, found } && expected == "APIC"
            && found@ == data@.subrange(0, 4))),
        sdt_header_valid(data@) && data@.subrange(0, 4) == MADT_SIGNATURE@ ==> {
            let len = le_u32(data@, 4);
            let body = SDT_HEADER_LEN + MADT_BODY_LEN;
            &&& len < body ==> r == Err::<MadtSummary, AcpiError>(
                AcpiError::InvalidLength { context: "MADT", length: len as u32 },
            )
            &&& len >= body ==> match madt_walk(data@, body as int, len) {
                Err(e) => r == Err::<MadtSummary, AcpiError>(e),
                Ok((locals, x2s)) => r matches Ok(m) && {
                    &&& sdt_header_of(data@, m.header)
                    &&& m.local_apic_address == HostPhysAddr(le_u32(data@, 36) as u64)
                    &&& m.pc_at_compatible == ((le_u32(data@, 40) as u32) & 1 != 0)
                    &&& m.local_apics@ == locals
                    &&& m.x2_apics@ == x2s
                },
            }
        },
{
    let header = parse_sdt_header(data)?;
    if !same_signature(header.signature, MADT_SIGNATURE) {
        return Err(AcpiError::InvalidSignature { expected: "APIC", found: header.signature });
    }
    let table_len = header.length as usize;
    if table_len < SDT_HEADER_LEN + MADT_BODY_LEN {
        return Err(AcpiError::InvalidLength { context: "MADT", length: header.length });
    }
    let local_apic_phys = get_u32(data, SDT_HEADER_LEN);
    let flags = get_u32(data, SDT_HEADER_LEN + 4);
    let local_apic_address = HostPhysAddr::new(local_apic_phys as u64);
    let pc_at_compatible = flags & 1 != 0;
    let mut local_apics: Vec<LocalApicEntry> = Vec::new();
    let mut x2_apics: Vec<X2ApicEntry> = Vec::new();
    let mut offset: usize = SDT_HEADER_LEN + MADT_BODY_LEN;
    let ghost start = offset as int;
    while offset < table_len
        invariant
            data@.len() < usize::MAX,
            sdt_header_valid(data@),
            data@.subrange(0, 4) == MADT_SIGNATURE@,
            table_len == le_u32(data@, 4),
            table_len <= data@.len(),
            start == SDT_HEADER_LEN + MADT_BODY_LEN,
            start <= offset <= table_len,
            madt_walk(data@, start, table_len as int) == madt_prepend(
                local_apics@,
                x2_apics@,
                madt_walk(data@, offset as int, table_len as int),
            ),
        decreases table_len - offset,
    {
        let entry_type = data[offset];
        let entry_len = match read_u8(data, offset + 1) {
            Ok(v) => v,
            Err(e) => return Err(e),
        };
        if entry_len == 0 {
            return Err(
                AcpiError::InvalidStructure {
                    kind: "MADT entry",
                    reason: "zero-length structure",
                },
            );
        }
        let end = match offset.checked_add(entry_len as usize) {
            Some(v) => v,
            None => {
                return Err(
                    AcpiError::InvalidStructure {
                        kind: "MADT entry",
                        reason: "structure length overflow",
                    },
                );
            },
        };
        if end > table_len {
            return Err(
                AcpiError::InvalidStructure {
                    kind: "MADT entry",
                    reason: "structure extends past table end",
                },
            );
        }
        if entry_type == MADT_TYPE_LOCAL_APIC {
            if entry_len < LOCAL_APIC_ENTRY_LEN {
                return Err(
                    AcpiError::InvalidStructure {
                        kind: "Local APIC",
                        reason: "structure shorter than minimum",
                    },
                );
            }
            let entry_flags = get_u32(data, offset + 4);
            let entry = LocalApicEntry {
                processor_uid: data[offset + 2],
                apic_id: ApicId::new(data[offset + 3] as u32),
                enabled: entry_flags & LOCAL_APIC_ENABLED != 0,
            };
            proof {
                assert(entry == local_apic_at(data@, offset as int));
                assert(madt_walk(data@, offset as int, table_len as int) == madt_prepend(seq![entry], Seq::empty(), madt_walk(data@, end as int, table_len as int)));
                lemma_madt_prepend_assoc(
                    local_apics@,
                    x2_apics@,
                    seq![entry],
                    Seq::empty(),
                    madt_walk(data@, end as int, table_len as int),
                );
                assert(x2_apics@ + Seq::<X2ApicEntry>::empty() =~= x2_apics@);
            }
            local_apics.push(entry);
        } else if entry_type == MADT_TYPE_LOCAL_X2APIC {
            if entry_len < LOCAL_X2APIC_ENTRY_LEN {
                return Err(
                    AcpiError::InvalidStructure {
                        kind: "Local x2APIC",
                        reason: "structure shorter than minimum",
                    },
                );
            }
            let entry = X2ApicEntry {
                processor_uid: get_u32(data, offset + 12),
                apic_id: ApicId::new(get_u32(data, offset + 4)),
                enabled: get_u32(data, offset + 8) & LOCAL_APIC_ENABLED != 0,
            };
            proof {
                assert(entry == x2apic_at(data@, offset as int));
                assert(madt_walk(data@, offset as int, table_len as int) == madt_prepend(Seq::empty(), seq![entry], madt_walk(data@, end as int, table_len as int)));
                lemma_madt_prepend_assoc(
                    local_apics@,
                    x2_apics@,
                    Seq::empty(),
                    seq![entry],
                    madt_walk(data@, end as int, table_len as int),
                );
                assert(local_apics@ + Seq::<LocalApicEntry>::empty() =~= local_apics@);
            }
            x2_apics.push(entry);
        } else {
            assert(madt_walk(data@, offset as int, table_len as int) == madt_walk(data@, end as int, table_len as int));
        }
        offset = end;
    }
    proof {
        assert(local_apics@ + Seq::<LocalApicEntry>::empty() =~= local_apics@);
        assert(x2_apics@ + Seq::<X2ApicEntry>::empty() =~= x2_apics@);
    }
    Ok(MadtSummary { header, local_apic_address, pc_at_compatible, local_apics, x2_apics })
}

} // verus!
