//! Aggregated ACPI observations used when constructing the observed platform.

use vstd::prelude::*;

use crate::acpi::dmar::DmarSummary;
use crate::acpi::madt::MadtSummary;
use crate::acpi::mcfg::McfgSummary;
use crate::acpi::rsdp::Rsdp;
use crate::acpi::sdt::{Rsdt, Xsdt};
use crate::types::HostPhysAddr;

verus! {

/// Aggregated ACPI observations.
#[derive(Clone, Debug, PartialEq, Eq)]
pub struct AcpiPlatformSummary {
    /// Parsed RSDP when available.
    pub rsdp: Option<Rsdp>,
    /// Parsed XSDT when discovered.
    pub xsdt: Option<Xsdt>,
    /// Parsed RSDT when discovered (typically when XSDT is absent).
    pub rsdt: Option<Rsdt>,
    /// Parsed MADT summary when discovered.
    pub madt: Option<MadtSummary>,
    /// Parsed DMAR summary when discovered.
    pub dmar: Option<DmarSummary>,
    /// Parsed MCFG summary when discovered.
    pub mcfg: Option<McfgSummary>,
}

/// A copy of a vector of plain values.
pub(crate) fn copy_vec<T: Copy>(src: &Vec<T>) -> (r: Vec<T>)
    ensures
        r@ == src@,
{
    let mut out: Vec<T> = Vec::new();
    let mut i: usize = 0;
    while i < src.len()
        invariant
            i <= src@.len(),
            out@ == src@.subrange(0, i as int),
        decreases src@.len() - i,
    {
        out.push(src[i]);
        i = i + 1;
        proof {
            assert(out@ =~= src@.subrange(0, i as int));
        }
    }
    assert(src@.subrange(0, src@.len() as int) =~= src@);
    out
}

/// Two summaries hold the same tables.
pub open spec fn same_summary(a: AcpiPlatformSummary, b: AcpiPlatformSummary) -> bool {
    &&& a.rsdp == b.rsdp
    &&& match (a.xsdt, b.xsdt) {
        (None, None) => true,
        (Some(x), Some(y)) => x.header == y.header && x.entries@ == y.entries@,
        _ => false,
    }
    &&& match (a.rsdt, b.rsdt) {
        (None, None) => true,
        (Some(x), Some(y)) => x.header == y.header && x.entries@ == y.entries@,
        _ => false,
    }
    &&& match (a.madt, b.madt) {
        (None, None) => true,
        (Some(x), Some(y)) => x.header == y.header && x.local_apic_address == y.local_apic_address
            && x.pc_at_compatible == y.pc_at_compatible && x.local_apics@ == y.local_apics@
            && x.x2_apics@ == y.x2_apics@,
        _ => false,
    }
    &&& match (a.dmar, b.dmar) {
        (None, None) => true,
        (Some(x), Some(y)) => x.header == y.header && x.host_address_width == y.host_address_width
            && x.interrupt_remapping == y.interrupt_remapping && x.drhd_entries@ == y.drhd_entries@,
        _ => false,
    }
    &&& match (a.mcfg, b.mcfg) {
        (None, None) => true,
        (Some(x), Some(y)) => x.header == y.header && x.entries@ == y.entries@,
        _ => false,
    }
}

impl AcpiPlatformSummary {
    /// A copy holding the same tables.
    pub(crate) fn copy(&self) -> (r: Self)
        ensures
            same_summary(*self, r),
    {
        let xsdt = match &self.xsdt {
            Some(x) => Some(Xsdt { header: x.header, entries: copy_vec(&x.entries) }),
            None => None,
        };
        let rsdt = match &self.rsdt {
            Some(x) => Some(Rsdt { header: x.header, entries: copy_vec(&x.entries) }),
            None => None,
        };
        let madt = match &self.madt {
            Some(x) => Some(
                MadtSummary {
                    header: x.header,
                    local_apic_address: x.local_apic_address,
                    pc_at_compatible: x.pc_at_compatible,
                    local_apics: copy_vec(&x.local_apics),
                    x2_apics: copy_vec(&x.x2_apics),
                },
            ),
            None => None,
        };
        let dmar = match &self.dmar {
            Some(x) => Some(
                DmarSummary {
                    header: x.header,
                    host_address_width: x.host_address_width,
                    interrupt_remapping: x.interrupt_remapping,
                    drhd_entries: copy_vec(&x.drhd_entries),
                },
            ),
            None => None,
        };
        let mcfg = match &self.mcfg {
            Some(x) => Some(McfgSummary { header: x.header, entries: copy_vec(&x.entries) }),
            None => None,
        };
        AcpiPlatformSummary { rsdp: self.rsdp, xsdt, rsdt, madt, dmar, mcfg }
    }

    /// Creates an empty summary.
    pub fn new() -> (r: Self)
        ensures
            r.rsdp is None && r.xsdt is None && r.rsdt is None && r.madt is None && r.dmar is None
                && r.mcfg is None,
    {
        AcpiPlatformSummary { rsdp: None, xsdt: None, rsdt: None, madt: None, dmar: None, mcfg: None }
    }

    /// Root SDT entries: those of the XSDT when present, else of the RSDT, else none.
    pub open spec fn spec_root_table_pointers(&self) -> Seq<HostPhysAddr> {
        if self.xsdt is Some {
            self.xsdt->Some_0.entries@
        } else if self.rsdt is Some {
            self.rsdt->Some_0.entries@
        } else {
            Seq::empty()
        }
    }

    /// Returns physical addresses of root SDT entries (XSDT preferred over RSDT).
    pub fn root_table_pointers(&self) -> (r: Vec<HostPhysAddr>)
        ensures
            r@ == self.spec_root_table_pointers(),
    {
        if let Some(xsdt) = &self.xsdt {
            copy_vec(&xsdt.entries)
        } else if let Some(rsdt) = &self.rsdt {
            copy_vec(&rsdt.entries)
        } else {
            Vec::new()
        }
    }

    /// DMAR is present and advertises interrupt remapping.
    pub open spec fn spec_interrupt_remapping(&self) -> bool {
        self.dmar is Some && self.dmar->Some_0.interrupt_remapping
    }

    /// Returns true when DMAR advertises interrupt remapping.
    pub fn interrupt_remapping_available(&self) -> (r: bool)
        ensures
            r == self.spec_interrupt_remapping(),
    {
        match &self.dmar {
            Some(dmar) => dmar.interrupt_remapping,
            None => false,
        }
    }

    /// MADT is present and lists at least one x2APIC entry.
    pub open spec fn spec_x2apic(&self) -> bool {
        self.madt is Some && self.madt->Some_0.x2_apics@.len() > 0
    }

    /// Returns true when MADT contains x2APIC entries.
    pub fn x2apic_available(&self) -> (r: bool)
        ensures
            r == self.spec_x2apic(),
    {
        match &self.madt {
            Some(madt) => madt.has_x2apic(),
            None => false,
        }
    }

    /// Returns the enabled processor count from MADT when present.
    pub fn enabled_processor_count(&self) -> (r: Option<usize>)
        requires
            self.madt is Some ==> self.madt->Some_0.local_apics@.len()
                + self.madt->Some_0.x2_apics@.len() <= usize::MAX,
        ensures
            self.madt is None ==> r is None,
            self.madt is Some ==> r == Some(self.madt->Some_0.spec_enabled_count() as usize),
    {
        match &self.madt {
            Some(madt) => Some(madt.enabled_processor_count()),
            None => None,
        }
    }
}

impl Default for AcpiPlatformSummary {
    fn default() -> (r: Self)
        ensures
            r.rsdp is None && r.xsdt is None && r.rsdt is None && r.madt is None && r.dmar is None
                && r.mcfg is None,
    {
        Self::new()
    }
}

} // verus!
