//! Observed platform capabilities.

use vstd::prelude::*;

use crate::acpi::madt::MadtSummary;
use crate::acpi::summary::{same_summary, AcpiPlatformSummary};
use crate::config::normalize::ArchRequirement;
use crate::cpu_topology::{CpuCore, CpuTopology};
use crate::types::{ApicId, HostPhysAddr, LogicalCpuId, PciBdf, PhysicalCoreId};

verus! {

/// UEFI memory type of conventional (free) memory.
pub const EFI_CONVENTIONAL_MEMORY: u32 = 7;

/// CPU/virtualization features observed on the platform.
#[derive(Clone, Copy, Debug, PartialEq, Eq, Structural)]
pub struct ObservedCpuFeatures {
    /// VMX present.
    pub vmx: bool,
    /// EPT present.
    pub ept: bool,
    /// VT-d firmware tables present.
    pub vtd: bool,
    /// NX available.
    pub nx: bool,
    /// Invariant TSC advertised.
    pub invariant_tsc: bool,
    /// VPID supported.
    pub vpid: bool,
    /// VMX preemption timer supported.
    pub vmx_preemption_timer: bool,
}

impl ObservedCpuFeatures {
    /// An all-capable profile for QEMU validation fixtures.
    pub fn qemu_validation() -> (r: Self)
        ensures
            r.vmx && r.ept && r.vtd && r.nx && r.invariant_tsc && r.vpid && r.vmx_preemption_timer,
    {
        ObservedCpuFeatures {
            vmx: true,
            ept: true,
            vtd: true,
            nx: true,
            invariant_tsc: true,
            vpid: true,
            vmx_preemption_timer: true,
        }
    }
}

/// PCI device discovered during enumeration.
#[derive(Clone, Copy, Debug, PartialEq, Eq)]
pub struct ObservedPciDevice {
    /// Device BDF.
    pub bdf: PciBdf,
}

/// A conventional (free) memory region reported by firmware.
#[derive(Clone, Copy, Debug, PartialEq, Eq)]
pub struct ConventionalRegion {
    /// Region base.
    pub base: HostPhysAddr,
    /// Region size in bytes.
    pub size: u64,
}

/// Hardware/firmware view of the platform at boot.
#[derive(Clone, Debug, PartialEq, Eq)]
pub struct ObservedPlatform {
    /// Observed architecture.
    pub arch: ArchRequirement,
    /// CPU features.
    pub cpu: ObservedCpuFeatures,
    /// ACPI-derived information.
    pub acpi: AcpiPlatformSummary,
    /// Conventional memory regions.
    pub conventional_memory: Vec<ConventionalRegion>,
    /// Total conventional RAM in bytes.
    pub conventional_ram_bytes: u64,
    /// Discovered PCI devices.
    pub pci_devices: Vec<ObservedPciDevice>,
    /// Enabled processors reported by MADT.
    pub enabled_processors: u32,
    /// Physical core count used for planning.
    pub physical_core_count: u32,
}

/// Conventional regions among `(type, base, size)` memory descriptors, in order.
pub open spec fn conventional_of(ds: Seq<(u32, HostPhysAddr, u64)>) -> Seq<ConventionalRegion>
    decreases ds.len(),
{
    if ds.len() == 0 {
        Seq::empty()
    } else {
        let d = ds.last();
        conventional_of(ds.drop_last()) + if d.0 == EFI_CONVENTIONAL_MEMORY {
            seq![ConventionalRegion { base: d.1, size: d.2 }]
        } else {
            Seq::empty()
        }
    }
}

/// Sum of region sizes.
pub open spec fn regions_total(rs: Seq<ConventionalRegion>) -> int
    decreases rs.len(),
{
    if rs.len() == 0 {
        0
    } else {
        regions_total(rs.drop_last()) + rs.last().size
    }
}

/// Enabled processors MADT reports, or the core count without a MADT.
pub open spec fn enabled_processors_of(acpi: AcpiPlatformSummary, physical_core_count: u32) -> u32 {
    match acpi.madt {
        Some(m) => m.spec_enabled_count() as usize as u32,
        None => physical_core_count,
    }
}

/// Two observed platforms hold the same values.
pub open spec fn same_observed(a: ObservedPlatform, b: ObservedPlatform) -> bool {
    &&& a.arch == b.arch
    &&& a.cpu == b.cpu
    &&& same_summary(a.acpi, b.acpi)
    &&& a.conventional_memory@ == b.conventional_memory@
    &&& a.conventional_ram_bytes == b.conventional_ram_bytes
    &&& a.pci_devices@ == b.pci_devices@
    &&& a.enabled_processors == b.enabled_processors
    &&& a.physical_core_count == b.physical_core_count
}

proof fn lemma_regions_total_prefix(rs: Seq<ConventionalRegion>, i: int, j: int)
    requires
        0 <= i <= j <= rs.len(),
    ensures
        regions_total(rs.take(i)) <= regions_total(rs.take(j)),
    decreases j - i,
{
    if i < j {
        lemma_regions_total_prefix(rs, i, j - 1);
        assert(rs.take(j).drop_last() =~= rs.take(j - 1));
    }
}

/// Conventional regions among `(type, base, size)` UEFI memory descriptors.
pub fn collect_conventional(descriptors: &[(u32, HostPhysAddr, u64)]) -> (r: Vec<ConventionalRegion>)
    ensures
        r@ == conventional_of(descriptors@),
{
    let mut out: Vec<ConventionalRegion> = Vec::new();
    let mut i: usize = 0;
    while i < descriptors.len()
        invariant
            i <= descriptors@.len(),
            out@ == conventional_of(descriptors@.take(i as int)),
        decreases descriptors@.len() - i,
    {
        let (kind, base, size) = descriptors[i];
        proof {
            assert(descriptors@.take(i + 1).drop_last() =~= descriptors@.take(i as int));
        }
        if kind == EFI_CONVENTIONAL_MEMORY {
            out.push(ConventionalRegion { base, size });
        }
        proof {
            assert(out@ =~= conventional_of(descriptors@.take(i + 1)));
        }
        i = i + 1;
    }
    proof {
        assert(descriptors@.take(descriptors@.len() as int) =~= descriptors@);
    }
    out
}

/// Total bytes of the regions, or `None` when the sum overflows.
pub fn total_conventional_bytes(regions: &Vec<ConventionalRegion>) -> (r: Option<u64>)
    ensures
        regions_total(regions@) <= u64::MAX <==> r is Some,
        r matches Some(t) ==> t == regions_total(regions@),
{
    let ghost rs = regions@;
    let mut total: u64 = 0;
    let mut i: usize = 0;
    while i < regions.len()
        invariant
            rs == regions@,
            i <= rs.len(),
            total == regions_total(rs.take(i as int)),
        decreases rs.len() - i,
    {
        proof {
            assert(rs.take(i + 1).drop_last() =~= rs.take(i as int));
        }
        match total.checked_add(regions[i].size) {
            Some(t) => {
                total = t;
            },
            None => {
                proof {
                    lemma_regions_total_prefix(rs, i + 1, rs.len() as int);
                    assert(rs.take(rs.len() as int) =~= rs);
                }
                return None;
            },
        }
        i = i + 1;
    }
    proof {
        assert(rs.take(rs.len() as int) =~= rs);
    }
    Some(total)
}

impl ObservedPlatform {
    /// Builds an observed platform from firmware-derived inputs; `None` when
    /// the conventional memory total overflows.
    pub fn build(
        cpu: ObservedCpuFeatures,
        acpi: AcpiPlatformSummary,
        memory_descriptors: &[(u32, HostPhysAddr, u64)],
        pci_devices: Vec<ObservedPciDevice>,
        physical_core_count: u32,
    ) -> (r: Option<Self>)
        requires
            acpi.madt is Some ==> acpi.madt->Some_0.local_apics@.len()
                + acpi.madt->Some_0.x2_apics@.len() <= usize::MAX,
        ensures
            regions_total(conventional_of(memory_descriptors@)) > u64::MAX ==> r is None,
            regions_total(conventional_of(memory_descriptors@)) <= u64::MAX ==> (r matches Some(p) && {
                &&& p.arch == ArchRequirement::X86_64
                &&& p.cpu == cpu
                &&& p.acpi == acpi
                &&& p.conventional_memory@ == conventional_of(memory_descriptors@)
                &&& p.conventional_ram_bytes == regions_total(conventional_of(memory_descriptors@))
                &&& p.pci_devices == pci_devices
                &&& p.enabled_processors == enabled_processors_of(acpi, physical_core_count)
                &&& p.physical_core_count == physical_core_count
            }),
    {
        let conventional_memory = collect_conventional(memory_descriptors);
        let conventional_ram_bytes = match total_conventional_bytes(&conventional_memory) {
            Some(t) => t,
            None => {
                return None;
            },
        };
        let enabled_processors = match acpi.enabled_processor_count() {
            Some(count) => count as u32,
            None => physical_core_count,
        };
        let p = ObservedPlatform {
                arch: ArchRequirement::X86_64,
                cpu,
                acpi,
                conventional_memory,
                conventional_ram_bytes,
                pci_devices,
                enabled_processors,
                physical_core_count,
            };
        Some(p)
    }

    /// Whether interrupt remapping is available per ACPI DMAR.
    pub fn interrupt_remapping_available(&self) -> (r: bool)
        ensures
            r == self.acpi.spec_interrupt_remapping(),
    {
        self.acpi.interrupt_remapping_available()
    }

    /// Whether x2APIC is available per MADT.
    pub fn x2apic_available(&self) -> (r: bool)
        ensures
            r == self.acpi.spec_x2apic(),
    {
        self.acpi.x2apic_available()
    }

    /// A copy holding the same values.
    pub(crate) fn copy(&self) -> (r: Self)
        ensures
            same_observed(*self, r),
    {
        ObservedPlatform {
            arch: self.arch,
            cpu: self.cpu,
            acpi: self.acpi.copy(),
            conventional_memory: crate::acpi::summary::copy_vec(&self.conventional_memory),
            conventional_ram_bytes: self.conventional_ram_bytes,
            pci_devices: crate::acpi::summary::copy_vec(&self.pci_devices),
            enabled_processors: self.enabled_processors,
            physical_core_count: self.physical_core_count,
        }
    }
}

/// Builds the topology the CPU planner uses: one core per counted physical
/// core, each with a single logical processor of the same number.
pub fn topology_from_observed(observed: &ObservedPlatform) -> (r: CpuTopology)
    ensures
        r.cores@.len() == observed.physical_core_count,
        forall|i: int|
            0 <= i < r.cores@.len() ==> {
                &&& (#[trigger] r.cores@[i]).physical_core_id == PhysicalCoreId(i as u32)
                &&& r.cores@[i].apic_id == ApicId(i as u32)
                &&& r.cores@[i].logical_cpus@ == seq![LogicalCpuId(i as u32)]
            },
{
    let mut cores: Vec<CpuCore> = Vec::new();
    let mut idx: u32 = 0;
    while idx < observed.physical_core_count
        invariant
            idx <= observed.physical_core_count,
            cores@.len() == idx,
            forall|i: int|
                0 <= i < idx ==> {
                    &&& (#[trigger] cores@[i]).physical_core_id == PhysicalCoreId(i as u32)
                    &&& cores@[i].apic_id == ApicId(i as u32)
                    &&& cores@[i].logical_cpus@ == seq![LogicalCpuId(i as u32)]
                },
        decreases observed.physical_core_count - idx,
    {
        let mut logical: Vec<LogicalCpuId> = Vec::new();
        logical.push(LogicalCpuId::new(idx));
        cores.push(
            CpuCore { physical_core_id: PhysicalCoreId::new(idx), apic_id: ApicId::new(idx), logical_cpus: logical },
        );
        idx = idx + 1;
    }
    CpuTopology { cores }
}

} // verus!
