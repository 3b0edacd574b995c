//! QEMU validation fixture: the observed platform of the reference QEMU
//! machine (DMAR with interrupt remapping, one enabled x2APIC, 6 GiB of
//! conventional memory, e1000 NICs at 00:03.0 and 00:04.0, four cores).

use vstd::prelude::*;

use crate::acpi::dmar::{DmarSummary, DrhdEntry};
use crate::acpi::madt::{MadtSummary, X2ApicEntry};
use crate::acpi::summary::AcpiPlatformSummary;
use crate::acpi::table::SdtHeader;
use crate::platform::observed::{ObservedCpuFeatures, ObservedPciDevice, ObservedPlatform};
use crate::types::{ApicId, HostPhysAddr, PciBdf, PciSegment, GIB};

verus! {

fn literal_bdf(device: u8, function: u8) -> (r: Result<PciBdf, &'static str>)
    ensures
        device < 32 && function < 8 ==> r == Ok::<PciBdf, &'static str>(
            PciBdf { segment: 0, bus: 0, device, function },
        ),
        !(device < 32 && function < 8) ==> r is Err,
{
    match PciBdf::from_components(0, 0, device, function) {
        Ok(b) => Ok(b),
        Err(_) => Err("invalid fixture bdf"),
    }
}

/// Builds the QEMU validation observed platform fixture.
pub fn qemu_validation_observed() -> (r: Result<ObservedPlatform, &'static str>)
    ensures
        r matches Ok(p) && {
            &&& p.cpu == ObservedCpuFeatures {
                vmx: true,
                ept: true,
                vtd: true,
                nx: true,
                invariant_tsc: true,
                vpid: true,
                vmx_preemption_timer: true,
            }
            &&& p.acpi.spec_interrupt_remapping()
            &&& p.acpi.spec_x2apic()
            &&& p.conventional_ram_bytes == 6 * GIB
            &&& p.pci_devices@ == seq![
                ObservedPciDevice { bdf: PciBdf { segment: 0, bus: 0, device: 3, function: 0 } },
                ObservedPciDevice { bdf: PciBdf { segment: 0, bus: 0, device: 4, function: 0 } },
            ]
            &&& p.enabled_processors == 1
            &&& p.physical_core_count == 4
            &&& p.arch == crate::config::normalize::ArchRequirement::X86_64
            &&& p.conventional_memory@ == seq![
                crate::platform::observed::ConventionalRegion { base: HostPhysAddr(0x1000_0000), size: 0x1_8000_0000u64 },
            ]
            &&& p.acpi.rsdp is None && p.acpi.xsdt is None && p.acpi.rsdt is None && p.acpi.mcfg is None
            &&& p.acpi.dmar matches Some(d) && {
                &&& d.header.signature@ == seq![0x44u8, 0x4d, 0x41, 0x52]
                &&& d.header.length == 48 && d.header.revision == 1
                &&& d.host_address_width == 39
                &&& d.interrupt_remapping
                &&& d.drhd_entries@ == seq![
                    DrhdEntry {
                        segment: PciSegment(0),
                        register_base: HostPhysAddr(0xFED9_0000),
                        include_all_pci: true,
                    },
                ]
            }
            &&& p.acpi.madt matches Some(m) && {
                &&& m.header.signature@ == seq![0x41u8, 0x50, 0x49, 0x43]
                &&& m.header.length == 44 && m.header.revision == 1
                &&& m.local_apic_address == HostPhysAddr(0xFEE0_0000)
                &&& !m.pc_at_compatible
                &&& m.local_apics@.len() == 0
                &&& m.x2_apics@ == seq![X2ApicEntry { processor_uid: 0, apic_id: ApicId(0), enabled: true }]
            }
        },
{
    let mut drhd_entries: Vec<DrhdEntry> = Vec::new();
    drhd_entries.push(
        DrhdEntry {
            segment: PciSegment::new(0),
            register_base: HostPhysAddr::new(0xFED9_0000),
            include_all_pci: true,
        },
    );
    let mut x2_apics: Vec<X2ApicEntry> = Vec::new();
    x2_apics.push(X2ApicEntry { processor_uid: 0, apic_id: ApicId::new(0), enabled: true });
    let mut acpi = AcpiPlatformSummary::new();
    acpi.dmar = Some(
        DmarSummary {
            header: SdtHeader { signature: [0x44, 0x4d, 0x41, 0x52], length: 48, revision: 1 },
            host_address_width: 39,
            interrupt_remapping: true,
            drhd_entries,
        },
    );
    acpi.madt = Some(
        MadtSummary {
            header: SdtHeader { signature: [0x41, 0x50, 0x49, 0x43], length: 44, revision: 1 },
            local_apic_address: HostPhysAddr::new(0xFEE0_0000),
            pc_at_compatible: false,
            local_apics: Vec::new(),
            x2_apics,
        },
    );
    proof {
        let m = acpi.madt->Some_0;
        assert(m.local_apics@.len() == 0);
        assert(m.x2_apics@.drop_last() =~= Seq::<X2ApicEntry>::empty());
        assert(crate::acpi::madt::enabled_x2(m.x2_apics@.drop_last()) == 0);
        assert(crate::acpi::madt::enabled_local(m.local_apics@) == 0);
        assert(m.spec_enabled_count() == 1);
    }
    let memory: [(u32, HostPhysAddr, u64); 1] = [(7u32, HostPhysAddr::new(0x1000_0000), 6 * 1024 * 1024 * 1024u64)];
    let mut pci: Vec<ObservedPciDevice> = Vec::new();
    pci.push(ObservedPciDevice { bdf: literal_bdf(3, 0)? });
    pci.push(ObservedPciDevice { bdf: literal_bdf(4, 0)? });
    proof {
        let ds = memory@;
        assert(ds.len() == 1);
        assert(ds[0] == (7u32, HostPhysAddr(0x1000_0000), 0x1_8000_0000u64));
        assert(ds.drop_last() =~= Seq::<(u32, HostPhysAddr, u64)>::empty());
        assert(crate::platform::observed::conventional_of(ds.drop_last()) =~= Seq::empty());
        let rs = crate::platform::observed::conventional_of(ds);
        assert(rs =~= seq![crate::platform::observed::ConventionalRegion { base: HostPhysAddr(0x1000_0000), size: 0x1_8000_0000u64 }]);
        assert(rs.drop_last() =~= Seq::<crate::platform::observed::ConventionalRegion>::empty());
        assert(crate::platform::observed::regions_total(rs.drop_last()) == 0);
        assert(crate::platform::observed::regions_total(rs) == 6 * GIB);
    }
    match ObservedPlatform::build(ObservedCpuFeatures::qemu_validation(), acpi, memory.as_slice(), pci, 4) {
        Some(p) => Ok(p),
        None => Err("invalid fixture platform"),
    }
}

} // verus!
