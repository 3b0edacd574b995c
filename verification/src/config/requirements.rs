//! Platform requirements contract derived from a normalized configuration.

use vstd::prelude::*;
use vstd::string::*;

use crate::config::normalize::{
    total_ram, ArchRequirement, DeviceKind, NormalizedConfig, NormalizedDevice,
    NormalizedPartition,
};
use crate::config::raw::{RequirementLevel, SmtPolicy};
use crate::types::bdf_text;

verus! {

/// Formal platform contract that must be satisfied by observed hardware.
#[derive(Clone, Debug, PartialEq, Eq)]
pub struct PlatformRequirements {
    /// Configuration name.
    pub config_name: String,
    /// Architecture requirement.
    pub arch: ArchRequirement,
    /// VMX requirement.
    pub vmx: RequirementLevel,
    /// EPT requirement.
    pub ept: RequirementLevel,
    /// VT-d requirement.
    pub vtd: RequirementLevel,
    /// Minimum physical cores.
    pub min_physical_cores: u32,
    /// Total vCPUs allocated to partitions.
    pub total_partition_vcpus: u32,
    /// SMT policy.
    pub smt_policy: SmtPolicy,
    /// Minimum host RAM in bytes including hypervisor reservation headroom.
    pub min_ram_bytes: u64,
    /// Sum of partition-private RAM in bytes.
    pub total_partition_ram_bytes: u64,
    /// Interrupt remapping requirement.
    pub interrupt_remapping: RequirementLevel,
    /// x2APIC requirement.
    pub x2apic: RequirementLevel,
    /// Invariant TSC requirement.
    pub invariant_tsc: RequirementLevel,
    /// VPID requirement.
    pub vpid: RequirementLevel,
    /// VMX preemption timer requirement.
    pub vmx_preemption_timer: RequirementLevel,
    /// NX requirement.
    pub nx: RequirementLevel,
    /// Required guest page sizes.
    pub page_sizes: Vec<u64>,
    /// PCI devices that must exist and be assignable.
    pub expected_pci_devices: Vec<ExpectedPciDevice>,
}

/// PCI device expected by the validated configuration.
#[derive(Clone, Debug, PartialEq, Eq)]
pub struct ExpectedPciDevice {
    /// Owning partition name.
    pub owner: String,
    /// Device kind string.
    pub kind: String,
    /// BDF string in canonical form.
    pub bdf: String,
}

/// Texts of an expected device: owner, kind and BDF.
pub open spec fn expected_view(e: ExpectedPciDevice) -> (Seq<char>, Seq<char>, Seq<char>) {
    (e.owner@, e.kind@, e.bdf@)
}

/// Lowercase name of a device kind.
pub open spec fn device_kind_text(k: DeviceKind) -> Seq<char> {
    match k {
        DeviceKind::E1000 => "e1000"@,
    }
}

/// Expected devices of one partition, in assignment order.
pub open spec fn expected_for(p: NormalizedPartition) -> Seq<(Seq<char>, Seq<char>, Seq<char>)> {
    p.devices@.map_values(
        |d: NormalizedDevice| (p.name@, device_kind_text(d.kind), bdf_text(d.bdf)),
    )
}

/// Expected devices of all partitions, partition by partition.
pub open spec fn expected_all(ps: Seq<NormalizedPartition>) -> Seq<(Seq<char>, Seq<char>, Seq<char>)>
    decreases ps.len(),
{
    if ps.len() == 0 {
        Seq::empty()
    } else {
        expected_all(ps.drop_last()) + expected_for(ps.last())
    }
}

/// Sum of the partitions' vCPU counts.
pub open spec fn total_vcpus(ps: Seq<NormalizedPartition>) -> int
    decreases ps.len(),
{
    if ps.len() == 0 {
        0
    } else {
        total_vcpus(ps.drop_last()) + ps.last().vcpus
    }
}

/// `n` saturated at `u64::MAX`.
pub open spec fn saturate_u64(n: int) -> u64 {
    if n > u64::MAX {
        u64::MAX
    } else {
        n as u64
    }
}

proof fn lemma_total_vcpus_prefix(ps: Seq<NormalizedPartition>, i: int, j: int)
    requires
        0 <= i <= j <= ps.len(),
    ensures
        total_vcpus(ps.take(i)) <= total_vcpus(ps.take(j)),
    decreases j - i,
{
    if i < j {
        lemma_total_vcpus_prefix(ps, i, j - 1);
        assert(ps.take(j).drop_last() =~= ps.take(j - 1));
    }
}

fn device_kind_name(k: DeviceKind) -> (r: String)
    ensures
        r@ == device_kind_text(k),
{
    match k {
        DeviceKind::E1000 => String::from_str("e1000"),
    }
}

/// `r` is the platform contract of `config`.
pub open spec fn platform_requirements_of(config: NormalizedConfig, r: PlatformRequirements) -> bool {
    &&& r.config_name@ == config.name@
    &&& r.arch == config.platform.requirements.arch
    &&& r.vmx == config.platform.requirements.vmx
    &&& r.ept == config.platform.requirements.ept
    &&& r.vtd == config.platform.requirements.vtd
    &&& r.min_physical_cores == config.platform.requirements.min_physical_cores
    &&& r.total_partition_vcpus == total_vcpus(config.partitions@)
    &&& r.smt_policy == config.platform.requirements.smt_policy
    &&& r.min_ram_bytes == config.platform.requirements.min_ram_bytes
    &&& r.total_partition_ram_bytes == saturate_u64(total_ram(config.partitions@))
    &&& r.interrupt_remapping == config.platform.requirements.interrupt_remapping
    &&& r.x2apic == config.platform.requirements.x2apic
    &&& r.invariant_tsc == config.platform.requirements.invariant_tsc
    &&& r.vpid == config.platform.requirements.vpid
    &&& r.vmx_preemption_timer == config.platform.requirements.vmx_preemption_timer
    &&& r.nx == config.platform.requirements.nx
    &&& r.page_sizes@ == config.platform.requirements.page_sizes@
    &&& r.expected_pci_devices@.map_values(|e: ExpectedPciDevice| expected_view(e))
        == expected_all(config.partitions@)
}

impl PlatformRequirements {
    /// Builds the platform contract from a normalized configuration.
    pub fn from_normalized(config: &NormalizedConfig) -> (r: Self)
        requires
            total_vcpus(config.partitions@) <= u32::MAX,
        ensures
            platform_requirements_of(*config, r),
    {
        let ghost ps = config.partitions@;
        let req = &config.platform.requirements;
        let mut vcpus: u32 = 0;
        let mut ram: u64 = 0;
        let mut expected: Vec<ExpectedPciDevice> = Vec::new();
        let mut i: usize = 0;
        while i < config.partitions.len()
            invariant
                ps == config.partitions@,
                i <= ps.len(),
                total_vcpus(ps) <= u32::MAX,
                vcpus == total_vcpus(ps.take(i as int)),
                ram == saturate_u64(total_ram(ps.take(i as int))),
                total_ram(ps.take(i as int)) >= 0,
                expected@.map_values(|e: ExpectedPciDevice| expected_view(e)) == expected_all(
                    ps.take(i as int),
                ),
            decreases ps.len() - i,
        {
            let partition = &config.partitions[i];
            proof {
                assert(ps.take(i + 1).drop_last() =~= ps.take(i as int));
                lemma_total_vcpus_prefix(ps, i + 1, ps.len() as int);
                assert(ps.take(ps.len() as int) =~= ps);
            }
            vcpus = vcpus + partition.vcpus;
            ram = ram.saturating_add(partition.memory_bytes);
            assert(total_ram(ps.take(i + 1)) == total_ram(ps.take(i as int)) + ps[i as int].memory_bytes);
            assert(ram == saturate_u64(total_ram(ps.take(i + 1))));
            let ghost base = expected@.map_values(|e: ExpectedPciDevice| expected_view(e));
            let mut j: usize = 0;
            while j < partition.devices.len()
                invariant
                    *partition == ps[i as int],
                    ps == config.partitions@,
                    i < ps.len(),
                    total_vcpus(ps) <= u32::MAX,
                    vcpus == total_vcpus(ps.take(i + 1)),
                    ram == saturate_u64(total_ram(ps.take(i + 1))),
                    total_ram(ps.take(i + 1)) >= 0,
                    j <= partition.devices@.len(),
                    expected@.map_values(|e: ExpectedPciDevice| expected_view(e)) == base
                        + expected_for(*partition).take(j as int),
                decreases partition.devices@.len() - j,
            {
                let device = &partition.devices[j];
                let ghost before = expected@;
                expected.push(
                    ExpectedPciDevice {
                        owner: partition.name.clone(),
                        kind: device_kind_name(device.kind),
                        bdf: device.bdf.to_text(),
                    },
                );
                proof {
                    assert(expected@.map_values(|e: ExpectedPciDevice| expected_view(e))
                        =~= before.map_values(|e: ExpectedPciDevice| expected_view(e)).push(
                        expected_view(expected@.last()),
                    ));
                    assert(expected_for(*partition).take(j + 1) =~= expected_for(
                        *partition,
                    ).take(j as int).push(expected_for(*partition)[j as int]));
                }
                j = j + 1;
            }
            proof {
                assert(expected_for(*partition).take(j as int) =~= expected_for(*partition));
            }
            i = i + 1;
        }
        proof {
            assert(ps.take(ps.len() as int) =~= ps);
        }
        let page_sizes = req.page_sizes.clone();
        assert(page_sizes@ =~= req.page_sizes@);
        PlatformRequirements {
            config_name: config.name.clone(),
            arch: req.arch,
            vmx: req.vmx,
            ept: req.ept,
            vtd: req.vtd,
            min_physical_cores: req.min_physical_cores,
            total_partition_vcpus: vcpus,
            smt_policy: req.smt_policy,
            min_ram_bytes: req.min_ram_bytes,
            total_partition_ram_bytes: ram,
            interrupt_remapping: req.interrupt_remapping,
            x2apic: req.x2apic,
            invariant_tsc: req.invariant_tsc,
            vpid: req.vpid,
            vmx_preemption_timer: req.vmx_preemption_timer,
            nx: req.nx,
            page_sizes,
            expected_pci_devices: expected,
        }
    }

    /// Whether a feature at this level must fail closed when absent.
    pub fn is_fail_closed(level: RequirementLevel) -> (r: bool)
        ensures
            r == (level == RequirementLevel::Required),
    {
        match level {
            RequirementLevel::Required => true,
            _ => false,
        }
    }
}

} // verus!
