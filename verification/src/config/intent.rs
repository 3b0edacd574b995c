//! Static intent intermediate representation consumed by later planning
//! stages.

use vstd::prelude::*;
use vstd::string::*;

use crate::config::error::ConfigError;
use crate::config::hash::ConfigHash;
use crate::config::normalize::{
    opt_text_eq, DeviceKind, NormalizedConfig, NormalizedIpc, NormalizedNetdev, NormalizedPartition,
    NormalizedQemu, NormalizedQemuDevice, NormalizedSmp,
};
use crate::config::requirements::{platform_requirements_of, total_vcpus, PlatformRequirements};
use crate::types::{bdf_text, IommuDomainId, VmId};

verus! {

/// Static planning IR consumed by later allocation/resolution stages.
#[derive(Clone, Debug, PartialEq, Eq)]
pub struct StaticIntentIR {
    /// Configuration schema version.
    pub version: u32,
    /// Configuration name.
    pub name: String,
    /// SHA-256 hash of canonical configuration bytes.
    pub config_hash: ConfigHash,
    /// Platform requirements contract.
    pub platform_requirements: PlatformRequirements,
    /// Partition intents in deterministic order.
    pub partitions: Vec<PartitionIntent>,
    /// IPC intents.
    pub ipc: Vec<IpcIntent>,
    /// Boot artifact paths.
    pub boot: BootIntent,
    /// QEMU launch intent.
    pub qemu: QemuIntent,
    /// Benchmark parameters.
    pub benchmark: BenchmarkIntent,
}

/// Partition planning intent.
#[derive(Clone, Debug, PartialEq, Eq)]
pub struct PartitionIntent {
    /// VM identifier.
    pub vm_id: VmId,
    /// Partition name.
    pub name: String,
    /// Number of vCPUs.
    pub vcpus: u32,
    /// Private RAM bytes.
    pub memory_bytes: u64,
    /// Guest image path.
    pub image: String,
    /// Assigned devices.
    pub devices: Vec<DeviceIntent>,
    /// Dedicated IOMMU domain ID.
    pub iommu_domain: IommuDomainId,
}

/// Device assignment intent.
#[derive(Clone, Debug, PartialEq, Eq)]
pub struct DeviceIntent {
    /// Device kind.
    pub kind: DeviceKind,
    /// Canonical BDF string.
    pub bdf: String,
}

/// IPC planning intent.
#[derive(Clone, Debug, PartialEq, Eq)]
pub struct IpcIntent {
    /// Channel name.
    pub name: String,
    /// Producer VM ID.
    pub producer: VmId,
    /// Consumer VM ID.
    pub consumer: VmId,
    /// Slot count.
    pub slot_count: u32,
    /// Slot size in bytes.
    pub slot_size: u32,
    /// Total shared memory bytes for the channel ring.
    pub shared_bytes: u64,
}

/// Boot artifact intent.
#[derive(Clone, Debug, PartialEq, Eq)]
pub struct BootIntent {
    /// Loader path.
    pub loader: String,
    /// Hypervisor path.
    pub hypervisor: String,
    /// Whether ExitBootServices is required.
    pub exit_boot_services: bool,
}

/// QEMU launch intent.
#[derive(Clone, Debug, PartialEq, Eq)]
pub struct QemuIntent {
    /// Underlying normalized QEMU plan.
    pub plan: NormalizedQemu,
}

/// Benchmark intent copied from normalized configuration.
#[derive(Clone, Debug, PartialEq, Eq)]
pub struct BenchmarkIntent {
    /// Protocol identifier.
    pub protocol: String,
    /// Frame size in bytes.
    pub frame_size: u32,
    /// Payload size in bytes.
    pub payload_size: u32,
    /// Warmup duration in seconds.
    pub warmup_seconds: u32,
    /// Measurement duration in seconds.
    pub measurement_seconds: u32,
    /// Number of runs.
    pub runs: u32,
    /// Maximum acceptable loss in parts per million.
    pub max_loss_ppm: u32,
}

/// Two QEMU plans hold the same values.
pub open spec fn same_qemu(a: NormalizedQemu, b: NormalizedQemu) -> bool {
    &&& a.machine@ == b.machine@
    &&& a.cpu@ == b.cpu@
    &&& a.smp == b.smp
    &&& a.memory_bytes == b.memory_bytes
    &&& a.accel@ == b.accel@
    &&& a.ovmf@ == b.ovmf@
    &&& a.netdevs@.len() == b.netdevs@.len()
    &&& forall|i: int| 0 <= i < a.netdevs@.len() ==> {
        &&& (#[trigger] a.netdevs@[i]).id@ == b.netdevs@[i].id@
        &&& a.netdevs@[i].kind@ == b.netdevs@[i].kind@
        &&& opt_text_eq(a.netdevs@[i].hostfwd, b.netdevs@[i].hostfwd)
    }
    &&& a.devices@.len() == b.devices@.len()
    &&& forall|i: int| 0 <= i < a.devices@.len() ==> {
        &&& (#[trigger] a.devices@[i]).kind == b.devices@[i].kind
        &&& a.devices@[i].bdf == b.devices@[i].bdf
        &&& opt_text_eq(a.devices@[i].netdev, b.devices@[i].netdev)
    }
}

/// IOMMU domain of a VM: its identifier plus one, as 16 bits.
pub open spec fn iommu_domain_of(vm: VmId) -> IommuDomainId {
    IommuDomainId((vm.0 + 1) as u16)
}

/// `n` is the planning intent of partition `p`.
pub open spec fn partition_intent_of(p: NormalizedPartition, n: PartitionIntent) -> bool {
    &&& n.vm_id == p.vm_id
    &&& n.name@ == p.name@
    &&& n.vcpus == p.vcpus
    &&& n.memory_bytes == p.memory_bytes
    &&& n.image@ == p.image@
    &&& n.devices@.len() == p.devices@.len()
    &&& forall|j: int| 0 <= j < p.devices@.len() ==> {
        &&& (#[trigger] n.devices@[j]).kind == p.devices@[j].kind
        &&& n.devices@[j].bdf@ == bdf_text(p.devices@[j].bdf)
    }
    &&& n.iommu_domain == iommu_domain_of(p.vm_id)
}

/// `n` is the planning intent of channel `c`: its ring takes slot size times
/// slot count bytes.
pub open spec fn ipc_intent_of(c: NormalizedIpc, n: IpcIntent) -> bool {
    &&& n.name@ == c.name@
    &&& n.producer == c.producer
    &&& n.consumer == c.consumer
    &&& n.slot_count == c.slot_count
    &&& n.slot_size == c.slot_size
    &&& n.shared_bytes == c.slot_size * c.slot_count
}

/// `ir` is the static intent of `config` under hash `hash`.
pub open spec fn intent_of(config: NormalizedConfig, hash: ConfigHash, ir: StaticIntentIR) -> bool {
    &&& ir.version == config.version
    &&& ir.name@ == config.name@
    &&& ir.config_hash == hash
    &&& platform_requirements_of(config, ir.platform_requirements)
    &&& ir.partitions@.len() == config.partitions@.len()
    &&& forall|i: int|
        0 <= i < ir.partitions@.len() ==> partition_intent_of(
            config.partitions@[i],
            #[trigger] ir.partitions@[i],
        )
    &&& ir.ipc@.len() == config.ipc@.len()
    &&& forall|i: int| 0 <= i < ir.ipc@.len() ==> ipc_intent_of(config.ipc@[i], #[trigger] ir.ipc@[i])
    &&& ir.boot.loader@ == config.boot.loader@
    &&& ir.boot.hypervisor@ == config.boot.hypervisor@
    &&& ir.boot.exit_boot_services == config.boot.exit_boot_services
    &&& same_qemu(config.qemu, ir.qemu.plan)
    &&& ir.benchmark.protocol@ == config.benchmark.protocol@
    &&& ir.benchmark.frame_size == config.benchmark.frame_size
    &&& ir.benchmark.payload_size == config.benchmark.payload_size
    &&& ir.benchmark.warmup_seconds == config.benchmark.warmup_seconds
    &&& ir.benchmark.measurement_seconds == config.benchmark.measurement_seconds
    &&& ir.benchmark.runs == config.benchmark.runs
    &&& ir.benchmark.max_loss_ppm == config.benchmark.max_loss_ppm
}

fn clone_text_opt(a: &Option<String>) -> (r: Option<String>)
    ensures
        opt_text_eq(*a, r),
{
    match a {
        Some(x) => Some(x.clone()),
        None => None,
    }
}

fn copy_qemu(q: &NormalizedQemu) -> (r: NormalizedQemu)
    ensures
        same_qemu(*q, r),
{
    let mut netdevs: Vec<NormalizedNetdev> = Vec::new();
    let mut i: usize = 0;
    while i < q.netdevs.len()
        invariant
            i <= q.netdevs@.len(),
            netdevs@.len() == i,
            forall|m: int| 0 <= m < i ==> {
                &&& (#[trigger] q.netdevs@[m]).id@ == netdevs@[m].id@
                &&& q.netdevs@[m].kind@ == netdevs@[m].kind@
                &&& opt_text_eq(q.netdevs@[m].hostfwd, netdevs@[m].hostfwd)
            },
        decreases q.netdevs@.len() - i,
    {
        let n = &q.netdevs[i];
        netdevs.push(
            NormalizedNetdev { id: n.id.clone(), kind: n.kind.clone(), hostfwd: clone_text_opt(&n.hostfwd) },
        );
        i = i + 1;
    }
    let mut devices: Vec<NormalizedQemuDevice> = Vec::new();
    let mut j: usize = 0;
    while j < q.devices.len()
        invariant
            j <= q.devices@.len(),
            devices@.len() == j,
            forall|m: int| 0 <= m < j ==> {
                &&& (#[trigger] q.devices@[m]).kind == devices@[m].kind
                &&& q.devices@[m].bdf == devices@[m].bdf
                &&& opt_text_eq(q.devices@[m].netdev, devices@[m].netdev)
            },
        decreases q.devices@.len() - j,
    {
        let d = &q.devices[j];
        devices.push(NormalizedQemuDevice { kind: d.kind, bdf: d.bdf, netdev: clone_text_opt(&d.netdev) });
        j = j + 1;
    }
    NormalizedQemu {
        machine: q.machine.clone(),
        cpu: q.cpu.clone(),
        smp: NormalizedSmp { cpus: q.smp.cpus, cores: q.smp.cores, threads: q.smp.threads },
        memory_bytes: q.memory_bytes,
        accel: q.accel.clone(),
        ovmf: q.ovmf.clone(),
        netdevs,
        devices,
    }
}

fn build_partition_intents(partitions: &Vec<NormalizedPartition>) -> (r: Result<Vec<PartitionIntent>, ConfigError>)
    requires
        forall|i: int| 0 <= i < partitions@.len() ==> (#[trigger] partitions@[i]).vm_id.0 < u32::MAX,
    ensures
        r matches Ok(out) && out@.len() == partitions@.len() && forall|i: int|
            0 <= i < out@.len() ==> partition_intent_of(partitions@[i], #[trigger] out@[i]),
{
    let mut out: Vec<PartitionIntent> = Vec::new();
    let mut i: usize = 0;
    while i < partitions.len()
        invariant
            forall|k: int| 0 <= k < partitions@.len() ==> (#[trigger] partitions@[k]).vm_id.0 < u32::MAX,
            i <= partitions@.len(),
            out@.len() == i,
            forall|m: int| 0 <= m < i ==> partition_intent_of(partitions@[m], #[trigger] out@[m]),
        decreases partitions@.len() - i,
    {
        let partition = &partitions[i];
        assert(partition.vm_id.0 < u32::MAX);
        let domain = IommuDomainId::new((partition.vm_id.raw() + 1) as u16);
        let mut devices: Vec<DeviceIntent> = Vec::new();
        let mut j: usize = 0;
        while j < partition.devices.len()
            invariant
                j <= partition.devices@.len(),
                devices@.len() == j,
                forall|m: int| 0 <= m < j ==> {
                    &&& (#[trigger] devices@[m]).kind == partition.devices@[m].kind
                    &&& devices@[m].bdf@ == bdf_text(partition.devices@[m].bdf)
                },
            decreases partition.devices@.len() - j,
        {
            let device = &partition.devices[j];
            devices.push(DeviceIntent { kind: device.kind, bdf: device.bdf.to_text() });
            j = j + 1;
        }
        out.push(
            PartitionIntent {
                vm_id: partition.vm_id,
                name: partition.name.clone(),
                vcpus: partition.vcpus,
                memory_bytes: partition.memory_bytes,
                image: partition.image.clone(),
                devices,
                iommu_domain: domain,
            },
        );
        i = i + 1;
    }
    Ok(out)
}

fn build_ipc_intents(channels: &Vec<NormalizedIpc>) -> (r: Result<Vec<IpcIntent>, ConfigError>)
    ensures
        r matches Ok(out) && out@.len() == channels@.len() && forall|i: int|
            0 <= i < out@.len() ==> ipc_intent_of(channels@[i], #[trigger] out@[i]),
{
    let mut out: Vec<IpcIntent> = Vec::new();
    let mut i: usize = 0;
    while i < channels.len()
        invariant
            i <= channels@.len(),
            out@.len() == i,
            forall|m: int| 0 <= m < i ==> ipc_intent_of(channels@[m], #[trigger] out@[m]),
        decreases channels@.len() - i,
    {
        let channel = &channels[i];
        let slot_bytes = channel.slot_size as u64;
        let count = channel.slot_count as u64;
        assert(slot_bytes * count <= u64::MAX) by (nonlinear_arith)
            requires
                slot_bytes <= u32::MAX,
                count <= u32::MAX,
        ;
        let shared_bytes = match slot_bytes.checked_mul(count) {
            Some(v) => v,
            None => {
                return Err(ConfigError::invalid("ipc[]", "shared memory size overflow"));
            },
        };
        out.push(
            IpcIntent {
                name: channel.name.clone(),
                producer: channel.producer,
                consumer: channel.consumer,
                slot_count: channel.slot_count,
                slot_size: channel.slot_size,
                shared_bytes,
            },
        );
        i = i + 1;
    }
    Ok(out)
}

impl StaticIntentIR {
    /// Builds the static intent IR from a normalized configuration and its hash.
    pub fn from_normalized(config: &NormalizedConfig, config_hash: ConfigHash) -> (r: Result<
        Self,
        ConfigError,
    >)
        requires
            total_vcpus(config.partitions@) <= u32::MAX,
            forall|i: int|
                0 <= i < config.partitions@.len() ==> (#[trigger] config.partitions@[i]).vm_id.0
                    < u32::MAX,
        ensures
            r matches Ok(ir) && intent_of(*config, config_hash, ir),
    {
        let platform_requirements = PlatformRequirements::from_normalized(config);
        let partitions = build_partition_intents(&config.partitions)?;
        let ipc = build_ipc_intents(&config.ipc)?;
        Ok(
            StaticIntentIR {
                version: config.version,
                name: config.name.clone(),
                config_hash,
                platform_requirements,
                partitions,
                ipc,
                boot: BootIntent {
                    loader: config.boot.loader.clone(),
                    hypervisor: config.boot.hypervisor.clone(),
                    exit_boot_services: config.boot.exit_boot_services,
                },
                qemu: QemuIntent { plan: copy_qemu(&config.qemu) },
                benchmark: BenchmarkIntent {
                    protocol: config.benchmark.protocol.clone(),
                    frame_size: config.benchmark.frame_size,
                    payload_size: config.benchmark.payload_size,
                    warmup_seconds: config.benchmark.warmup_seconds,
                    measurement_seconds: config.benchmark.measurement_seconds,
                    runs: config.benchmark.runs,
                    max_loss_ppm: config.benchmark.max_loss_ppm,
                },
            },
        )
    }

    /// Partition intents in VM identifier order.
    pub fn partitions(&self) -> (r: &[PartitionIntent])
        ensures
            r@ == self.partitions@,
    {
        self.partitions.as_slice()
    }
}

} // verus!
