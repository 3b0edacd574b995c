//! Validation and normalization of raw configuration: deterministic VM
//! identifiers from declaration order, parsed PCI addresses, resolved IPC
//! endpoints, datapath and resource-budget checks.

use vstd::prelude::*;
use vstd::string::*;
use vstd::utf8::encode_utf8;

use crate::config::error::{error_is, ConfigError, ConfigErrorSpec};
use crate::config::raw::{
    FaultPolicy, IpcDirection, QueueFullPolicy, RawBenchmark, RawConfig, RawDevice, RawIpc,
    RawPartition, RawPlatformRequirements, RawQemu, RawQemuDevice, RequirementLevel, SmtPolicy,
    ThroughputMetric,
};
use crate::text::{decimal, push_decimal, str_trim, trimmed};
use crate::types::{gib_to_bytes, mib_to_bytes, parse_bdf_spec, PciBdf, VmId, GIB, MIB};

verus! {

/// Canonical configuration after syntax and semantic validation.
#[derive(Clone, Debug, PartialEq, Eq)]
pub struct NormalizedConfig {
    /// Schema version.
    pub version: u32,
    /// Configuration name.
    pub name: String,
    /// Normalized platform requirements.
    pub platform: NormalizedPlatform,
    /// Partitions in deterministic order with assigned VM IDs.
    pub partitions: Vec<NormalizedPartition>,
    /// IPC channels with resolved VM IDs.
    pub ipc: Vec<NormalizedIpc>,
    /// Security policies.
    pub security: NormalizedSecurity,
    /// Benchmark definition.
    pub benchmark: NormalizedBenchmark,
    /// Boot artifact paths.
    pub boot: NormalizedBoot,
    /// QEMU launch plan inputs.
    pub qemu: NormalizedQemu,
}

/// Normalized platform requirements.
#[derive(Clone, Debug, PartialEq, Eq)]
pub struct NormalizedPlatform {
    /// Parsed requirements contract.
    pub requirements: NormalizedPlatformRequirements,
}

/// Strongly typed platform requirements extracted from YAML.
#[derive(Clone, Debug, PartialEq, Eq)]
pub struct NormalizedPlatformRequirements {
    /// Required architecture.
    pub arch: ArchRequirement,
    /// VMX requirement.
    pub vmx: RequirementLevel,
    /// EPT requirement.
    pub ept: RequirementLevel,
    /// VT-d requirement.
    pub vtd: RequirementLevel,
    /// Minimum physical cores required on the host.
    pub min_physical_cores: u32,
    /// SMT policy.
    pub smt_policy: SmtPolicy,
    /// Minimum RAM in bytes.
    pub min_ram_bytes: u64,
    /// Interrupt remapping requirement.
    pub interrupt_remapping: RequirementLevel,
    /// x2APIC requirement.
    pub x2apic: RequirementLevel,
    /// Invariant TSC requirement.
    pub invariant_tsc: RequirementLevel,
    /// VPID requirement.
    pub vpid: RequirementLevel,
    /// VMX preemption timer requirement.
    pub vmx_preemption_timer: RequirementLevel,
    /// NX requirement.
    pub nx: RequirementLevel,
    /// Supported page sizes in bytes.
    pub page_sizes: Vec<u64>,
}

/// Supported architecture targets.
#[derive(Clone, Copy, Debug, PartialEq, Eq, Structural)]
pub enum ArchRequirement {
    /// 64-bit x86.
    X86_64,
}

/// Normalized partition definition.
#[derive(Clone, Debug, PartialEq, Eq)]
pub struct NormalizedPartition {
    /// Deterministic VM identifier from declaration order.
    pub vm_id: VmId,
    /// Stable partition name.
    pub name: String,
    /// Number of vCPUs.
    pub vcpus: u32,
    /// Private RAM in bytes.
    pub memory_bytes: u64,
    /// Guest image path.
    pub image: String,
    /// Assigned PCI devices.
    pub devices: Vec<NormalizedDevice>,
    /// Optional stack metadata.
    pub stack: Option<NormalizedStack>,
}

/// Normalized PCI device assignment.
#[derive(Clone, Debug, PartialEq, Eq)]
pub struct NormalizedDevice {
    /// Device kind.
    pub kind: DeviceKind,
    /// Parsed BDF.
    pub bdf: PciBdf,
}

/// Supported device kinds.
#[derive(Clone, Copy, Debug, PartialEq, Eq, Structural)]
pub enum DeviceKind {
    /// Intel e1000 NIC.
    E1000,
}

/// Normalized guest stack metadata.
#[derive(Clone, Debug, PartialEq, Eq)]
pub struct NormalizedStack {
    /// Whether smoltcp is enabled.
    pub smoltcp: bool,
    /// Benchmark protocol string.
    pub protocol: Option<String>,
}

/// Normalized IPC channel.
#[derive(Clone, Debug, PartialEq, Eq)]
pub struct NormalizedIpc {
    /// Channel name.
    pub name: String,
    /// Producer VM ID.
    pub producer: VmId,
    /// Consumer VM ID.
    pub consumer: VmId,
    /// Direction policy.
    pub direction: IpcDirection,
    /// Number of SPSC slots.
    pub slot_count: u32,
    /// Slot payload size in bytes.
    pub slot_size: u32,
    /// Queue-full policy.
    pub queue_full_policy: QueueFullPolicy,
}

/// Normalized security policies.
#[derive(Clone, Debug, PartialEq, Eq)]
pub struct NormalizedSecurity {
    /// Whether configuration hash verification is required at boot.
    pub require_config_hash: bool,
    /// IPC corruption policy.
    pub ipc_corruption_policy: FaultPolicy,
    /// EPT violation policy.
    pub ept_violation_policy: FaultPolicy,
    /// IOMMU fault policy.
    pub iommu_fault_policy: FaultPolicy,
}

/// Normalized benchmark definition.
#[derive(Clone, Debug, PartialEq, Eq)]
pub struct NormalizedBenchmark {
    /// Protocol identifier.
    pub protocol: String,
    /// Frame size in bytes.
    pub frame_size: u32,
    /// Payload size in bytes.
    pub payload_size: u32,
    /// Throughput metric.
    pub throughput_metric: ThroughputMetric,
    /// Warmup duration in seconds.
    pub warmup_seconds: u32,
    /// Measurement duration in seconds.
    pub measurement_seconds: u32,
    /// Number of runs.
    pub runs: u32,
    /// Maximum acceptable loss ratio as parts per million.
    pub max_loss_ppm: u32,
}

/// Normalized boot artifact paths.
#[derive(Clone, Debug, PartialEq, Eq)]
pub struct NormalizedBoot {
    /// Loader path.
    pub loader: String,
    /// Hypervisor path.
    pub hypervisor: String,
    /// Whether ExitBootServices is required.
    pub exit_boot_services: bool,
}

/// Normalized QEMU launch inputs.
#[derive(Clone, Debug, PartialEq, Eq)]
pub struct NormalizedQemu {
    /// Machine type.
    pub machine: String,
    /// CPU model.
    pub cpu: String,
    /// SMP topology.
    pub smp: NormalizedSmp,
    /// Guest memory in bytes.
    pub memory_bytes: u64,
    /// Accelerator backend.
    pub accel: String,
    /// OVMF path.
    pub ovmf: String,
    /// Netdev definitions.
    pub netdevs: Vec<NormalizedNetdev>,
    /// Device bindings.
    pub devices: Vec<NormalizedQemuDevice>,
}

/// Normalized SMP topology.
#[derive(Clone, Debug, PartialEq, Eq)]
pub struct NormalizedSmp {
    /// Total CPUs.
    pub cpus: u32,
    /// Core count.
    pub cores: u32,
    /// Threads per core.
    pub threads: u32,
}

/// Normalized netdev definition.
#[derive(Clone, Debug, PartialEq, Eq)]
pub struct NormalizedNetdev {
    /// Netdev ID.
    pub id: String,
    /// Netdev kind.
    pub kind: String,
    /// Optional host forwarding rule.
    pub hostfwd: Option<String>,
}

/// Normalized QEMU device binding.
#[derive(Clone, Debug, PartialEq, Eq)]
pub struct NormalizedQemuDevice {
    /// Device kind.
    pub kind: DeviceKind,
    /// Parsed BDF.
    pub bdf: PciBdf,
    /// Optional netdev binding.
    pub netdev: Option<String>,
}

/// The only supported configuration schema version.
pub const SUPPORTED_VERSION: u32 = 1;

/// Text is empty once surrounding white space is trimmed.
pub open spec fn blank(s: Seq<char>) -> bool {
    trimmed(s).len() == 0
}

/// Parsed BDF of a string's text.
pub open spec fn bdf_of(s: Seq<char>) -> Result<PciBdf, crate::types::PciBdfError> {
    parse_bdf_spec(encode_utf8(s))
}

/// Reason text for an unsupported device kind.
pub open spec fn bad_kind_reason(kind: Seq<char>) -> Seq<char> {
    "unsupported device kind `"@ + kind + "`"@
}

/// Equality of two string texts.
fn text_eq(a: &str, b: &str) -> (r: bool)
    ensures
        r == (a@ == b@),
{
    let x = String::from_str(a);
    let y = String::from_str(b);
    x == y
}

fn validate_version(version: u32) -> (r: Result<(), ConfigError>)
    ensures
        version == SUPPORTED_VERSION ==> r is Ok,
        version != SUPPORTED_VERSION ==> r is Err && error_is(
            r->Err_0,
            ConfigErrorSpec::UnsupportedVersion(version),
        ),
{
    if version == SUPPORTED_VERSION {
        Ok(())
    } else {
        let mut supported: Vec<u32> = Vec::new();
        supported.push(SUPPORTED_VERSION);
        Err(ConfigError::UnsupportedVersion { found: version, supported })
    }
}

fn validate_non_empty(path: &'static str, value: &str) -> (r: Result<(), ConfigError>)
    ensures
        !blank(value@) ==> r is Ok,
        blank(value@) ==> r == Err::<(), ConfigError>(ConfigError::MissingField { path }),
{
    if str_trim(value).is_empty() {
        Err(ConfigError::MissingField { path })
    } else {
        Ok(())
    }
}

/// Parses a device kind; only `e1000` is supported.
fn parse_device_kind(kind: &str) -> (r: Result<DeviceKind, ConfigError>)
    ensures
        kind@ == "e1000"@ ==> r == Ok::<DeviceKind, ConfigError>(DeviceKind::E1000),
        kind@ != "e1000"@ ==> r is Err && error_is(
            r->Err_0,
            ConfigErrorSpec::Invalid("devices[].kind", bad_kind_reason(kind@)),
        ),
{
    if text_eq(kind, "e1000") {
        Ok(DeviceKind::E1000)
    } else {
        let mut reason = String::from_str("unsupported device kind `");
        reason.append(kind);
        reason.append("`");
        Err(ConfigError::InvalidValue { path: "devices[].kind", reason })
    }
}

// ---------------------------------------------------------------------------
// Partition field checks and duplicate names.
// ---------------------------------------------------------------------------

/// First problem with a partition's own fields, in checking order.
pub open spec fn partition_field_error(p: RawPartition) -> Option<ConfigErrorSpec> {
    if blank(p.name@) {
        Some(ConfigErrorSpec::MissingField("partitions[].name"))
    } else if p.vcpus == 0 {
        Some(ConfigErrorSpec::Invalid("partitions[].vcpus", "must be greater than zero"@))
    } else if p.memory_gib == 0 {
        Some(ConfigErrorSpec::Invalid("partitions[].memory_gib", "must be greater than zero"@))
    } else if blank(p.image@) {
        Some(ConfigErrorSpec::MissingField("partitions[].image"))
    } else {
        None
    }
}

/// An earlier partition has the same name as partition `i`.
pub open spec fn partition_name_repeated(ps: Seq<RawPartition>, i: int) -> bool {
    exists|k: int| 0 <= k < i && #[trigger] ps[k].name@ == ps[i].name@
}

/// First partition-list problem from index `i` on.
pub open spec fn partition_list_error(ps: Seq<RawPartition>, i: int) -> Option<ConfigErrorSpec>
    decreases ps.len() - i,
{
    if i < 0 || i >= ps.len() {
        None
    } else if partition_field_error(ps[i]) is Some {
        partition_field_error(ps[i])
    } else if partition_name_repeated(ps, i) {
        Some(ConfigErrorSpec::DuplicateId("partition", ps[i].name@))
    } else {
        partition_list_error(ps, i + 1)
    }
}

/// The first problem `validate_partitions` reports.
pub open spec fn partitions_error(ps: Seq<RawPartition>) -> Option<ConfigErrorSpec> {
    if ps.len() == 0 {
        Some(ConfigErrorSpec::MissingField("partitions"))
    } else {
        partition_list_error(ps, 0)
    }
}

fn validate_partitions(raw: &RawConfig) -> (r: Result<(), ConfigError>)
    ensures
        partitions_error(raw.partitions@) is None ==> r is Ok,
        partitions_error(raw.partitions@) matches Some(e) ==> r is Err && error_is(r->Err_0, e),
{
    if raw.partitions.len() == 0 {
        return Err(ConfigError::MissingField { path: "partitions" });
    }
    let ghost ps = raw.partitions@;
    let mut i: usize = 0;
    while i < raw.partitions.len()
        invariant
            ps == raw.partitions@,
            ps.len() > 0,
            i <= ps.len(),
            partition_list_error(ps, 0) == partition_list_error(ps, i as int),
        decreases ps.len() - i,
    {
        let p = &raw.partitions[i];
        validate_non_empty("partitions[].name", p.name.as_str())?;
        if p.vcpus == 0 {
            return Err(ConfigError::invalid("partitions[].vcpus", "must be greater than zero"));
        }
        if p.memory_gib == 0 {
            return Err(ConfigError::invalid("partitions[].memory_gib", "must be greater than zero"));
        }
        validate_non_empty("partitions[].image", p.image.as_str())?;
        let mut k: usize = 0;
        while k < i
            invariant
                ps == raw.partitions@,
                i < ps.len(),
                k <= i,
                partition_list_error(ps, 0) == partition_list_error(ps, i as int),
                partition_field_error(ps[i as int]) is None,
                forall|m: int| 0 <= m < k ==> ps[m].name@ != ps[i as int].name@,
            decreases i - k,
        {
            if raw.partitions[k].name == raw.partitions[i].name {
                assert(ps[k as int].name@ == ps[i as int].name@);
                assert(partition_name_repeated(ps, i as int));
                return Err(
                    ConfigError::DuplicateId {
                        namespace: "partition",
                        name: raw.partitions[i].name.clone(),
                    },
                );
            }
            k = k + 1;
        }
        i = i + 1;
    }
    Ok(())
}


// ---------------------------------------------------------------------------
// Partition normalization: VM identifiers, RAM, devices, PCI ownership.
// ---------------------------------------------------------------------------

/// First problem with a device's kind or BDF text.
pub open spec fn device_error(d: RawDevice) -> Option<ConfigErrorSpec> {
    if d.kind@ != "e1000"@ {
        Some(ConfigErrorSpec::Invalid("devices[].kind", bad_kind_reason(d.kind@)))
    } else if bdf_of(d.bdf@) is Err {
        Some(ConfigErrorSpec::Invalid("partitions[].devices[].bdf", "invalid PCI BDF"@))
    } else {
        None
    }
}

/// Devices of partition `k` that precede device `j` of partition `i`.
pub open spec fn devices_before(ps: Seq<RawPartition>, k: int, i: int, j: int) -> int {
    if k < i {
        ps[k].devices@.len() as int
    } else {
        j
    }
}

/// First partition in `k..=i` holding a device (before device `j` of
/// partition `i`) whose BDF text is `bdf`.
pub open spec fn bdf_holder(ps: Seq<RawPartition>, bdf: Seq<char>, k: int, i: int, j: int) -> Option<
    int,
>
    decreases i - k + 1,
{
    if k < 0 || k > i {
        None
    } else if exists|l: int|
        0 <= l < devices_before(ps, k, i, j) && #[trigger] ps[k].devices@[l].bdf@ == bdf {
        Some(k)
    } else {
        bdf_holder(ps, bdf, k + 1, i, j)
    }
}

/// First device problem in partition `i` from device `j` on.
pub open spec fn devices_error(ps: Seq<RawPartition>, i: int, j: int) -> Option<ConfigErrorSpec>
    decreases ps[i].devices@.len() - j,
{
    if j < 0 || j >= ps[i].devices@.len() {
        None
    } else if device_error(ps[i].devices@[j]) is Some {
        device_error(ps[i].devices@[j])
    } else if bdf_holder(ps, ps[i].devices@[j].bdf@, 0, i, j) is Some {
        Some(
            ConfigErrorSpec::PciConflict(
                ps[i].devices@[j].bdf@,
                ps[bdf_holder(ps, ps[i].devices@[j].bdf@, 0, i, j)->Some_0].name@,
                ps[i].name@,
            ),
        )
    } else {
        devices_error(ps, i, j + 1)
    }
}

/// First problem `normalize_partitions` reports from partition `i` on.
pub open spec fn normalize_partitions_error(ps: Seq<RawPartition>, i: int) -> Option<ConfigErrorSpec>
    decreases ps.len() - i,
{
    if i < 0 || i >= ps.len() {
        None
    } else if ps[i].memory_gib * GIB > u64::MAX {
        Some(ConfigErrorSpec::Invalid("partitions[].memory_gib", "overflow converting to bytes"@))
    } else if devices_error(ps, i, 0) is Some {
        devices_error(ps, i, 0)
    } else {
        normalize_partitions_error(ps, i + 1)
    }
}

/// Two optional strings have equal texts.
pub open spec fn opt_text_eq(a: Option<String>, b: Option<String>) -> bool {
    match (a, b) {
        (None, None) => true,
        (Some(x), Some(y)) => x@ == y@,
        _ => false,
    }
}

/// `n` is the normalized form of raw device `d`.
pub open spec fn device_normalized(d: RawDevice, n: NormalizedDevice) -> bool {
    n.kind == DeviceKind::E1000 && bdf_of(d.bdf@) == Ok::<PciBdf, crate::types::PciBdfError>(n.bdf)
}

/// `n` is the normalized form of raw partition `p` declared at index `i`.
pub open spec fn partition_normalized(p: RawPartition, i: int, n: NormalizedPartition) -> bool {
    &&& n.vm_id == VmId(i as u32)
    &&& n.name@ == p.name@
    &&& n.vcpus == p.vcpus
    &&& n.memory_bytes == p.memory_gib * GIB
    &&& n.image@ == p.image@
    &&& n.devices@.len() == p.devices@.len()
    &&& forall|j: int| 0 <= j < p.devices@.len() ==> device_normalized(p.devices@[j], #[trigger] n.devices@[j])
    &&& match (p.stack, n.stack) {
        (None, None) => true,
        (Some(a), Some(b)) => b.smoltcp == a.smoltcp && opt_text_eq(a.protocol, b.protocol),
        _ => false,
    }
}

fn clone_opt_text(a: &Option<String>) -> (r: Option<String>)
    ensures
        opt_text_eq(*a, r),
{
    match a {
        Some(x) => Some(x.clone()),
        None => None,
    }
}

fn find_bdf_holder(ps: &Vec<RawPartition>, bdf: &String, i: usize, j: usize) -> (r: Option<usize>)
    requires
        i < ps@.len(),
        i < usize::MAX,
        j <= ps@[i as int].devices@.len(),
    ensures
        r matches Some(k) ==> bdf_holder(ps@, bdf@, 0, i as int, j as int) == Some(k as int) && k <= i,
        r is None ==> bdf_holder(ps@, bdf@, 0, i as int, j as int) is None,
{
    let mut k: usize = 0;
    while k <= i
        invariant
            i < ps@.len(),
            i < usize::MAX,
            j <= ps@[i as int].devices@.len(),
            k <= i + 1,
            bdf_holder(ps@, bdf@, 0, i as int, j as int) == bdf_holder(ps@, bdf@, k as int, i as int, j as int),
        decreases i + 1 - k,
    {
        let lim = if k < i { ps[k].devices.len() } else { j };
        let mut l: usize = 0;
        while l < lim
            invariant
                k <= i < ps@.len(),
                i < usize::MAX,
                j <= ps@[i as int].devices@.len(),
                lim == devices_before(ps@, k as int, i as int, j as int),
                lim <= ps@[k as int].devices@.len(),
                bdf_holder(ps@, bdf@, 0, i as int, j as int) == bdf_holder(ps@, bdf@, k as int, i as int, j as int),
                l <= lim,
                forall|m: int| 0 <= m < l ==> ps@[k as int].devices@[m].bdf@ != bdf@,
            decreases lim - l,
        {
            if ps[k].devices[l].bdf == *bdf {
                assert(ps@[k as int].devices@[l as int].bdf@ == bdf@);
                return Some(k);
            }
            l = l + 1;
        }
        k = k + 1;
    }
    None
}

fn normalize_partitions(partitions: &Vec<RawPartition>) -> (r: Result<Vec<NormalizedPartition>, ConfigError>)
    ensures
        normalize_partitions_error(partitions@, 0) matches Some(e) ==> r is Err && error_is(r->Err_0, e),
        normalize_partitions_error(partitions@, 0) is None ==> (r matches Ok(out) && out@.len() == partitions@.len()
            && forall|i: int| 0 <= i < out@.len() ==> partition_normalized(partitions@[i], i, #[trigger] out@[i])),
{
    let ghost ps = partitions@;
    let n = partitions.len();
    let mut out: Vec<NormalizedPartition> = Vec::new();
    let mut index: usize = 0;
    while index < n
        invariant
            ps == partitions@,
            n == ps.len(),
            index <= ps.len(),
            normalize_partitions_error(ps, 0) == normalize_partitions_error(ps, index as int),
            out@.len() == index,
            forall|i: int| 0 <= i < index ==> partition_normalized(ps[i], i, #[trigger] out@[i]),
        decreases ps.len() - index,
    {
        let partition = &partitions[index];
        let vm_id = VmId::new(index as u32);
        let memory_bytes = match gib_to_bytes(partition.memory_gib) {
            Ok(v) => v,
            Err(_) => {
                return Err(
                    ConfigError::invalid("partitions[].memory_gib", "overflow converting to bytes"),
                );
            },
        };
        let mut devices: Vec<NormalizedDevice> = Vec::new();
        let mut j: usize = 0;
        while j < partition.devices.len()
            invariant
                ps == partitions@,
                n == ps.len(),
                index < n,
                *partition == ps[index as int],
                j <= ps[index as int].devices@.len(),
                normalize_partitions_error(ps, 0) == normalize_partitions_error(ps, index as int),
                ps[index as int].memory_gib * GIB <= u64::MAX,
                devices_error(ps, index as int, 0) == devices_error(ps, index as int, j as int),
                devices@.len() == j,
                forall|m: int| 0 <= m < j ==> device_normalized(ps[index as int].devices@[m], #[trigger] devices@[m]),
            decreases ps[index as int].devices@.len() - j,
        {
            let device = &partition.devices[j];
            let kind = parse_device_kind(device.kind.as_str())?;
            let bdf = match PciBdf::parse(device.bdf.as_str()) {
                Ok(b) => b,
                Err(_) => {
                    return Err(ConfigError::invalid("partitions[].devices[].bdf", "invalid PCI BDF"));
                },
            };
            match find_bdf_holder(partitions, &device.bdf, index, j) {
                Some(k) => {
                    return Err(
                        ConfigError::PciOwnershipConflict {
                            bdf: device.bdf.clone(),
                            first: partitions[k].name.clone(),
                            second: partition.name.clone(),
                        },
                    );
                },
                None => {},
            }
            devices.push(NormalizedDevice { kind, bdf });
            j = j + 1;
        }
        let stack = match &partition.stack {
            Some(st) => Some(NormalizedStack { smoltcp: st.smoltcp, protocol: clone_opt_text(&st.protocol) }),
            None => None,
        };
        out.push(
            NormalizedPartition {
                vm_id,
                name: partition.name.clone(),
                vcpus: partition.vcpus,
                memory_bytes,
                image: partition.image.clone(),
                devices,
                stack,
            },
        );
        index = index + 1;
    }
    Ok(out)
}


// ---------------------------------------------------------------------------
// IPC channels: names, slot geometry, endpoint resolution.
// ---------------------------------------------------------------------------

/// First problem with a channel's own fields.
pub open spec fn ipc_field_error(c: RawIpc) -> Option<ConfigErrorSpec> {
    if blank(c.name@) {
        Some(ConfigErrorSpec::MissingField("ipc[].name"))
    } else if c.slot_count == 0 {
        Some(ConfigErrorSpec::Invalid("ipc[].slot_count", "must be greater than zero"@))
    } else if c.slot_size == 0 {
        Some(ConfigErrorSpec::Invalid("ipc[].slot_size", "must be greater than zero"@))
    } else {
        None
    }
}

/// An earlier channel has the same name as channel `i`.
pub open spec fn ipc_name_repeated(cs: Seq<RawIpc>, i: int) -> bool {
    exists|k: int| 0 <= k < i && #[trigger] cs[k].name@ == cs[i].name@
}

/// Index of the first partition named `name`, searching from `k`.
pub open spec fn find_partition(ps: Seq<RawPartition>, name: Seq<char>, k: int) -> Option<int>
    decreases ps.len() - k,
{
    if k < 0 || k >= ps.len() {
        None
    } else if ps[k].name@ == name {
        Some(k)
    } else {
        find_partition(ps, name, k + 1)
    }
}

/// First channel-list problem from index `i` on.
pub open spec fn ipc_list_error(cs: Seq<RawIpc>, ps: Seq<RawPartition>, i: int) -> Option<ConfigErrorSpec>
    decreases cs.len() - i,
{
    if i < 0 || i >= cs.len() {
        None
    } else if ipc_field_error(cs[i]) is Some {
        ipc_field_error(cs[i])
    } else if ipc_name_repeated(cs, i) {
        Some(ConfigErrorSpec::DuplicateId("ipc", cs[i].name@))
    } else if find_partition(ps, cs[i].producer@, 0) is None {
        Some(ConfigErrorSpec::UnknownReference("producer", cs[i].producer@))
    } else if find_partition(ps, cs[i].consumer@, 0) is None {
        Some(ConfigErrorSpec::UnknownReference("consumer", cs[i].consumer@))
    } else if find_partition(ps, cs[i].producer@, 0)->Some_0 as u32 == find_partition(ps, cs[i].consumer@, 0)->Some_0 as u32 {
        Some(ConfigErrorSpec::Invalid("ipc[]", "producer and consumer must differ"@))
    } else {
        ipc_list_error(cs, ps, i + 1)
    }
}

/// `n` is the normalized form of raw channel `c` given the raw partitions.
pub open spec fn ipc_normalized(c: RawIpc, ps: Seq<RawPartition>, n: NormalizedIpc) -> bool {
    &&& n.name@ == c.name@
    &&& n.producer == VmId(find_partition(ps, c.producer@, 0)->Some_0 as u32)
    &&& n.consumer == VmId(find_partition(ps, c.consumer@, 0)->Some_0 as u32)
    &&& n.direction == c.direction
    &&& n.slot_count == c.slot_count
    &&& n.slot_size == c.slot_size
    &&& n.queue_full_policy == c.queue_full_policy
}

/// `out` normalizes every raw partition in order.
pub open spec fn partitions_normalized(ps: Seq<RawPartition>, out: Seq<NormalizedPartition>) -> bool {
    &&& out.len() == ps.len()
    &&& forall|i: int| 0 <= i < out.len() ==> partition_normalized(ps[i], i, #[trigger] out[i])
}

proof fn lemma_find_partition(ps: Seq<RawPartition>, name: Seq<char>, k: int)
    requires
        0 <= k,
    ensures
        find_partition(ps, name, k) matches Some(x) ==> k <= x < ps.len() && ps[x].name@ == name
            && forall|m: int| k <= m < x ==> ps[m].name@ != name,
        find_partition(ps, name, k) is None ==> forall|m: int| k <= m < ps.len() ==> ps[m].name@ != name,
    decreases ps.len() - k,
{
    if k < ps.len() && ps[k].name@ != name {
        lemma_find_partition(ps, name, k + 1);
    }
}

fn lookup_partition(
    partitions: &Vec<NormalizedPartition>,
    name: &String,
    kind: &'static str,
    Ghost(raw): Ghost<Seq<RawPartition>>,
) -> (r: Result<usize, ConfigError>)
    requires
        partitions_normalized(raw, partitions@),
    ensures
        r matches Ok(k) ==> find_partition(raw, name@, 0) == Some(k as int),
        r is Err <==> find_partition(raw, name@, 0) is None,
        find_partition(raw, name@, 0) is None ==> r is Err && error_is(
            r->Err_0,
            ConfigErrorSpec::UnknownReference(kind, name@),
        ),
{
    proof {
        lemma_find_partition(raw, name@, 0);
    }
    let mut k: usize = 0;
    while k < partitions.len()
        invariant
            partitions_normalized(raw, partitions@),
            k <= partitions@.len(),
            forall|m: int| 0 <= m < k ==> raw[m].name@ != name@,
            find_partition(raw, name@, 0) == find_partition(raw, name@, k as int),
        decreases partitions@.len() - k,
    {
        assert(partition_normalized(raw[k as int], k as int, partitions@[k as int]));
        if partitions[k].name == *name {
            return Ok(k);
        }
        k = k + 1;
    }
    Err(ConfigError::UnknownReference { kind, name: name.clone() })
}

fn normalize_ipc(
    channels: &Vec<RawIpc>,
    partitions: &Vec<NormalizedPartition>,
    Ghost(raw_parts): Ghost<Seq<RawPartition>>,
) -> (r: Result<Vec<NormalizedIpc>, ConfigError>)
    requires
        partitions_normalized(raw_parts, partitions@),
    ensures
        ipc_list_error(channels@, raw_parts, 0) matches Some(e) ==> r is Err && error_is(r->Err_0, e),
        ipc_list_error(channels@, raw_parts, 0) is None ==> (r matches Ok(out) && out@.len()
            == channels@.len() && forall|i: int|
            0 <= i < out@.len() ==> ipc_normalized(channels@[i], raw_parts, #[trigger] out@[i])),
{
    let ghost cs = channels@;
    let n = channels.len();
    let mut out: Vec<NormalizedIpc> = Vec::new();
    let mut i: usize = 0;
    while i < n
        invariant
            cs == channels@,
            n == cs.len(),
            partitions_normalized(raw_parts, partitions@),
            i <= n,
            ipc_list_error(cs, raw_parts, 0) == ipc_list_error(cs, raw_parts, i as int),
            out@.len() == i,
            forall|m: int| 0 <= m < i ==> ipc_normalized(cs[m], raw_parts, #[trigger] out@[m]),
        decreases n - i,
    {
        let channel = &channels[i];
        validate_non_empty("ipc[].name", channel.name.as_str())?;
        if channel.slot_count == 0 {
            return Err(ConfigError::invalid("ipc[].slot_count", "must be greater than zero"));
        }
        if channel.slot_size == 0 {
            return Err(ConfigError::invalid("ipc[].slot_size", "must be greater than zero"));
        }
        let mut k: usize = 0;
        while k < i
            invariant
                cs == channels@,
                i < n,
                n == cs.len(),
                k <= i,
                ipc_list_error(cs, raw_parts, 0) == ipc_list_error(cs, raw_parts, i as int),
                ipc_field_error(cs[i as int]) is None,
                partitions_normalized(raw_parts, partitions@),
                out@.len() == i,
                forall|m: int| 0 <= m < i ==> ipc_normalized(cs[m], raw_parts, #[trigger] out@[m]),
                forall|m: int| 0 <= m < k ==> cs[m].name@ != cs[i as int].name@,
            decreases i - k,
        {
            if channels[k].name == channels[i].name {
                assert(cs[k as int].name@ == cs[i as int].name@);
                assert(ipc_name_repeated(cs, i as int));
                return Err(ConfigError::DuplicateId { namespace: "ipc", name: channels[i].name.clone() });
            }
            k = k + 1;
        }
        let pr = lookup_partition(partitions, &channel.producer, "producer", Ghost(raw_parts));
        proof {
            lemma_find_partition(raw_parts, cs[i as int].producer@, 0);
            lemma_find_partition(raw_parts, cs[i as int].consumer@, 0);
        }
        let producer = match pr {
            Ok(k) => k,
            Err(e) => return Err(e),
        };
        let cr = lookup_partition(partitions, &channel.consumer, "consumer", Ghost(raw_parts));
        let consumer = match cr {
            Ok(k) => k,
            Err(e) => return Err(e),
        };
        proof {
            assert(partition_normalized(raw_parts[producer as int], producer as int, partitions@[producer as int]));
            assert(partition_normalized(raw_parts[consumer as int], consumer as int, partitions@[consumer as int]));
        }
        if partitions[producer].vm_id == partitions[consumer].vm_id {
            return Err(ConfigError::invalid("ipc[]", "producer and consumer must differ"));
        }
        out.push(
            NormalizedIpc {
                name: channel.name.clone(),
                producer: partitions[producer].vm_id,
                consumer: partitions[consumer].vm_id,
                direction: channel.direction,
                slot_count: channel.slot_count,
                slot_size: channel.slot_size,
                queue_full_policy: channel.queue_full_policy,
            },
        );
        i = i + 1;
    }
    Ok(out)
}

// ---------------------------------------------------------------------------
// Datapath topology.
// ---------------------------------------------------------------------------

/// What the datapath check reads of a partition: its VM, whether it owns an
/// e1000 NIC, and its name.
pub ghost struct NodeView {
    /// VM identifier.
    pub vm_id: VmId,
    /// The partition has an e1000 NIC assigned.
    pub nic: bool,
    /// Partition name.
    pub name: Seq<char>,
}

/// The partition has an e1000 NIC assigned.
pub open spec fn is_nic(p: NormalizedPartition) -> bool {
    exists|j: int| 0 <= j < p.devices@.len() && #[trigger] p.devices@[j].kind == DeviceKind::E1000
}

/// Datapath view of a normalized partition.
pub open spec fn node_view(p: NormalizedPartition) -> NodeView {
    NodeView { vm_id: p.vm_id, nic: is_nic(p), name: p.name@ }
}

/// Datapath views of normalized partitions.
pub open spec fn nodes_of(ps: Seq<NormalizedPartition>) -> Seq<NodeView> {
    ps.map_values(|p: NormalizedPartition| node_view(p))
}

/// Producer-to-consumer edges of normalized channels.
pub open spec fn edges_of(ipc: Seq<NormalizedIpc>) -> Seq<(VmId, VmId)> {
    ipc.map_values(|c: NormalizedIpc| (c.producer, c.consumer))
}

/// Some edge goes from `from` to `to`.
pub open spec fn has_edge(es: Seq<(VmId, VmId)>, from: VmId, to: VmId) -> bool {
    exists|k: int| 0 <= k < es.len() && #[trigger] es[k] == (from, to)
}

/// Edge `i` has an edge going the other way.
pub open spec fn reversed(es: Seq<(VmId, VmId)>, i: int) -> bool {
    0 <= i < es.len() && has_edge(es, es[i].1, es[i].0)
}

/// `(p, c)` comes no later than `(q, d)` in producer-then-consumer order.
pub open spec fn pair_le(p: VmId, c: VmId, q: VmId, d: VmId) -> bool {
    p.0 < q.0 || (p.0 == q.0 && c.0 <= d.0)
}

/// Edge `i` is reversed and its endpoints come first among reversed edges.
pub open spec fn least_reversed(es: Seq<(VmId, VmId)>, i: int) -> bool {
    &&& reversed(es, i)
    &&& forall|j: int| #[trigger] reversed(es, j) ==> pair_le(es[i].0, es[i].1, es[j].0, es[j].1)
}

/// Reason text for a bidirectional pair.
pub open spec fn bidirectional_reason(p: VmId, c: VmId) -> Seq<char> {
    "bidirectional IPC between "@ + decimal(p.0 as nat) + " and "@ + decimal(c.0 as nat)
        + " is forbidden"@
}

/// Partitions `a` and `b` are distinct NIC partitions joined by a direct edge from `a` to `b`.
pub open spec fn nic_violation(ns: Seq<NodeView>, es: Seq<(VmId, VmId)>, a: int, b: int) -> bool {
    &&& 0 <= a < ns.len()
    &&& 0 <= b < ns.len()
    &&& ns[a].nic
    &&& ns[b].nic
    &&& ns[a].vm_id != ns[b].vm_id
    &&& has_edge(es, ns[a].vm_id, ns[b].vm_id)
}

/// `(a, b)` is the first NIC violation in partition order.
pub open spec fn first_nic_violation(ns: Seq<NodeView>, es: Seq<(VmId, VmId)>, a: int, b: int) -> bool {
    &&& nic_violation(ns, es, a, b)
    &&& forall|x: int, y: int| #[trigger] nic_violation(ns, es, x, y) ==> a < x || (a == x && b <= y)
}

/// Reason text for a NIC-to-NIC channel.
pub open spec fn nic_reason(a: Seq<char>, b: Seq<char>) -> Seq<char> {
    "direct IPC between NIC partitions `"@ + a + "` and `"@ + b + "` is forbidden"@
}

/// The datapath violation reported for these partitions and edges, if any:
/// first a bidirectional pair (least producer, then consumer), then, with at
/// least two channels, a direct channel between two NIC partitions (first in
/// partition order).
pub open spec fn datapath_error(ns: Seq<NodeView>, es: Seq<(VmId, VmId)>) -> Option<Seq<char>> {
    if exists|i: int| least_reversed(es, i) {
        let i = choose|i: int| least_reversed(es, i);
        Some(bidirectional_reason(es[i].0, es[i].1))
    } else if es.len() >= 2 && exists|a: int, b: int| first_nic_violation(ns, es, a, b) {
        let (a, b) = choose|a: int, b: int| first_nic_violation(ns, es, a, b);
        Some(nic_reason(ns[a].name, ns[b].name))
    } else {
        None
    }
}

fn has_direct_ipc(from: VmId, to: VmId, ipc: &[NormalizedIpc]) -> (r: bool)
    ensures
        r == has_edge(edges_of(ipc@), from, to),
{
    let ghost es = edges_of(ipc@);
    let mut k: usize = 0;
    while k < ipc.len()
        invariant
            es == edges_of(ipc@),
            k <= ipc@.len(),
            forall|m: int| 0 <= m < k ==> #[trigger] es[m] != (from, to),
        decreases ipc@.len() - k,
    {
        if ipc[k].producer.0 == from.0 && ipc[k].consumer.0 == to.0 {
            assert(es[k as int] == (from, to));
            return true;
        }
        k = k + 1;
    }
    false
}

fn is_nic_partition(p: &NormalizedPartition) -> (r: bool)
    ensures
        r == is_nic(*p),
{
    let mut j: usize = 0;
    while j < p.devices.len()
        invariant
            j <= p.devices@.len(),
            forall|m: int| 0 <= m < j ==> #[trigger] p.devices@[m].kind != DeviceKind::E1000,
        decreases p.devices@.len() - j,
    {
        match p.devices[j].kind {
            DeviceKind::E1000 => {
                assert(p.devices@[j as int].kind == DeviceKind::E1000);
                return true;
            },
        }
    }
    false
}

proof fn lemma_least_reversed_unique(es: Seq<(VmId, VmId)>, i: int, j: int)
    requires
        least_reversed(es, i),
        least_reversed(es, j),
    ensures
        es[i] == es[j],
{
    assert(reversed(es, j));
    assert(reversed(es, i));
}

proof fn lemma_first_nic_unique(ns: Seq<NodeView>, es: Seq<(VmId, VmId)>, a: int, b: int, x: int, y: int)
    requires
        first_nic_violation(ns, es, a, b),
        first_nic_violation(ns, es, x, y),
    ensures
        a == x && b == y,
{
    assert(nic_violation(ns, es, x, y));
    assert(nic_violation(ns, es, a, b));
}

fn bidirectional_message(p: VmId, c: VmId) -> (r: String)
    ensures
        r@ == bidirectional_reason(p, c),
{
    let mut reason = String::from_str("bidirectional IPC between ");
    push_decimal(&mut reason, p.0 as u64);
    reason.append(" and ");
    push_decimal(&mut reason, c.0 as u64);
    reason.append(" is forbidden");
    reason
}

fn nic_message(a: &String, b: &String) -> (r: String)
    ensures
        r@ == nic_reason(a@, b@),
{
    let mut reason = String::from_str("direct IPC between NIC partitions `");
    reason.append(a.as_str());
    reason.append("` and `");
    reason.append(b.as_str());
    reason.append("` is forbidden");
    reason
}

/// Rejects bidirectional channels and direct channels between NIC partitions.
pub fn validate_datapath(partitions: &[NormalizedPartition], ipc: &[NormalizedIpc]) -> (r: Result<(), ConfigError>)
    ensures
        datapath_error(nodes_of(partitions@), edges_of(ipc@)) is None ==> r is Ok,
        datapath_error(nodes_of(partitions@), edges_of(ipc@)) matches Some(reason) ==> r is Err
            && error_is(r->Err_0, ConfigErrorSpec::Datapath(reason)),
{
    let ghost ns = nodes_of(partitions@);
    let ghost es = edges_of(ipc@);
    let mut best: Option<usize> = None;
    let mut i: usize = 0;
    while i < ipc.len()
        invariant
            es == edges_of(ipc@),
            i <= es.len(),
            best matches Some(b) ==> b < i && reversed(es, b as int) && forall|j: int|
                0 <= j < i && #[trigger] reversed(es, j) ==> pair_le(
                    es[b as int].0,
                    es[b as int].1,
                    es[j].0,
                    es[j].1,
                ),
            best is None ==> forall|j: int| 0 <= j < i ==> !#[trigger] reversed(es, j),
        decreases es.len() - i,
    {
        assert(es[i as int] == (ipc@[i as int].producer, ipc@[i as int].consumer));
        if has_direct_ipc(ipc[i].consumer, ipc[i].producer, ipc) {
            match best {
                None => {
                    best = Some(i);
                },
                Some(b) => {
                    assert(es[b as int] == (ipc@[b as int].producer, ipc@[b as int].consumer));
                    let (p, c) = (ipc[i].producer.0, ipc[i].consumer.0);
                    let (q, d) = (ipc[b].producer.0, ipc[b].consumer.0);
                    if p < q || (p == q && c < d) {
                        best = Some(i);
                    }
                },
            }
        }
        i = i + 1;
    }
    if let Some(b) = best {
        proof {
            assert(least_reversed(es, b as int));
            let w = choose|w: int| least_reversed(es, w);
            lemma_least_reversed_unique(es, b as int, w);
            assert(es[b as int] == (ipc@[b as int].producer, ipc@[b as int].consumer));
        }
        return Err(
            ConfigError::DatapathViolation {
                reason: bidirectional_message(ipc[b].producer, ipc[b].consumer),
            },
        );
    }
    assert(!exists|w: int| least_reversed(es, w));
    if ipc.len() >= 2 {
        let n = partitions.len();
        let mut a: usize = 0;
        while a < n
            invariant
                ns == nodes_of(partitions@),
                es == edges_of(ipc@),
                n == ns.len(),
                a <= n,
                es.len() >= 2,
                !exists|w: int| least_reversed(es, w),
                forall|x: int, y: int| 0 <= x < a && #[trigger] nic_violation(ns, es, x, y) ==> false,
            decreases n - a,
        {
            assert(ns[a as int] == node_view(partitions@[a as int]));
            if is_nic_partition(&partitions[a]) {
                let mut b: usize = 0;
                while b < n
                    invariant
                        ns == nodes_of(partitions@),
                        es == edges_of(ipc@),
                        n == ns.len(),
                        a < n,
                        b <= n,
                        es.len() >= 2,
                        !exists|w: int| least_reversed(es, w),
                        ns[a as int].nic,
                        forall|x: int, y: int| 0 <= x < a && #[trigger] nic_violation(ns, es, x, y) ==> false,
                        forall|y: int| 0 <= y < b ==> !#[trigger] nic_violation(ns, es, a as int, y),
                    decreases n - b,
                {
                    assert(ns[a as int] == node_view(partitions@[a as int]));
                    assert(ns[b as int] == node_view(partitions@[b as int]));
                    if partitions[a].vm_id.0 != partitions[b].vm_id.0 && is_nic_partition(&partitions[b])
                        && has_direct_ipc(partitions[a].vm_id, partitions[b].vm_id, ipc) {
                        proof {
                            assert(nic_violation(ns, es, a as int, b as int));
                            assert(first_nic_violation(ns, es, a as int, b as int));
                            let (x, y) = choose|x: int, y: int| first_nic_violation(ns, es, x, y);
                            lemma_first_nic_unique(ns, es, a as int, b as int, x, y);
                        }
                        return Err(
                            ConfigError::DatapathViolation {
                                reason: nic_message(&partitions[a].name, &partitions[b].name),
                            },
                        );
                    }
                    b = b + 1;
                }
            } else {
                assert forall|y: int| !#[trigger] nic_violation(ns, es, a as int, y) by {}
            }
            a = a + 1;
        }
        assert(!exists|x: int, y: int| first_nic_violation(ns, es, x, y));
    }
    Ok(())
}

// ---------------------------------------------------------------------------
// Resource budget.
// ---------------------------------------------------------------------------

/// Sum of the partitions' RAM in bytes.
pub open spec fn total_ram(ps: Seq<NormalizedPartition>) -> int
    decreases ps.len(),
{
    if ps.len() == 0 {
        0
    } else {
        total_ram(ps.drop_last()) + ps.last().memory_bytes
    }
}

/// Budget problem for a RAM total against the declared minimum (in GiB).
pub open spec fn budget_error(total: int, min_ram_gib: u64) -> Option<ConfigErrorSpec> {
    if total > u64::MAX {
        Some(ConfigErrorSpec::Invalid("partitions", "total partition RAM overflows"@))
    } else if min_ram_gib * GIB > u64::MAX {
        Some(
            ConfigErrorSpec::Invalid(
                "platform.requirements.min_ram_gib",
                "overflow converting to bytes"@,
            ),
        )
    } else if total > min_ram_gib * GIB {
        Some(ConfigErrorSpec::Budget("ram", total as u64, (min_ram_gib * GIB) as u64))
    } else {
        None
    }
}

proof fn lemma_total_ram_prefix(ps: Seq<NormalizedPartition>, i: int, j: int)
    requires
        0 <= i <= j <= ps.len(),
    ensures
        total_ram(ps.take(i)) <= total_ram(ps.take(j)),
    decreases j - i,
{
    if i < j {
        lemma_total_ram_prefix(ps, i, j - 1);
        assert(ps.take(j).drop_last() =~= ps.take(j - 1));
    }
}

/// Checks that the partitions' RAM fits within the declared platform minimum.
fn validate_resource_budgets(raw: &RawConfig, partitions: &[NormalizedPartition]) -> (r: Result<(), ConfigError>)
    ensures
        budget_error(total_ram(partitions@), raw.platform.requirements.min_ram_gib) matches Some(e)
            ==> r is Err && error_is(r->Err_0, e),
        budget_error(total_ram(partitions@), raw.platform.requirements.min_ram_gib) is None
            ==> r is Ok,
{
    let ghost ps = partitions@;
    let mut total: u64 = 0;
    let mut i: usize = 0;
    while i < partitions.len()
        invariant
            ps == partitions@,
            i <= ps.len(),
            total == total_ram(ps.take(i as int)),
        decreases ps.len() - i,
    {
        proof {
            assert(ps.take(i + 1).drop_last() =~= ps.take(i as int));
        }
        match total.checked_add(partitions[i].memory_bytes) {
            Some(t) => {
                total = t;
            },
            None => {
                proof {
                    lemma_total_ram_prefix(ps, i + 1, ps.len() as int);
                    assert(ps.take(ps.len() as int) =~= ps);
                }
                return Err(ConfigError::invalid("partitions", "total partition RAM overflows"));
            },
        }
        i = i + 1;
    }
    proof {
        assert(ps.take(ps.len() as int) =~= ps);
    }
    let min_ram = match gib_to_bytes(raw.platform.requirements.min_ram_gib) {
        Ok(v) => v,
        Err(_) => {
            return Err(
                ConfigError::invalid("platform.requirements.min_ram_gib", "overflow converting to bytes"),
            );
        },
    };
    if total > min_ram {
        return Err(ConfigError::ResourceBudgetExceeded { kind: "ram", required: total, available: min_ram });
    }
    Ok(())
}

// ---------------------------------------------------------------------------
// Platform requirements, benchmark and QEMU sections.
// ---------------------------------------------------------------------------

/// Page sizes the planner supports: 4 KiB and 2 MiB.
pub open spec fn page_size_supported(size: u64) -> bool {
    size == 4096 || size == 2_097_152
}

/// First problem with the platform requirements section.
pub open spec fn requirements_error(r: RawPlatformRequirements) -> Option<ConfigErrorSpec> {
    if r.arch@ != "x86_64"@ {
        Some(ConfigErrorSpec::Invalid("platform.requirements.arch", "only x86_64 is supported"@))
    } else if r.min_physical_cores == 0 {
        Some(
            ConfigErrorSpec::Invalid(
                "platform.requirements.min_physical_cores",
                "must be greater than zero"@,
            ),
        )
    } else if r.page_sizes@.len() == 0 {
        Some(ConfigErrorSpec::MissingField("platform.requirements.page_sizes"))
    } else if exists|i: int| 0 <= i < r.page_sizes@.len() && !page_size_supported(#[trigger] r.page_sizes@[i]) {
        Some(
            ConfigErrorSpec::Invalid(
                "platform.requirements.page_sizes",
                "only 4096 and 2097152 byte pages are supported in MVP"@,
            ),
        )
    } else if r.min_ram_gib * GIB > u64::MAX {
        Some(
            ConfigErrorSpec::Invalid(
                "platform.requirements.min_ram_gib",
                "overflow converting to bytes"@,
            ),
        )
    } else {
        None
    }
}

/// `n` is the normalized form of requirements `r`.
pub open spec fn requirements_normalized(r: RawPlatformRequirements, n: NormalizedPlatformRequirements) -> bool {
    &&& n.arch == ArchRequirement::X86_64
    &&& n.vmx == r.vmx
    &&& n.ept == r.ept
    &&& n.vtd == r.vtd
    &&& n.min_physical_cores == r.min_physical_cores
    &&& n.smt_policy == r.smt_policy
    &&& n.min_ram_bytes == r.min_ram_gib * GIB
    &&& n.interrupt_remapping == r.interrupt_remapping
    &&& n.x2apic == r.x2apic
    &&& n.invariant_tsc == r.invariant_tsc
    &&& n.vpid == r.vpid
    &&& n.vmx_preemption_timer == r.vmx_preemption_timer
    &&& n.nx == r.nx
    &&& n.page_sizes@ == r.page_sizes@
}

/// Validates and normalizes the platform requirements section.
fn normalize_requirements(raw: &RawPlatformRequirements) -> (r: Result<NormalizedPlatformRequirements, ConfigError>)
    ensures
        requirements_error(*raw) matches Some(e) ==> r is Err && error_is(r->Err_0, e),
        requirements_error(*raw) is None ==> (r matches Ok(n) && requirements_normalized(*raw, n)),
{
    if !text_eq(raw.arch.as_str(), "x86_64") {
        return Err(ConfigError::invalid("platform.requirements.arch", "only x86_64 is supported"));
    }
    if raw.min_physical_cores == 0 {
        return Err(
            ConfigError::invalid("platform.requirements.min_physical_cores", "must be greater than zero"),
        );
    }
    if raw.page_sizes.len() == 0 {
        return Err(ConfigError::MissingField { path: "platform.requirements.page_sizes" });
    }
    let mut i: usize = 0;
    while i < raw.page_sizes.len()
        invariant
            raw.arch@ == "x86_64"@,
            raw.min_physical_cores != 0,
            raw.page_sizes@.len() != 0,
            i <= raw.page_sizes@.len(),
            forall|m: int| 0 <= m < i ==> page_size_supported(#[trigger] raw.page_sizes@[m]),
        decreases raw.page_sizes@.len() - i,
    {
        let size = raw.page_sizes[i];
        if size != 4096 && size != 2_097_152 {
            assert(!page_size_supported(raw.page_sizes@[i as int]));
            return Err(
                ConfigError::invalid(
                    "platform.requirements.page_sizes",
                    "only 4096 and 2097152 byte pages are supported in MVP",
                ),
            );
        }
        i = i + 1;
    }
    let min_ram_bytes = match gib_to_bytes(raw.min_ram_gib) {
        Ok(v) => v,
        Err(_) => {
            return Err(
                ConfigError::invalid("platform.requirements.min_ram_gib", "overflow converting to bytes"),
            );
        },
    };
    let page_sizes = raw.page_sizes.clone();
    assert(page_sizes@ =~= raw.page_sizes@);
    Ok(
        NormalizedPlatformRequirements {
            arch: ArchRequirement::X86_64,
            vmx: raw.vmx,
            ept: raw.ept,
            vtd: raw.vtd,
            min_physical_cores: raw.min_physical_cores,
            smt_policy: raw.smt_policy,
            min_ram_bytes,
            interrupt_remapping: raw.interrupt_remapping,
            x2apic: raw.x2apic,
            invariant_tsc: raw.invariant_tsc,
            vpid: raw.vpid,
            vmx_preemption_timer: raw.vmx_preemption_timer,
            nx: raw.nx,
            page_sizes,
        },
    )
}

/// First problem with the benchmark section, given the outcome of parsing
/// its loss ratio into parts per million.
pub open spec fn benchmark_error(b: RawBenchmark, max_loss_ppm: Result<u32, &'static str>) -> Option<
    ConfigErrorSpec,
> {
    if b.warmup_seconds == 0 {
        Some(
            ConfigErrorSpec::Invalid(
                "performance.benchmark.warmup_seconds",
                "must be greater than zero"@,
            ),
        )
    } else if b.measurement_seconds == 0 {
        Some(
            ConfigErrorSpec::Invalid(
                "performance.benchmark.measurement_seconds",
                "must be greater than zero"@,
            ),
        )
    } else if b.runs < 5 {
        Some(ConfigErrorSpec::Invalid("performance.benchmark.runs", "must be at least 5"@))
    } else if max_loss_ppm is Err {
        Some(ConfigErrorSpec::Invalid("performance.benchmark.max_loss_ratio", max_loss_ppm->Err_0@))
    } else {
        None
    }
}

/// `n` is the normalized benchmark for `b` with loss bound `ppm`.
pub open spec fn benchmark_normalized(b: RawBenchmark, ppm: u32, n: NormalizedBenchmark) -> bool {
    &&& n.protocol@ == b.protocol@
    &&& n.frame_size == b.frame_size
    &&& n.payload_size == b.payload_size
    &&& n.throughput_metric == b.throughput_metric
    &&& n.warmup_seconds == b.warmup_seconds
    &&& n.measurement_seconds == b.measurement_seconds
    &&& n.runs == b.runs
    &&& n.max_loss_ppm == ppm
}

/// Validates the benchmark section. `max_loss_ppm` is the outcome of parsing
/// `raw.max_loss_ratio` (a fraction, or a percentage with a `%` suffix) into
/// parts per million, or the reason it was rejected.
pub fn normalize_benchmark(raw: &RawBenchmark, max_loss_ppm: Result<u32, &'static str>) -> (r: Result<
    NormalizedBenchmark,
    ConfigError,
>)
    ensures
        benchmark_error(*raw, max_loss_ppm) matches Some(e) ==> r is Err && error_is(r->Err_0, e),
        benchmark_error(*raw, max_loss_ppm) is None ==> (r matches Ok(n) && benchmark_normalized(
            *raw,
            max_loss_ppm->Ok_0,
            n,
        )),
{
    if raw.warmup_seconds == 0 {
        return Err(ConfigError::invalid("performance.benchmark.warmup_seconds", "must be greater than zero"));
    }
    if raw.measurement_seconds == 0 {
        return Err(
            ConfigError::invalid("performance.benchmark.measurement_seconds", "must be greater than zero"),
        );
    }
    if raw.runs < 5 {
        return Err(ConfigError::invalid("performance.benchmark.runs", "must be at least 5"));
    }
    let ppm = match max_loss_ppm {
        Ok(v) => v,
        Err(reason) => {
            return Err(ConfigError::invalid("performance.benchmark.max_loss_ratio", reason));
        },
    };
    Ok(
        NormalizedBenchmark {
            protocol: raw.protocol.clone(),
            frame_size: raw.frame_size,
            payload_size: raw.payload_size,
            throughput_metric: raw.throughput_metric,
            warmup_seconds: raw.warmup_seconds,
            measurement_seconds: raw.measurement_seconds,
            runs: raw.runs,
            max_loss_ppm: ppm,
        },
    )
}

/// First problem with a QEMU device binding from index `i` on.
pub open spec fn qemu_devices_error(ds: Seq<RawQemuDevice>, i: int) -> Option<ConfigErrorSpec>
    decreases ds.len() - i,
{
    if i < 0 || i >= ds.len() {
        None
    } else if ds[i].kind@ != "e1000"@ {
        Some(ConfigErrorSpec::Invalid("devices[].kind", bad_kind_reason(ds[i].kind@)))
    } else if bdf_of(ds[i].bdf@) is Err {
        Some(ConfigErrorSpec::Invalid("qemu.devices[].bdf", "invalid PCI BDF"@))
    } else {
        qemu_devices_error(ds, i + 1)
    }
}

/// First problem with the QEMU section.
pub open spec fn qemu_error(q: RawQemu) -> Option<ConfigErrorSpec> {
    if q.smp.cpus == 0 || q.smp.cores == 0 || q.smp.threads == 0 {
        Some(ConfigErrorSpec::Invalid("qemu.smp", "cpus, cores and threads must be non-zero"@))
    } else if q.memory_mib * MIB > u64::MAX {
        Some(ConfigErrorSpec::Invalid("qemu.memory_mib", "overflow converting to bytes"@))
    } else {
        qemu_devices_error(q.devices@, 0)
    }
}

/// `n` is the normalized form of the QEMU section `q`.
pub open spec fn qemu_normalized(q: RawQemu, n: NormalizedQemu) -> bool {
    &&& n.machine@ == q.machine@
    &&& n.cpu@ == q.cpu@
    &&& n.smp.cpus == q.smp.cpus
    &&& n.smp.cores == q.smp.cores
    &&& n.smp.threads == q.smp.threads
    &&& n.memory_bytes == q.memory_mib * MIB
    &&& n.accel@ == q.accel@
    &&& n.ovmf@ == q.ovmf@
    &&& n.netdevs@.len() == q.netdevs@.len()
    &&& forall|i: int| 0 <= i < q.netdevs@.len() ==> {
        &&& (#[trigger] n.netdevs@[i]).id@ == q.netdevs@[i].id@
        &&& n.netdevs@[i].kind@ == q.netdevs@[i].kind@
        &&& opt_text_eq(q.netdevs@[i].hostfwd, n.netdevs@[i].hostfwd)
    }
    &&& n.devices@.len() == q.devices@.len()
    &&& forall|i: int| 0 <= i < q.devices@.len() ==> {
        &&& (#[trigger] n.devices@[i]).kind == DeviceKind::E1000
        &&& bdf_of(q.devices@[i].bdf@) == Ok::<PciBdf, crate::types::PciBdfError>(n.devices@[i].bdf)
        &&& opt_text_eq(q.devices@[i].netdev, n.devices@[i].netdev)
    }
}

/// Validates and normalizes the QEMU section.
fn normalize_qemu(raw: &RawQemu) -> (r: Result<NormalizedQemu, ConfigError>)
    ensures
        qemu_error(*raw) matches Some(e) ==> r is Err && error_is(r->Err_0, e),
        qemu_error(*raw) is None ==> (r matches Ok(n) && qemu_normalized(*raw, n)),
{
    if raw.smp.cpus == 0 || raw.smp.cores == 0 || raw.smp.threads == 0 {
        return Err(ConfigError::invalid("qemu.smp", "cpus, cores and threads must be non-zero"));
    }
    let memory_bytes = match mib_to_bytes(raw.memory_mib) {
        Ok(v) => v,
        Err(_) => {
            return Err(ConfigError::invalid("qemu.memory_mib", "overflow converting to bytes"));
        },
    };
    let ghost ds = raw.devices@;
    let mut devices: Vec<NormalizedQemuDevice> = Vec::new();
    let mut i: usize = 0;
    while i < raw.devices.len()
        invariant
            ds == raw.devices@,
            raw.smp.cpus != 0 && raw.smp.cores != 0 && raw.smp.threads != 0,
            raw.memory_mib * MIB <= u64::MAX,
            i <= ds.len(),
            qemu_devices_error(ds, 0) == qemu_devices_error(ds, i as int),
            devices@.len() == i,
            forall|m: int| 0 <= m < i ==> {
                &&& (#[trigger] devices@[m]).kind == DeviceKind::E1000
                &&& bdf_of(ds[m].bdf@) == Ok::<PciBdf, crate::types::PciBdfError>(devices@[m].bdf)
                &&& opt_text_eq(ds[m].netdev, devices@[m].netdev)
            },
        decreases ds.len() - i,
    {
        let device = &raw.devices[i];
        let kind = parse_device_kind(device.kind.as_str())?;
        let bdf = match PciBdf::parse(device.bdf.as_str()) {
            Ok(b) => b,
            Err(_) => {
                return Err(ConfigError::invalid("qemu.devices[].bdf", "invalid PCI BDF"));
            },
        };
        devices.push(NormalizedQemuDevice { kind, bdf, netdev: clone_opt_text(&device.netdev) });
        i = i + 1;
    }
    let mut netdevs: Vec<NormalizedNetdev> = Vec::new();
    let mut j: usize = 0;
    while j < raw.netdevs.len()
        invariant
            j <= raw.netdevs@.len(),
            netdevs@.len() == j,
            forall|m: int| 0 <= m < j ==> {
                &&& (#[trigger] netdevs@[m]).id@ == raw.netdevs@[m].id@
                &&& netdevs@[m].kind@ == raw.netdevs@[m].kind@
                &&& opt_text_eq(raw.netdevs@[m].hostfwd, netdevs@[m].hostfwd)
            },
        decreases raw.netdevs@.len() - j,
    {
        let n = &raw.netdevs[j];
        netdevs.push(
            NormalizedNetdev {
                id: n.id.clone(),
                kind: n.kind.clone(),
                hostfwd: clone_opt_text(&n.hostfwd),
            },
        );
        j = j + 1;
    }
    Ok(
        NormalizedQemu {
            machine: raw.machine.clone(),
            cpu: raw.cpu.clone(),
            smp: NormalizedSmp { cpus: raw.smp.cpus, cores: raw.smp.cores, threads: raw.smp.threads },
            memory_bytes,
            accel: raw.accel.clone(),
            ovmf: raw.ovmf.clone(),
            netdevs,
            devices,
        },
    )
}

// ---------------------------------------------------------------------------
// Whole-configuration normalization.
// ---------------------------------------------------------------------------

/// Datapath views of raw partitions: VM identifiers from declaration order,
/// and a NIC wherever a device is assigned (every accepted device is an e1000).
pub open spec fn raw_nodes(ps: Seq<RawPartition>) -> Seq<NodeView> {
    Seq::new(
        ps.len(),
        |i: int| NodeView { vm_id: VmId(i as u32), nic: ps[i].devices@.len() > 0, name: ps[i].name@ },
    )
}

/// Edges of raw channels with endpoints resolved to partition indices.
pub open spec fn raw_edges(ps: Seq<RawPartition>, cs: Seq<RawIpc>) -> Seq<(VmId, VmId)> {
    cs.map_values(
        |c: RawIpc|
            (
                VmId(find_partition(ps, c.producer@, 0)->Some_0 as u32),
                VmId(find_partition(ps, c.consumer@, 0)->Some_0 as u32),
            ),
    )
}

/// Sum of the raw partitions' RAM in bytes.
pub open spec fn raw_total_ram(ps: Seq<RawPartition>) -> int
    decreases ps.len(),
{
    if ps.len() == 0 {
        0
    } else {
        raw_total_ram(ps.drop_last()) + ps.last().memory_gib * GIB
    }
}

/// The first problem `normalize` reports for `raw`, given the outcome of
/// parsing the benchmark's loss ratio.
pub open spec fn normalize_error(raw: RawConfig, max_loss_ppm: Result<u32, &'static str>) -> Option<
    ConfigErrorSpec,
> {
    let ps = raw.partitions@;
    if raw.version != SUPPORTED_VERSION {
        Some(ConfigErrorSpec::UnsupportedVersion(raw.version))
    } else if blank(raw.name@) {
        Some(ConfigErrorSpec::MissingField("name"))
    } else if partitions_error(ps) is Some {
        partitions_error(ps)
    } else if normalize_partitions_error(ps, 0) is Some {
        normalize_partitions_error(ps, 0)
    } else if ipc_list_error(raw.ipc@, ps, 0) is Some {
        ipc_list_error(raw.ipc@, ps, 0)
    } else if datapath_error(raw_nodes(ps), raw_edges(ps, raw.ipc@)) is Some {
        Some(ConfigErrorSpec::Datapath(datapath_error(raw_nodes(ps), raw_edges(ps, raw.ipc@))->Some_0))
    } else if budget_error(raw_total_ram(ps), raw.platform.requirements.min_ram_gib) is Some {
        budget_error(raw_total_ram(ps), raw.platform.requirements.min_ram_gib)
    } else if requirements_error(raw.platform.requirements) is Some {
        requirements_error(raw.platform.requirements)
    } else if benchmark_error(raw.performance.benchmark, max_loss_ppm) is Some {
        benchmark_error(raw.performance.benchmark, max_loss_ppm)
    } else {
        qemu_error(raw.qemu)
    }
}

/// `cfg` is the normalized form of `raw` with loss bound `ppm`.
pub open spec fn config_normalized(raw: RawConfig, ppm: u32, cfg: NormalizedConfig) -> bool {
    &&& cfg.version == raw.version
    &&& cfg.name@ == raw.name@
    &&& requirements_normalized(raw.platform.requirements, cfg.platform.requirements)
    &&& partitions_normalized(raw.partitions@, cfg.partitions@)
    &&& cfg.ipc@.len() == raw.ipc@.len()
    &&& forall|i: int|
        0 <= i < cfg.ipc@.len() ==> ipc_normalized(raw.ipc@[i], raw.partitions@, #[trigger] cfg.ipc@[i])
    &&& cfg.security.require_config_hash == raw.security.require_config_hash
    &&& cfg.security.ipc_corruption_policy == raw.security.ipc_corruption_policy
    &&& cfg.security.ept_violation_policy == raw.security.ept_violation_policy
    &&& cfg.security.iommu_fault_policy == raw.security.iommu_fault_policy
    &&& benchmark_normalized(raw.performance.benchmark, ppm, cfg.benchmark)
    &&& cfg.boot.loader@ == raw.boot.loader@
    &&& cfg.boot.hypervisor@ == raw.boot.hypervisor@
    &&& cfg.boot.exit_boot_services == raw.boot.exit_boot_services
    &&& qemu_normalized(raw.qemu, cfg.qemu)
}

proof fn lemma_raw_nodes(ps: Seq<RawPartition>, out: Seq<NormalizedPartition>)
    requires
        partitions_normalized(ps, out),
    ensures
        nodes_of(out) == raw_nodes(ps),
{
    assert forall|i: int| 0 <= i < out.len() implies #[trigger] nodes_of(out)[i] == raw_nodes(ps)[i] by {
        assert(partition_normalized(ps[i], i, out[i]));
        if ps[i].devices@.len() > 0 {
            assert(device_normalized(ps[i].devices@[0], out[i].devices@[0]));
            assert(is_nic(out[i]));
        }
    }
    assert(nodes_of(out) =~= raw_nodes(ps));
}

proof fn lemma_raw_edges(ps: Seq<RawPartition>, cs: Seq<RawIpc>, out: Seq<NormalizedIpc>)
    requires
        out.len() == cs.len(),
        forall|i: int| 0 <= i < out.len() ==> ipc_normalized(cs[i], ps, #[trigger] out[i]),
    ensures
        edges_of(out) == raw_edges(ps, cs),
{
    assert forall|i: int| 0 <= i < out.len() implies #[trigger] edges_of(out)[i] == raw_edges(ps, cs)[i] by {
        assert(ipc_normalized(cs[i], ps, out[i]));
    }
    assert(edges_of(out) =~= raw_edges(ps, cs));
}

proof fn lemma_raw_total_ram(ps: Seq<RawPartition>, out: Seq<NormalizedPartition>, k: int)
    requires
        partitions_normalized(ps, out),
        0 <= k <= ps.len(),
    ensures
        total_ram(out.take(k)) == raw_total_ram(ps.take(k)),
    decreases k,
{
    if k > 0 {
        lemma_raw_total_ram(ps, out, k - 1);
        assert(out.take(k).drop_last() =~= out.take(k - 1));
        assert(ps.take(k).drop_last() =~= ps.take(k - 1));
        assert(partition_normalized(ps[k - 1], k - 1, out[k - 1]));
    }
}

/// Validates and normalizes a raw configuration. `max_loss_ppm` is the
/// outcome of parsing `raw.performance.benchmark.max_loss_ratio` into parts
/// per million.
pub fn normalize(raw: RawConfig, max_loss_ppm: Result<u32, &'static str>) -> (r: Result<
    NormalizedConfig,
    ConfigError,
>)
    ensures
        normalize_error(raw, max_loss_ppm) matches Some(e) ==> r is Err && error_is(r->Err_0, e),
        normalize_error(raw, max_loss_ppm) is None ==> (r matches Ok(cfg) && config_normalized(
            raw,
            max_loss_ppm->Ok_0,
            cfg,
        )),
{
    let ghost ps = raw.partitions@;
    validate_version(raw.version)?;
    validate_non_empty("name", raw.name.as_str())?;
    validate_partitions(&raw)?;
    let partitions = normalize_partitions(&raw.partitions)?;
    let ipc = normalize_ipc(&raw.ipc, &partitions, Ghost(ps))?;
    proof {
        lemma_raw_nodes(ps, partitions@);
        lemma_raw_edges(ps, raw.ipc@, ipc@);
        lemma_raw_total_ram(ps, partitions@, ps.len() as int);
        assert(ps.take(ps.len() as int) =~= ps);
        assert(partitions@.take(ps.len() as int) =~= partitions@);
    }
    validate_datapath(partitions.as_slice(), ipc.as_slice())?;
    validate_resource_budgets(&raw, partitions.as_slice())?;
    let requirements = normalize_requirements(&raw.platform.requirements)?;
    let benchmark = normalize_benchmark(&raw.performance.benchmark, max_loss_ppm)?;
    let qemu = normalize_qemu(&raw.qemu)?;
    Ok(
        NormalizedConfig {
            version: raw.version,
            name: raw.name,
            platform: NormalizedPlatform { requirements },
            partitions,
            ipc,
            security: NormalizedSecurity {
                require_config_hash: raw.security.require_config_hash,
                ipc_corruption_policy: raw.security.ipc_corruption_policy,
                ept_violation_policy: raw.security.ept_violation_policy,
                iommu_fault_policy: raw.security.iommu_fault_policy,
            },
            benchmark,
            boot: NormalizedBoot {
                loader: raw.boot.loader,
                hypervisor: raw.boot.hypervisor,
                exit_boot_services: raw.boot.exit_boot_services,
            },
            qemu,
        },
    )
}

/// Index of the first normalized partition named `name`.
pub open spec fn first_named(ps: Seq<NormalizedPartition>, name: Seq<char>) -> Option<int> {
    if exists|i: int| 0 <= i < ps.len() && #[trigger] ps[i].name@ == name {
        Some(choose|i: int| 0 <= i < ps.len() && ps[i].name@ == name && forall|k: int| 0 <= k < i ==> #[trigger] ps[k].name@ != name)
    } else {
        None
    }
}

impl NormalizedConfig {
    /// The partitions in VM identifier order.
    pub fn partitions(&self) -> (r: &[NormalizedPartition])
        ensures
            r@ == self.partitions@,
    {
        self.partitions.as_slice()
    }

    /// Looks up the first partition named `name`.
    pub fn partition_by_name(&self, name: &str) -> (r: Option<&NormalizedPartition>)
        ensures
            first_named(self.partitions@, name@) matches Some(i) ==> r == Some(&self.partitions@[i]),
            first_named(self.partitions@, name@) is None ==> r is None,
    {
        let ghost ps = self.partitions@;
        let mut i: usize = 0;
        while i < self.partitions.len()
            invariant
                ps == self.partitions@,
                i <= ps.len(),
                forall|k: int| 0 <= k < i ==> #[trigger] ps[k].name@ != name@,
            decreases ps.len() - i,
        {
            if text_eq(self.partitions[i].name.as_str(), name) {
                proof {
                    let w = choose|w: int| 0 <= w < ps.len() && ps[w].name@ == name@ && forall|k: int| 0 <= k < w ==> #[trigger] ps[k].name@ != name@;
                    assert(0 <= i < ps.len() && ps[i as int].name@ == name@ && forall|k: int| 0 <= k < i ==> #[trigger] ps[k].name@ != name@);
                    if w < i {
                        assert(ps[w].name@ != name@);
                    } else if w > i {
                        assert(ps[i as int].name@ != name@);
                    }
                }
                return Some(&self.partitions[i]);
            }
            i = i + 1;
        }
        None
    }
}

} // verus!
