//! Canonical JSON text of a normalized configuration, the input of the
//! configuration hash.

use vstd::prelude::*;
use vstd::string::*;

use crate::config::normalize::{
    DeviceKind, NormalizedBenchmark, NormalizedBoot, NormalizedConfig, NormalizedDevice,
    NormalizedIpc, NormalizedPartition, NormalizedPlatformRequirements, NormalizedQemu,
    NormalizedSecurity,
};
use crate::config::raw::{FaultPolicy, RequirementLevel, SmtPolicy, ThroughputMetric};
use crate::text::{decimal, json_quoted, push_decimal, push_json_string};
use crate::types::bdf_text;

verus! {

/// Items separated by commas.
pub open spec fn joined(items: Seq<Seq<char>>) -> Seq<char>
    decreases items.len(),
{
    if items.len() == 0 {
        Seq::empty()
    } else if items.len() == 1 {
        items[0]
    } else {
        joined(items.drop_last()) + ","@ + items.last()
    }
}

/// Items as a JSON array.
pub open spec fn array_text(items: Seq<Seq<char>>) -> Seq<char> {
    "["@ + joined(items) + "]"@
}

/// Decimal text of an unsigned value.
pub open spec fn num(v: u64) -> Seq<char> {
    decimal(v as nat)
}

/// Text of a requirement level.
pub open spec fn level_text(l: RequirementLevel) -> Seq<char> {
    match l {
        RequirementLevel::Required => "required"@,
        RequirementLevel::Preferred => "preferred"@,
        RequirementLevel::Optional => "optional"@,
        RequirementLevel::Disabled => "disabled"@,
    }
}

/// Text of an SMT policy.
pub open spec fn smt_text(p: SmtPolicy) -> Seq<char> {
    match p {
        SmtPolicy::Disabled => "disabled"@,
        SmtPolicy::ExclusiveCore => "exclusive_core"@,
        SmtPolicy::SamePartitionSiblings => "same_partition_siblings"@,
        SmtPolicy::AllowCrossPartition => "allow_cross_partition"@,
    }
}

/// Text of a fault policy.
pub open spec fn fault_text(p: FaultPolicy) -> Seq<char> {
    match p {
        FaultPolicy::StopPartition => "stop_partition"@,
        FaultPolicy::FailStopSystem => "fail_stop_system"@,
    }
}

/// Text of a throughput metric.
pub open spec fn metric_text(m: ThroughputMetric) -> Seq<char> {
    match m {
        ThroughputMetric::UdpPayload => "udp_payload_bytes"@,
        ThroughputMetric::IpPacket => "ip_bytes"@,
        ThroughputMetric::EthernetFrame => "ethernet_bytes"@,
    }
}

/// Text of a device kind.
pub open spec fn kind_text(k: DeviceKind) -> Seq<char> {
    match k {
        DeviceKind::E1000 => "e1000"@,
    }
}

/// A quoted text value.
pub open spec fn quoted(s: Seq<char>) -> Seq<char> {
    "\""@ + s + "\""@
}

/// JSON text of the platform requirements.
pub open spec fn requirements_text(r: NormalizedPlatformRequirements) -> Seq<char> {
    requirements_fields(r) + ",\"page_sizes\":"@ + array_text(
        r.page_sizes@.map_values(|v: u64| num(v)),
    ) + "}"@
}

/// The platform requirements' JSON up to, not including, the page sizes.
pub open spec fn requirements_fields(r: NormalizedPlatformRequirements) -> Seq<char> {
    requirements_core(r) + requirements_features(r)
}

/// Architecture, VMX, EPT, VT-d, cores, SMT and RAM fields.
pub open spec fn requirements_core(r: NormalizedPlatformRequirements) -> Seq<char> {
    "{\"arch\":\"x86_64\",\"vmx\":"@ + quoted(level_text(r.vmx)) + ",\"ept\":"@ + quoted(
        level_text(r.ept),
    ) + ",\"vtd\":"@ + quoted(level_text(r.vtd)) + ",\"min_physical_cores\":"@ + num(
        r.min_physical_cores as u64,
    ) + ",\"smt_policy\":"@ + quoted(smt_text(r.smt_policy)) + ",\"min_ram_bytes\":"@ + num(
        r.min_ram_bytes,
    )
}

/// Interrupt remapping, x2APIC, invariant TSC, VPID, preemption timer and NX fields.
pub open spec fn requirements_features(r: NormalizedPlatformRequirements) -> Seq<char> {
    ",\"interrupt_remapping\":"@ + quoted(level_text(r.interrupt_remapping)) + ",\"x2apic\":"@
        + quoted(level_text(r.x2apic)) + ",\"invariant_tsc\":"@ + quoted(
        level_text(r.invariant_tsc),
    ) + ",\"vpid\":"@ + quoted(level_text(r.vpid)) + ",\"vmx_preemption_timer\":"@ + quoted(
        level_text(r.vmx_preemption_timer),
    ) + ",\"nx\":"@ + quoted(level_text(r.nx))
}

/// JSON text of a device.
pub open spec fn device_text(d: NormalizedDevice) -> Seq<char> {
    "{\"kind\":"@ + quoted(kind_text(d.kind)) + ",\"bdf\":"@ + json_quoted(bdf_text(d.bdf)) + "}"@
}

/// JSON text of a partition.
pub open spec fn partition_text(p: NormalizedPartition) -> Seq<char> {
    "{\"vm_id\":"@ + num(p.vm_id.0 as u64) + ",\"name\":"@ + json_quoted(p.name@) + ",\"vcpus\":"@
        + num(p.vcpus as u64) + ",\"memory_bytes\":"@ + num(p.memory_bytes) + ",\"image\":"@
        + json_quoted(p.image@) + ",\"devices\":"@ + array_text(
        p.devices@.map_values(|d: NormalizedDevice| device_text(d)),
    ) + "}"@
}

/// JSON text of a channel; direction and queue policy are written by their
/// only accepted values.
pub open spec fn ipc_text(c: NormalizedIpc) -> Seq<char> {
    "{\"name\":"@ + json_quoted(c.name@) + ",\"producer\":"@ + num(c.producer.0 as u64)
        + ",\"consumer\":"@ + num(c.consumer.0 as u64)
        + ",\"direction\":\"unidirectional\",\"slot_count\":"@ + num(c.slot_count as u64)
        + ",\"slot_size\":"@ + num(c.slot_size as u64) + ",\"queue_full_policy\":\"drop_tail\"}"@
}

/// JSON text of the security policies.
pub open spec fn security_text(s: NormalizedSecurity) -> Seq<char> {
    "{\"require_config_hash\":"@ + crate::text::bool_text(s.require_config_hash)
        + ",\"ipc_corruption_policy\":"@ + quoted(fault_text(s.ipc_corruption_policy))
        + ",\"ept_violation_policy\":"@ + quoted(fault_text(s.ept_violation_policy))
        + ",\"iommu_fault_policy\":"@ + quoted(fault_text(s.iommu_fault_policy)) + "}"@
}

/// JSON text of the benchmark.
pub open spec fn benchmark_text(b: NormalizedBenchmark) -> Seq<char> {
    "{\"protocol\":"@ + json_quoted(b.protocol@) + ",\"frame_size\":"@ + num(b.frame_size as u64)
        + ",\"payload_size\":"@ + num(b.payload_size as u64) + ",\"throughput_metric\":"@ + quoted(
        metric_text(b.throughput_metric),
    ) + ",\"warmup_seconds\":"@ + num(b.warmup_seconds as u64) + ",\"measurement_seconds\":"@
        + num(b.measurement_seconds as u64) + ",\"runs\":"@ + num(b.runs as u64)
        + ",\"max_loss_ppm\":"@ + num(b.max_loss_ppm as u64) + "}"@
}

/// JSON text of the boot paths.
pub open spec fn boot_text(b: NormalizedBoot) -> Seq<char> {
    "{\"loader\":"@ + json_quoted(b.loader@) + ",\"hypervisor\":"@ + json_quoted(b.hypervisor@)
        + ",\"exit_boot_services\":"@ + crate::text::bool_text(b.exit_boot_services) + "}"@
}

/// JSON text of the QEMU plan (netdevs and device bindings are not part of it).
pub open spec fn qemu_text(q: NormalizedQemu) -> Seq<char> {
    "{\"machine\":"@ + json_quoted(q.machine@) + ",\"cpu\":"@ + json_quoted(q.cpu@)
        + ",\"smp\":{\"cpus\":"@ + num(q.smp.cpus as u64) + ",\"cores\":"@ + num(q.smp.cores as u64)
        + ",\"threads\":"@ + num(q.smp.threads as u64) + "},\"memory_bytes\":"@ + num(q.memory_bytes)
        + ",\"accel\":"@ + json_quoted(q.accel@) + ",\"ovmf\":"@ + json_quoted(q.ovmf@) + "}"@
}

/// Canonical JSON text of a normalized configuration.
pub open spec fn canonical_text(c: NormalizedConfig) -> Seq<char> {
    "{\"version\":"@ + num(c.version as u64) + ",\"name\":"@ + json_quoted(c.name@)
        + ",\"platform\":{\"requirements\":"@ + requirements_text(c.platform.requirements) + "}"@
        + ",\"partitions\":"@ + array_text(
        c.partitions@.map_values(|p: NormalizedPartition| partition_text(p)),
    ) + ",\"ipc\":"@ + array_text(c.ipc@.map_values(|i: NormalizedIpc| ipc_text(i)))
        + ",\"security\":"@ + security_text(c.security) + ",\"benchmark\":"@ + benchmark_text(
        c.benchmark,
    ) + ",\"boot\":"@ + boot_text(c.boot) + ",\"qemu\":"@ + qemu_text(c.qemu) + "}"@
}

proof fn lemma_joined_step(items: Seq<Seq<char>>, i: int)
    requires
        0 <= i < items.len(),
    ensures
        joined(items.take(i + 1)) == joined(items.take(i)) + (if i == 0 {
            Seq::<char>::empty()
        } else {
            ","@
        }) + items[i],
{
    assert(items.take(i + 1).drop_last() =~= items.take(i));
    if i == 0 {
        assert(joined(items.take(0)) =~= Seq::<char>::empty());
        assert(joined(items.take(1)) == items.take(1)[0]);
        assert(Seq::<char>::empty() + Seq::<char>::empty() + items[0] =~= items[0]);
    }
}

fn push_str(out: &mut String, s: &str)
    ensures
        final(out)@ == old(out)@ + s@,
{
    out.append(s);
}

fn push_quoted(out: &mut String, s: &str)
    ensures
        final(out)@ == old(out)@ + quoted(s@),
{
    out.append("\"");
    out.append(s);
    out.append("\"");
    proof {
        assert(final(out)@ =~= old(out)@ + quoted(s@));
    }
}

fn level_name(l: RequirementLevel) -> (r: &'static str)
    ensures
        r@ == level_text(l),
{
    match l {
        RequirementLevel::Required => "required",
        RequirementLevel::Preferred => "preferred",
        RequirementLevel::Optional => "optional",
        RequirementLevel::Disabled => "disabled",
    }
}

fn smt_name(p: SmtPolicy) -> (r: &'static str)
    ensures
        r@ == smt_text(p),
{
    match p {
        SmtPolicy::Disabled => "disabled",
        SmtPolicy::ExclusiveCore => "exclusive_core",
        SmtPolicy::SamePartitionSiblings => "same_partition_siblings",
        SmtPolicy::AllowCrossPartition => "allow_cross_partition",
    }
}

fn fault_name(p: FaultPolicy) -> (r: &'static str)
    ensures
        r@ == fault_text(p),
{
    match p {
        FaultPolicy::StopPartition => "stop_partition",
        FaultPolicy::FailStopSystem => "fail_stop_system",
    }
}

fn metric_name(m: ThroughputMetric) -> (r: &'static str)
    ensures
        r@ == metric_text(m),
{
    match m {
        ThroughputMetric::UdpPayload => "udp_payload_bytes",
        ThroughputMetric::IpPacket => "ip_bytes",
        ThroughputMetric::EthernetFrame => "ethernet_bytes",
    }
}

fn kind_name(k: DeviceKind) -> (r: &'static str)
    ensures
        r@ == kind_text(k),
{
    match k {
        DeviceKind::E1000 => "e1000",
    }
}

fn requirements_core_json(r: &NormalizedPlatformRequirements) -> (s: String)
    ensures
        s@ == requirements_core(*r),
{
    let mut s = String::from_str("{\"arch\":\"x86_64\",\"vmx\":");
    push_quoted(&mut s, level_name(r.vmx));
    push_str(&mut s, ",\"ept\":");
    push_quoted(&mut s, level_name(r.ept));
    push_str(&mut s, ",\"vtd\":");
    push_quoted(&mut s, level_name(r.vtd));
    push_str(&mut s, ",\"min_physical_cores\":");
    push_decimal(&mut s, r.min_physical_cores as u64);
    push_str(&mut s, ",\"smt_policy\":");
    push_quoted(&mut s, smt_name(r.smt_policy));
    push_str(&mut s, ",\"min_ram_bytes\":");
    push_decimal(&mut s, r.min_ram_bytes);
    s
}

fn requirements_features_json(r: &NormalizedPlatformRequirements) -> (s: String)
    ensures
        s@ == requirements_features(*r),
{
    let mut s = String::from_str(",\"interrupt_remapping\":");
    push_quoted(&mut s, level_name(r.interrupt_remapping));
    push_str(&mut s, ",\"x2apic\":");
    push_quoted(&mut s, level_name(r.x2apic));
    push_str(&mut s, ",\"invariant_tsc\":");
    push_quoted(&mut s, level_name(r.invariant_tsc));
    push_str(&mut s, ",\"vpid\":");
    push_quoted(&mut s, level_name(r.vpid));
    push_str(&mut s, ",\"vmx_preemption_timer\":");
    push_quoted(&mut s, level_name(r.vmx_preemption_timer));
    push_str(&mut s, ",\"nx\":");
    push_quoted(&mut s, level_name(r.nx));
    s
}

fn page_sizes_json(values: &Vec<u64>) -> (s: String)
    ensures
        s@ == array_text(values@.map_values(|v: u64| num(v))),
{
    let ghost items = values@.map_values(|v: u64| num(v));
    let mut s = String::from_str("[");
    let mut i: usize = 0;
    while i < values.len()
        invariant
            items == values@.map_values(|v: u64| num(v)),
            i <= items.len(),
            s@ == "["@ + joined(items.take(i as int)),
        decreases items.len() - i,
    {
        proof {
            lemma_joined_step(items, i as int);
        }
        let ghost before = s@;
        if i > 0 {
            push_str(&mut s, ",");
        }
        push_decimal(&mut s, values[i]);
        proof {
            assert(items[i as int] == num(values@[i as int]));
            if i == 0 {
                assert(s@ =~= before + Seq::<char>::empty() + items[i as int]);
            } else {
                assert(s@ =~= before + ","@ + items[i as int]);
            }
            assert(s@ =~= "["@ + joined(items.take(i + 1)));
        }
        i = i + 1;
    }
    push_str(&mut s, "]");
    proof {
        assert(items.take(items.len() as int) =~= items);
    }
    s
}

fn requirements_json(r: &NormalizedPlatformRequirements) -> (s: String)
    ensures
        s@ == requirements_text(*r),
{
    let core = requirements_core_json(r);
    let features = requirements_features_json(r);
    let pages = page_sizes_json(&r.page_sizes);
    let mut s = String::from_str("");
    push_str(&mut s, core.as_str());
    push_str(&mut s, features.as_str());
    push_str(&mut s, ",\"page_sizes\":");
    push_str(&mut s, pages.as_str());
    push_str(&mut s, "}");
    proof {
        reveal_strlit("");
        assert(s@ =~= requirements_text(*r));
    }
    s
}

fn device_json(d: &NormalizedDevice) -> (s: String)
    ensures
        s@ == device_text(*d),
{
    let mut s = String::from_str("{\"kind\":");
    push_quoted(&mut s, kind_name(d.kind));
    push_str(&mut s, ",\"bdf\":");
    let bdf = d.bdf.to_text();
    push_json_string(&mut s, bdf.as_str());
    push_str(&mut s, "}");
    s
}

fn devices_json(ds: &Vec<NormalizedDevice>) -> (s: String)
    ensures
        s@ == array_text(ds@.map_values(|d: NormalizedDevice| device_text(d))),
{
    let ghost items = ds@.map_values(|d: NormalizedDevice| device_text(d));
    let mut s = String::from_str("[");
    let mut i: usize = 0;
    while i < ds.len()
        invariant
            items == ds@.map_values(|d: NormalizedDevice| device_text(d)),
            i <= items.len(),
            s@ == "["@ + joined(items.take(i as int)),
        decreases items.len() - i,
    {
        proof {
            lemma_joined_step(items, i as int);
        }
        let ghost before = s@;
        if i > 0 {
            push_str(&mut s, ",");
        }
        let item = device_json(&ds[i]);
        push_str(&mut s, item.as_str());
        proof {
            if i == 0 {
                assert(s@ =~= before + Seq::<char>::empty() + items[i as int]);
            } else {
                assert(s@ =~= before + ","@ + items[i as int]);
            }
            assert(s@ =~= "["@ + joined(items.take(i + 1)));
        }
        i = i + 1;
    }
    push_str(&mut s, "]");
    proof {
        assert(items.take(items.len() as int) =~= items);
    }
    s
}

fn partition_json(p: &NormalizedPartition) -> (s: String)
    ensures
        s@ == partition_text(*p),
{
    let devices = devices_json(&p.devices);
    let mut s = String::from_str("{\"vm_id\":");
    push_decimal(&mut s, p.vm_id.0 as u64);
    push_str(&mut s, ",\"name\":");
    push_json_string(&mut s, p.name.as_str());
    push_str(&mut s, ",\"vcpus\":");
    push_decimal(&mut s, p.vcpus as u64);
    push_str(&mut s, ",\"memory_bytes\":");
    push_decimal(&mut s, p.memory_bytes);
    push_str(&mut s, ",\"image\":");
    push_json_string(&mut s, p.image.as_str());
    push_str(&mut s, ",\"devices\":");
    push_str(&mut s, devices.as_str());
    push_str(&mut s, "}");
    s
}

fn partitions_json(ps: &Vec<NormalizedPartition>) -> (s: String)
    ensures
        s@ == array_text(ps@.map_values(|p: NormalizedPartition| partition_text(p))),
{
    let ghost items = ps@.map_values(|p: NormalizedPartition| partition_text(p));
    let mut s = String::from_str("[");
    let mut i: usize = 0;
    while i < ps.len()
        invariant
            items == ps@.map_values(|p: NormalizedPartition| partition_text(p)),
            i <= items.len(),
            s@ == "["@ + joined(items.take(i as int)),
        decreases items.len() - i,
    {
        proof {
            lemma_joined_step(items, i as int);
        }
        let ghost before = s@;
        if i > 0 {
            push_str(&mut s, ",");
        }
        let item = partition_json(&ps[i]);
        push_str(&mut s, item.as_str());
        proof {
            if i == 0 {
                assert(s@ =~= before + Seq::<char>::empty() + items[i as int]);
            } else {
                assert(s@ =~= before + ","@ + items[i as int]);
            }
            assert(s@ =~= "["@ + joined(items.take(i + 1)));
        }
        i = i + 1;
    }
    push_str(&mut s, "]");
    proof {
        assert(items.take(items.len() as int) =~= items);
    }
    s
}

fn ipc_json(c: &NormalizedIpc) -> (s: String)
    ensures
        s@ == ipc_text(*c),
{
    let mut s = String::from_str("{\"name\":");
    push_json_string(&mut s, c.name.as_str());
    push_str(&mut s, ",\"producer\":");
    push_decimal(&mut s, c.producer.0 as u64);
    push_str(&mut s, ",\"consumer\":");
    push_decimal(&mut s, c.consumer.0 as u64);
    push_str(&mut s, ",\"direction\":\"unidirectional\",\"slot_count\":");
    push_decimal(&mut s, c.slot_count as u64);
    push_str(&mut s, ",\"slot_size\":");
    push_decimal(&mut s, c.slot_size as u64);
    push_str(&mut s, ",\"queue_full_policy\":\"drop_tail\"}");
    s
}

fn ipc_list_json(cs: &Vec<NormalizedIpc>) -> (s: String)
    ensures
        s@ == array_text(cs@.map_values(|c: NormalizedIpc| ipc_text(c))),
{
    let ghost items = cs@.map_values(|c: NormalizedIpc| ipc_text(c));
    let mut s = String::from_str("[");
    let mut i: usize = 0;
    while i < cs.len()
        invariant
            items == cs@.map_values(|c: NormalizedIpc| ipc_text(c)),
            i <= items.len(),
            s@ == "["@ + joined(items.take(i as int)),
        decreases items.len() - i,
    {
        proof {
            lemma_joined_step(items, i as int);
        }
        let ghost before = s@;
        if i > 0 {
            push_str(&mut s, ",");
        }
        let item = ipc_json(&cs[i]);
        push_str(&mut s, item.as_str());
        proof {
            if i == 0 {
                assert(s@ =~= before + Seq::<char>::empty() + items[i as int]);
            } else {
                assert(s@ =~= before + ","@ + items[i as int]);
            }
            assert(s@ =~= "["@ + joined(items.take(i + 1)));
        }
        i = i + 1;
    }
    push_str(&mut s, "]");
    proof {
        assert(items.take(items.len() as int) =~= items);
    }
    s
}

fn security_json(sec: &NormalizedSecurity) -> (s: String)
    ensures
        s@ == security_text(*sec),
{
    let mut s = String::from_str("{\"require_config_hash\":");
    crate::text::push_bool(&mut s, sec.require_config_hash);
    push_str(&mut s, ",\"ipc_corruption_policy\":");
    push_quoted(&mut s, fault_name(sec.ipc_corruption_policy));
    push_str(&mut s, ",\"ept_violation_policy\":");
    push_quoted(&mut s, fault_name(sec.ept_violation_policy));
    push_str(&mut s, ",\"iommu_fault_policy\":");
    push_quoted(&mut s, fault_name(sec.iommu_fault_policy));
    push_str(&mut s, "}");
    s
}

fn benchmark_json(b: &NormalizedBenchmark) -> (s: String)
    ensures
        s@ == benchmark_text(*b),
{
    let mut s = String::from_str("{\"protocol\":");
    push_json_string(&mut s, b.protocol.as_str());
    push_str(&mut s, ",\"frame_size\":");
    push_decimal(&mut s, b.frame_size as u64);
    push_str(&mut s, ",\"payload_size\":");
    push_decimal(&mut s, b.payload_size as u64);
    push_str(&mut s, ",\"throughput_metric\":");
    push_quoted(&mut s, metric_name(b.throughput_metric));
    push_str(&mut s, ",\"warmup_seconds\":");
    push_decimal(&mut s, b.warmup_seconds as u64);
    push_str(&mut s, ",\"measurement_seconds\":");
    push_decimal(&mut s, b.measurement_seconds as u64);
    push_str(&mut s, ",\"runs\":");
    push_decimal(&mut s, b.runs as u64);
    push_str(&mut s, ",\"max_loss_ppm\":");
    push_decimal(&mut s, b.max_loss_ppm as u64);
    push_str(&mut s, "}");
    s
}

fn boot_json(b: &NormalizedBoot) -> (s: String)
    ensures
        s@ == boot_text(*b),
{
    let mut s = String::from_str("{\"loader\":");
    push_json_string(&mut s, b.loader.as_str());
    push_str(&mut s, ",\"hypervisor\":");
    push_json_string(&mut s, b.hypervisor.as_str());
    push_str(&mut s, ",\"exit_boot_services\":");
    crate::text::push_bool(&mut s, b.exit_boot_services);
    push_str(&mut s, "}");
    s
}

fn qemu_json(q: &NormalizedQemu) -> (s: String)
    ensures
        s@ == qemu_text(*q),
{
    let mut s = String::from_str("{\"machine\":");
    push_json_string(&mut s, q.machine.as_str());
    push_str(&mut s, ",\"cpu\":");
    push_json_string(&mut s, q.cpu.as_str());
    push_str(&mut s, ",\"smp\":{\"cpus\":");
    push_decimal(&mut s, q.smp.cpus as u64);
    push_str(&mut s, ",\"cores\":");
    push_decimal(&mut s, q.smp.cores as u64);
    push_str(&mut s, ",\"threads\":");
    push_decimal(&mut s, q.smp.threads as u64);
    push_str(&mut s, "},\"memory_bytes\":");
    push_decimal(&mut s, q.memory_bytes);
    push_str(&mut s, ",\"accel\":");
    push_json_string(&mut s, q.accel.as_str());
    push_str(&mut s, ",\"ovmf\":");
    push_json_string(&mut s, q.ovmf.as_str());
    push_str(&mut s, "}");
    s
}

/// Serializes a normalized configuration as canonical JSON: fixed key order,
/// no white space, `\` and `"` escaped in strings.
pub fn to_json(config: &NormalizedConfig) -> (r: String)
    ensures
        r@ == canonical_text(*config),
{
    let requirements = requirements_json(&config.platform.requirements);
    let partitions = partitions_json(&config.partitions);
    let ipc = ipc_list_json(&config.ipc);
    let security = security_json(&config.security);
    let benchmark = benchmark_json(&config.benchmark);
    let boot = boot_json(&config.boot);
    let qemu = qemu_json(&config.qemu);
    let mut out = String::from_str("{\"version\":");
    push_decimal(&mut out, config.version as u64);
    push_str(&mut out, ",\"name\":");
    push_json_string(&mut out, config.name.as_str());
    push_str(&mut out, ",\"platform\":{\"requirements\":");
    push_str(&mut out, requirements.as_str());
    push_str(&mut out, "}");
    push_str(&mut out, ",\"partitions\":");
    push_str(&mut out, partitions.as_str());
    push_str(&mut out, ",\"ipc\":");
    push_str(&mut out, ipc.as_str());
    push_str(&mut out, ",\"security\":");
    push_str(&mut out, security.as_str());
    push_str(&mut out, ",\"benchmark\":");
    push_str(&mut out, benchmark.as_str());
    push_str(&mut out, ",\"boot\":");
    push_str(&mut out, boot.as_str());
    push_str(&mut out, ",\"qemu\":");
    push_str(&mut out, qemu.as_str());
    push_str(&mut out, "}");
    out
}

/// Serializes a normalized configuration into canonical JSON for stable hashing.
pub fn canonicalize_normalized(config: &NormalizedConfig) -> (r: String)
    ensures
        r@ == canonical_text(*config),
{
    to_json(config)
}

/// Every character of a decimal text is a digit.
proof fn lemma_decimal_digits(n: nat)
    ensures
        decimal(n).len() >= 1,
        n >= 10 ==> decimal(n).len() >= 2,
        forall|k: int| 0 <= k < decimal(n).len() ==> '0' <= #[trigger] decimal(n)[k] <= '9',
    decreases n,
{
    if n >= 10 {
        lemma_decimal_digits(n / 10);
        assert forall|k: int| 0 <= k < decimal(n).len() implies '0' <= #[trigger] decimal(n)[k] <= '9' by {
            if k < decimal(n / 10).len() {
                assert(decimal(n)[k] == decimal(n / 10)[k]);
            }
        }
    }
}

/// Distinct numbers have distinct decimal texts.
proof fn lemma_decimal_injective(a: nat, b: nat)
    requires
        decimal(a) == decimal(b),
    ensures
        a == b,
    decreases a,
{
    lemma_decimal_digits(a);
    lemma_decimal_digits(b);
    if a < 10 && b < 10 {
        let ca = decimal(a)[0];
        let cb = decimal(b)[0];
        assert(ca == cb);
        assert(ca as int == a + 0x30 && cb as int == b + 0x30);
    } else if a >= 10 && b >= 10 {
        assert(decimal(a).drop_last() == decimal(a / 10));
        assert(decimal(b).drop_last() == decimal(b / 10));
        lemma_decimal_injective(a / 10, b / 10);
        let ca = decimal(a).last();
        let cb = decimal(b).last();
        assert(ca as int == (a % 10) + 0x30 && cb as int == (b % 10) + 0x30);
    }
}

/// A decimal number followed by text that does not start with a digit is
/// read back unambiguously.
proof fn lemma_decimal_prefix(a: nat, b: nat, x: Seq<char>, y: Seq<char>)
    requires
        decimal(a) + x == decimal(b) + y,
        x.len() > 0,
        y.len() > 0,
        !('0' <= x[0] <= '9'),
        !('0' <= y[0] <= '9'),
    ensures
        a == b,
        x == y,
{
    lemma_decimal_digits(a);
    lemma_decimal_digits(b);
    let da = decimal(a);
    let db = decimal(b);
    let t = da + x;
    if da.len() < db.len() {
        assert(t[da.len() as int] == x[0]);
        assert((db + y)[da.len() as int] == db[da.len() as int]);
    } else if db.len() < da.len() {
        assert((db + y)[db.len() as int] == y[0]);
        assert(t[db.len() as int] == da[db.len() as int]);
    }
    assert(da =~= t.subrange(0, da.len() as int));
    assert(db =~= (db + y).subrange(0, db.len() as int));
    lemma_decimal_injective(a, b);
    assert(x =~= t.subrange(da.len() as int, t.len() as int));
    assert(y =~= (db + y).subrange(db.len() as int, t.len() as int));
}

proof fn lemma_regroup(a: Seq<char>, n: Seq<char>, l1: Seq<char>, j: Seq<char>, l2: Seq<char>, at: Seq<char>, c: Seq<char>)
    ensures
        (((((a + n) + l1) + j) + l2) + at) + c == a + (n + ((((l1 + j) + l2) + at) + c)),
{
    assert((((((a + n) + l1) + j) + l2) + at) + c =~= a + (n + ((((l1 + j) + l2) + at) + c)));
}

proof fn lemma_regroup8(
    a: Seq<char>,
    n: Seq<char>,
    t1: Seq<char>,
    t2: Seq<char>,
    t3: Seq<char>,
    t4: Seq<char>,
    t5: Seq<char>,
    t6: Seq<char>,
    t7: Seq<char>,
)
    ensures
        (((((((a + n) + t1) + t2) + t3) + t4) + t5) + t6) + t7 == a + (n + ((((((t1 + t2) + t3) + t4) + t5) + t6)
            + t7)),
{
    assert((((((((a + n) + t1) + t2) + t3) + t4) + t5) + t6) + t7 =~= a + (n + ((((((t1 + t2) + t3) + t4) + t5)
        + t6) + t7)));
}

proof fn lemma_cancel_prefix(a: Seq<char>, x: Seq<char>, y: Seq<char>)
    requires
        a + x == a + y,
    ensures
        x == y,
{
    assert(x =~= (a + x).subrange(a.len() as int, (a + x).len() as int));
    assert(y =~= (a + y).subrange(a.len() as int, (a + y).len() as int));
}

/// The canonical text pins a partition's vCPU count and RAM size: two
/// partitions that agree on identifier and name have the same canonical text
/// only if they have the same vCPU count and the same RAM size.
#[verifier::spinoff_prover]
pub proof fn partition_text_pins_ram(p: NormalizedPartition, q: NormalizedPartition)
    requires
        p.vm_id == q.vm_id,
        p.name@ == q.name@,
        partition_text(p) == partition_text(q),
    ensures
        p.vcpus == q.vcpus,
        p.memory_bytes == q.memory_bytes,
{
    let a0 = "{\"vm_id\":"@ + num(p.vm_id.0 as u64) + ",\"name\":"@ + json_quoted(p.name@) + ",\"vcpus\":"@;
    let m = ",\"memory_bytes\":"@;
    let ip = ",\"image\":"@;
    let dv = ",\"devices\":"@;
    let cl = "}"@;
    let atp0 = array_text(p.devices@.map_values(|d: NormalizedDevice| device_text(d)));
    let atq0 = array_text(q.devices@.map_values(|d: NormalizedDevice| device_text(d)));
    lemma_regroup8(a0, num(p.vcpus as u64), m, num(p.memory_bytes), ip, json_quoted(p.image@), dv, atp0, cl);
    lemma_regroup8(a0, num(q.vcpus as u64), m, num(q.memory_bytes), ip, json_quoted(q.image@), dv, atq0, cl);
    let sp = (((((m + num(p.memory_bytes)) + ip) + json_quoted(p.image@)) + dv) + atp0) + cl;
    let sq = (((((m + num(q.memory_bytes)) + ip) + json_quoted(q.image@)) + dv) + atq0) + cl;
    lemma_cancel_prefix(a0, num(p.vcpus as u64) + sp, num(q.vcpus as u64) + sq);
    reveal_strlit(",\"memory_bytes\":");
    assert(sp[0] == m[0]);
    assert(sq[0] == m[0]);
    lemma_decimal_prefix(p.vcpus as nat, q.vcpus as nat, sp, sq);

    let a = "{\"vm_id\":"@ + num(p.vm_id.0 as u64) + ",\"name\":"@ + json_quoted(p.name@) + ",\"vcpus\":"@
        + num(p.vcpus as u64) + ",\"memory_bytes\":"@;
    let l1 = ",\"image\":"@;
    let l2 = ",\"devices\":"@;
    let c = "}"@;
    let atp = array_text(p.devices@.map_values(|d: NormalizedDevice| device_text(d)));
    let atq = array_text(q.devices@.map_values(|d: NormalizedDevice| device_text(d)));
    let np = num(p.memory_bytes);
    let nq = num(q.memory_bytes);
    let jp = json_quoted(p.image@);
    let jq = json_quoted(q.image@);
    lemma_regroup(a, np, l1, jp, l2, atp, c);
    lemma_regroup(a, nq, l1, jq, l2, atq, c);
    let rp = (((l1 + jp) + l2) + atp) + c;
    let rq = (((l1 + jq) + l2) + atq) + c;
    assert(partition_text(p) == a + (np + rp));
    assert(partition_text(q) == a + (nq + rq));
    lemma_cancel_prefix(a, np + rp, nq + rq);
    reveal_strlit(",\"image\":");
    assert(rp[0] == l1[0]);
    assert(rq[0] == l1[0]);
    lemma_decimal_prefix(p.memory_bytes as nat, q.memory_bytes as nat, rp, rq);
}

proof fn lemma_right_assoc9(
    a: Seq<char>,
    b: Seq<char>,
    c: Seq<char>,
    d: Seq<char>,
    e: Seq<char>,
    f: Seq<char>,
    g: Seq<char>,
    h: Seq<char>,
    i: Seq<char>,
)
    ensures
        ((((((((a + b) + c) + d) + e) + f) + g) + h) + i) == a + (b + (c + (d + (e + (f + (g + (h + i))))))),
{
    assert(((((((((a + b) + c) + d) + e) + f) + g) + h) + i) =~= a + (b + (c + (d + (e + (f + (g + (h + i))))))));
}

/// The canonical text pins a channel's endpoints and ring geometry: two
/// channels with the same name have the same canonical text only if they
/// have the same producer, consumer, slot count and slot size.
#[verifier::spinoff_prover]
pub proof fn ipc_text_pins_ring(c: NormalizedIpc, d: NormalizedIpc)
    requires
        c.name@ == d.name@,
        ipc_text(c) == ipc_text(d),
    ensures
        c.producer == d.producer,
        c.consumer == d.consumer,
        c.slot_count == d.slot_count,
        c.slot_size == d.slot_size,
{
    let a = "{\"name\":"@ + json_quoted(c.name@) + ",\"producer\":"@;
    let t1 = ",\"consumer\":"@;
    let t3 = ",\"direction\":\"unidirectional\",\"slot_count\":"@;
    let t5 = ",\"slot_size\":"@;
    let t7 = ",\"queue_full_policy\":\"drop_tail\"}"@;
    let (pc, cc, sc, zc) = (num(c.producer.0 as u64), num(c.consumer.0 as u64), num(c.slot_count as u64), num(c.slot_size as u64));
    let (pd, cd, sd, zd) = (num(d.producer.0 as u64), num(d.consumer.0 as u64), num(d.slot_count as u64), num(d.slot_size as u64));
    reveal_strlit(",\"consumer\":");
    reveal_strlit(",\"direction\":\"unidirectional\",\"slot_count\":");
    reveal_strlit(",\"slot_size\":");
    reveal_strlit(",\"queue_full_policy\":\"drop_tail\"}");
    // producer
    let rc1 = t1 + (cc + (t3 + (sc + (t5 + (zc + t7)))));
    let rd1 = t1 + (cd + (t3 + (sd + (t5 + (zd + t7)))));
    lemma_right_assoc9(a, pc, t1, cc, t3, sc, t5, zc, t7);
    lemma_right_assoc9(a, pd, t1, cd, t3, sd, t5, zd, t7);
    lemma_cancel_prefix(a, pc + rc1, pd + rd1);
    assert(rc1[0] == t1[0] && rd1[0] == t1[0]);
    lemma_decimal_prefix(c.producer.0 as nat, d.producer.0 as nat, rc1, rd1);
    // consumer
    let rc2 = t3 + (sc + (t5 + (zc + t7)));
    let rd2 = t3 + (sd + (t5 + (zd + t7)));
    lemma_cancel_prefix(t1, cc + rc2, cd + rd2);
    assert(rc2[0] == t3[0] && rd2[0] == t3[0]);
    lemma_decimal_prefix(c.consumer.0 as nat, d.consumer.0 as nat, rc2, rd2);
    // slot count
    let rc3 = t5 + (zc + t7);
    let rd3 = t5 + (zd + t7);
    lemma_cancel_prefix(t3, sc + rc3, sd + rd3);
    assert(rc3[0] == t5[0] && rd3[0] == t5[0]);
    lemma_decimal_prefix(c.slot_count as nat, d.slot_count as nat, rc3, rd3);
    // slot size
    lemma_cancel_prefix(t5, zc + t7, zd + t7);
    lemma_decimal_prefix(c.slot_size as nat, d.slot_size as nat, t7, t7);
}

} // verus!
