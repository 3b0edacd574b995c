//! Generated artifact bundle of a compiled configuration: the configuration
//! hash, the platform contract, planning intents per subsystem, QEMU
//! arguments, boot manifests and the static platform source.

use vstd::prelude::*;
use vstd::string::*;

use crate::config::canonical::{joined, num};
use crate::config::hash::hex_text;
use crate::config::intent::{DeviceIntent, IpcIntent, PartitionIntent, StaticIntentIR};
use crate::config::normalize::{DeviceKind, NormalizedNetdev, NormalizedQemuDevice};
use crate::config::pipeline::CompiledConfig;
use crate::config::raw::{RequirementLevel, SmtPolicy};
use crate::config::requirements::ExpectedPciDevice;
use crate::text::{bool_text, decimal, json_quoted, push_bool, push_decimal, push_json_string};

verus! {

/// Named generated artifact.
#[derive(Clone, Debug, PartialEq, Eq)]
pub struct Artifact {
    /// Relative output path.
    pub path: String,
    /// File contents.
    pub contents: String,
}

/// Full artifact bundle produced by the config compiler.
#[derive(Clone, Debug, PartialEq, Eq)]
pub struct GeneratedArtifacts {
    /// Generated files, sorted by path.
    pub files: Vec<Artifact>,
}

/// Texts concatenated in order.
pub open spec fn concat_all(items: Seq<Seq<char>>) -> Seq<char>
    decreases items.len(),
{
    if items.len() == 0 {
        Seq::empty()
    } else {
        concat_all(items.drop_last()) + items.last()
    }
}

proof fn lemma_concat_step(items: Seq<Seq<char>>, i: int)
    requires
        0 <= i < items.len(),
    ensures
        concat_all(items.take(i + 1)) == concat_all(items.take(i)) + items[i],
{
    assert(items.take(i + 1).drop_last() =~= items.take(i));
}

fn append(s: &mut String, t: &str)
    ensures
        final(s)@ == old(s)@ + t@,
{
    s.append(t);
}

/// `Debug` name of a requirement level.
pub open spec fn level_debug(l: RequirementLevel) -> Seq<char> {
    match l {
        RequirementLevel::Required => "Required"@,
        RequirementLevel::Preferred => "Preferred"@,
        RequirementLevel::Optional => "Optional"@,
        RequirementLevel::Disabled => "Disabled"@,
    }
}

fn level_debug_name(l: RequirementLevel) -> (r: &'static str)
    ensures
        r@ == level_debug(l),
{
    match l {
        RequirementLevel::Required => "Required",
        RequirementLevel::Preferred => "Preferred",
        RequirementLevel::Optional => "Optional",
        RequirementLevel::Disabled => "Disabled",
    }
}

/// `Debug` name of an SMT policy.
pub open spec fn smt_debug(p: SmtPolicy) -> Seq<char> {
    match p {
        SmtPolicy::Disabled => "Disabled"@,
        SmtPolicy::ExclusiveCore => "ExclusiveCore"@,
        SmtPolicy::SamePartitionSiblings => "SamePartitionSiblings"@,
        SmtPolicy::AllowCrossPartition => "AllowCrossPartition"@,
    }
}

fn smt_debug_name(p: SmtPolicy) -> (r: &'static str)
    ensures
        r@ == smt_debug(p),
{
    match p {
        SmtPolicy::Disabled => "Disabled",
        SmtPolicy::ExclusiveCore => "ExclusiveCore",
        SmtPolicy::SamePartitionSiblings => "SamePartitionSiblings",
        SmtPolicy::AllowCrossPartition => "AllowCrossPartition",
    }
}

/// `Debug` name of a device kind.
pub open spec fn kind_debug(k: DeviceKind) -> Seq<char> {
    match k {
        DeviceKind::E1000 => "E1000"@,
    }
}

fn kind_debug_name(k: DeviceKind) -> (r: &'static str)
    ensures
        r@ == kind_debug(k),
{
    match k {
        DeviceKind::E1000 => "E1000",
    }
}

/// Memory map line of a partition.
pub open spec fn memory_partition_line_text(p: PartitionIntent) -> Seq<char> {
    "partition vm"@ + num(p.vm_id.0 as u64) + " name="@ + p.name@ + " private_ram_bytes="@ + num(p.memory_bytes) + "\n"@
}

fn memory_partition_line(p: &PartitionIntent) -> (s: String)
    ensures
        s@ == memory_partition_line_text(*p),
{
    let mut s = String::from_str("partition vm");
    push_decimal(&mut s, p.vm_id.0 as u64);
    append(&mut s, " name=");
    append(&mut s, p.name.as_str());
    append(&mut s, " private_ram_bytes=");
    push_decimal(&mut s, p.memory_bytes);
    append(&mut s, "\n");
    s
}

/// Memory map line of a channel.
pub open spec fn memory_ipc_line_text(c: IpcIntent) -> Seq<char> {
    "ipc "@ + c.name@ + " producer=vm"@ + num(c.producer.0 as u64) + " consumer=vm"@ + num(c.consumer.0 as u64) + " shared_bytes="@ + num(c.shared_bytes) + "\n"@
}

fn memory_ipc_line(c: &IpcIntent) -> (s: String)
    ensures
        s@ == memory_ipc_line_text(*c),
{
    let mut s = String::from_str("ipc ");
    append(&mut s, c.name.as_str());
    append(&mut s, " producer=vm");
    push_decimal(&mut s, c.producer.0 as u64);
    append(&mut s, " consumer=vm");
    push_decimal(&mut s, c.consumer.0 as u64);
    append(&mut s, " shared_bytes=");
    push_decimal(&mut s, c.shared_bytes);
    append(&mut s, "\n");
    s
}

/// CPU topology line of a partition.
pub open spec fn cpu_partition_line_text(p: PartitionIntent) -> Seq<char> {
    "partition vm"@ + num(p.vm_id.0 as u64) + " name="@ + p.name@ + " vcpus="@ + num(p.vcpus as u64) + "\n"@
}

fn cpu_partition_line(p: &PartitionIntent) -> (s: String)
    ensures
        s@ == cpu_partition_line_text(*p),
{
    let mut s = String::from_str("partition vm");
    push_decimal(&mut s, p.vm_id.0 as u64);
    append(&mut s, " name=");
    append(&mut s, p.name.as_str());
    append(&mut s, " vcpus=");
    push_decimal(&mut s, p.vcpus as u64);
    append(&mut s, "\n");
    s
}

/// Core ownership line of a partition.
pub open spec fn core_line_text(p: PartitionIntent) -> Seq<char> {
    "assign vm"@ + num(p.vm_id.0 as u64) + " name="@ + p.name@ + " dedicated_vcpus="@ + num(p.vcpus as u64) + "\n"@
}

fn core_line(p: &PartitionIntent) -> (s: String)
    ensures
        s@ == core_line_text(*p),
{
    let mut s = String::from_str("assign vm");
    push_decimal(&mut s, p.vm_id.0 as u64);
    append(&mut s, " name=");
    append(&mut s, p.name.as_str());
    append(&mut s, " dedicated_vcpus=");
    push_decimal(&mut s, p.vcpus as u64);
    append(&mut s, "\n");
    s
}

/// EPT map line of a partition.
pub open spec fn ept_line_text(p: PartitionIntent) -> Seq<char> {
    "ept vm"@ + num(p.vm_id.0 as u64) + " name="@ + p.name@ + " guest_ram_bytes="@ + num(p.memory_bytes) + " default_deny=true\n"@
}

fn ept_line(p: &PartitionIntent) -> (s: String)
    ensures
        s@ == ept_line_text(*p),
{
    let mut s = String::from_str("ept vm");
    push_decimal(&mut s, p.vm_id.0 as u64);
    append(&mut s, " name=");
    append(&mut s, p.name.as_str());
    append(&mut s, " guest_ram_bytes=");
    push_decimal(&mut s, p.memory_bytes);
    append(&mut s, " default_deny=true\n");
    s
}

/// VT-d mapping line of a device.
pub open spec fn vtd_device_line_text(p: PartitionIntent, d: DeviceIntent) -> Seq<char> {
    "  map domain="@ + num(p.iommu_domain.0 as u64) + " bdf="@ + d.bdf@ + " kind="@ + kind_debug(d.kind) + "\n"@
}

fn vtd_device_line(p: &PartitionIntent, d: &DeviceIntent) -> (s: String)
    ensures
        s@ == vtd_device_line_text(*p, *d),
{
    let mut s = String::from_str("  map domain=");
    push_decimal(&mut s, p.iommu_domain.0 as u64);
    append(&mut s, " bdf=");
    append(&mut s, d.bdf.as_str());
    append(&mut s, " kind=");
    append(&mut s, kind_debug_name(d.kind));
    append(&mut s, "\n");
    s
}

/// VT-d mapping lines of a partition's devices.
pub open spec fn vtd_device_lines_text(xs: Seq<DeviceIntent>, p: PartitionIntent) -> Seq<char> {
    concat_all(xs.map_values(|x: DeviceIntent| vtd_device_line_text(p, x)))
}

fn vtd_device_lines(xs: &Vec<DeviceIntent>, p: &PartitionIntent) -> (s: String)
    ensures
        s@ == vtd_device_lines_text(xs@, *p),
{
    let ghost items = xs@.map_values(|x: DeviceIntent| vtd_device_line_text(*p, x));
    let mut s = String::new();
    let mut i: usize = 0;
    while i < xs.len()
        invariant
            items == xs@.map_values(|x: DeviceIntent| vtd_device_line_text(*p, x)),
            i <= items.len(),
            s@ == concat_all(items.take(i as int)),
        decreases items.len() - i,
    {
        proof {
            lemma_concat_step(items, i as int);
        }
        let line = vtd_device_line(p, &xs[i]);
        append(&mut s, line.as_str());
        i = i + 1;
    }
    proof {
        assert(items.take(items.len() as int) =~= items);
    }
    s
}

/// VT-d domain block of a partition.
pub open spec fn vtd_partition_block_text(p: PartitionIntent) -> Seq<char> {
    "domain "@ + num(p.iommu_domain.0 as u64) + " owner=vm"@ + num(p.vm_id.0 as u64) + " name="@ + p.name@ + "\n"@ + vtd_device_lines_text(p.devices@, p)
}

fn vtd_partition_block(p: &PartitionIntent) -> (s: String)
    ensures
        s@ == vtd_partition_block_text(*p),
{
    let mut s = String::from_str("domain ");
    push_decimal(&mut s, p.iommu_domain.0 as u64);
    append(&mut s, " owner=vm");
    push_decimal(&mut s, p.vm_id.0 as u64);
    append(&mut s, " name=");
    append(&mut s, p.name.as_str());
    append(&mut s, "\n");
    let part1 = vtd_device_lines(&p.devices, p);
    append(&mut s, part1.as_str());
    s
}

/// PCI ownership line of a device.
pub open spec fn pci_device_line_text(p: PartitionIntent, d: DeviceIntent) -> Seq<char> {
    "owner=vm"@ + num(p.vm_id.0 as u64) + " name="@ + p.name@ + " bdf="@ + d.bdf@ + " kind="@ + kind_debug(d.kind) + "\n"@
}

fn pci_device_line(p: &PartitionIntent, d: &DeviceIntent) -> (s: String)
    ensures
        s@ == pci_device_line_text(*p, *d),
{
    let mut s = String::from_str("owner=vm");
    push_decimal(&mut s, p.vm_id.0 as u64);
    append(&mut s, " name=");
    append(&mut s, p.name.as_str());
    append(&mut s, " bdf=");
    append(&mut s, d.bdf.as_str());
    append(&mut s, " kind=");
    append(&mut s, kind_debug_name(d.kind));
    append(&mut s, "\n");
    s
}

/// PCI ownership lines of a partition's devices.
pub open spec fn pci_device_lines_text(xs: Seq<DeviceIntent>, p: PartitionIntent) -> Seq<char> {
    concat_all(xs.map_values(|x: DeviceIntent| pci_device_line_text(p, x)))
}

fn pci_device_lines(xs: &Vec<DeviceIntent>, p: &PartitionIntent) -> (s: String)
    ensures
        s@ == pci_device_lines_text(xs@, *p),
{
    let ghost items = xs@.map_values(|x: DeviceIntent| pci_device_line_text(*p, x));
    let mut s = String::new();
    let mut i: usize = 0;
    while i < xs.len()
        invariant
            items == xs@.map_values(|x: DeviceIntent| pci_device_line_text(*p, x)),
            i <= items.len(),
            s@ == concat_all(items.take(i as int)),
        decreases items.len() - i,
    {
        proof {
            lemma_concat_step(items, i as int);
        }
        let line = pci_device_line(p, &xs[i]);
        append(&mut s, line.as_str());
        i = i + 1;
    }
    proof {
        assert(items.take(items.len() as int) =~= items);
    }
    s
}

/// Interrupt line of a device.
pub open spec fn irq_device_line_text(p: PartitionIntent, d: DeviceIntent) -> Seq<char> {
    "owner=vm"@ + num(p.vm_id.0 as u64) + " bdf="@ + d.bdf@ + " policy=interrupt_remapping_required\n"@
}

fn irq_device_line(p: &PartitionIntent, d: &DeviceIntent) -> (s: String)
    ensures
        s@ == irq_device_line_text(*p, *d),
{
    let mut s = String::from_str("owner=vm");
    push_decimal(&mut s, p.vm_id.0 as u64);
    append(&mut s, " bdf=");
    append(&mut s, d.bdf.as_str());
    append(&mut s, " policy=interrupt_remapping_required\n");
    s
}

/// Interrupt lines of a partition's devices.
pub open spec fn irq_device_lines_text(xs: Seq<DeviceIntent>, p: PartitionIntent) -> Seq<char> {
    concat_all(xs.map_values(|x: DeviceIntent| irq_device_line_text(p, x)))
}

fn irq_device_lines(xs: &Vec<DeviceIntent>, p: &PartitionIntent) -> (s: String)
    ensures
        s@ == irq_device_lines_text(xs@, *p),
{
    let ghost items = xs@.map_values(|x: DeviceIntent| irq_device_line_text(*p, x));
    let mut s = String::new();
    let mut i: usize = 0;
    while i < xs.len()
        invariant
            items == xs@.map_values(|x: DeviceIntent| irq_device_line_text(*p, x)),
            i <= items.len(),
            s@ == concat_all(items.take(i as int)),
        decreases items.len() - i,
    {
        proof {
            lemma_concat_step(items, i as int);
        }
        let line = irq_device_line(p, &xs[i]);
        append(&mut s, line.as_str());
        i = i + 1;
    }
    proof {
        assert(items.take(items.len() as int) =~= items);
    }
    s
}

/// IPC map line of a channel.
pub open spec fn ipc_map_line_text(c: IpcIntent) -> Seq<char> {
    "channel="@ + c.name@ + " producer=vm"@ + num(c.producer.0 as u64) + " consumer=vm"@ + num(c.consumer.0 as u64) + " slots="@ + num(c.slot_count as u64) + " slot_size="@ + num(c.slot_size as u64) + " shared_bytes="@ + num(c.shared_bytes) + "\n"@
}

fn ipc_map_line(c: &IpcIntent) -> (s: String)
    ensures
        s@ == ipc_map_line_text(*c),
{
    let mut s = String::from_str("channel=");
    append(&mut s, c.name.as_str());
    append(&mut s, " producer=vm");
    push_decimal(&mut s, c.producer.0 as u64);
    append(&mut s, " consumer=vm");
    push_decimal(&mut s, c.consumer.0 as u64);
    append(&mut s, " slots=");
    push_decimal(&mut s, c.slot_count as u64);
    append(&mut s, " slot_size=");
    push_decimal(&mut s, c.slot_size as u64);
    append(&mut s, " shared_bytes=");
    push_decimal(&mut s, c.shared_bytes);
    append(&mut s, "\n");
    s
}

/// Boot manifest line of a partition.
pub open spec fn manifest_guest_line_text(p: PartitionIntent) -> Seq<char> {
    "guest vm"@ + num(p.vm_id.0 as u64) + " name="@ + p.name@ + " image="@ + p.image@ + "\n"@
}

fn manifest_guest_line(p: &PartitionIntent) -> (s: String)
    ensures
        s@ == manifest_guest_line_text(*p),
{
    let mut s = String::from_str("guest vm");
    push_decimal(&mut s, p.vm_id.0 as u64);
    append(&mut s, " name=");
    append(&mut s, p.name.as_str());
    append(&mut s, " image=");
    append(&mut s, p.image.as_str());
    append(&mut s, "\n");
    s
}

/// Guest image line of a partition.
pub open spec fn guest_image_line_text(p: PartitionIntent) -> Seq<char> {
    "vm"@ + num(p.vm_id.0 as u64) + " name="@ + p.name@ + " path="@ + p.image@ + "\n"@
}

fn guest_image_line(p: &PartitionIntent) -> (s: String)
    ensures
        s@ == guest_image_line_text(*p),
{
    let mut s = String::from_str("vm");
    push_decimal(&mut s, p.vm_id.0 as u64);
    append(&mut s, " name=");
    append(&mut s, p.name.as_str());
    append(&mut s, " path=");
    append(&mut s, p.image.as_str());
    append(&mut s, "\n");
    s
}

/// Partition entry of the static platform source.
pub open spec fn partition_spec_block_text(p: PartitionIntent) -> Seq<char> {
    "    PartitionSpec {\n        vm_id: "@ + num(p.vm_id.0 as u64) + ",\n        name: "@ + json_quoted(p.name@) + ",\n        vcpus: "@ + num(p.vcpus as u64) + ",\n        memory_bytes: "@ + num(p.memory_bytes) + ",\n        image: "@ + json_quoted(p.image@) + ",\n        iommu_domain: "@ + num(p.iommu_domain.0 as u64) + ",\n    },\n"@
}

fn partition_spec_block(p: &PartitionIntent) -> (s: String)
    ensures
        s@ == partition_spec_block_text(*p),
{
    let mut s = String::from_str("    PartitionSpec {\n        vm_id: ");
    push_decimal(&mut s, p.vm_id.0 as u64);
    append(&mut s, ",\n        name: ");
    push_json_string(&mut s, p.name.as_str());
    append(&mut s, ",\n        vcpus: ");
    push_decimal(&mut s, p.vcpus as u64);
    append(&mut s, ",\n        memory_bytes: ");
    push_decimal(&mut s, p.memory_bytes);
    append(&mut s, ",\n        image: ");
    push_json_string(&mut s, p.image.as_str());
    append(&mut s, ",\n        iommu_domain: ");
    push_decimal(&mut s, p.iommu_domain.0 as u64);
    append(&mut s, ",\n    },\n");
    s
}

/// Expected PCI device line.
pub open spec fn expected_device_line_text(e: ExpectedPciDevice) -> Seq<char> {
    "pci owner="@ + e.owner@ + " kind="@ + e.kind@ + " bdf="@ + e.bdf@ + "\n"@
}

fn expected_device_line(e: &ExpectedPciDevice) -> (s: String)
    ensures
        s@ == expected_device_line_text(*e),
{
    let mut s = String::from_str("pci owner=");
    append(&mut s, e.owner.as_str());
    append(&mut s, " kind=");
    append(&mut s, e.kind.as_str());
    append(&mut s, " bdf=");
    append(&mut s, e.bdf.as_str());
    append(&mut s, "\n");
    s
}

/// Memory partition lines of all partitions.
pub open spec fn memory_partition_lines_text(xs: Seq<PartitionIntent>) -> Seq<char> {
    concat_all(xs.map_values(|x: PartitionIntent| memory_partition_line_text(x)))
}

fn memory_partition_lines(xs: &Vec<PartitionIntent>) -> (s: String)
    ensures
        s@ == memory_partition_lines_text(xs@),
{
    let ghost items = xs@.map_values(|x: PartitionIntent| memory_partition_line_text(x));
    let mut s = String::new();
    let mut i: usize = 0;
    while i < xs.len()
        invariant
            items == xs@.map_values(|x: PartitionIntent| memory_partition_line_text(x)),
            i <= items.len(),
            s@ == concat_all(items.take(i as int)),
        decreases items.len() - i,
    {
        proof {
            lemma_concat_step(items, i as int);
        }
        let line = memory_partition_line(&xs[i]);
        append(&mut s, line.as_str());
        i = i + 1;
    }
    proof {
        assert(items.take(items.len() as int) =~= items);
    }
    s
}

/// Cpu partition lines of all partitions.
pub open spec fn cpu_partition_lines_text(xs: Seq<PartitionIntent>) -> Seq<char> {
    concat_all(xs.map_values(|x: PartitionIntent| cpu_partition_line_text(x)))
}

fn cpu_partition_lines(xs: &Vec<PartitionIntent>) -> (s: String)
    ensures
        s@ == cpu_partition_lines_text(xs@),
{
    let ghost items = xs@.map_values(|x: PartitionIntent| cpu_partition_line_text(x));
    let mut s = String::new();
    let mut i: usize = 0;
    while i < xs.len()
        invariant
            items == xs@.map_values(|x: PartitionIntent| cpu_partition_line_text(x)),
            i <= items.len(),
            s@ == concat_all(items.take(i as int)),
        decreases items.len() - i,
    {
        proof {
            lemma_concat_step(items, i as int);
        }
        let line = cpu_partition_line(&xs[i]);
        append(&mut s, line.as_str());
        i = i + 1;
    }
    proof {
        assert(items.take(items.len() as int) =~= items);
    }
    s
}

/// Core lines of all partitions.
pub open spec fn core_lines_text(xs: Seq<PartitionIntent>) -> Seq<char> {
    concat_all(xs.map_values(|x: PartitionIntent| core_line_text(x)))
}

fn core_lines(xs: &Vec<PartitionIntent>) -> (s: String)
    ensures
        s@ == core_lines_text(xs@),
{
    let ghost items = xs@.map_values(|x: PartitionIntent| core_line_text(x));
    let mut s = String::new();
    let mut i: usize = 0;
    while i < xs.len()
        invariant
            items == xs@.map_values(|x: PartitionIntent| core_line_text(x)),
            i <= items.len(),
            s@ == concat_all(items.take(i as int)),
        decreases items.len() - i,
    {
        proof {
            lemma_concat_step(items, i as int);
        }
        let line = core_line(&xs[i]);
        append(&mut s, line.as_str());
        i = i + 1;
    }
    proof {
        assert(items.take(items.len() as int) =~= items);
    }
    s
}

/// Ept lines of all partitions.
pub open spec fn ept_lines_text(xs: Seq<PartitionIntent>) -> Seq<char> {
    concat_all(xs.map_values(|x: PartitionIntent| ept_line_text(x)))
}

fn ept_lines(xs: &Vec<PartitionIntent>) -> (s: String)
    ensures
        s@ == ept_lines_text(xs@),
{
    let ghost items = xs@.map_values(|x: PartitionIntent| ept_line_text(x));
    let mut s = String::new();
    let mut i: usize = 0;
    while i < xs.len()
        invariant
            items == xs@.map_values(|x: PartitionIntent| ept_line_text(x)),
            i <= items.len(),
            s@ == concat_all(items.take(i as int)),
        decreases items.len() - i,
    {
        proof {
            lemma_concat_step(items, i as int);
        }
        let line = ept_line(&xs[i]);
        append(&mut s, line.as_str());
        i = i + 1;
    }
    proof {
        assert(items.take(items.len() as int) =~= items);
    }
    s
}

/// Vtd blocks of all partitions.
pub open spec fn vtd_blocks_text(xs: Seq<PartitionIntent>) -> Seq<char> {
    concat_all(xs.map_values(|x: PartitionIntent| vtd_partition_block_text(x)))
}

fn vtd_blocks(xs: &Vec<PartitionIntent>) -> (s: String)
    ensures
        s@ == vtd_blocks_text(xs@),
{
    let ghost items = xs@.map_values(|x: PartitionIntent| vtd_partition_block_text(x));
    let mut s = String::new();
    let mut i: usize = 0;
    while i < xs.len()
        invariant
            items == xs@.map_values(|x: PartitionIntent| vtd_partition_block_text(x)),
            i <= items.len(),
            s@ == concat_all(items.take(i as int)),
        decreases items.len() - i,
    {
        proof {
            lemma_concat_step(items, i as int);
        }
        let line = vtd_partition_block(&xs[i]);
        append(&mut s, line.as_str());
        i = i + 1;
    }
    proof {
        assert(items.take(items.len() as int) =~= items);
    }
    s
}

/// Pci lines of all partitions.
pub open spec fn pci_lines_text(xs: Seq<PartitionIntent>) -> Seq<char> {
    concat_all(xs.map_values(|x: PartitionIntent| pci_device_lines_text(x.devices@, x)))
}

fn pci_lines(xs: &Vec<PartitionIntent>) -> (s: String)
    ensures
        s@ == pci_lines_text(xs@),
{
    let ghost items = xs@.map_values(|x: PartitionIntent| pci_device_lines_text(x.devices@, x));
    let mut s = String::new();
    let mut i: usize = 0;
    while i < xs.len()
        invariant
            items == xs@.map_values(|x: PartitionIntent| pci_device_lines_text(x.devices@, x)),
            i <= items.len(),
            s@ == concat_all(items.take(i as int)),
        decreases items.len() - i,
    {
        proof {
            lemma_concat_step(items, i as int);
        }
        let line = pci_device_lines(&xs[i].devices, &xs[i]);
        append(&mut s, line.as_str());
        i = i + 1;
    }
    proof {
        assert(items.take(items.len() as int) =~= items);
    }
    s
}

/// Irq lines of all partitions.
pub open spec fn irq_lines_text(xs: Seq<PartitionIntent>) -> Seq<char> {
    concat_all(xs.map_values(|x: PartitionIntent| irq_device_lines_text(x.devices@, x)))
}

fn irq_lines(xs: &Vec<PartitionIntent>) -> (s: String)
    ensures
        s@ == irq_lines_text(xs@),
{
    let ghost items = xs@.map_values(|x: PartitionIntent| irq_device_lines_text(x.devices@, x));
    let mut s = String::new();
    let mut i: usize = 0;
    while i < xs.len()
        invariant
            items == xs@.map_values(|x: PartitionIntent| irq_device_lines_text(x.devices@, x)),
            i <= items.len(),
            s@ == concat_all(items.take(i as int)),
        decreases items.len() - i,
    {
        proof {
            lemma_concat_step(items, i as int);
        }
        let line = irq_device_lines(&xs[i].devices, &xs[i]);
        append(&mut s, line.as_str());
        i = i + 1;
    }
    proof {
        assert(items.take(items.len() as int) =~= items);
    }
    s
}

/// Manifest guest lines of all partitions.
pub open spec fn manifest_guest_lines_text(xs: Seq<PartitionIntent>) -> Seq<char> {
    concat_all(xs.map_values(|x: PartitionIntent| manifest_guest_line_text(x)))
}

fn manifest_guest_lines(xs: &Vec<PartitionIntent>) -> (s: String)
    ensures
        s@ == manifest_guest_lines_text(xs@),
{
    let ghost items = xs@.map_values(|x: PartitionIntent| manifest_guest_line_text(x));
    let mut s = String::new();
    let mut i: usize = 0;
    while i < xs.len()
        invariant
            items == xs@.map_values(|x: PartitionIntent| manifest_guest_line_text(x)),
            i <= items.len(),
            s@ == concat_all(items.take(i as int)),
        decreases items.len() - i,
    {
        proof {
            lemma_concat_step(items, i as int);
        }
        let line = manifest_guest_line(&xs[i]);
        append(&mut s, line.as_str());
        i = i + 1;
    }
    proof {
        assert(items.take(items.len() as int) =~= items);
    }
    s
}

/// Guest image lines of all partitions.
pub open spec fn guest_image_lines_text(xs: Seq<PartitionIntent>) -> Seq<char> {
    concat_all(xs.map_values(|x: PartitionIntent| guest_image_line_text(x)))
}

fn guest_image_lines(xs: &Vec<PartitionIntent>) -> (s: String)
    ensures
        s@ == guest_image_lines_text(xs@),
{
    let ghost items = xs@.map_values(|x: PartitionIntent| guest_image_line_text(x));
    let mut s = String::new();
    let mut i: usize = 0;
    while i < xs.len()
        invariant
            items == xs@.map_values(|x: PartitionIntent| guest_image_line_text(x)),
            i <= items.len(),
            s@ == concat_all(items.take(i as int)),
        decreases items.len() - i,
    {
        proof {
            lemma_concat_step(items, i as int);
        }
        let line = guest_image_line(&xs[i]);
        append(&mut s, line.as_str());
        i = i + 1;
    }
    proof {
        assert(items.take(items.len() as int) =~= items);
    }
    s
}

/// Partition spec blocks of all partitions.
pub open spec fn partition_spec_blocks_text(xs: Seq<PartitionIntent>) -> Seq<char> {
    concat_all(xs.map_values(|x: PartitionIntent| partition_spec_block_text(x)))
}

fn partition_spec_blocks(xs: &Vec<PartitionIntent>) -> (s: String)
    ensures
        s@ == partition_spec_blocks_text(xs@),
{
    let ghost items = xs@.map_values(|x: PartitionIntent| partition_spec_block_text(x));
    let mut s = String::new();
    let mut i: usize = 0;
    while i < xs.len()
        invariant
            items == xs@.map_values(|x: PartitionIntent| partition_spec_block_text(x)),
            i <= items.len(),
            s@ == concat_all(items.take(i as int)),
        decreases items.len() - i,
    {
        proof {
            lemma_concat_step(items, i as int);
        }
        let line = partition_spec_block(&xs[i]);
        append(&mut s, line.as_str());
        i = i + 1;
    }
    proof {
        assert(items.take(items.len() as int) =~= items);
    }
    s
}

/// Memory map lines of all channels.
pub open spec fn memory_ipc_lines_text(xs: Seq<IpcIntent>) -> Seq<char> {
    concat_all(xs.map_values(|x: IpcIntent| memory_ipc_line_text(x)))
}

fn memory_ipc_lines(xs: &Vec<IpcIntent>) -> (s: String)
    ensures
        s@ == memory_ipc_lines_text(xs@),
{
    let ghost items = xs@.map_values(|x: IpcIntent| memory_ipc_line_text(x));
    let mut s = String::new();
    let mut i: usize = 0;
    while i < xs.len()
        invariant
            items == xs@.map_values(|x: IpcIntent| memory_ipc_line_text(x)),
            i <= items.len(),
            s@ == concat_all(items.take(i as int)),
        decreases items.len() - i,
    {
        proof {
            lemma_concat_step(items, i as int);
        }
        let line = memory_ipc_line(&xs[i]);
        append(&mut s, line.as_str());
        i = i + 1;
    }
    proof {
        assert(items.take(items.len() as int) =~= items);
    }
    s
}

/// IPC map lines of all channels.
pub open spec fn ipc_map_lines_text(xs: Seq<IpcIntent>) -> Seq<char> {
    concat_all(xs.map_values(|x: IpcIntent| ipc_map_line_text(x)))
}

fn ipc_map_lines(xs: &Vec<IpcIntent>) -> (s: String)
    ensures
        s@ == ipc_map_lines_text(xs@),
{
    let ghost items = xs@.map_values(|x: IpcIntent| ipc_map_line_text(x));
    let mut s = String::new();
    let mut i: usize = 0;
    while i < xs.len()
        invariant
            items == xs@.map_values(|x: IpcIntent| ipc_map_line_text(x)),
            i <= items.len(),
            s@ == concat_all(items.take(i as int)),
        decreases items.len() - i,
    {
        proof {
            lemma_concat_step(items, i as int);
        }
        let line = ipc_map_line(&xs[i]);
        append(&mut s, line.as_str());
        i = i + 1;
    }
    proof {
        assert(items.take(items.len() as int) =~= items);
    }
    s
}

/// Expected PCI device lines.
pub open spec fn expected_device_lines_text(xs: Seq<ExpectedPciDevice>) -> Seq<char> {
    concat_all(xs.map_values(|x: ExpectedPciDevice| expected_device_line_text(x)))
}

fn expected_device_lines(xs: &Vec<ExpectedPciDevice>) -> (s: String)
    ensures
        s@ == expected_device_lines_text(xs@),
{
    let ghost items = xs@.map_values(|x: ExpectedPciDevice| expected_device_line_text(x));
    let mut s = String::new();
    let mut i: usize = 0;
    while i < xs.len()
        invariant
            items == xs@.map_values(|x: ExpectedPciDevice| expected_device_line_text(x)),
            i <= items.len(),
            s@ == concat_all(items.take(i as int)),
        decreases items.len() - i,
    {
        proof {
            lemma_concat_step(items, i as int);
        }
        let line = expected_device_line(&xs[i]);
        append(&mut s, line.as_str());
        i = i + 1;
    }
    proof {
        assert(items.take(items.len() as int) =~= items);
    }
    s
}

fn joined_sizes(values: &Vec<u64>) -> (s: String)
    ensures
        s@ == joined(values@.map_values(|v: u64| num(v))),
{
    let ghost items = values@.map_values(|v: u64| num(v));
    let mut s = String::new();
    let mut i: usize = 0;
    while i < values.len()
        invariant
            items == values@.map_values(|v: u64| num(v)),
            i <= items.len(),
            s@ == joined(items.take(i as int)),
        decreases items.len() - i,
    {
        let ghost before = s@;
        proof {
            assert(items.take(i + 1).drop_last() =~= items.take(i as int));
        }
        if i > 0 {
            append(&mut s, ",");
        }
        push_decimal(&mut s, values[i]);
        proof {
            if i == 0 {
                assert(items.take(1) =~= seq![items[0]]);
                assert(s@ =~= joined(items.take(1)));
            }
        }
        i = i + 1;
    }
    proof {
        assert(items.take(items.len() as int) =~= items);
    }
    s
}

fn bool_string(b: bool) -> (s: String)
    ensures
        s@ == bool_text(b),
{
    let mut s = String::new();
    push_bool(&mut s, b);
    s
}

/// QEMU `-netdev` argument line.
pub open spec fn netdev_line_text(n: NormalizedNetdev) -> Seq<char> {
    match n.hostfwd {
        Some(h) => "-netdev "@ + n.kind@ + ",id="@ + n.id@ + ",hostfwd="@ + h@ + "\n"@,
        None => "-netdev "@ + n.kind@ + ",id="@ + n.id@ + "\n"@,
    }
}

fn netdev_line(n: &NormalizedNetdev) -> (s: String)
    ensures
        s@ == netdev_line_text(*n),
{
    let mut s = String::from_str("-netdev ");
    append(&mut s, n.kind.as_str());
    append(&mut s, ",id=");
    append(&mut s, n.id.as_str());
    match &n.hostfwd {
        Some(h) => {
            append(&mut s, ",hostfwd=");
            append(&mut s, h.as_str());
            append(&mut s, "\n");
        },
        None => {
            append(&mut s, "\n");
        },
    }
    s
}

/// QEMU `-device` argument line of a device bound to a netdev; devices
/// without one get no line.
pub open spec fn qemu_device_line_text(d: NormalizedQemuDevice) -> Seq<char> {
    match d.netdev {
        Some(nd) => "-device "@ + crate::config::canonical::kind_text(d.kind) + ",netdev="@ + nd@
            + ",bus=pcie.0,addr="@ + num(d.bdf.device as u64) + "\n"@,
        None => Seq::empty(),
    }
}

fn device_kind_qemu(kind: DeviceKind) -> (r: &'static str)
    ensures
        r@ == crate::config::canonical::kind_text(kind),
{
    match kind {
        DeviceKind::E1000 => "e1000",
    }
}

fn qemu_device_line(d: &NormalizedQemuDevice) -> (s: String)
    ensures
        s@ == qemu_device_line_text(*d),
{
    match &d.netdev {
        Some(nd) => {
            let mut s = String::from_str("-device ");
            append(&mut s, device_kind_qemu(d.kind));
            append(&mut s, ",netdev=");
            append(&mut s, nd.as_str());
            append(&mut s, ",bus=pcie.0,addr=");
            push_decimal(&mut s, d.bdf.device as u64);
            append(&mut s, "\n");
            s
        },
        None => String::new(),
    }
}

/// QEMU netdev argument lines.
pub open spec fn netdev_lines_text(xs: Seq<NormalizedNetdev>) -> Seq<char> {
    concat_all(xs.map_values(|x: NormalizedNetdev| netdev_line_text(x)))
}

fn netdev_lines(xs: &Vec<NormalizedNetdev>) -> (s: String)
    ensures
        s@ == netdev_lines_text(xs@),
{
    let ghost items = xs@.map_values(|x: NormalizedNetdev| netdev_line_text(x));
    let mut s = String::new();
    let mut i: usize = 0;
    while i < xs.len()
        invariant
            items == xs@.map_values(|x: NormalizedNetdev| netdev_line_text(x)),
            i <= items.len(),
            s@ == concat_all(items.take(i as int)),
        decreases items.len() - i,
    {
        proof {
            lemma_concat_step(items, i as int);
        }
        let line = netdev_line(&xs[i]);
        append(&mut s, line.as_str());
        i = i + 1;
    }
    proof {
        assert(items.take(items.len() as int) =~= items);
    }
    s
}

/// QEMU device argument lines.
pub open spec fn qemu_device_lines_text(xs: Seq<NormalizedQemuDevice>) -> Seq<char> {
    concat_all(xs.map_values(|x: NormalizedQemuDevice| qemu_device_line_text(x)))
}

fn qemu_device_lines(xs: &Vec<NormalizedQemuDevice>) -> (s: String)
    ensures
        s@ == qemu_device_lines_text(xs@),
{
    let ghost items = xs@.map_values(|x: NormalizedQemuDevice| qemu_device_line_text(x));
    let mut s = String::new();
    let mut i: usize = 0;
    while i < xs.len()
        invariant
            items == xs@.map_values(|x: NormalizedQemuDevice| qemu_device_line_text(x)),
            i <= items.len(),
            s@ == concat_all(items.take(i as int)),
        decreases items.len() - i,
    {
        proof {
            lemma_concat_step(items, i as int);
        }
        let line = qemu_device_line(&xs[i]);
        append(&mut s, line.as_str());
        i = i + 1;
    }
    proof {
        assert(items.take(items.len() as int) =~= items);
    }
    s
}
/// Platform requirements text up to the feature levels.
pub open spec fn platform_requirements_head_text(ir: StaticIntentIR) -> Seq<char> {
    "# PlatformRequirements\nconfig_name="@ + ir.platform_requirements.config_name@ + "\narch=x86_64\nvmx="@ + level_debug(ir.platform_requirements.vmx) + "\nept="@ + level_debug(ir.platform_requirements.ept) + "\nvtd="@ + level_debug(ir.platform_requirements.vtd) + "\nmin_physical_cores="@ + num(ir.platform_requirements.min_physical_cores as u64) + "\ntotal_partition_vcpus="@ + num(ir.platform_requirements.total_partition_vcpus as u64) + "\nsmt_policy="@ + smt_debug(ir.platform_requirements.smt_policy) + "\nmin_ram_bytes="@ + num(ir.platform_requirements.min_ram_bytes) + "\ntotal_partition_ram_bytes="@ + num(ir.platform_requirements.total_partition_ram_bytes) + "\n"@
}

fn platform_requirements_head(intent: &StaticIntentIR) -> (s: String)
    ensures
        s@ == platform_requirements_head_text(*intent),
{
    let mut s = String::from_str("# PlatformRequirements\nconfig_name=");
    append(&mut s, intent.platform_requirements.config_name.as_str());
    append(&mut s, "\narch=x86_64\nvmx=");
    append(&mut s, level_debug_name(intent.platform_requirements.vmx));
    append(&mut s, "\nept=");
    append(&mut s, level_debug_name(intent.platform_requirements.ept));
    append(&mut s, "\nvtd=");
    append(&mut s, level_debug_name(intent.platform_requirements.vtd));
    append(&mut s, "\nmin_physical_cores=");
    push_decimal(&mut s, intent.platform_requirements.min_physical_cores as u64);
    append(&mut s, "\ntotal_partition_vcpus=");
    push_decimal(&mut s, intent.platform_requirements.total_partition_vcpus as u64);
    append(&mut s, "\nsmt_policy=");
    append(&mut s, smt_debug_name(intent.platform_requirements.smt_policy));
    append(&mut s, "\nmin_ram_bytes=");
    push_decimal(&mut s, intent.platform_requirements.min_ram_bytes);
    append(&mut s, "\ntotal_partition_ram_bytes=");
    push_decimal(&mut s, intent.platform_requirements.total_partition_ram_bytes);
    append(&mut s, "\n");
    s
}

/// Platform requirements text from the feature levels on.
pub open spec fn platform_requirements_tail_text(ir: StaticIntentIR) -> Seq<char> {
    "interrupt_remapping="@ + level_debug(ir.platform_requirements.interrupt_remapping) + "\nx2apic="@ + level_debug(ir.platform_requirements.x2apic) + "\ninvariant_tsc="@ + level_debug(ir.platform_requirements.invariant_tsc) + "\nvpid="@ + level_debug(ir.platform_requirements.vpid) + "\nvmx_preemption_timer="@ + level_debug(ir.platform_requirements.vmx_preemption_timer) + "\nnx="@ + level_debug(ir.platform_requirements.nx) + "\npage_sizes="@ + joined(ir.platform_requirements.page_sizes@.map_values(|v: u64| num(v))) + "\n# expected_pci_devices\n"@ + expected_device_lines_text(ir.platform_requirements.expected_pci_devices@)
}

fn platform_requirements_tail(intent: &StaticIntentIR) -> (s: String)
    ensures
        s@ == platform_requirements_tail_text(*intent),
{
    let mut s = String::from_str("interrupt_remapping=");
    append(&mut s, level_debug_name(intent.platform_requirements.interrupt_remapping));
    append(&mut s, "\nx2apic=");
    append(&mut s, level_debug_name(intent.platform_requirements.x2apic));
    append(&mut s, "\ninvariant_tsc=");
    append(&mut s, level_debug_name(intent.platform_requirements.invariant_tsc));
    append(&mut s, "\nvpid=");
    append(&mut s, level_debug_name(intent.platform_requirements.vpid));
    append(&mut s, "\nvmx_preemption_timer=");
    append(&mut s, level_debug_name(intent.platform_requirements.vmx_preemption_timer));
    append(&mut s, "\nnx=");
    append(&mut s, level_debug_name(intent.platform_requirements.nx));
    append(&mut s, "\npage_sizes=");
    let part1 = joined_sizes(&intent.platform_requirements.page_sizes);
    append(&mut s, part1.as_str());
    append(&mut s, "\n# expected_pci_devices\n");
    let part2 = expected_device_lines(&intent.platform_requirements.expected_pci_devices);
    append(&mut s, part2.as_str());
    s
}

/// Placeholder for the validated platform, compared at boot.
pub open spec fn validated_platform_placeholder_text(ir: StaticIntentIR) -> Seq<char> {
    "# ValidatedPlatform\n# ObservedPlatform comparison happens at runtime boot.\nconfig_name="@ + ir.name@ + "\nstatus=pending_observed_platform\n"@
}

fn validated_platform_placeholder(intent: &StaticIntentIR) -> (s: String)
    ensures
        s@ == validated_platform_placeholder_text(*intent),
{
    let mut s = String::from_str("# ValidatedPlatform\n# ObservedPlatform comparison happens at runtime boot.\nconfig_name=");
    append(&mut s, intent.name.as_str());
    append(&mut s, "\nstatus=pending_observed_platform\n");
    s
}

/// Rust source of the static partition table.
pub open spec fn static_platform_rs_text(ir: StaticIntentIR, hash: Seq<char>) -> Seq<char> {
    "// @generated by tools/hv-config\n#![allow(dead_code)]\n\npub const CONFIG_NAME: &str = "@ + json_quoted(ir.name@) + ";\npub const CONFIG_HASH: &str = "@ + json_quoted(hash) + ";\npub const PARTITION_COUNT: usize = "@ + num(ir.partitions@.len() as u64) + ";\n\npub const PARTITIONS: [PartitionSpec; PARTITION_COUNT] = [\n"@ + partition_spec_blocks_text(ir.partitions@) + "];\n\n#[derive(Clone, Copy, Debug)]\npub struct PartitionSpec {\n    pub vm_id: u32,\n    pub name: &'static str,\n    pub vcpus: u32,\n    pub memory_bytes: u64,\n    pub image: &'static str,\n    pub iommu_domain: u16,\n}\n"@
}

fn static_platform_rs(intent: &StaticIntentIR, hash: &str) -> (s: String)
    ensures
        s@ == static_platform_rs_text(*intent, hash@),
{
    let mut s = String::from_str("// @generated by tools/hv-config\n#![allow(dead_code)]\n\npub const CONFIG_NAME: &str = ");
    push_json_string(&mut s, intent.name.as_str());
    append(&mut s, ";\npub const CONFIG_HASH: &str = ");
    push_json_string(&mut s, hash);
    append(&mut s, ";\npub const PARTITION_COUNT: usize = ");
    push_decimal(&mut s, intent.partitions.len() as u64);
    append(&mut s, ";\n\npub const PARTITIONS: [PartitionSpec; PARTITION_COUNT] = [\n");
    let part1 = partition_spec_blocks(&intent.partitions);
    append(&mut s, part1.as_str());
    append(&mut s, "];\n\n#[derive(Clone, Copy, Debug)]\npub struct PartitionSpec {\n    pub vm_id: u32,\n    pub name: &'static str,\n    pub vcpus: u32,\n    pub memory_bytes: u64,\n    pub image: &'static str,\n    pub iommu_domain: u16,\n}\n");
    s
}

/// Memory map artifact.
pub open spec fn memory_map_text(ir: StaticIntentIR) -> Seq<char> {
    "# Memory plan intent\n"@ + memory_partition_lines_text(ir.partitions@) + memory_ipc_lines_text(ir.ipc@)
}

fn memory_map(intent: &StaticIntentIR) -> (s: String)
    ensures
        s@ == memory_map_text(*intent),
{
    let mut s = String::from_str("# Memory plan intent\n");
    let part1 = memory_partition_lines(&intent.partitions);
    append(&mut s, part1.as_str());
    let part2 = memory_ipc_lines(&intent.ipc);
    append(&mut s, part2.as_str());
    s
}

/// CPU topology artifact.
pub open spec fn cpu_topology_text(ir: StaticIntentIR) -> Seq<char> {
    "# CPU topology intent\nplatform_min_physical_cores="@ + num(ir.platform_requirements.min_physical_cores as u64) + "\nsmt_policy="@ + smt_debug(ir.platform_requirements.smt_policy) + "\n"@ + cpu_partition_lines_text(ir.partitions@)
}

fn cpu_topology(intent: &StaticIntentIR) -> (s: String)
    ensures
        s@ == cpu_topology_text(*intent),
{
    let mut s = String::from_str("# CPU topology intent\nplatform_min_physical_cores=");
    push_decimal(&mut s, intent.platform_requirements.min_physical_cores as u64);
    append(&mut s, "\nsmt_policy=");
    append(&mut s, smt_debug_name(intent.platform_requirements.smt_policy));
    append(&mut s, "\n");
    let part1 = cpu_partition_lines(&intent.partitions);
    append(&mut s, part1.as_str());
    s
}

/// Core ownership artifact.
pub open spec fn core_ownership_text(ir: StaticIntentIR) -> Seq<char> {
    "# Core ownership intent\n# Physical core IDs are resolved against ObservedPlatform in later phases.\n"@ + core_lines_text(ir.partitions@)
}

fn core_ownership(intent: &StaticIntentIR) -> (s: String)
    ensures
        s@ == core_ownership_text(*intent),
{
    let mut s = String::from_str("# Core ownership intent\n# Physical core IDs are resolved against ObservedPlatform in later phases.\n");
    let part1 = core_lines(&intent.partitions);
    append(&mut s, part1.as_str());
    s
}

/// EPT map artifact.
pub open spec fn ept_map_text(ir: StaticIntentIR) -> Seq<char> {
    "# EPT plan intent\n"@ + ept_lines_text(ir.partitions@)
}

fn ept_map(intent: &StaticIntentIR) -> (s: String)
    ensures
        s@ == ept_map_text(*intent),
{
    let mut s = String::from_str("# EPT plan intent\n");
    let part1 = ept_lines(&intent.partitions);
    append(&mut s, part1.as_str());
    s
}

/// VT-d map artifact.
pub open spec fn vtd_map_text(ir: StaticIntentIR) -> Seq<char> {
    "# VT-d plan intent\n"@ + vtd_blocks_text(ir.partitions@)
}

fn vtd_map(intent: &StaticIntentIR) -> (s: String)
    ensures
        s@ == vtd_map_text(*intent),
{
    let mut s = String::from_str("# VT-d plan intent\n");
    let part1 = vtd_blocks(&intent.partitions);
    append(&mut s, part1.as_str());
    s
}

/// PCI ownership artifact.
pub open spec fn pci_map_text(ir: StaticIntentIR) -> Seq<char> {
    "# PCI ownership map\n"@ + pci_lines_text(ir.partitions@)
}

fn pci_map(intent: &StaticIntentIR) -> (s: String)
    ensures
        s@ == pci_map_text(*intent),
{
    let mut s = String::from_str("# PCI ownership map\n");
    let part1 = pci_lines(&intent.partitions);
    append(&mut s, part1.as_str());
    s
}

/// IPC map artifact.
pub open spec fn ipc_map_text(ir: StaticIntentIR) -> Seq<char> {
    "# IPC map\n"@ + ipc_map_lines_text(ir.ipc@)
}

fn ipc_map(intent: &StaticIntentIR) -> (s: String)
    ensures
        s@ == ipc_map_text(*intent),
{
    let mut s = String::from_str("# IPC map\n");
    let part1 = ipc_map_lines(&intent.ipc);
    append(&mut s, part1.as_str());
    s
}

/// Interrupt map artifact.
pub open spec fn irq_map_text(ir: StaticIntentIR) -> Seq<char> {
    "# IRQ plan intent\n# MSI/MSI-X remapping is resolved against DMAR in later phases.\n"@ + irq_lines_text(ir.partitions@)
}

fn irq_map(intent: &StaticIntentIR) -> (s: String)
    ensures
        s@ == irq_map_text(*intent),
{
    let mut s = String::from_str("# IRQ plan intent\n# MSI/MSI-X remapping is resolved against DMAR in later phases.\n");
    let part1 = irq_lines(&intent.partitions);
    append(&mut s, part1.as_str());
    s
}

/// QEMU argument artifact.
pub open spec fn qemu_args_text(ir: StaticIntentIR) -> Seq<char> {
    "# QEMU arguments generated from configs/qemu.yaml\n-machine "@ + ir.qemu.plan.machine@ + "\n-cpu "@ + ir.qemu.plan.cpu@ + "\n-smp cpus="@ + num(ir.qemu.plan.smp.cpus as u64) + ",cores="@ + num(ir.qemu.plan.smp.cores as u64) + ",threads="@ + num(ir.qemu.plan.smp.threads as u64) + "\n-m "@ + num(ir.qemu.plan.memory_bytes / 0x10_0000) + "\n-accel "@ + ir.qemu.plan.accel@ + "\n-bios "@ + ir.qemu.plan.ovmf@ + "\n"@ + netdev_lines_text(ir.qemu.plan.netdevs@) + qemu_device_lines_text(ir.qemu.plan.devices@)
}

fn qemu_args(intent: &StaticIntentIR) -> (s: String)
    ensures
        s@ == qemu_args_text(*intent),
{
    let mut s = String::from_str("# QEMU arguments generated from configs/qemu.yaml\n-machine ");
    append(&mut s, intent.qemu.plan.machine.as_str());
    append(&mut s, "\n-cpu ");
    append(&mut s, intent.qemu.plan.cpu.as_str());
    append(&mut s, "\n-smp cpus=");
    push_decimal(&mut s, intent.qemu.plan.smp.cpus as u64);
    append(&mut s, ",cores=");
    push_decimal(&mut s, intent.qemu.plan.smp.cores as u64);
    append(&mut s, ",threads=");
    push_decimal(&mut s, intent.qemu.plan.smp.threads as u64);
    append(&mut s, "\n-m ");
    push_decimal(&mut s, intent.qemu.plan.memory_bytes / 0x10_0000);
    append(&mut s, "\n-accel ");
    append(&mut s, intent.qemu.plan.accel.as_str());
    append(&mut s, "\n-bios ");
    append(&mut s, intent.qemu.plan.ovmf.as_str());
    append(&mut s, "\n");
    let part1 = netdev_lines(&intent.qemu.plan.netdevs);
    append(&mut s, part1.as_str());
    let part2 = qemu_device_lines(&intent.qemu.plan.devices);
    append(&mut s, part2.as_str());
    s
}

/// Boot layout artifact.
pub open spec fn boot_layout_text(ir: StaticIntentIR) -> Seq<char> {
    "# Boot layout intent\nloader="@ + ir.boot.loader@ + "\nhypervisor="@ + ir.boot.hypervisor@ + "\nexit_boot_services="@ + bool_text(ir.boot.exit_boot_services) + "\n"@
}

fn boot_layout(intent: &StaticIntentIR) -> (s: String)
    ensures
        s@ == boot_layout_text(*intent),
{
    let mut s = String::from_str("# Boot layout intent\nloader=");
    append(&mut s, intent.boot.loader.as_str());
    append(&mut s, "\nhypervisor=");
    append(&mut s, intent.boot.hypervisor.as_str());
    append(&mut s, "\nexit_boot_services=");
    let part1 = bool_string(intent.boot.exit_boot_services);
    append(&mut s, part1.as_str());
    append(&mut s, "\n");
    s
}

/// Boot manifest artifact.
pub open spec fn boot_manifest_text(ir: StaticIntentIR, hash: Seq<char>) -> Seq<char> {
    "# Boot manifest\nconfig_name="@ + ir.name@ + "\nconfig_hash="@ + hash + "\nloader="@ + ir.boot.loader@ + "\nhypervisor="@ + ir.boot.hypervisor@ + "\n"@ + manifest_guest_lines_text(ir.partitions@)
}

fn boot_manifest(intent: &StaticIntentIR, hash: &str) -> (s: String)
    ensures
        s@ == boot_manifest_text(*intent, hash@),
{
    let mut s = String::from_str("# Boot manifest\nconfig_name=");
    append(&mut s, intent.name.as_str());
    append(&mut s, "\nconfig_hash=");
    append(&mut s, hash);
    append(&mut s, "\nloader=");
    append(&mut s, intent.boot.loader.as_str());
    append(&mut s, "\nhypervisor=");
    append(&mut s, intent.boot.hypervisor.as_str());
    append(&mut s, "\n");
    let part1 = manifest_guest_lines(&intent.partitions);
    append(&mut s, part1.as_str());
    s
}

/// Guest image list artifact.
pub open spec fn guest_images_text(ir: StaticIntentIR) -> Seq<char> {
    "# Guest images\n"@ + guest_image_lines_text(ir.partitions@)
}

fn guest_images(intent: &StaticIntentIR) -> (s: String)
    ensures
        s@ == guest_images_text(*intent),
{
    let mut s = String::from_str("# Guest images\n");
    let part1 = guest_image_lines(&intent.partitions);
    append(&mut s, part1.as_str());
    s
}

/// Build manifest artifact.
pub open spec fn build_manifest_text(ir: StaticIntentIR, hash: Seq<char>) -> Seq<char> {
    "# Build manifest\nrustc=1.85.0\ntarget=x86_64-unknown-none\nconfig_name="@ + ir.name@ + "\nconfig_hash="@ + hash + "\nthroughput_metric=udp_payload_bytes\nofficial_benchmark_runs="@ + num(ir.benchmark.runs as u64) + "\n"@
}

fn build_manifest(intent: &StaticIntentIR, hash: &str) -> (s: String)
    ensures
        s@ == build_manifest_text(*intent, hash@),
{
    let mut s = String::from_str("# Build manifest\nrustc=1.85.0\ntarget=x86_64-unknown-none\nconfig_name=");
    append(&mut s, intent.name.as_str());
    append(&mut s, "\nconfig_hash=");
    append(&mut s, hash);
    append(&mut s, "\nthroughput_metric=udp_payload_bytes\nofficial_benchmark_runs=");
    push_decimal(&mut s, intent.benchmark.runs as u64);
    append(&mut s, "\n");
    s
}

/// Platform requirements artifact.
pub open spec fn platform_requirements_text(ir: StaticIntentIR) -> Seq<char> {
    platform_requirements_head_text(ir) + platform_requirements_tail_text(ir)
}

fn render_platform_requirements(intent: &StaticIntentIR) -> (s: String)
    ensures
        s@ == platform_requirements_text(*intent),
{
    let mut s = platform_requirements_head(intent);
    let tail = platform_requirements_tail(intent);
    append(&mut s, tail.as_str());
    s
}

/// Paths and contents of the artifacts of an intent whose configuration hash
/// text is `hash`, sorted by path.
pub open spec fn artifact_texts(ir: StaticIntentIR, hash: Seq<char>) -> Seq<(Seq<char>, Seq<char>)> {
    seq![
        ("boot-layout.txt"@, boot_layout_text(ir)),
        ("boot-manifest.txt"@, boot_manifest_text(ir, hash)),
        ("build-manifest.txt"@, build_manifest_text(ir, hash)),
        ("config.sha256"@, hash + "\n"@),
        ("core-ownership.txt"@, core_ownership_text(ir)),
        ("cpu-topology.txt"@, cpu_topology_text(ir)),
        ("ept-map.txt"@, ept_map_text(ir)),
        ("guest-images.txt"@, guest_images_text(ir)),
        ("ipc-map.txt"@, ipc_map_text(ir)),
        ("irq-map.txt"@, irq_map_text(ir)),
        ("memory-map.txt"@, memory_map_text(ir)),
        ("pci-map.txt"@, pci_map_text(ir)),
        ("platform-requirements.txt"@, platform_requirements_text(ir)),
        ("qemu-args.txt"@, qemu_args_text(ir)),
        ("static-platform.rs"@, static_platform_rs_text(ir, hex_text(ir.config_hash.0@))),
        ("validated-platform.txt"@, validated_platform_placeholder_text(ir)),
        ("vtd-map.txt"@, vtd_map_text(ir)),
    ]
}

fn artifact(path: &str, contents: String) -> (a: Artifact)
    ensures
        a.path@ == path@,
        a.contents@ == contents@,
{
    Artifact { path: String::from_str(path), contents }
}

impl GeneratedArtifacts {
    /// Generates all compiler artifacts from a compiled configuration, sorted by path.
    pub fn from_compiled(compiled: &CompiledConfig) -> (r: Self)
        ensures
            r.files@.len() == 17,
            forall|i: int|
                0 <= i < 17 ==> ((#[trigger] r.files@[i]).path@, r.files@[i].contents@) == artifact_texts(
                    compiled.intent,
                    hex_text(compiled.validated.config_hash.0@),
                )[i],
    {
        let intent = &compiled.intent;
        let hash = compiled.validated.config_hash.to_hex();
        let intent_hash = intent.config_hash.to_hex();
        let mut sha = hash.clone();
        append(&mut sha, "\n");
        let mut files: Vec<Artifact> = Vec::new();
        files.push(artifact("boot-layout.txt", boot_layout(intent)));
        files.push(artifact("boot-manifest.txt", boot_manifest(intent, hash.as_str())));
        files.push(artifact("build-manifest.txt", build_manifest(intent, hash.as_str())));
        files.push(artifact("config.sha256", sha));
        files.push(artifact("core-ownership.txt", core_ownership(intent)));
        files.push(artifact("cpu-topology.txt", cpu_topology(intent)));
        files.push(artifact("ept-map.txt", ept_map(intent)));
        files.push(artifact("guest-images.txt", guest_images(intent)));
        files.push(artifact("ipc-map.txt", ipc_map(intent)));
        files.push(artifact("irq-map.txt", irq_map(intent)));
        files.push(artifact("memory-map.txt", memory_map(intent)));
        files.push(artifact("pci-map.txt", pci_map(intent)));
        files.push(artifact("platform-requirements.txt", render_platform_requirements(intent)));
        files.push(artifact("qemu-args.txt", qemu_args(intent)));
        files.push(artifact("static-platform.rs", static_platform_rs(intent, intent_hash.as_str())));
        files.push(artifact("validated-platform.txt", validated_platform_placeholder(intent)));
        files.push(artifact("vtd-map.txt", vtd_map(intent)));
        GeneratedArtifacts { files }
    }
}

/// The EPT map lists every partition, in order, with its guest RAM size:
/// the generated file `ept-map.txt` holds, after its title line, one line
/// `ept vm<id> name=<name> guest_ram_bytes=<RAM bytes> default_deny=true` per
/// partition, the identifier and the RAM size in decimal.
#[verifier::spinoff_prover]
#[verifier::rlimit(40)]
pub proof fn ept_map_lists_partition_ram(ir: StaticIntentIR, hash: Seq<char>)
    ensures
        artifact_texts(ir, hash)[6].0 == "ept-map.txt"@,
        artifact_texts(ir, hash)[6].1 == "# EPT plan intent\n"@ + concat_all(
            Seq::new(
                ir.partitions@.len(),
                |i: int|
                    "ept vm"@ + decimal(ir.partitions@[i].vm_id.0 as nat) + " name="@ + ir.partitions@[i].name@
                        + " guest_ram_bytes="@ + decimal(ir.partitions@[i].memory_bytes as nat)
                        + " default_deny=true\n"@,
            ),
        ),
{
    lemma_ept_lines(ir.partitions@);
    assert(artifact_texts(ir, hash)[6] == ("ept-map.txt"@, ept_map_text(ir)));
}

proof fn lemma_ept_lines(ps: Seq<PartitionIntent>)
    ensures
        ept_lines_text(ps) == concat_all(
            Seq::new(
                ps.len(),
                |i: int|
                    "ept vm"@ + decimal(ps[i].vm_id.0 as nat) + " name="@ + ps[i].name@ + " guest_ram_bytes="@
                        + decimal(ps[i].memory_bytes as nat) + " default_deny=true\n"@,
            ),
        ),
{
    assert(ps.map_values(|x: PartitionIntent| ept_line_text(x)) =~= Seq::new(
        ps.len(),
        |i: int|
            "ept vm"@ + decimal(ps[i].vm_id.0 as nat) + " name="@ + ps[i].name@
                + " guest_ram_bytes="@ + decimal(ps[i].memory_bytes as nat) + " default_deny=true\n"@,
    ));
}

/// The memory map gives every partition, in order, its private RAM size and
/// every channel its endpoints and shared bytes: the generated file
/// `memory-map.txt` holds, after its title line, one line
/// `partition vm<id> name=<name> private_ram_bytes=<RAM bytes>` per partition
/// and then one line `ipc <name> producer=vm<id> consumer=vm<id>
/// shared_bytes=<bytes>` per channel, numbers in decimal.
#[verifier::spinoff_prover]
#[verifier::rlimit(40)]
pub proof fn memory_map_lists_ram_and_rings(ir: StaticIntentIR, hash: Seq<char>)
    ensures
        artifact_texts(ir, hash)[10].0 == "memory-map.txt"@,
        artifact_texts(ir, hash)[10].1 == "# Memory plan intent\n"@ + concat_all(
            Seq::new(
                ir.partitions@.len(),
                |i: int|
                    "partition vm"@ + decimal(ir.partitions@[i].vm_id.0 as nat) + " name="@ + ir.partitions@[i].name@
                        + " private_ram_bytes="@ + decimal(ir.partitions@[i].memory_bytes as nat) + "\n"@,
            ),
        ) + concat_all(
            Seq::new(
                ir.ipc@.len(),
                |i: int|
                    "ipc "@ + ir.ipc@[i].name@ + " producer=vm"@ + decimal(ir.ipc@[i].producer.0 as nat)
                        + " consumer=vm"@ + decimal(ir.ipc@[i].consumer.0 as nat) + " shared_bytes="@ + decimal(
                        ir.ipc@[i].shared_bytes as nat,
                    ) + "\n"@,
            ),
        ),
{
    let ps = ir.partitions@;
    let cs = ir.ipc@;
    assert(ps.map_values(|x: PartitionIntent| memory_partition_line_text(x)) =~= Seq::new(
        ps.len(),
        |i: int|
            "partition vm"@ + decimal(ps[i].vm_id.0 as nat) + " name="@ + ps[i].name@ + " private_ram_bytes="@
                + decimal(ps[i].memory_bytes as nat) + "\n"@,
    ));
    assert(cs.map_values(|x: IpcIntent| memory_ipc_line_text(x)) =~= Seq::new(
        cs.len(),
        |i: int|
            "ipc "@ + cs[i].name@ + " producer=vm"@ + decimal(cs[i].producer.0 as nat) + " consumer=vm"@ + decimal(
                cs[i].consumer.0 as nat,
            ) + " shared_bytes="@ + decimal(cs[i].shared_bytes as nat) + "\n"@,
    ));
    assert(artifact_texts(ir, hash)[10] == ("memory-map.txt"@, memory_map_text(ir)));
}

/// The CPU topology and core ownership files give every partition, in
/// order, its vCPU count: `cpu-topology.txt` holds one line
/// `partition vm<id> name=<name> vcpus=<count>` per partition after its
/// header, and `core-ownership.txt` one line
/// `assign vm<id> name=<name> dedicated_vcpus=<count>` per partition after its
/// two comment lines.
#[verifier::spinoff_prover]
#[verifier::rlimit(40)]
pub proof fn cpu_files_list_partition_vcpus(ir: StaticIntentIR, hash: Seq<char>)
    ensures
        artifact_texts(ir, hash)[4].0 == "core-ownership.txt"@,
        artifact_texts(ir, hash)[4].1 == "# Core ownership intent\n# Physical core IDs are resolved against ObservedPlatform in later phases.\n"@
            + concat_all(
            Seq::new(
                ir.partitions@.len(),
                |i: int|
                    "assign vm"@ + decimal(ir.partitions@[i].vm_id.0 as nat) + " name="@ + ir.partitions@[i].name@
                        + " dedicated_vcpus="@ + decimal(ir.partitions@[i].vcpus as nat) + "\n"@,
            ),
        ),
        artifact_texts(ir, hash)[5].0 == "cpu-topology.txt"@,
        ({
            let lines = concat_all(
                Seq::new(
                    ir.partitions@.len(),
                    |i: int|
                        "partition vm"@ + decimal(ir.partitions@[i].vm_id.0 as nat) + " name="@
                            + ir.partitions@[i].name@ + " vcpus="@ + decimal(ir.partitions@[i].vcpus as nat) + "\n"@,
                ),
            );
            artifact_texts(ir, hash)[5].1 == artifact_texts(ir, hash)[5].1.subrange(
                0,
                artifact_texts(ir, hash)[5].1.len() - lines.len(),
            ) + lines
        }),
{
    let ps = ir.partitions@;
    let cpu = Seq::new(
        ps.len(),
        |i: int|
            "partition vm"@ + decimal(ps[i].vm_id.0 as nat) + " name="@ + ps[i].name@ + " vcpus="@ + decimal(
                ps[i].vcpus as nat,
            ) + "\n"@,
    );
    assert(ps.map_values(|x: PartitionIntent| cpu_partition_line_text(x)) =~= cpu);
    assert(ps.map_values(|x: PartitionIntent| core_line_text(x)) =~= Seq::new(
        ps.len(),
        |i: int|
            "assign vm"@ + decimal(ps[i].vm_id.0 as nat) + " name="@ + ps[i].name@ + " dedicated_vcpus="@ + decimal(
                ps[i].vcpus as nat,
            ) + "\n"@,
    ));
    assert(artifact_texts(ir, hash)[4] == ("core-ownership.txt"@, core_ownership_text(ir)));
    assert(artifact_texts(ir, hash)[5] == ("cpu-topology.txt"@, cpu_topology_text(ir)));
    let t = cpu_topology_text(ir);
    let lines = concat_all(cpu);
    let head = "# CPU topology intent\nplatform_min_physical_cores="@ + num(
        ir.platform_requirements.min_physical_cores as u64,
    ) + "\nsmt_policy="@ + smt_debug(ir.platform_requirements.smt_policy) + "\n"@;
    assert(t == head + lines);
    assert(t.subrange(0, t.len() - lines.len()) =~= head);
}

} // verus!
