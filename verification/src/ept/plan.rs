//! EPT planner: per partition, guest RAM identity-mapped at guest address 0,
//! the shared rings of the partition's channels placed after its RAM, and
//! one MMIO window per assigned device; mappings must not overlap.

use vstd::prelude::*;
use vstd::string::*;

use crate::config::intent::{IpcIntent, PartitionIntent, StaticIntentIR};
use crate::ept::error::{ept_error_is, EptErrorSpec, EptPlanError};
use crate::ept::memory::{MemoryPlan, MemoryPurpose, MemoryRegion};
use crate::ept::types::{EptMapping, EptMemoryType, EptPermissions};
use crate::ipc::{compute_shared_bytes, ipc_mapping_bytes, shared_bytes_spec, IPC_MAPPING_PAGE_SIZE};
use crate::types::{
    align_up_spec, checked_add_u64, ranges_overlap, ranges_overlap_u64, GuestPhysAddr, HostPhysAddr, VmId,
};

verus! {

/// Guest base of the first device MMIO window.
pub const MMIO_GUEST_BASE: u64 = 0xFEB0_0000;

/// Guest distance between device MMIO windows.
pub const MMIO_GUEST_STRIDE: u64 = 0x10_0000;

/// Size of one device MMIO window.
pub const MMIO_REGION_SIZE: u64 = 0x2_0000;

/// Host base of the emulated device MMIO area.
pub const MMIO_HOST_BASE: u64 = 0x1_1720_0000;

/// Host distance between MMIO windows (per VM and per device).
pub const MMIO_HOST_STRIDE: u64 = 0x10_0000;

/// EPT plan for one partition.
#[derive(Clone, Debug, PartialEq, Eq)]
pub struct EptPartitionPlan {
    /// VM identifier.
    pub vm_id: VmId,
    /// Guest mappings: RAM, then channel rings, then device MMIO.
    pub mappings: Vec<EptMapping>,
}

/// Full EPT plan.
#[derive(Clone, Debug, PartialEq, Eq)]
pub struct EptPlan {
    /// Per-partition plans.
    pub partitions: Vec<EptPartitionPlan>,
}

/// Index of the first region backing the guest RAM of `vm`.
pub open spec fn guest_ram_region(rs: Seq<MemoryRegion>, vm: u32) -> Option<int> {
    if exists|i: int| 0 <= i < rs.len() && #[trigger] rs[i].purpose == (MemoryPurpose::PartitionGuestRam { vm_id: vm }) {
        Some(
            choose|i: int|
                0 <= i < rs.len() && rs[i].purpose == (MemoryPurpose::PartitionGuestRam { vm_id: vm })
                    && forall|k: int| 0 <= k < i ==> #[trigger] rs[k].purpose != (MemoryPurpose::PartitionGuestRam { vm_id: vm }),
        )
    } else {
        None
    }
}

/// Region `r` backs the ring of the channel named `name`.
pub open spec fn backs_channel(r: MemoryRegion, name: Seq<char>) -> bool {
    r.purpose matches MemoryPurpose::IpcChannel { name: n } && n@ == name
}

/// Index of the first region backing the ring of the channel named `name`.
pub open spec fn ipc_region(rs: Seq<MemoryRegion>, name: Seq<char>) -> Option<int> {
    if exists|i: int| 0 <= i < rs.len() && #[trigger] backs_channel(rs[i], name) {
        Some(
            choose|i: int|
                0 <= i < rs.len() && backs_channel(rs[i], name) && forall|k: int|
                    0 <= k < i ==> !#[trigger] backs_channel(rs[k], name),
        )
    } else {
        None
    }
}

/// Index of the first partition intent of `vm`.
pub open spec fn first_partition(ps: Seq<PartitionIntent>, vm: VmId) -> Option<int> {
    if exists|i: int| 0 <= i < ps.len() && #[trigger] ps[i].vm_id == vm {
        Some(choose|i: int| 0 <= i < ps.len() && ps[i].vm_id == vm && forall|k: int| 0 <= k < i ==> #[trigger] ps[k].vm_id != vm)
    } else {
        None
    }
}

/// Write-back, full-permission mapping of guest range `[gpa, gpa + size)` to `hpa`.
pub open spec fn ram_mapping(gpa: u64, hpa: HostPhysAddr, size: u64) -> EptMapping {
    EptMapping {
        guest_phys: GuestPhysAddr(gpa),
        host_phys: hpa,
        size,
        permissions: EptPermissions::spec_guest_ram(),
        memory_type: EptMemoryType::WriteBack,
    }
}

/// Bytes of a channel's ring: its header and all its slots.
pub open spec fn ring_bytes(c: IpcIntent) -> int {
    shared_bytes_spec(c.slot_count, c.slot_size)
}

/// Guest address space a ring takes: its bytes rounded up to whole pages, so
/// that rings placed one after another keep the alignment of the first.
pub open spec fn ring_span(c: IpcIntent) -> int {
    align_up_spec(ring_bytes(c), IPC_MAPPING_PAGE_SIZE as int)
}

/// Mappings of the rings of channels `k..` touching `vm`, placed from guest
/// address `cursor` on, each ring mapped whole and the next one placed after
/// its page-rounded span.
pub open spec fn ipc_mappings(
    cs: Seq<IpcIntent>,
    rs: Seq<MemoryRegion>,
    vm: VmId,
    cursor: u64,
    k: int,
) -> Result<Seq<EptMapping>, EptErrorSpec>
    decreases cs.len() - k,
{
    if k < 0 || k >= cs.len() {
        Ok(Seq::empty())
    } else if cs[k].producer != vm && cs[k].consumer != vm {
        ipc_mappings(cs, rs, vm, cursor, k + 1)
    } else if ipc_region(rs, cs[k].name@) is None {
        Err(EptErrorSpec::MissingIpc(vm.0, cs[k].name@))
    } else if cursor + ring_span(cs[k]) > u64::MAX {
        Err(EptErrorSpec::Overflow)
    } else {
        let m = ram_mapping(cursor, rs[ipc_region(rs, cs[k].name@)->Some_0].base, ring_bytes(cs[k]) as u64);
        match ipc_mappings(cs, rs, vm, (cursor + ring_span(cs[k])) as u64, k + 1) {
            Ok(rest) => Ok(seq![m] + rest),
            Err(e) => Err(e),
        }
    }
}

/// MMIO window of device `idx` of VM `vm`.
pub open spec fn mmio_mapping(vm: VmId, idx: int) -> EptMapping {
    EptMapping {
        guest_phys: GuestPhysAddr((MMIO_GUEST_BASE + idx * MMIO_GUEST_STRIDE) as u64),
        host_phys: HostPhysAddr((MMIO_HOST_BASE + vm.0 * MMIO_HOST_STRIDE + idx * MMIO_HOST_STRIDE) as u64),
        size: MMIO_REGION_SIZE,
        permissions: EptPermissions::spec_mmio(),
        memory_type: EptMemoryType::Uncacheable,
    }
}

/// MMIO windows of a partition's devices, in device order.
pub open spec fn mmio_mappings(p: PartitionIntent) -> Seq<EptMapping> {
    Seq::new(p.devices@.len(), |idx: int| mmio_mapping(p.vm_id, idx))
}

/// Mappings `i` and `j` share guest addresses.
pub open spec fn mappings_overlap(a: EptMapping, b: EptMapping) -> bool {
    ranges_overlap(a.guest_phys.0 as int, a.size as int, b.guest_phys.0 as int, b.size as int)
}

/// First problem among mappings `i..`: an overlap with a later mapping, or a
/// guest range past the end of the address space.
pub open spec fn mappings_error(ms: Seq<EptMapping>, vm: VmId, i: int) -> Option<EptErrorSpec>
    decreases ms.len() - i,
{
    if i < 0 || i >= ms.len() {
        None
    } else if exists|j: int| i < j < ms.len() && #[trigger] mappings_overlap(ms[i], ms[j]) {
        Some(EptErrorSpec::Overlap(vm.0))
    } else if ms[i].guest_phys.0 + ms[i].size > u64::MAX {
        Some(EptErrorSpec::Overflow)
    } else {
        mappings_error(ms, vm, i + 1)
    }
}

/// The mappings planned for partition `p`, or the planning failure.
pub open spec fn partition_mappings(
    p: PartitionIntent,
    ps: Seq<PartitionIntent>,
    cs: Seq<IpcIntent>,
    rs: Seq<MemoryRegion>,
) -> Result<Seq<EptMapping>, EptErrorSpec> {
    if guest_ram_region(rs, p.vm_id.0) is None {
        Err(EptErrorSpec::MissingGuestRam(p.vm_id.0))
    } else if first_partition(ps, p.vm_id) is None {
        Err(EptErrorSpec::MissingGuestRam(p.vm_id.0))
    } else {
        let ram = rs[guest_ram_region(rs, p.vm_id.0)->Some_0];
        let cursor = ps[first_partition(ps, p.vm_id)->Some_0].memory_bytes;
        match ipc_mappings(cs, rs, p.vm_id, cursor, 0) {
            Err(e) => Err(e),
            Ok(ipc) => {
                let ms = seq![ram_mapping(0, ram.base, ram.size)] + ipc + mmio_mappings(p);
                match mappings_error(ms, p.vm_id, 0) {
                    Some(e) => Err(e),
                    None => Ok(ms),
                }
            },
        }
    }
}

/// First failing partition from index `k` on.
pub open spec fn plan_error(ps: Seq<PartitionIntent>, cs: Seq<IpcIntent>, rs: Seq<MemoryRegion>, k: int) -> Option<
    EptErrorSpec,
>
    decreases ps.len() - k,
{
    if k < 0 || k >= ps.len() {
        None
    } else if partition_mappings(ps[k], ps, cs, rs) is Err {
        Some(partition_mappings(ps[k], ps, cs, rs)->Err_0)
    } else {
        plan_error(ps, cs, rs, k + 1)
    }
}

fn find_guest_ram(regions: &Vec<MemoryRegion>, vm: u32) -> (r: Option<usize>)
    ensures
        r matches Some(i) ==> guest_ram_region(regions@, vm) == Some(i as int) && i < regions@.len(),
        r is None ==> guest_ram_region(regions@, vm) is None,
{
    let ghost rs = regions@;
    let mut i: usize = 0;
    while i < regions.len()
        invariant
            rs == regions@,
            i <= rs.len(),
            forall|k: int| 0 <= k < i ==> #[trigger] rs[k].purpose != (MemoryPurpose::PartitionGuestRam { vm_id: vm }),
        decreases rs.len() - i,
    {
        match &regions[i].purpose {
            MemoryPurpose::PartitionGuestRam { vm_id } => {
                if *vm_id == vm {
                    proof {
                        let w = choose|w: int|
                            0 <= w < rs.len() && rs[w].purpose == (MemoryPurpose::PartitionGuestRam { vm_id: vm })
                                && forall|k: int| 0 <= k < w ==> #[trigger] rs[k].purpose != (MemoryPurpose::PartitionGuestRam { vm_id: vm });
                        assert(0 <= i < rs.len() && rs[i as int].purpose == (MemoryPurpose::PartitionGuestRam { vm_id: vm }));
                        if w < i {
                            assert(rs[w].purpose != (MemoryPurpose::PartitionGuestRam { vm_id: vm }));
                        }
                        if w > i {
                            assert(rs[i as int].purpose != (MemoryPurpose::PartitionGuestRam { vm_id: vm }));
                        }
                    }
                    return Some(i);
                }
            },
            MemoryPurpose::IpcChannel { .. } => {},
        }
        i = i + 1;
    }
    None
}

fn find_ipc_region(regions: &Vec<MemoryRegion>, name: &String) -> (r: Option<usize>)
    ensures
        r matches Some(i) ==> ipc_region(regions@, name@) == Some(i as int) && i < regions@.len(),
        r is None ==> ipc_region(regions@, name@) is None,
{
    let ghost rs = regions@;
    let mut i: usize = 0;
    while i < regions.len()
        invariant
            rs == regions@,
            i <= rs.len(),
            forall|k: int| 0 <= k < i ==> !#[trigger] backs_channel(rs[k], name@),
        decreases rs.len() - i,
    {
        match &regions[i].purpose {
            MemoryPurpose::IpcChannel { name: n } => {
                if *n == *name {
                    proof {
                        assert(backs_channel(rs[i as int], name@));
                        let w = choose|w: int|
                            0 <= w < rs.len() && backs_channel(rs[w], name@) && forall|k: int|
                                0 <= k < w ==> !#[trigger] backs_channel(rs[k], name@);
                        if w < i {
                            assert(!backs_channel(rs[w], name@));
                        }
                        if w > i {
                            assert(!backs_channel(rs[i as int], name@));
                        }
                    }
                    return Some(i);
                }
            },
            MemoryPurpose::PartitionGuestRam { .. } => {},
        }
        i = i + 1;
    }
    None
}

fn find_partition(partitions: &Vec<PartitionIntent>, vm: VmId) -> (r: Option<usize>)
    ensures
        r matches Some(i) ==> first_partition(partitions@, vm) == Some(i as int) && i < partitions@.len(),
        r is None ==> first_partition(partitions@, vm) is None,
{
    let ghost ps = partitions@;
    let mut i: usize = 0;
    while i < partitions.len()
        invariant
            ps == partitions@,
            i <= ps.len(),
            forall|k: int| 0 <= k < i ==> #[trigger] ps[k].vm_id != vm,
        decreases ps.len() - i,
    {
        if partitions[i].vm_id == vm {
            proof {
                let w = choose|w: int| 0 <= w < ps.len() && ps[w].vm_id == vm && forall|k: int| 0 <= k < w ==> #[trigger] ps[k].vm_id != vm;
                assert(0 <= i < ps.len() && ps[i as int].vm_id == vm);
                if w < i {
                    assert(ps[w].vm_id != vm);
                }
                if w > i {
                    assert(ps[i as int].vm_id != vm);
                }
            }
            return Some(i);
        }
        i = i + 1;
    }
    None
}

fn append_ipc_mappings(
    intent: &StaticIntentIR,
    memory: &MemoryPlan,
    vm_id: VmId,
    mappings: &mut Vec<EptMapping>,
) -> (r: Result<(), EptPlanError>)
    ensures
        first_partition(intent.partitions@, vm_id) is None ==> r is Err && ept_error_is(
            r->Err_0,
            EptErrorSpec::MissingGuestRam(vm_id.0),
        ),
        first_partition(intent.partitions@, vm_id) matches Some(fp) ==> match ipc_mappings(
            intent.ipc@,
            memory.regions@,
            vm_id,
            intent.partitions@[fp].memory_bytes,
            0,
        ) {
            Ok(ms) => r is Ok && final(mappings)@ == old(mappings)@ + ms,
            Err(e) => r is Err && ept_error_is(r->Err_0, e),
        },
{
    let fp = match find_partition(&intent.partitions, vm_id) {
        Some(i) => i,
        None => {
            return Err(EptPlanError::MissingGuestRam { vm_id: vm_id.raw() });
        },
    };
    let ghost cs = intent.ipc@;
    let ghost rs = memory.regions@;
    let ghost start = mappings@;
    let mut cursor: u64 = intent.partitions[fp].memory_bytes;
    let mut k: usize = 0;
    while k < intent.ipc.len()
        invariant
            cs == intent.ipc@,
            rs == memory.regions@,
            k <= cs.len(),
            first_partition(intent.partitions@, vm_id) == Some(fp as int),
            match ipc_mappings(cs, rs, vm_id, intent.partitions@[fp as int].memory_bytes, 0) {
                Ok(all) => ipc_mappings(cs, rs, vm_id, cursor, k as int) matches Ok(rest) && all
                    == (mappings@.subrange(start.len() as int, mappings@.len() as int)) + rest,
                Err(e) => ipc_mappings(cs, rs, vm_id, cursor, k as int) == Err::<Seq<EptMapping>, EptErrorSpec>(e),
            },
            mappings@.len() >= start.len(),
            mappings@.subrange(0, start.len() as int) == start,
        decreases cs.len() - k,
    {
        let channel = &intent.ipc[k];
        if channel.producer != vm_id && channel.consumer != vm_id {
            k = k + 1;
            continue;
        }
        let host = match find_ipc_region(&memory.regions, &channel.name) {
            Some(i) => i,
            None => {
                return Err(EptPlanError::MissingIpcChannel { vm_id: vm_id.raw(), channel: channel.name.clone() });
            },
        };
        let ring = match compute_shared_bytes(channel.slot_count, channel.slot_size) {
            Ok(v) => v,
            Err(_) => {
                return Err(EptPlanError::Overflow);
            },
        };
        let span = match ipc_mapping_bytes(ring) {
            Ok(v) => v,
            Err(_) => {
                return Err(EptPlanError::Overflow);
            },
        };
        let ghost before = mappings@;
        mappings.push(
            EptMapping {
                guest_phys: GuestPhysAddr::new(cursor),
                host_phys: memory.regions[host].base,
                size: ring,
                permissions: EptPermissions::guest_ram(),
                memory_type: EptMemoryType::WriteBack,
            },
        );
        cursor = match checked_add_u64(cursor, span) {
            Ok(v) => v,
            Err(_) => {
                return Err(EptPlanError::Overflow);
            },
        };
        proof {
            assert(mappings@.subrange(0, start.len() as int) =~= start);
            assert(mappings@.subrange(start.len() as int, mappings@.len() as int) =~= before.subrange(
                start.len() as int,
                before.len() as int,
            ).push(mappings@.last()));
        }
        k = k + 1;
    }
    proof {
        assert(mappings@ =~= start + mappings@.subrange(start.len() as int, mappings@.len() as int));
    }
    Ok(())
}

fn append_mmio_mappings(partition: &PartitionIntent, mappings: &mut Vec<EptMapping>) -> (r: Result<(), EptPlanError>)
    requires
        partition.devices@.len() <= u32::MAX,
    ensures
        r is Ok,
        final(mappings)@ == old(mappings)@ + mmio_mappings(*partition),
{
    let ghost start = mappings@;
    let vm = partition.vm_id.raw() as u64;
    let mut idx: usize = 0;
    while idx < partition.devices.len()
        invariant
            idx <= partition.devices@.len(),
            partition.devices@.len() <= u32::MAX,
            vm == partition.vm_id.0,
            mappings@ == start + mmio_mappings(*partition).take(idx as int),
        decreases partition.devices@.len() - idx,
    {
        let i = idx as u64;
        assert(i * MMIO_GUEST_STRIDE <= 0x10_0000_0000_0000) by (nonlinear_arith)
            requires
                i <= u32::MAX,
        ;
        assert(vm * MMIO_HOST_STRIDE <= 0x10_0000_0000_0000) by (nonlinear_arith)
            requires
                vm <= u32::MAX,
        ;
        mappings.push(
            EptMapping {
                guest_phys: GuestPhysAddr::new(MMIO_GUEST_BASE + i * MMIO_GUEST_STRIDE),
                host_phys: HostPhysAddr::new(MMIO_HOST_BASE + vm * MMIO_HOST_STRIDE + i * MMIO_HOST_STRIDE),
                size: MMIO_REGION_SIZE,
                permissions: EptPermissions::mmio(),
                memory_type: EptMemoryType::Uncacheable,
            },
        );
        proof {
            assert(mmio_mappings(*partition).take(idx + 1) =~= mmio_mappings(*partition).take(
                idx as int,
            ).push(mmio_mapping(partition.vm_id, idx as int)));
            assert(mappings@ =~= start + mmio_mappings(*partition).take(idx + 1));
        }
        idx = idx + 1;
    }
    proof {
        assert(mmio_mappings(*partition).take(idx as int) =~= mmio_mappings(*partition));
    }
    Ok(())
}

fn validate_partition(vm_id: VmId, mappings: &Vec<EptMapping>) -> (r: Result<(), EptPlanError>)
    ensures
        mappings_error(mappings@, vm_id, 0) matches Some(e) ==> r is Err && ept_error_is(r->Err_0, e),
        mappings_error(mappings@, vm_id, 0) is None ==> r is Ok,
{
    let ghost ms = mappings@;
    let mut i: usize = 0;
    while i < mappings.len()
        invariant
            ms == mappings@,
            i <= ms.len(),
            mappings_error(ms, vm_id, 0) == mappings_error(ms, vm_id, i as int),
        decreases ms.len() - i,
    {
        let left = mappings[i];
        let mut j: usize = i + 1;
        while j < mappings.len()
            invariant
                ms == mappings@,
                i < ms.len(),
                left == ms[i as int],
                i + 1 <= j <= ms.len(),
                mappings_error(ms, vm_id, 0) == mappings_error(ms, vm_id, i as int),
                forall|m: int| i < m < j ==> !#[trigger] mappings_overlap(ms[i as int], ms[m]),
            decreases ms.len() - j,
        {
            let right = mappings[j];
            if ranges_overlap_u64(left.guest_phys.raw(), left.size, right.guest_phys.raw(), right.size) {
                assert(mappings_overlap(ms[i as int], ms[j as int]));
                return Err(EptPlanError::MappingOverlap { vm_id: vm_id.raw() });
            }
            j = j + 1;
        }
        if checked_add_u64(left.guest_phys.raw(), left.size).is_err() {
            return Err(EptPlanError::Overflow);
        }
        i = i + 1;
    }
    Ok(())
}

fn plan_partition(intent: &StaticIntentIR, memory: &MemoryPlan, k: usize) -> (r: Result<Vec<EptMapping>, EptPlanError>)
    requires
        k < intent.partitions@.len(),
        intent.partitions@[k as int].devices@.len() <= u32::MAX,
    ensures
        match partition_mappings(intent.partitions@[k as int], intent.partitions@, intent.ipc@, memory.regions@) {
            Ok(ms) => r matches Ok(v) && v@ == ms,
            Err(e) => r is Err && ept_error_is(r->Err_0, e),
        },
{
    let partition = &intent.partitions[k];
    let vm = partition.vm_id;
    let backing = match find_guest_ram(&memory.regions, vm.raw()) {
        Some(i) => i,
        None => {
            return Err(EptPlanError::MissingGuestRam { vm_id: vm.raw() });
        },
    };
    let mut mappings: Vec<EptMapping> = Vec::new();
    mappings.push(
        EptMapping {
            guest_phys: GuestPhysAddr::new(0),
            host_phys: memory.regions[backing].base,
            size: memory.regions[backing].size,
            permissions: EptPermissions::guest_ram(),
            memory_type: EptMemoryType::WriteBack,
        },
    );
    append_ipc_mappings(intent, memory, vm, &mut mappings)?;
    append_mmio_mappings(partition, &mut mappings)?;
    validate_partition(vm, &mappings)?;
    Ok(mappings)
}

/// Builds the guest RAM, IPC ring and device MMIO mappings of every
/// partition from the memory plan.
pub fn plan_ept(intent: &StaticIntentIR, memory: &MemoryPlan) -> (r: Result<EptPlan, EptPlanError>)
    requires
        forall|i: int| 0 <= i < intent.partitions@.len() ==> (#[trigger] intent.partitions@[i]).devices@.len() <= u32::MAX,
    ensures
        plan_error(intent.partitions@, intent.ipc@, memory.regions@, 0) matches Some(e) ==> r is Err
            && ept_error_is(r->Err_0, e),
        plan_error(intent.partitions@, intent.ipc@, memory.regions@, 0) is None ==> (r matches Ok(plan)
            && plan.partitions@.len() == intent.partitions@.len() && forall|i: int|
            0 <= i < plan.partitions@.len() ==> {
                &&& (#[trigger] plan.partitions@[i]).vm_id == intent.partitions@[i].vm_id
                &&& partition_mappings(intent.partitions@[i], intent.partitions@, intent.ipc@, memory.regions@)
                    == Ok::<Seq<EptMapping>, EptErrorSpec>(plan.partitions@[i].mappings@)
            }),
{
    let ghost ps = intent.partitions@;
    let ghost cs = intent.ipc@;
    let ghost rs = memory.regions@;
    let mut partitions: Vec<EptPartitionPlan> = Vec::new();
    let mut k: usize = 0;
    while k < intent.partitions.len()
        invariant
            ps == intent.partitions@,
            cs == intent.ipc@,
            rs == memory.regions@,
            forall|i: int| 0 <= i < ps.len() ==> (#[trigger] ps[i]).devices@.len() <= u32::MAX,
            k <= ps.len(),
            plan_error(ps, cs, rs, 0) == plan_error(ps, cs, rs, k as int),
            partitions@.len() == k,
            forall|i: int| 0 <= i < k ==> {
                &&& (#[trigger] partitions@[i]).vm_id == ps[i].vm_id
                &&& partition_mappings(ps[i], ps, cs, rs) == Ok::<Seq<EptMapping>, EptErrorSpec>(partitions@[i].mappings@)
            },
        decreases ps.len() - k,
    {
        assert(ps[k as int].devices@.len() <= u32::MAX);
        let mappings = plan_partition(intent, memory, k)?;
        partitions.push(EptPartitionPlan { vm_id: intent.partitions[k].vm_id, mappings });
        k = k + 1;
    }
    Ok(EptPlan { partitions })
}

proof fn lemma_no_mapping_error(ms: Seq<EptMapping>, vm: VmId, i: int)
    requires
        0 <= i,
        mappings_error(ms, vm, i) is None,
    ensures
        forall|k: int, j: int| i <= k < j < ms.len() ==> !#[trigger] mappings_overlap(ms[k], ms[j]),
        forall|k: int| i <= k < ms.len() ==> (#[trigger] ms[k]).guest_phys.0 + ms[k].size <= u64::MAX,
    decreases ms.len() - i,
{
    if i < ms.len() {
        lemma_no_mapping_error(ms, vm, i + 1);
        assert forall|k: int, j: int| i <= k < j < ms.len() implies !#[trigger] mappings_overlap(ms[k], ms[j]) by {
            if k == i {
                assert(!mappings_overlap(ms[i], ms[j]));
            }
        }
    }
}

/// A partition's planned mappings never share a guest address, end within
/// the guest address space, and begin with guest RAM identity-placed at
/// guest address 0.
pub proof fn planned_mappings_are_disjoint(
    p: PartitionIntent,
    ps: Seq<PartitionIntent>,
    cs: Seq<IpcIntent>,
    rs: Seq<MemoryRegion>,
    ms: Seq<EptMapping>,
)
    requires
        partition_mappings(p, ps, cs, rs) == Ok::<Seq<EptMapping>, EptErrorSpec>(ms),
    ensures
        forall|k: int, j: int| 0 <= k < j < ms.len() ==> !#[trigger] mappings_overlap(ms[k], ms[j]),
        forall|k: int| 0 <= k < ms.len() ==> (#[trigger] ms[k]).guest_phys.0 + ms[k].size <= u64::MAX,
        ms.len() >= 1 + p.devices@.len(),
        ms[0].guest_phys.0 == 0,
        ms[0].host_phys == rs[guest_ram_region(rs, p.vm_id.0)->Some_0].base,
{
    lemma_no_mapping_error(ms, p.vm_id, 0);
}


/// Range `k` of `s` starts where the page-rounded span of range `k - 1` ends.
pub open spec fn follows(s: Seq<EptMapping>, k: int) -> bool {
    s[k].guest_phys.0 == s[k - 1].guest_phys.0 + align_up_spec(s[k - 1].size as int, 4096)
}

/// Rounding up to whole pages adds less than a page.
proof fn lemma_page_round(v: int)
    requires
        v >= 0,
    ensures
        v <= align_up_spec(v, 4096) < v + 4096,
{
}

/// The rings `ipc_mappings` places from `cursor` on follow one another page
/// span by page span, in order, starting at `cursor`, none of them empty.
proof fn lemma_ipc_contiguous(cs: Seq<IpcIntent>, rs: Seq<MemoryRegion>, vm: VmId, cursor: u64, k: int, s: Seq<EptMapping>)
    requires
        0 <= k,
        ipc_mappings(cs, rs, vm, cursor, k) == Ok::<Seq<EptMapping>, EptErrorSpec>(s),
    ensures
        s.len() > 0 ==> s[0].guest_phys.0 == cursor,
        forall|i: int| 0 <= i < s.len() ==> (#[trigger] s[i]).size > 0 && s[i].guest_phys.0 >= cursor,
        forall|i: int| 0 < i < s.len() ==> #[trigger] follows(s, i),
    decreases cs.len() - k,
{
    if k < cs.len() {
        if cs[k].producer != vm && cs[k].consumer != vm {
            lemma_ipc_contiguous(cs, rs, vm, cursor, k + 1, s);
        } else {
            let next = (cursor + ring_span(cs[k])) as u64;
            let rest = ipc_mappings(cs, rs, vm, next, k + 1)->Ok_0;
            lemma_ipc_contiguous(cs, rs, vm, next, k + 1, rest);
            let m = ram_mapping(cursor, rs[ipc_region(rs, cs[k].name@)->Some_0].base, ring_bytes(cs[k]) as u64);
            assert(s == seq![m] + rest);
            lemma_page_round(ring_bytes(cs[k]));
            assert(cursor + ring_span(cs[k]) <= u64::MAX);
            assert(m.size as int == ring_bytes(cs[k]));
            assert forall|i: int| 0 < i < s.len() implies #[trigger] follows(s, i) by {
                assert(s[i] == rest[i - 1]);
                if i > 1 {
                    assert(s[i - 1] == rest[i - 2]);
                    assert(follows(rest, i - 1));
                } else {
                    assert(s[0] == m);
                }
            }
            assert forall|i: int| 0 <= i < s.len() implies (#[trigger] s[i]).size > 0 && s[i].guest_phys.0 >= cursor by {
                if i > 0 {
                    assert(s[i] == rest[i - 1]);
                }
            }
        }
    }
}

/// Ranges following one another from `c` cover, with their page-rounded
/// spans, every address from `c` up to the start of range `i`.
proof fn lemma_contiguous_cover(s: Seq<EptMapping>, c: int, i: int, x: int)
    requires
        0 <= i < s.len(),
        s[0].guest_phys.0 == c,
        forall|k: int| 0 < k < s.len() ==> #[trigger] follows(s, k),
        c <= x < s[i].guest_phys.0,
    ensures
        exists|j: int|
            0 <= j < i && (#[trigger] s[j]).guest_phys.0 <= x < s[j].guest_phys.0 + align_up_spec(s[j].size as int, 4096),
    decreases i,
{
    if i > 0 {
        assert(follows(s, i));
        if x >= s[i - 1].guest_phys.0 {
            assert(s[i - 1].guest_phys.0 <= x < s[i - 1].guest_phys.0 + align_up_spec(s[i - 1].size as int, 4096));
        } else {
            lemma_contiguous_cover(s, c, i - 1, x);
            let j = choose|j: int|
                0 <= j < i - 1 && (#[trigger] s[j]).guest_phys.0 <= x < s[j].guest_phys.0 + align_up_spec(
                    s[j].size as int,
                    4096,
                );
            assert(0 <= j < i);
        }
    }
}

/// A partition's planned mappings come in ascending guest-address order,
/// each ending at or before the start of the next, when its RAM region is
/// as large as the partition's RAM and that RAM is not empty.
pub proof fn planned_mappings_ascend(
    p: PartitionIntent,
    ps: Seq<PartitionIntent>,
    cs: Seq<IpcIntent>,
    rs: Seq<MemoryRegion>,
    ms: Seq<EptMapping>,
)
    requires
        partition_mappings(p, ps, cs, rs) == Ok::<Seq<EptMapping>, EptErrorSpec>(ms),
        rs[guest_ram_region(rs, p.vm_id.0)->Some_0].size == ps[first_partition(ps, p.vm_id)->Some_0].memory_bytes,
        ps[first_partition(ps, p.vm_id)->Some_0].memory_bytes > 0,
        p.devices@.len() <= u32::MAX,
    ensures
        forall|i: int, j: int| 0 <= i < j < ms.len() ==> (#[trigger] ms[i]).guest_phys.0 + ms[i].size <= (#[trigger] ms[j]).guest_phys.0,
{
    let ram = rs[guest_ram_region(rs, p.vm_id.0)->Some_0];
    let mem = ps[first_partition(ps, p.vm_id)->Some_0].memory_bytes;
    let ipc = ipc_mappings(cs, rs, p.vm_id, mem, 0)->Ok_0;
    let mmio = mmio_mappings(p);
    let r = ram_mapping(0, ram.base, ram.size);
    assert(ms == seq![r] + ipc + mmio);
    lemma_no_mapping_error(ms, p.vm_id, 0);
    lemma_ipc_contiguous(cs, rs, p.vm_id, mem, 0, ipc);
    let n = ipc.len() as int;
    assert forall|i: int, j: int| 0 <= i < j < ms.len() implies (#[trigger] ms[i]).guest_phys.0 + ms[i].size <= (#[trigger] ms[j]).guest_phys.0 by {
        assert(!mappings_overlap(ms[i], ms[j]));
        if i == 0 {
            if j <= n {
                assert(ms[j] == ipc[j - 1]);
            } else {
                assert(ms[j] == mmio[j - 1 - n]);
            }
        } else if i <= n {
            assert(ms[i] == ipc[i - 1]);
            if j <= n {
                assert(ms[j] == ipc[j - 1]);
                lemma_ipc_order(ipc, i - 1, j - 1);
            } else {
                assert(ms[j] == mmio[j - 1 - n]);
                assert(ms[j].guest_phys.0 >= MMIO_GUEST_BASE);
                let w0 = ms[1 + n];
                assert(w0 == mmio[0]);
                assert(w0.guest_phys.0 == MMIO_GUEST_BASE && w0.size == MMIO_REGION_SIZE);
                if ms[j].guest_phys.0 + ms[j].size <= ms[i].guest_phys.0 {
                    let x = MMIO_GUEST_BASE as int;
                    if x < mem {
                        assert(mappings_overlap(ms[0], w0));
                        assert(!mappings_overlap(ms[0], ms[1 + n]));
                    } else {
                        lemma_contiguous_cover(ipc, mem as int, i - 1, x);
                        let k = choose|k: int|
                            0 <= k < i - 1 && (#[trigger] ipc[k]).guest_phys.0 <= x < ipc[k].guest_phys.0 + align_up_spec(
                                ipc[k].size as int,
                                4096,
                            );
                        assert(ms[k + 1] == ipc[k]);
                        lemma_page_round(ipc[k].size as int);
                        if x < ipc[k].guest_phys.0 + ipc[k].size {
                            assert(mappings_overlap(ms[k + 1], w0));
                            assert(!mappings_overlap(ms[k + 1], ms[1 + n]));
                        } else {
                            assert(follows(ipc, k + 1));
                            assert(ms[k + 2] == ipc[k + 1]);
                            assert(mappings_overlap(ms[k + 2], w0));
                            assert(!mappings_overlap(ms[k + 2], ms[1 + n]));
                        }
                    }
                }
            }
        } else {
            assert(ms[i] == mmio[i - 1 - n]);
            assert(ms[j] == mmio[j - 1 - n]);
        }
    }
}

/// Back-to-back ranges of positive size ascend.
proof fn lemma_ipc_order(s: Seq<EptMapping>, i: int, j: int)
    requires
        0 <= i < j < s.len(),
        forall|k: int| 0 <= k < s.len() ==> (#[trigger] s[k]).size > 0,
        forall|k: int| 0 < k < s.len() ==> #[trigger] follows(s, k),
    ensures
        s[i].guest_phys.0 + s[i].size <= s[j].guest_phys.0,
    decreases j - i,
{
    assert(follows(s, i + 1));
    lemma_page_round(s[i].size as int);
    if i + 1 < j {
        lemma_ipc_order(s, i + 1, j);
    }
}

} // verus!
