//! Properties of accepted configurations: identifiers follow declaration
//! order, the datapath is unidirectional with no NIC-to-NIC channel, the
//! configuration hash is a function of the configuration, and the generated
//! artifacts come sorted by path.

use vstd::prelude::*;

use crate::config::artifact::artifact_texts;
use crate::config::canonical::{array_text, canonical_text, device_text, ipc_text, partition_text};
use crate::config::normalize::{
    config_normalized, datapath_error, device_normalized, first_nic_violation, ipc_normalized,
    least_reversed, nic_violation, normalize_error, pair_le, partition_normalized, raw_edges,
    raw_nodes, reversed, NodeView, NormalizedDevice, NormalizedIpc, NormalizedPartition,
};
use crate::config::pipeline::{validated_of, CompiledConfig};
use crate::config::intent::{intent_of, StaticIntentIR};
use crate::config::normalize::{partitions_normalized, total_ram};
use crate::config::pipeline::ValidatedConfig;
use crate::config::raw::{RawConfig, RawPartition};
use crate::config::requirements::{expected_all, expected_for, total_vcpus};
use crate::types::VmId;

verus! {

/// Partition `i` of a normalized configuration is the `i`-th declared
/// partition and has VM identifier `i`.
pub proof fn vm_ids_follow_declaration_order(raw: RawConfig, ppm: u32, cfg: crate::config::normalize::NormalizedConfig)
    requires
        config_normalized(raw, ppm, cfg),
    ensures
        cfg.partitions@.len() == raw.partitions@.len(),
        forall|i: int|
            0 <= i < cfg.partitions@.len() ==> (#[trigger] cfg.partitions@[i]).vm_id == VmId(i as u32)
                && cfg.partitions@[i].name@ == raw.partitions@[i].name@,
{
    assert forall|i: int| 0 <= i < cfg.partitions@.len() implies (#[trigger] cfg.partitions@[i]).vm_id == VmId(i as u32)
        && cfg.partitions@[i].name@ == raw.partitions@[i].name@ by {
        assert(partition_normalized(raw.partitions@[i], i, cfg.partitions@[i]));
    }
}

/// Producer-then-consumer rank of an edge.
spec fn edge_key(e: (VmId, VmId)) -> nat {
    (e.0.0 as nat) * 0x1_0000_0000 + e.1.0 as nat
}

proof fn lemma_least_reversed_exists(es: Seq<(VmId, VmId)>, i: int)
    requires
        reversed(es, i),
    ensures
        exists|w: int| least_reversed(es, w),
    decreases edge_key(es[i]),
{
    if forall|j: int| #[trigger] reversed(es, j) ==> pair_le(es[i].0, es[i].1, es[j].0, es[j].1) {
        assert(least_reversed(es, i));
    } else {
        let j = choose|j: int| #[trigger] reversed(es, j) && !pair_le(es[i].0, es[i].1, es[j].0, es[j].1);
        assert(edge_key(es[j]) < edge_key(es[i])) by (nonlinear_arith)
            requires
                !pair_le(es[i].0, es[i].1, es[j].0, es[j].1),
                edge_key(es[j]) == (es[j].0.0 as nat) * 0x1_0000_0000 + es[j].1.0 as nat,
                edge_key(es[i]) == (es[i].0.0 as nat) * 0x1_0000_0000 + es[i].1.0 as nat,
                es[j].1.0 < 0x1_0000_0000,
                es[i].1.0 < 0x1_0000_0000,
        ;
        lemma_least_reversed_exists(es, j);
    }
}

proof fn lemma_first_nic_exists(ns: Seq<NodeView>, es: Seq<(VmId, VmId)>, a: int, b: int)
    requires
        nic_violation(ns, es, a, b),
    ensures
        exists|x: int, y: int| first_nic_violation(ns, es, x, y),
    decreases a * ns.len() + b,
{
    if forall|x: int, y: int| #[trigger] nic_violation(ns, es, x, y) ==> a < x || (a == x && b <= y) {
        assert(first_nic_violation(ns, es, a, b));
    } else {
        let (x, y) = choose|x: int, y: int| #[trigger] nic_violation(ns, es, x, y) && !(a < x || (a == x && b <= y));
        assert(x * ns.len() + y < a * ns.len() + b) by (nonlinear_arith)
            requires
                0 <= x,
                0 <= y < ns.len(),
                0 <= b < ns.len(),
                x < a || (x == a && y < b),
        ;
        lemma_first_nic_exists(ns, es, x, y);
    }
}

/// Unidirectional datapath: an accepted configuration has no pair of
/// channels running in opposite directions between the same two partitions.
pub proof fn accepted_datapath_is_unidirectional(
    raw: RawConfig,
    ppm: Result<u32, &'static str>,
    cfg: crate::config::normalize::NormalizedConfig,
)
    requires
        normalize_error(raw, ppm) is None,
        config_normalized(raw, ppm->Ok_0, cfg),
    ensures
        forall|i: int, j: int|
            0 <= i < cfg.ipc@.len() && 0 <= j < cfg.ipc@.len() ==> !(#[trigger] cfg.ipc@[i].producer
                == #[trigger] cfg.ipc@[j].consumer && cfg.ipc@[i].consumer == cfg.ipc@[j].producer),
{
    let ps = raw.partitions@;
    let es = raw_edges(ps, raw.ipc@);
    assert(datapath_error(raw_nodes(ps), es) is None);
    assert forall|i: int, j: int|
        0 <= i < cfg.ipc@.len() && 0 <= j < cfg.ipc@.len() implies !(#[trigger] cfg.ipc@[i].producer
            == #[trigger] cfg.ipc@[j].consumer && cfg.ipc@[i].consumer == cfg.ipc@[j].producer) by {
        if cfg.ipc@[i].producer == cfg.ipc@[j].consumer && cfg.ipc@[i].consumer == cfg.ipc@[j].producer {
            assert(ipc_normalized(raw.ipc@[i], ps, cfg.ipc@[i]));
            assert(ipc_normalized(raw.ipc@[j], ps, cfg.ipc@[j]));
            assert(es[j] == (es[i].1, es[i].0));
            assert(reversed(es, i));
            lemma_least_reversed_exists(es, i);
        }
    }
}

/// No NIC-to-NIC channel: in an accepted configuration with at least two
/// channels, no channel runs directly between two partitions of distinct VMs
/// that both own an e1000 NIC.
pub proof fn accepted_datapath_has_no_nic_to_nic_channel(
    raw: RawConfig,
    ppm: Result<u32, &'static str>,
    cfg: crate::config::normalize::NormalizedConfig,
)
    requires
        normalize_error(raw, ppm) is None,
        config_normalized(raw, ppm->Ok_0, cfg),
        cfg.ipc@.len() >= 2,
    ensures
        forall|k: int, a: int, b: int|
            #![trigger cfg.ipc@[k], cfg.partitions@[a], cfg.partitions@[b]]
            0 <= k < cfg.ipc@.len() && 0 <= a < cfg.partitions@.len() && 0 <= b < cfg.partitions@.len()
                && cfg.partitions@[a].vm_id != cfg.partitions@[b].vm_id
                && cfg.partitions@[a].devices@.len() > 0 && cfg.partitions@[b].devices@.len() > 0 ==> !(
            cfg.ipc@[k].producer == cfg.partitions@[a].vm_id && cfg.ipc@[k].consumer == cfg.partitions@[b].vm_id),
{
    let ps = raw.partitions@;
    let ns = raw_nodes(ps);
    let es = raw_edges(ps, raw.ipc@);
    assert(datapath_error(ns, es) is None);
    if exists|w: int| least_reversed(es, w) {
    }
    assert forall|k: int, a: int, b: int|
        #![trigger cfg.ipc@[k], cfg.partitions@[a], cfg.partitions@[b]]
        0 <= k < cfg.ipc@.len() && 0 <= a < cfg.partitions@.len() && 0 <= b < cfg.partitions@.len()
                && cfg.partitions@[a].vm_id != cfg.partitions@[b].vm_id
            && cfg.partitions@[a].devices@.len() > 0 && cfg.partitions@[b].devices@.len() > 0 implies !(
        cfg.ipc@[k].producer == cfg.partitions@[a].vm_id && cfg.ipc@[k].consumer == cfg.partitions@[b].vm_id) by {
        if cfg.ipc@[k].producer == cfg.partitions@[a].vm_id && cfg.ipc@[k].consumer == cfg.partitions@[b].vm_id {
            assert(partition_normalized(ps[a], a, cfg.partitions@[a]));
            assert(partition_normalized(ps[b], b, cfg.partitions@[b]));
            assert(ipc_normalized(raw.ipc@[k], ps, cfg.ipc@[k]));
            assert(es[k] == (ns[a].vm_id, ns[b].vm_id));
            assert(ns[a].nic && ns[b].nic);
            assert(ns[a].vm_id != ns[b].vm_id);
            assert(crate::config::normalize::has_edge(es, ns[a].vm_id, ns[b].vm_id));
            assert(nic_violation(ns, es, a, b));
            lemma_first_nic_exists(ns, es, a, b);
        }
    }
}

proof fn lemma_same_partition_text(p: crate::config::raw::RawPartition, i: int, a: NormalizedPartition, b: NormalizedPartition)
    requires
        partition_normalized(p, i, a),
        partition_normalized(p, i, b),
    ensures
        partition_text(a) == partition_text(b),
{
    assert forall|j: int| 0 <= j < a.devices@.len() implies #[trigger] a.devices@[j] == b.devices@[j] by {
        assert(device_normalized(p.devices@[j], a.devices@[j]));
        assert(device_normalized(p.devices@[j], b.devices@[j]));
    }
    assert(a.devices@.map_values(|d: NormalizedDevice| device_text(d)) =~= b.devices@.map_values(
        |d: NormalizedDevice| device_text(d),
    ));
}

/// Deterministic compilation: two validations of the same configuration
/// give the same canonical text and the same configuration hash.
pub proof fn validation_is_deterministic(
    raw: RawConfig,
    ppm: u32,
    v1: crate::config::pipeline::ValidatedConfig,
    v2: crate::config::pipeline::ValidatedConfig,
)
    requires
        validated_of(raw, ppm, v1),
        validated_of(raw, ppm, v2),
    ensures
        canonical_text(v1.normalized) == canonical_text(v2.normalized),
        v1.config_hash.0@ == v2.config_hash.0@,
{
    let c1 = v1.normalized;
    let c2 = v2.normalized;
    assert forall|i: int| 0 <= i < c1.partitions@.len() implies #[trigger] partition_text(c1.partitions@[i])
        == partition_text(c2.partitions@[i]) by {
        lemma_same_partition_text(raw.partitions@[i], i, c1.partitions@[i], c2.partitions@[i]);
    }
    assert(c1.partitions@.map_values(|p: NormalizedPartition| partition_text(p)) =~= c2.partitions@.map_values(
        |p: NormalizedPartition| partition_text(p),
    ));
    assert forall|i: int| 0 <= i < c1.ipc@.len() implies #[trigger] ipc_text(c1.ipc@[i]) == ipc_text(c2.ipc@[i]) by {
        assert(ipc_normalized(raw.ipc@[i], raw.partitions@, c1.ipc@[i]));
        assert(ipc_normalized(raw.ipc@[i], raw.partitions@, c2.ipc@[i]));
    }
    assert(c1.ipc@.map_values(|c: NormalizedIpc| ipc_text(c)) =~= c2.ipc@.map_values(|c: NormalizedIpc| ipc_text(c)));
    assert(c1.platform.requirements.page_sizes@ == c2.platform.requirements.page_sizes@);
    assert(canonical_text(c1) =~= canonical_text(c2));
}


/// `a` sorts strictly before `b`, comparing characters by code point from
/// the first and a proper prefix first.
pub open spec fn text_lt(a: Seq<char>, b: Seq<char>) -> bool
    decreases a.len(),
{
    if a.len() == 0 {
        b.len() > 0
    } else if b.len() == 0 {
        false
    } else if (a[0] as u32) < (b[0] as u32) {
        true
    } else if a[0] == b[0] {
        text_lt(a.drop_first(), b.drop_first())
    } else {
        false
    }
}

proof fn lemma_text_lt_transitive(a: Seq<char>, b: Seq<char>, c: Seq<char>)
    requires
        text_lt(a, b),
        text_lt(b, c),
    ensures
        text_lt(a, c),
    decreases a.len(),
{
    if a.len() > 0 && b.len() > 0 && c.len() > 0 && a[0] == b[0] && b[0] == c[0] {
        lemma_text_lt_transitive(a.drop_first(), b.drop_first(), c.drop_first());
    }
}

/// The generated artifacts come sorted by path, each path strictly before
/// the next, whatever the intent and hash.
pub proof fn artifacts_sorted_by_path(ir: StaticIntentIR, hash: Seq<char>)
    ensures
        forall|i: int, j: int|
            0 <= i < j < artifact_texts(ir, hash).len() ==> text_lt(
                (#[trigger] artifact_texts(ir, hash)[i]).0,
                (#[trigger] artifact_texts(ir, hash)[j]).0,
            ),
{
    let t = artifact_texts(ir, hash);
    reveal_strlit("boot-layout.txt");
    reveal_strlit("boot-manifest.txt");
    reveal_strlit("build-manifest.txt");
    reveal_strlit("config.sha256");
    reveal_strlit("core-ownership.txt");
    reveal_strlit("cpu-topology.txt");
    reveal_strlit("ept-map.txt");
    reveal_strlit("guest-images.txt");
    reveal_strlit("ipc-map.txt");
    reveal_strlit("irq-map.txt");
    reveal_strlit("memory-map.txt");
    reveal_strlit("pci-map.txt");
    reveal_strlit("platform-requirements.txt");
    reveal_strlit("qemu-args.txt");
    reveal_strlit("static-platform.rs");
    reveal_strlit("validated-platform.txt");
    reveal_strlit("vtd-map.txt");
    reveal_with_fuel(text_lt, 7);
    assert(t.len() == 17);
    assert forall|i: int| 0 <= i < 16 implies text_lt(t[i].0, #[trigger] t[i + 1].0) by {
        if i == 0 {
            assert(text_lt(t[0].0, t[1].0));
        } else if i == 1 {
            assert(text_lt(t[1].0, t[2].0));
        } else if i == 2 {
            assert(text_lt(t[2].0, t[3].0));
        } else if i == 3 {
            assert(text_lt(t[3].0, t[4].0));
        } else if i == 4 {
            assert(text_lt(t[4].0, t[5].0));
        } else if i == 5 {
            assert(text_lt(t[5].0, t[6].0));
        } else if i == 6 {
            assert(text_lt(t[6].0, t[7].0));
        } else if i == 7 {
            assert(text_lt(t[7].0, t[8].0));
        } else if i == 8 {
            assert(text_lt(t[8].0, t[9].0));
        } else if i == 9 {
            assert(text_lt(t[9].0, t[10].0));
        } else if i == 10 {
            assert(text_lt(t[10].0, t[11].0));
        } else if i == 11 {
            assert(text_lt(t[11].0, t[12].0));
        } else if i == 12 {
            assert(text_lt(t[12].0, t[13].0));
        } else if i == 13 {
            assert(text_lt(t[13].0, t[14].0));
        } else if i == 14 {
            assert(text_lt(t[14].0, t[15].0));
        } else {
            assert(text_lt(t[15].0, t[16].0));
        }
    }
    assert forall|i: int, j: int| 0 <= i < j < t.len() implies text_lt(
        (#[trigger] t[i]).0,
        (#[trigger] t[j]).0,
    ) by {
        lemma_sorted_pairs(t, i, j);
    }
}

proof fn lemma_sorted_pairs(t: Seq<(Seq<char>, Seq<char>)>, i: int, j: int)
    requires
        0 <= i < j < t.len(),
        forall|k: int| 0 <= k < t.len() - 1 ==> text_lt(t[k].0, #[trigger] t[k + 1].0),
    ensures
        text_lt(t[i].0, t[j].0),
    decreases j - i,
{
    assert(text_lt(t[i].0, t[i + 1].0));
    if i + 1 < j {
        lemma_sorted_pairs(t, i + 1, j);
        lemma_text_lt_transitive(t[i].0, t[i + 1].0, t[j].0);
    }
}

/// Two normalizations of the same partitions have the same vCPU and RAM
/// totals and expect the same devices.
proof fn lemma_partition_totals(ps: Seq<RawPartition>, a: Seq<NormalizedPartition>, b: Seq<NormalizedPartition>, k: int)
    requires
        partitions_normalized(ps, a),
        partitions_normalized(ps, b),
        0 <= k <= a.len(),
    ensures
        total_vcpus(a.take(k)) == total_vcpus(b.take(k)),
        total_ram(a.take(k)) == total_ram(b.take(k)),
        expected_all(a.take(k)) == expected_all(b.take(k)),
    decreases k,
{
    if k > 0 {
        lemma_partition_totals(ps, a, b, k - 1);
        assert(a.take(k).drop_last() =~= a.take(k - 1));
        assert(b.take(k).drop_last() =~= b.take(k - 1));
        let x = a[k - 1];
        let y = b[k - 1];
        assert(partition_normalized(ps[k - 1], k - 1, x));
        assert(partition_normalized(ps[k - 1], k - 1, y));
        assert forall|j: int| 0 <= j < x.devices@.len() implies #[trigger] x.devices@[j] == y.devices@[j] by {
            assert(device_normalized(ps[k - 1].devices@[j], x.devices@[j]));
            assert(device_normalized(ps[k - 1].devices@[j], y.devices@[j]));
        }
        assert(expected_for(x) =~= expected_for(y));
        assert(a.take(k).last() == x && b.take(k).last() == y);
    }
}

proof fn lemma_partitions_transfer(
    raw: RawConfig,
    n1: Seq<NormalizedPartition>,
    n2: Seq<NormalizedPartition>,
    ps: Seq<crate::config::intent::PartitionIntent>,
)
    requires
        partitions_normalized(raw.partitions@, n1),
        partitions_normalized(raw.partitions@, n2),
        ps.len() == n2.len(),
        forall|i: int| 0 <= i < ps.len() ==> crate::config::intent::partition_intent_of(n2[i], #[trigger] ps[i]),
    ensures
        forall|i: int| 0 <= i < ps.len() ==> crate::config::intent::partition_intent_of(n1[i], #[trigger] ps[i]),
{
    assert forall|i: int| 0 <= i < ps.len() implies crate::config::intent::partition_intent_of(n1[i], #[trigger] ps[i]) by {
        let p = raw.partitions@[i];
        assert(partition_normalized(p, i, n1[i]));
        assert(partition_normalized(p, i, n2[i]));
        assert forall|j: int| 0 <= j < n1[i].devices@.len() implies #[trigger] n1[i].devices@[j] == n2[i].devices@[j] by {
            assert(device_normalized(p.devices@[j], n1[i].devices@[j]));
            assert(device_normalized(p.devices@[j], n2[i].devices@[j]));
        }
    }
}

proof fn lemma_ipc_transfer(raw: RawConfig, n1: Seq<NormalizedIpc>, n2: Seq<NormalizedIpc>, cs: Seq<crate::config::intent::IpcIntent>)
    requires
        n1.len() == raw.ipc@.len(),
        n2.len() == raw.ipc@.len(),
        forall|i: int| 0 <= i < n1.len() ==> ipc_normalized(raw.ipc@[i], raw.partitions@, #[trigger] n1[i]),
        forall|i: int| 0 <= i < n2.len() ==> ipc_normalized(raw.ipc@[i], raw.partitions@, #[trigger] n2[i]),
        cs.len() == n2.len(),
        forall|i: int| 0 <= i < cs.len() ==> crate::config::intent::ipc_intent_of(n2[i], #[trigger] cs[i]),
    ensures
        forall|i: int| 0 <= i < cs.len() ==> crate::config::intent::ipc_intent_of(n1[i], #[trigger] cs[i]),
{
    assert forall|i: int| 0 <= i < cs.len() implies crate::config::intent::ipc_intent_of(n1[i], #[trigger] cs[i]) by {
        assert(ipc_normalized(raw.ipc@[i], raw.partitions@, n1[i]));
        assert(ipc_normalized(raw.ipc@[i], raw.partitions@, n2[i]));
    }
}

proof fn lemma_qemu_transfer(
    q: crate::config::raw::RawQemu,
    n1: crate::config::normalize::NormalizedQemu,
    n2: crate::config::normalize::NormalizedQemu,
    plan: crate::config::normalize::NormalizedQemu,
)
    requires
        crate::config::normalize::qemu_normalized(q, n1),
        crate::config::normalize::qemu_normalized(q, n2),
        crate::config::intent::same_qemu(n2, plan),
    ensures
        crate::config::intent::same_qemu(n1, plan),
{
    assert(n1.smp == n2.smp);
    assert forall|i: int| 0 <= i < n1.netdevs@.len() implies {
        &&& (#[trigger] n1.netdevs@[i]).id@ == plan.netdevs@[i].id@
        &&& n1.netdevs@[i].kind@ == plan.netdevs@[i].kind@
        &&& crate::config::normalize::opt_text_eq(n1.netdevs@[i].hostfwd, plan.netdevs@[i].hostfwd)
    } by {
        assert(n2.netdevs@[i].id@ == plan.netdevs@[i].id@);
    }
    assert forall|i: int| 0 <= i < n1.devices@.len() implies {
        &&& (#[trigger] n1.devices@[i]).kind == plan.devices@[i].kind
        &&& n1.devices@[i].bdf == plan.devices@[i].bdf
        &&& crate::config::normalize::opt_text_eq(n1.devices@[i].netdev, plan.devices@[i].netdev)
    } by {
        assert(n2.devices@[i].kind == plan.devices@[i].kind);
    }
}

/// An intent of one validation of a configuration is, under the same hash,
/// an intent of any other validation of it.
#[verifier::spinoff_prover]
#[verifier::rlimit(40)]
proof fn lemma_intent_transfer(raw: RawConfig, ppm: u32, v1: ValidatedConfig, v2: ValidatedConfig, ir: StaticIntentIR)
    requires
        validated_of(raw, ppm, v1),
        validated_of(raw, ppm, v2),
        v1.config_hash == v2.config_hash,
        intent_of(v2.normalized, v2.config_hash, ir),
    ensures
        intent_of(v1.normalized, v1.config_hash, ir),
{
    let n1 = v1.normalized;
    let n2 = v2.normalized;
    let k = n1.partitions@.len() as int;
    lemma_partition_totals(raw.partitions@, n1.partitions@, n2.partitions@, k);
    assert(n1.partitions@.take(k) =~= n1.partitions@);
    assert(n2.partitions@.take(k) =~= n2.partitions@);
    lemma_partitions_transfer(raw, n1.partitions@, n2.partitions@, ir.partitions@);
    lemma_ipc_transfer(raw, n1.ipc@, n2.ipc@, ir.ipc@);
    lemma_qemu_transfer(raw.qemu, n1.qemu, n2.qemu, ir.qemu.plan);
}

/// Deterministic compilation and identifiers: two compilations of the same
/// configuration give the same configuration hash, and intents that agree
/// partition by partition on identifier, name, vCPUs, RAM and image, and
/// channel by channel on name, endpoints and ring parameters.
pub proof fn compilation_is_deterministic(raw: RawConfig, ppm: u32, c1: CompiledConfig, c2: CompiledConfig)
    requires
        validated_of(raw, ppm, c1.validated),
        intent_of(c1.validated.normalized, c1.validated.config_hash, c1.intent),
        validated_of(raw, ppm, c2.validated),
        intent_of(c2.validated.normalized, c2.validated.config_hash, c2.intent),
    ensures
        c1.validated.config_hash == c2.validated.config_hash,
        canonical_text(c1.validated.normalized) == canonical_text(c2.validated.normalized),
        intent_of(c1.validated.normalized, c1.validated.config_hash, c2.intent),
        intent_of(c2.validated.normalized, c2.validated.config_hash, c1.intent),
        c1.intent.config_hash.0@ == c2.intent.config_hash.0@,
        c1.intent.partitions@.len() == c2.intent.partitions@.len(),
        forall|i: int|
            0 <= i < c1.intent.partitions@.len() ==> {
                let a = #[trigger] c1.intent.partitions@[i];
                let b = c2.intent.partitions@[i];
                &&& a.vm_id == b.vm_id
                &&& a.name@ == b.name@
                &&& a.vcpus == b.vcpus
                &&& a.memory_bytes == b.memory_bytes
                &&& a.image@ == b.image@
            },
        c1.intent.ipc@.len() == c2.intent.ipc@.len(),
        forall|i: int|
            0 <= i < c1.intent.ipc@.len() ==> {
                let a = #[trigger] c1.intent.ipc@[i];
                let b = c2.intent.ipc@[i];
                &&& a.name@ == b.name@
                &&& a.producer == b.producer
                &&& a.consumer == b.consumer
                &&& a.slot_count == b.slot_count
                &&& a.slot_size == b.slot_size
                &&& a.shared_bytes == b.shared_bytes
            },
{
    validation_is_deterministic(raw, ppm, c1.validated, c2.validated);
    assert(c1.validated.config_hash.0 =~= c2.validated.config_hash.0);
    lemma_intent_transfer(raw, ppm, c1.validated, c2.validated, c2.intent);
    lemma_intent_transfer(raw, ppm, c2.validated, c1.validated, c1.intent);
    let n1 = c1.validated.normalized;
    let n2 = c2.validated.normalized;
    assert forall|i: int| 0 <= i < c1.intent.partitions@.len() implies {
        let a = #[trigger] c1.intent.partitions@[i];
        let b = c2.intent.partitions@[i];
        &&& a.vm_id == b.vm_id
        &&& a.name@ == b.name@
        &&& a.vcpus == b.vcpus
        &&& a.memory_bytes == b.memory_bytes
        &&& a.image@ == b.image@
    } by {
        assert(partition_normalized(raw.partitions@[i], i, n1.partitions@[i]));
        assert(partition_normalized(raw.partitions@[i], i, n2.partitions@[i]));
    }
    assert forall|i: int| 0 <= i < c1.intent.ipc@.len() implies {
        let a = #[trigger] c1.intent.ipc@[i];
        let b = c2.intent.ipc@[i];
        &&& a.name@ == b.name@
        &&& a.producer == b.producer
        &&& a.consumer == b.consumer
        &&& a.slot_count == b.slot_count
        &&& a.slot_size == b.slot_size
        &&& a.shared_bytes == b.shared_bytes
    } by {
        assert(ipc_normalized(raw.ipc@[i], raw.partitions@, n1.ipc@[i]));
        assert(ipc_normalized(raw.ipc@[i], raw.partitions@, n2.ipc@[i]));
    }
}

} // verus!
