//! CPU topology and the exclusive-core CPU planner: partition `i` gets the
//! `i`-th physical core and that core's first logical processor as its
//! bootstrap CPU.

use vstd::prelude::*;
use vstd::string::*;

use crate::config::intent::{PartitionIntent, StaticIntentIR};
use crate::config::raw::SmtPolicy;
use crate::types::{ApicId, LogicalCpuId, PhysicalCoreId, VmId};
use crate::text::{decimal, push_decimal};

verus! {

/// Errors produced by CPU topology planning.
#[derive(Clone, Debug, PartialEq, Eq)]
pub enum CpuTopologyError {
    /// Not enough physical cores for configured partitions.
    InsufficientCores {
        /// Required exclusive cores.
        required: u32,
        /// Available exclusive cores.
        available: u32,
    },
    /// Partition requests more vCPUs than exclusive-core policy allows on one core.
    TooManyVcpusPerCore {
        /// Partition name.
        partition: String,
        /// Requested vCPUs.
        requested: u32,
    },
    /// SMT policy violation.
    SmtPolicyViolation {
        /// Explanation.
        reason: String,
    },
}

/// One physical core and its logical processors.
#[derive(Clone, Debug, PartialEq, Eq)]
pub struct CpuCore {
    /// Physical core identifier.
    pub physical_core_id: PhysicalCoreId,
    /// APIC ID of the bootstrap logical processor on this core.
    pub apic_id: ApicId,
    /// Logical processors belonging to the core.
    pub logical_cpus: Vec<LogicalCpuId>,
}

/// Platform CPU topology discovered from ACPI/CPUID.
#[derive(Clone, Debug, PartialEq, Eq)]
pub struct CpuTopology {
    /// Physical cores in deterministic order.
    pub cores: Vec<CpuCore>,
}

/// Assignment of logical CPUs to a partition.
#[derive(Clone, Debug, PartialEq, Eq)]
pub struct CpuAssignment {
    /// Target VM.
    pub vm_id: VmId,
    /// Partition name.
    pub name: String,
    /// Dedicated physical core.
    pub physical_core: PhysicalCoreId,
    /// Logical CPU used as bootstrap vCPU for the partition.
    pub bootstrap_logical_cpu: LogicalCpuId,
}

/// CPU plan derived from topology and configuration intent.
#[derive(Clone, Debug, PartialEq, Eq)]
pub struct CpuPlan {
    /// Per-partition core assignments.
    pub assignments: Vec<CpuAssignment>,
}

/// Some core has more than one logical processor.
pub open spec fn smt_on(cores: Seq<CpuCore>) -> bool {
    exists|i: int| 0 <= i < cores.len() && #[trigger] cores[i].logical_cpus@.len() > 1
}

impl CpuTopology {
    /// Number of physical cores, as 32 bits.
    pub fn physical_core_count(&self) -> (r: u32)
        ensures
            r == self.cores@.len() as u32,
    {
        self.cores.len() as u32
    }

    /// Whether any core has more than one logical processor.
    pub fn smt_enabled(&self) -> (r: bool)
        ensures
            r == smt_on(self.cores@),
    {
        let mut i: usize = 0;
        while i < self.cores.len()
            invariant
                i <= self.cores@.len(),
                forall|m: int| 0 <= m < i ==> #[trigger] self.cores@[m].logical_cpus@.len() <= 1,
            decreases self.cores@.len() - i,
        {
            if self.cores[i].logical_cpus.len() > 1 {
                return true;
            }
            i = i + 1;
        }
        false
    }
}

/// Sum of the partitions' vCPU requests.
pub open spec fn requested_vcpus(ps: Seq<PartitionIntent>) -> int
    decreases ps.len(),
{
    if ps.len() == 0 {
        0
    } else {
        requested_vcpus(ps.drop_last()) + ps.last().vcpus
    }
}

/// Description of a planning failure, texts by their views.
pub ghost enum CpuPlanErrorSpec {
    /// Not enough cores: required, available.
    Insufficient(u32, u32),
    /// A partition asks for more than one vCPU under exclusive cores: name, request.
    TooMany(Seq<char>, u32),
    /// SMT policy violation with its reason.
    Smt(Seq<char>),
}

/// The error `e` is the one `s` describes.
pub open spec fn cpu_error_is(e: CpuTopologyError, s: CpuPlanErrorSpec) -> bool {
    match s {
        CpuPlanErrorSpec::Insufficient(r, a) => e == CpuTopologyError::InsufficientCores {
            required: r,
            available: a,
        },
        CpuPlanErrorSpec::TooMany(name, n) => e matches CpuTopologyError::TooManyVcpusPerCore {
            partition,
            requested,
        } && partition@ == name && requested == n,
        CpuPlanErrorSpec::Smt(reason) => e matches CpuTopologyError::SmtPolicyViolation { reason: r }
            && r@ == reason,
    }
}

/// First per-partition problem from partition `i` on.
pub open spec fn assignment_error(
    ps: Seq<PartitionIntent>,
    cores: Seq<CpuCore>,
    policy: SmtPolicy,
    required: u32,
    available: u32,
    i: int,
) -> Option<CpuPlanErrorSpec>
    decreases ps.len() - i,
{
    if i < 0 || i >= ps.len() {
        None
    } else if ps[i].vcpus != 1 && policy == SmtPolicy::ExclusiveCore {
        Some(CpuPlanErrorSpec::TooMany(ps[i].name@, ps[i].vcpus))
    } else if i >= cores.len() {
        Some(CpuPlanErrorSpec::Insufficient(required, available))
    } else if cores[i].logical_cpus@.len() == 0 {
        Some(CpuPlanErrorSpec::Smt("core has no logical processors"@))
    } else {
        assignment_error(ps, cores, policy, required, available, i + 1)
    }
}

/// The failure `plan_cpu` reports, if any.
pub open spec fn cpu_plan_error(ps: Seq<PartitionIntent>, policy: SmtPolicy, cores: Seq<CpuCore>) -> Option<
    CpuPlanErrorSpec,
> {
    let available = cores.len() as u32;
    if policy == SmtPolicy::Disabled && smt_on(cores) {
        Some(CpuPlanErrorSpec::Smt("platform SMT is enabled but policy requires disabled"@))
    } else if requested_vcpus(ps) > available {
        Some(CpuPlanErrorSpec::Insufficient(requested_vcpus(ps) as u32, available))
    } else {
        assignment_error(ps, cores, policy, requested_vcpus(ps) as u32, available, 0)
    }
}

/// `a` assigns partition `p` to core `c`.
pub open spec fn assigned(p: PartitionIntent, c: CpuCore, a: CpuAssignment) -> bool {
    &&& a.vm_id == p.vm_id
    &&& a.name@ == p.name@
    &&& a.physical_core == c.physical_core_id
    &&& a.bootstrap_logical_cpu == c.logical_cpus@[0]
}

proof fn lemma_requested_prefix(ps: Seq<PartitionIntent>, i: int, j: int)
    requires
        0 <= i <= j <= ps.len(),
    ensures
        requested_vcpus(ps.take(i)) <= requested_vcpus(ps.take(j)),
    decreases j - i,
{
    if i < j {
        lemma_requested_prefix(ps, i, j - 1);
        assert(ps.take(j).drop_last() =~= ps.take(j - 1));
    }
}

/// Builds an exclusive-core CPU plan for the configured partitions.
pub fn plan_cpu(intent: &StaticIntentIR, topology: &CpuTopology) -> (r: Result<CpuPlan, CpuTopologyError>)
    requires
        requested_vcpus(intent.partitions@) <= u32::MAX,
    ensures
        cpu_plan_error(intent.partitions@, intent.platform_requirements.smt_policy, topology.cores@) matches Some(e)
            ==> r is Err && cpu_error_is(r->Err_0, e),
        cpu_plan_error(intent.partitions@, intent.platform_requirements.smt_policy, topology.cores@) is None
            ==> (r matches Ok(plan) && plan.assignments@.len() == intent.partitions@.len() && forall|i: int|
            0 <= i < plan.assignments@.len() ==> assigned(
                intent.partitions@[i],
                topology.cores@[i],
                #[trigger] plan.assignments@[i],
            )),
{
    let ghost ps = intent.partitions@;
    let ghost cores = topology.cores@;
    let policy = intent.platform_requirements.smt_policy;
    if policy == SmtPolicy::Disabled && topology.smt_enabled() {
        return Err(
            CpuTopologyError::SmtPolicyViolation {
                reason: String::from_str("platform SMT is enabled but policy requires disabled"),
            },
        );
    }
    let mut required: u32 = 0;
    let mut k: usize = 0;
    while k < intent.partitions.len()
        invariant
            ps == intent.partitions@,
            k <= ps.len(),
            requested_vcpus(ps) <= u32::MAX,
            required == requested_vcpus(ps.take(k as int)),
        decreases ps.len() - k,
    {
        proof {
            assert(ps.take(k + 1).drop_last() =~= ps.take(k as int));
            lemma_requested_prefix(ps, k + 1, ps.len() as int);
            assert(ps.take(ps.len() as int) =~= ps);
        }
        required = required + intent.partitions[k].vcpus;
        k = k + 1;
    }
    proof {
        assert(ps.take(ps.len() as int) =~= ps);
    }
    let available = topology.physical_core_count();
    if required > available {
        return Err(CpuTopologyError::InsufficientCores { required, available });
    }
    let mut assignments: Vec<CpuAssignment> = Vec::new();
    let mut idx: usize = 0;
    while idx < intent.partitions.len()
        invariant
            ps == intent.partitions@,
            cores == topology.cores@,
            policy == intent.platform_requirements.smt_policy,
            required == requested_vcpus(ps),
            available == cores.len() as u32,
            idx <= ps.len(),
            cpu_plan_error(ps, policy, cores) == assignment_error(ps, cores, policy, required, available, idx as int),
            assignments@.len() == idx,
            forall|m: int| 0 <= m < idx ==> assigned(ps[m], cores[m], #[trigger] assignments@[m]),
        decreases ps.len() - idx,
    {
        let partition = &intent.partitions[idx];
        if partition.vcpus != 1 && policy == SmtPolicy::ExclusiveCore {
            return Err(
                CpuTopologyError::TooManyVcpusPerCore {
                    partition: partition.name.clone(),
                    requested: partition.vcpus,
                },
            );
        }
        if idx >= topology.cores.len() {
            return Err(CpuTopologyError::InsufficientCores { required, available });
        }
        let core = &topology.cores[idx];
        if core.logical_cpus.len() == 0 {
            return Err(
                CpuTopologyError::SmtPolicyViolation {
                    reason: String::from_str("core has no logical processors"),
                },
            );
        }
        let bootstrap = core.logical_cpus[0];
        assignments.push(
            CpuAssignment {
                vm_id: partition.vm_id,
                name: partition.name.clone(),
                physical_core: core.physical_core_id,
                bootstrap_logical_cpu: bootstrap,
            },
        );
        idx = idx + 1;
    }
    Ok(CpuPlan { assignments })
}

/// Exclusive cores: when the topology's physical core identifiers are
/// pairwise distinct, no two partitions of a successful plan share a core.
pub proof fn plan_cores_are_exclusive(
    ps: Seq<PartitionIntent>,
    cores: Seq<CpuCore>,
    assignments: Seq<CpuAssignment>,
)
    requires
        assignments.len() == ps.len(),
        forall|i: int| 0 <= i < assignments.len() ==> assigned(ps[i], cores[i], #[trigger] assignments[i]),
        assignments.len() <= cores.len(),
        forall|i: int, j: int|
            0 <= i < j < cores.len() ==> #[trigger] cores[i].physical_core_id != #[trigger] cores[j].physical_core_id,
    ensures
        forall|i: int, j: int|
            0 <= i < j < assignments.len() ==> #[trigger] assignments[i].physical_core
                != #[trigger] assignments[j].physical_core,
{
    assert forall|i: int, j: int| 0 <= i < j < assignments.len() implies #[trigger] assignments[i].physical_core
        != #[trigger] assignments[j].physical_core by {
        assert(assigned(ps[i], cores[i], assignments[i]));
        assert(assigned(ps[j], cores[j], assignments[j]));
    }
}

/// Core `k` exists and has a logical processor.
pub open spec fn usable_core(cores: Seq<CpuCore>, k: int) -> bool {
    0 <= k < cores.len() && cores[k].logical_cpus@.len() > 0
}

/// A successful plan has no more partitions than cores, and partition `i`
/// runs on core `i`, which has a logical processor.
pub proof fn plan_fits_topology(ps: Seq<PartitionIntent>, policy: SmtPolicy, cores: Seq<CpuCore>)
    requires
        cpu_plan_error(ps, policy, cores) is None,
    ensures
        ps.len() <= cores.len(),
        forall|i: int| 0 <= i < ps.len() ==> #[trigger] usable_core(cores, i),
{
    let available = cores.len() as u32;
    let required = requested_vcpus(ps) as u32;
    lemma_assignment_ok(ps, cores, policy, required, available, 0);
    if ps.len() > 0 {
        assert(usable_core(cores, ps.len() - 1));
    }
}

proof fn lemma_assignment_ok(
    ps: Seq<PartitionIntent>,
    cores: Seq<CpuCore>,
    policy: SmtPolicy,
    required: u32,
    available: u32,
    i: int,
)
    requires
        0 <= i <= ps.len(),
        assignment_error(ps, cores, policy, required, available, i) is None,
    ensures
        forall|k: int| i <= k < ps.len() ==> #[trigger] usable_core(cores, k),
    decreases ps.len() - i,
{
    if i < ps.len() {
        assert(usable_core(cores, i));
        lemma_assignment_ok(ps, cores, policy, required, available, i + 1);
    }
}


/// Human-readable description of a CPU planning failure.
pub open spec fn cpu_topology_error_text(e: CpuTopologyError) -> Seq<char> {
    match e {
        CpuTopologyError::InsufficientCores { required, available } => "insufficient cores: need "@
            + decimal(required as nat) + ", have "@ + decimal(available as nat),
        CpuTopologyError::TooManyVcpusPerCore { partition, requested } => "partition `"@ + partition@
            + "` requests "@ + decimal(requested as nat) + " vCPUs under exclusive_core"@,
        CpuTopologyError::SmtPolicyViolation { reason } => "SMT policy violation: "@ + reason@,
    }
}

impl CpuTopologyError {
    /// Human-readable description of the failure.
    pub fn message(&self) -> (r: String)
        ensures
            r@ == cpu_topology_error_text(*self),
    {
        match self {
            CpuTopologyError::InsufficientCores { required, available } => {
                let mut out = String::from_str("insufficient cores: need ");
                push_decimal(&mut out, *required as u64);
                out.append(", have ");
                push_decimal(&mut out, *available as u64);
                out
            },
            CpuTopologyError::TooManyVcpusPerCore { partition, requested } => {
                let mut out = String::from_str("partition `");
                out.append(partition.as_str());
                out.append("` requests ");
                push_decimal(&mut out, *requested as u64);
                out.append(" vCPUs under exclusive_core");
                out
            },
            CpuTopologyError::SmtPolicyViolation { reason } => {
                let mut out = String::from_str("SMT policy violation: ");
                out.append(reason.as_str());
                out
            },
        }
    }
}

} // verus!
