//! Boot phase state machine shared by the loader and the hypervisor.

use vstd::prelude::*;
use vstd::string::*;

verus! {

/// Boot lifecycle phases for loader and hypervisor.
#[derive(Clone, Copy, Debug, PartialEq, Eq, Structural)]
pub enum BootPhase {
    /// UEFI firmware active.
    Firmware,
    /// Loader running with boot services available.
    Loader,
    /// Boot services have been exited.
    BootServicesExited,
    /// Memory map captured and validated.
    MemoryReady,
    /// CPU features and topology validated.
    CpuReady,
    /// VMX prerequisites validated (hardware programming later).
    VmxReady,
    /// VT-d prerequisites validated.
    IommuReady,
    /// Interrupt remapping prerequisites validated.
    InterruptsReady,
    /// Partition descriptors prepared.
    PartitionsPrepared,
    /// Hypervisor running partitions.
    Running,
    /// Unrecoverable boot failure.
    Failed,
}

/// Position of a phase along the boot sequence (`Failed` sits after all).
pub open spec fn phase_rank(p: BootPhase) -> int {
    match p {
        BootPhase::Firmware => 0,
        BootPhase::Loader => 1,
        BootPhase::BootServicesExited => 2,
        BootPhase::MemoryReady => 3,
        BootPhase::CpuReady => 4,
        BootPhase::VmxReady => 5,
        BootPhase::IommuReady => 6,
        BootPhase::InterruptsReady => 7,
        BootPhase::PartitionsPrepared => 8,
        BootPhase::Running => 9,
        BootPhase::Failed => 10,
    }
}

/// Allowed successors of each phase, in the order `allowed_successors` lists them.
pub open spec fn successors(p: BootPhase) -> Seq<BootPhase> {
    match p {
        BootPhase::Firmware => seq![BootPhase::Loader, BootPhase::Failed],
        BootPhase::Loader => seq![BootPhase::BootServicesExited, BootPhase::Failed],
        BootPhase::BootServicesExited => seq![BootPhase::MemoryReady, BootPhase::Failed],
        BootPhase::MemoryReady => seq![BootPhase::CpuReady, BootPhase::Failed],
        BootPhase::CpuReady => seq![BootPhase::VmxReady, BootPhase::Failed],
        BootPhase::VmxReady => seq![BootPhase::IommuReady, BootPhase::Failed],
        BootPhase::IommuReady => seq![BootPhase::InterruptsReady, BootPhase::Failed],
        BootPhase::InterruptsReady => seq![BootPhase::PartitionsPrepared, BootPhase::Failed],
        BootPhase::PartitionsPrepared => seq![BootPhase::Running, BootPhase::Failed],
        BootPhase::Running => seq![BootPhase::Failed],
        BootPhase::Failed => seq![],
    }
}

/// `next` is an allowed successor of `cur`.
pub open spec fn can_transition(cur: BootPhase, next: BootPhase) -> bool {
    successors(cur).contains(next)
}

/// Invalid boot phase transition.
#[derive(Clone, Copy, Debug, PartialEq, Eq)]
pub struct BootTransitionError {
    /// Current phase.
    pub from: BootPhase,
    /// Requested next phase.
    pub to: BootPhase,
}

impl BootPhase {
    /// Returns the allowed next phases.
    pub fn allowed_successors(self) -> (r: Vec<BootPhase>)
        ensures
            r@ == successors(self),
    {
        let r = match self {
            BootPhase::Firmware => vec![BootPhase::Loader, BootPhase::Failed],
            BootPhase::Loader => vec![BootPhase::BootServicesExited, BootPhase::Failed],
            BootPhase::BootServicesExited => vec![BootPhase::MemoryReady, BootPhase::Failed],
            BootPhase::MemoryReady => vec![BootPhase::CpuReady, BootPhase::Failed],
            BootPhase::CpuReady => vec![BootPhase::VmxReady, BootPhase::Failed],
            BootPhase::VmxReady => vec![BootPhase::IommuReady, BootPhase::Failed],
            BootPhase::IommuReady => vec![BootPhase::InterruptsReady, BootPhase::Failed],
            BootPhase::InterruptsReady => vec![BootPhase::PartitionsPrepared, BootPhase::Failed],
            BootPhase::PartitionsPrepared => vec![BootPhase::Running, BootPhase::Failed],
            BootPhase::Running => vec![BootPhase::Failed],
            BootPhase::Failed => vec![],
        };
        assert(r@ =~= successors(self));
        r
    }

    /// Attempts to transition to `next`.
    pub fn transition(self, next: BootPhase) -> (r: Result<BootPhase, BootTransitionError>)
        ensures
            can_transition(self, next) ==> r == Ok::<BootPhase, BootTransitionError>(next),
            !can_transition(self, next) ==> r == Err::<BootPhase, BootTransitionError>(
                BootTransitionError { from: self, to: next },
            ),
    {
        let allowed = self.allowed_successors();
        let mut idx: usize = 0;
        while idx < allowed.len()
            invariant
                allowed@ == successors(self),
                idx <= allowed@.len(),
                forall|j: int| 0 <= j < idx ==> allowed@[j] != next,
            decreases allowed@.len() - idx,
        {
            if allowed[idx] == next {
                return Ok(next);
            }
            idx = idx + 1;
        }
        Err(BootTransitionError { from: self, to: next })
    }
}

/// Law: boot only moves forward. Every allowed transition either advances
/// exactly one phase along the boot sequence or enters `Failed`.
pub proof fn boot_transitions_advance(cur: BootPhase, next: BootPhase)
    requires
        can_transition(cur, next),
    ensures
        next == BootPhase::Failed || phase_rank(next) == phase_rank(cur) + 1,
        phase_rank(next) > phase_rank(cur),
{
}

/// Law: `Failed` is terminal, and every other phase may fail.
pub proof fn boot_failure_is_terminal(p: BootPhase)
    ensures
        !can_transition(BootPhase::Failed, p),
        p != BootPhase::Failed ==> can_transition(p, BootPhase::Failed),
{
    assert(successors(BootPhase::Failed) =~= Seq::<BootPhase>::empty());
    if p != BootPhase::Failed {
        assert(successors(p).last() == BootPhase::Failed);
    }
}

/// Law: each phase has at most one non-failure successor, so a successful
/// boot visits the phases in one fixed order.
pub proof fn boot_sequence_is_linear(cur: BootPhase, a: BootPhase, b: BootPhase)
    requires
        can_transition(cur, a),
        can_transition(cur, b),
        a != BootPhase::Failed,
        b != BootPhase::Failed,
    ensures
        a == b,
{
}


/// Name of a boot phase as its variant is spelled.
pub open spec fn phase_name(p: BootPhase) -> Seq<char> {
    match p {
        BootPhase::Firmware => "Firmware"@,
        BootPhase::Loader => "Loader"@,
        BootPhase::BootServicesExited => "BootServicesExited"@,
        BootPhase::MemoryReady => "MemoryReady"@,
        BootPhase::CpuReady => "CpuReady"@,
        BootPhase::VmxReady => "VmxReady"@,
        BootPhase::IommuReady => "IommuReady"@,
        BootPhase::InterruptsReady => "InterruptsReady"@,
        BootPhase::PartitionsPrepared => "PartitionsPrepared"@,
        BootPhase::Running => "Running"@,
        BootPhase::Failed => "Failed"@,
    }
}

impl BootPhase {
    /// Name of the phase as its variant is spelled.
    pub fn name(self) -> (r: &'static str)
        ensures
            r@ == phase_name(self),
    {
        match self {
            BootPhase::Firmware => "Firmware",
            BootPhase::Loader => "Loader",
            BootPhase::BootServicesExited => "BootServicesExited",
            BootPhase::MemoryReady => "MemoryReady",
            BootPhase::CpuReady => "CpuReady",
            BootPhase::VmxReady => "VmxReady",
            BootPhase::IommuReady => "IommuReady",
            BootPhase::InterruptsReady => "InterruptsReady",
            BootPhase::PartitionsPrepared => "PartitionsPrepared",
            BootPhase::Running => "Running",
            BootPhase::Failed => "Failed",
        }
    }
}

/// Human-readable description of a rejected transition.
pub open spec fn transition_error_text(e: BootTransitionError) -> Seq<char> {
    "invalid boot transition "@ + phase_name(e.from) + " -> "@ + phase_name(e.to)
}

impl BootTransitionError {
    /// Human-readable description of the rejected transition.
    pub fn message(&self) -> (r: String)
        ensures
            r@ == transition_error_text(*self),
    {
        let mut out = String::from_str("invalid boot transition ");
        out.append(self.from.name());
        out.append(" -> ");
        out.append(self.to.name());
        out
    }
}

} // verus!
