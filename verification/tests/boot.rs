use hypster::boot::{BootPhase, BootTransitionError};

#[test]
fn happy_path_boot_transitions() {
    let mut phase = BootPhase::Firmware;
    for next in [
        BootPhase::Loader,
        BootPhase::BootServicesExited,
        BootPhase::MemoryReady,
        BootPhase::CpuReady,
        BootPhase::VmxReady,
        BootPhase::IommuReady,
        BootPhase::InterruptsReady,
        BootPhase::PartitionsPrepared,
        BootPhase::Running,
    ] {
        phase = phase.transition(next).expect("valid transition");
    }
}

#[test]
fn invalid_transition_is_rejected() {
    assert!(BootPhase::Firmware.transition(BootPhase::Running).is_err());
}

#[test]
fn rejected_transition_reports_both_phases() {
    assert_eq!(
        BootPhase::Loader.transition(BootPhase::Loader),
        Err(BootTransitionError { from: BootPhase::Loader, to: BootPhase::Loader })
    );
}

#[test]
fn every_phase_but_failed_may_fail() {
    for phase in [
        BootPhase::Firmware,
        BootPhase::Loader,
        BootPhase::BootServicesExited,
        BootPhase::MemoryReady,
        BootPhase::CpuReady,
        BootPhase::VmxReady,
        BootPhase::IommuReady,
        BootPhase::InterruptsReady,
        BootPhase::PartitionsPrepared,
        BootPhase::Running,
    ] {
        assert_eq!(phase.transition(BootPhase::Failed), Ok(BootPhase::Failed));
    }
}

#[test]
fn failed_is_terminal() {
    assert!(BootPhase::Failed.allowed_successors().is_empty());
    assert!(BootPhase::Failed.transition(BootPhase::Firmware).is_err());
    assert!(BootPhase::Failed.transition(BootPhase::Failed).is_err());
}

#[test]
fn successors_are_listed_in_order() {
    assert_eq!(
        BootPhase::Firmware.allowed_successors(),
        vec![BootPhase::Loader, BootPhase::Failed]
    );
    assert_eq!(BootPhase::Running.allowed_successors(), vec![BootPhase::Failed]);
}

#[test]
fn boot_cannot_go_backwards() {
    assert!(BootPhase::MemoryReady.transition(BootPhase::Loader).is_err());
    assert!(BootPhase::Running.transition(BootPhase::PartitionsPrepared).is_err());
}

#[test]
fn transition_error_message_names_both_phases() {
    let err = BootPhase::Firmware.transition(BootPhase::Running).expect_err("invalid");
    assert_eq!(err.message(), "invalid boot transition Firmware -> Running");
    assert_eq!(BootPhase::BootServicesExited.name(), "BootServicesExited");
}
