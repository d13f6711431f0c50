use lua_arch::tick::{classify_resume, ResumeOutcome, RunPhase, TickReport};

#[test]
fn completion_on_first_tick_reports_machine_halted() {
    let (phase, report) = classify_resume(RunPhase::Loaded, ResumeOutcome::Completed);
    assert_eq!(phase, RunPhase::Halted);
    assert!(matches!(report, Some(TickReport::MachineHalted)));
}

#[test]
fn yielding_program_stays_suspended_tick_after_tick() {
    let mut phase = RunPhase::Loaded;
    for _ in 0..10 {
        let (next, report) = classify_resume(phase, ResumeOutcome::Yielded);
        assert_eq!(next, RunPhase::Suspended);
        assert!(report.is_none());
        phase = next;
    }
}

#[test]
fn runtime_error_reports_the_guest_message() {
    let (phase, report) = classify_resume(
        RunPhase::Suspended,
        ResumeOutcome::Failed(b"attempt to index a nil value".to_vec()),
    );
    assert_eq!(phase, RunPhase::Errored);
    match report {
        Some(TickReport::GuestError(m)) => {
            assert_eq!(m, b"attempt to index a nil value".to_vec())
        }
        _ => panic!("a runtime error must be reported to the host"),
    }
}

#[test]
fn completion_after_suspensions_still_halts() {
    let (phase, _) = classify_resume(RunPhase::Loaded, ResumeOutcome::Yielded);
    let (phase, report) = classify_resume(phase, ResumeOutcome::Completed);
    assert_eq!(phase, RunPhase::Halted);
    assert!(matches!(report, Some(TickReport::MachineHalted)));
}

#[test]
fn halted_message_is_fixed() {
    assert_eq!(
        lua_arch::tick::machine_halted_message(),
        b"machine halted".to_vec()
    );
}
