//! The tick driver's classification of guest execution. Once per host tick
//! the guest's main coroutine is resumed; the outcome of that resume decides
//! the machine's next phase and what, if anything, is reported to the host.
//!
//! Three-phase machine: `Loaded` (bootstrap compiled, never resumed) and
//! `Suspended` (yielded at least once) are the live phases; `Halted` and
//! `Errored` are terminal and ask for host-level teardown or reset, not
//! further ticking.

use vstd::prelude::*;
use vstd::string::StringSliceAdditionalSpecFns;

verus! {

/// What a resume of the guest's main coroutine came back with.
pub enum ResumeOutcome {
    /// The coroutine returned normally: the guest program has no more work.
    Completed,
    /// The coroutine yielded: the expected steady state.
    Yielded,
    /// A runtime error unwound the coroutine; the guest's top-of-stack
    /// error message rides along as raw bytes.
    Failed(Vec<u8>),
}

/// Lifecycle phase of one virtual machine.
#[derive(Clone, Copy, Debug, PartialEq, Eq, Structural)]
pub enum RunPhase {
    Loaded,
    Suspended,
    Halted,
    Errored,
}

/// What one tick reports back to the host engine.
pub enum TickReport {
    /// The guest program returned without yielding: a fatal condition for
    /// the whole virtual machine.
    MachineHalted,
    /// An uncaught guest runtime error, with its message.
    GuestError(Vec<u8>),
}

/// The error string under which a halted machine is reported to the host.
pub open spec fn msg_machine_halted() -> Seq<u8> {
    "machine halted".spec_bytes()
}

/// The message that accompanies [`TickReport::MachineHalted`].
pub fn machine_halted_message() -> (r: Vec<u8>)
    ensures
        r@ == msg_machine_halted(),
{
    vstd::slice::slice_to_vec("machine halted".as_bytes())
}

/// The phase that one resume outcome leads to.
pub open spec fn phase_after_resume(outcome: ResumeOutcome) -> RunPhase {
    match outcome {
        ResumeOutcome::Completed => RunPhase::Halted,
        ResumeOutcome::Yielded => RunPhase::Suspended,
        ResumeOutcome::Failed(_) => RunPhase::Errored,
    }
}

/// Classifies one resume. A completion is reported as the fatal
/// machine-halted condition; a yield ends the tick silently, to be resumed
/// from the same point next tick; any other outcome reports the guest's
/// error message as the computer's current error.
pub fn classify_resume(phase: RunPhase, outcome: ResumeOutcome) -> (r: (
    RunPhase,
    Option<TickReport>,
))
    requires
        phase is Loaded || phase is Suspended,
    ensures
        r.0 == phase_after_resume(outcome),
        outcome is Completed ==> (r.1 matches Some(rep) && rep is MachineHalted),
        outcome is Yielded ==> r.1 is None,
        outcome matches ResumeOutcome::Failed(m) ==> (r.1 matches Some(rep) && rep matches
            TickReport::GuestError(e) && e@ == m@),
{
    match outcome {
        ResumeOutcome::Completed => (RunPhase::Halted, Some(TickReport::MachineHalted)),
        ResumeOutcome::Yielded => (RunPhase::Suspended, None),
        ResumeOutcome::Failed(msg) => (RunPhase::Errored, Some(TickReport::GuestError(msg))),
    }
}

/// Phase after a run of consecutive resumes.
pub open spec fn phase_after_run(phase: RunPhase, outcomes: Seq<ResumeOutcome>) -> RunPhase
    decreases outcomes.len(),
{
    if outcomes.len() == 0 {
        phase
    } else {
        phase_after_run(phase_after_resume(outcomes[0]), outcomes.skip(1))
    }
}

/// A guest program that yields on every resume keeps the machine in the
/// suspended steady state: any number of consecutive yielding ticks produce
/// only suspensions, never a halt or an error report.
pub proof fn lemma_steady_yielding_run(phase: RunPhase, outcomes: Seq<ResumeOutcome>)
    requires
        phase is Loaded || phase is Suspended,
        outcomes.len() > 0,
        forall|i: int| 0 <= i < outcomes.len() ==> outcomes[i] is Yielded,
    ensures
        phase_after_run(phase, outcomes) is Suspended,
        forall|i: int|
            0 <= i < outcomes.len() ==> phase_after_resume(outcomes[i]) is Suspended,
    decreases outcomes.len(),
{
    assert(outcomes[0] is Yielded);
    assert(phase_after_run(phase, outcomes) == phase_after_run(
        RunPhase::Suspended,
        outcomes.skip(1),
    ));
    if outcomes.len() == 1 {
        assert(outcomes.skip(1).len() == 0);
        assert(phase_after_run(RunPhase::Suspended, outcomes.skip(1)) is Suspended);
    }
    if outcomes.len() > 1 {
        assert forall|i: int| 0 <= i < outcomes.skip(1).len() implies outcomes.skip(
            1,
        )[i] is Yielded by {
            assert(outcomes.skip(1)[i] == outcomes[i + 1]);
        }
        lemma_steady_yielding_run(RunPhase::Suspended, outcomes.skip(1));
    }
}

} // verus!
