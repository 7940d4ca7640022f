//! The phases of a proving run.
//!
//! A run loads and builds its inputs, encodes them, has the executor prove
//! the claim and has the proof verified. The work itself is done outside this
//! crate; what is decided here is which phase follows which, and what is to
//! be done next. A run that fails in any phase stays failed.
//!
//! ```text
//! Idle -> InputAssembled -> Proving -> Proved -> Verified
//!   \           \              \          \
//!    +-----------+--------------+----------+----> Failed
//! ```
//!
//! A run has no deadline of its own. Whoever drives it may report
//! `Cancelled` in any phase, and the run then fails with that reason.

use vstd::prelude::*;

use crate::error::{LoadError, ParseError, SerializationError};

verus! {

/// Why a run failed.
#[derive(Clone, Debug, PartialEq, Eq)]
pub enum RunError {
    /// The parameters of the claim were rejected.
    Parse(ParseError),
    /// No store could be loaded for the block of the claim.
    Load(LoadError),
    /// The manifest and the store could not be encoded.
    Serialization(SerializationError),
    /// The executor failed. `detail` is what it reported, such as the number
    /// of steps it had executed or a reference to a trace.
    Execution { detail: String },
    /// A proof was generated and did not pass verification.
    Verification,
    /// The run was cancelled, or its deadline passed, before it was over.
    Cancelled,
    /// Something was reported that cannot happen in the phase the run was in.
    OutOfOrder,
}

/// Where a run stands.
#[derive(Clone, Debug, PartialEq, Eq)]
pub enum Phase {
    /// Nothing has been done yet.
    Idle,
    /// The manifest is built and the store is loaded.
    InputAssembled,
    /// The input is encoded and the executor is at work.
    Proving,
    /// The executor has produced a proof.
    Proved,
    /// The proof has passed verification.
    Verified,
    /// The run has failed.
    Failed(RunError),
}

/// What the outside work reports back.
#[derive(Clone, Debug, PartialEq, Eq)]
pub enum Event {
    /// The manifest was built and the store was loaded.
    InputsReady,
    /// The parameters of the claim were rejected.
    ParseFailed(ParseError),
    /// The store could not be loaded.
    LoadFailed(LoadError),
    /// The encoder produced the input buffer.
    Encoded,
    /// The encoder failed.
    EncodeFailed(SerializationError),
    /// The executor produced a proof.
    ProofGenerated,
    /// The executor failed, with what it reported.
    ExecutionFailed { detail: String },
    /// The verifier accepted the proof.
    ProofAccepted,
    /// The verifier rejected the proof.
    ProofRejected,
    /// The run was cancelled from outside, or its deadline passed.
    Cancelled,
}

/// What is to be done next.
#[derive(Clone, Copy, Debug, PartialEq, Eq, Structural)]
pub enum Action {
    /// Encode the manifest and the store.
    Encode,
    /// Hand the input buffer and the program to the executor.
    Prove,
    /// Verify the proof against the key of the program.
    Verify,
    /// Nothing: the run is over.
    Stop,
}

impl Phase {
    /// Whether a run in this phase is over.
    pub open spec fn is_terminal(self) -> bool {
        self is Verified || self is Failed
    }
}

/// The failure that an event reports, if it reports one.
pub open spec fn failure_of(event: Event) -> Option<RunError> {
    match event {
        Event::ParseFailed(e) => Some(RunError::Parse(e)),
        Event::LoadFailed(e) => Some(RunError::Load(e)),
        Event::EncodeFailed(e) => Some(RunError::Serialization(e)),
        Event::ExecutionFailed { detail } => Some(RunError::Execution { detail }),
        Event::ProofRejected => Some(RunError::Verification),
        Event::Cancelled => Some(RunError::Cancelled),
        _ => None,
    }
}

/// The phase that follows `phase` when `event` is reported.
///
/// A run that is over stays where it is. Otherwise the one success of the
/// phase leads on, the failures of the phase and a cancellation lead to
/// `Failed` with their reason, and anything else leads to `Failed` with
/// `OutOfOrder`.
pub open spec fn next_phase(phase: Phase, event: Event) -> Phase {
    match (phase, event) {
        (Phase::Verified, _) => Phase::Verified,
        (Phase::Failed(e), _) => Phase::Failed(e),
        (_, Event::Cancelled) => Phase::Failed(RunError::Cancelled),
        (Phase::Idle, Event::InputsReady) => Phase::InputAssembled,
        (Phase::Idle, Event::ParseFailed(e)) => Phase::Failed(RunError::Parse(e)),
        (Phase::Idle, Event::LoadFailed(e)) => Phase::Failed(RunError::Load(e)),
        (Phase::InputAssembled, Event::Encoded) => Phase::Proving,
        (Phase::InputAssembled, Event::EncodeFailed(e)) => Phase::Failed(
            RunError::Serialization(e),
        ),
        (Phase::Proving, Event::ProofGenerated) => Phase::Proved,
        (Phase::Proving, Event::ExecutionFailed { detail }) => Phase::Failed(
            RunError::Execution { detail },
        ),
        (Phase::Proved, Event::ProofAccepted) => Phase::Verified,
        (Phase::Proved, Event::ProofRejected) => Phase::Failed(RunError::Verification),
        _ => Phase::Failed(RunError::OutOfOrder),
    }
}

/// What is to be done in a phase.
pub open spec fn action_in(phase: Phase) -> Action {
    match phase {
        Phase::InputAssembled => Action::Encode,
        Phase::Proving => Action::Prove,
        Phase::Proved => Action::Verify,
        _ => Action::Stop,
    }
}

/// The phase of a run that started in `Idle` and saw `events`, in order.
pub open spec fn phase_after(events: Seq<Event>) -> Phase
    decreases events.len(),
{
    if events.len() == 0 {
        Phase::Idle
    } else {
        next_phase(phase_after(events.drop_last()), events.last())
    }
}

/// Moves a run on by one event, and says what is to be done next.
pub fn step(phase: Phase, event: Event) -> (next: (Phase, Action))
    ensures
        next.0 == next_phase(phase, event),
        next.1 == action_in(next.0),
{
    match (phase, event) {
        (Phase::Verified, _) => (Phase::Verified, Action::Stop),
        (Phase::Failed(e), _) => (Phase::Failed(e), Action::Stop),
        (_, Event::Cancelled) => (Phase::Failed(RunError::Cancelled), Action::Stop),
        (Phase::Idle, Event::InputsReady) => (Phase::InputAssembled, Action::Encode),
        (Phase::Idle, Event::ParseFailed(e)) => (Phase::Failed(RunError::Parse(e)), Action::Stop),
        (Phase::Idle, Event::LoadFailed(e)) => (Phase::Failed(RunError::Load(e)), Action::Stop),
        (Phase::InputAssembled, Event::Encoded) => (Phase::Proving, Action::Prove),
        (Phase::InputAssembled, Event::EncodeFailed(e)) => (
            Phase::Failed(RunError::Serialization(e)),
            Action::Stop,
        ),
        (Phase::Proving, Event::ProofGenerated) => (Phase::Proved, Action::Verify),
        (Phase::Proving, Event::ExecutionFailed { detail }) => (
            Phase::Failed(RunError::Execution { detail }),
            Action::Stop,
        ),
        (Phase::Proved, Event::ProofAccepted) => (Phase::Verified, Action::Stop),
        (Phase::Proved, Event::ProofRejected) => (
            Phase::Failed(RunError::Verification),
            Action::Stop,
        ),
        _ => (Phase::Failed(RunError::OutOfOrder), Action::Stop),
    }
}

/// A run that is over stays in its phase, whatever is reported.
pub proof fn lemma_terminal_phase_stays(phase: Phase, event: Event)
    requires
        phase.is_terminal(),
    ensures
        next_phase(phase, event) == phase,
{
}

/// A run that is not over fails on every report of a failure.
pub proof fn lemma_failure_fails(phase: Phase, event: Event)
    requires
        !phase.is_terminal(),
        failure_of(event) is Some,
    ensures
        next_phase(phase, event) is Failed,
{
}

/// A run that is not over can be cancelled in every phase.
pub proof fn lemma_cancellation_fails(phase: Phase)
    requires
        !phase.is_terminal(),
    ensures
        next_phase(phase, Event::Cancelled) == Phase::Failed(RunError::Cancelled),
{
}

/// One event leads to `Verified` only from `Proved`, and only when the
/// verifier accepted the proof.
pub proof fn lemma_verified_needs_acceptance(phase: Phase, event: Event)
    requires
        next_phase(phase, event) is Verified,
    ensures
        phase is Verified || (phase is Proved && event is ProofAccepted),
{
}

/// A run is past its first phases only if their successes were reported, in
/// order, as its first events.
pub proof fn lemma_progress_needs_successes(events: Seq<Event>)
    ensures
        phase_after(events) is InputAssembled ==> events == seq![Event::InputsReady],
        phase_after(events) is Proving ==> events == seq![Event::InputsReady, Event::Encoded],
        phase_after(events) is Proved ==> events == seq![
            Event::InputsReady,
            Event::Encoded,
            Event::ProofGenerated,
        ],
        phase_after(events) is Verified ==> events.len() >= 4 && events.take(4) == seq![
            Event::InputsReady,
            Event::Encoded,
            Event::ProofGenerated,
            Event::ProofAccepted,
        ],
    decreases events.len(),
{
    if events.len() > 0 {
        let front = events.drop_last();
        lemma_progress_needs_successes(front);
        assert(events =~= front.push(events.last()));
        if phase_after(events) is Verified {
            if phase_after(front) is Verified {
                assert(events.take(4) =~= front.take(4));
            } else {
                assert(events.take(4) =~= events);
            }
        }
    }
}

/// A run whose proof the verifier rejected has failed with `Verification`,
/// and stays so.
pub proof fn lemma_rejected_proof_fails(events: Seq<Event>)
    requires
        events.len() >= 4,
        events.take(4) == seq![
            Event::InputsReady,
            Event::Encoded,
            Event::ProofGenerated,
            Event::ProofRejected,
        ],
    ensures
        phase_after(events) == Phase::Failed(RunError::Verification),
    decreases events.len(),
{
    let front = events.drop_last();
    if events.len() == 4 {
        assert(events.take(4) == events);
        let one = front.drop_last().drop_last();
        let two = front.drop_last();
        assert(events[0] == Event::InputsReady && events[1] == Event::Encoded);
        assert(events[2] == Event::ProofGenerated && events[3] == Event::ProofRejected);
        assert(phase_after(one.drop_last()) == Phase::Idle);
        assert(one.last() == events[0]);
        assert(phase_after(one) == Phase::InputAssembled);
        assert(two.last() == events[1]);
        assert(phase_after(two) == Phase::Proving);
        assert(front.last() == events[2]);
        assert(phase_after(front) == Phase::Proved);
    } else {
        assert(front.take(4) =~= events.take(4));
        lemma_rejected_proof_fails(front);
    }
}

} // verus!
