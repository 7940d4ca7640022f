use zkvm_host::codec::{decode, encode};
use zkvm_host::error::{LoadError, ParseError, SerializationError};
use zkvm_host::loader::{load_kv_store, store_path, RawEntry};
use zkvm_host::manifest::{BootInfoWithoutRollupConfig, SP1KonaCliArgs};
use zkvm_host::orchestrator::{step, Action, Event, Phase, RunError};

fn run(events: Vec<Event>) -> (Phase, Action) {
    let mut phase = Phase::Idle;
    let mut action = Action::Stop;
    for event in events {
        let next = step(phase, event);
        phase = next.0;
        action = next.1;
    }
    (phase, action)
}

fn all_events() -> Vec<Event> {
    vec![
        Event::InputsReady,
        Event::ParseFailed(ParseError::InvalidHash),
        Event::LoadFailed(LoadError::NotFound),
        Event::Encoded,
        Event::EncodeFailed(SerializationError::CapacityExceeded),
        Event::ProofGenerated,
        Event::ExecutionFailed { detail: "halted".to_string() },
        Event::ProofAccepted,
        Event::ProofRejected,
        Event::Cancelled,
    ]
}

#[test]
fn a_run_moves_through_its_phases_to_verified() {
    assert_eq!(step(Phase::Idle, Event::InputsReady), (Phase::InputAssembled, Action::Encode));
    assert_eq!(step(Phase::InputAssembled, Event::Encoded), (Phase::Proving, Action::Prove));
    assert_eq!(step(Phase::Proving, Event::ProofGenerated), (Phase::Proved, Action::Verify));
    assert_eq!(step(Phase::Proved, Event::ProofAccepted), (Phase::Verified, Action::Stop));
}

#[test]
fn each_phase_fails_with_the_error_of_its_stage() {
    assert_eq!(
        step(Phase::Idle, Event::ParseFailed(ParseError::InvalidNumber)),
        (Phase::Failed(RunError::Parse(ParseError::InvalidNumber)), Action::Stop)
    );
    assert_eq!(
        step(Phase::Idle, Event::LoadFailed(LoadError::CorruptStore)),
        (Phase::Failed(RunError::Load(LoadError::CorruptStore)), Action::Stop)
    );
    assert_eq!(
        step(Phase::InputAssembled, Event::EncodeFailed(SerializationError::CapacityExceeded)),
        (Phase::Failed(RunError::Serialization(SerializationError::CapacityExceeded)), Action::Stop)
    );
    assert_eq!(
        step(Phase::Proved, Event::ProofRejected),
        (Phase::Failed(RunError::Verification), Action::Stop)
    );
}

#[test]
fn an_execution_failure_keeps_what_the_executor_reported() {
    let detail = "halted after 1234 cycles".to_string();
    assert_eq!(
        step(Phase::Proving, Event::ExecutionFailed { detail: detail.clone() }),
        (Phase::Failed(RunError::Execution { detail }), Action::Stop)
    );
}

#[test]
fn a_run_that_is_over_stays_as_it_is() {
    let failed = Phase::Failed(RunError::Execution { detail: "x".to_string() });
    for event in all_events() {
        assert_eq!(step(Phase::Verified, event.clone()), (Phase::Verified, Action::Stop));
        assert_eq!(step(failed.clone(), event), (failed.clone(), Action::Stop));
    }
}

#[test]
fn an_event_out_of_order_fails_the_run() {
    assert_eq!(
        step(Phase::Idle, Event::ProofAccepted),
        (Phase::Failed(RunError::OutOfOrder), Action::Stop)
    );
    assert_eq!(
        step(Phase::InputAssembled, Event::ProofGenerated),
        (Phase::Failed(RunError::OutOfOrder), Action::Stop)
    );
    assert_eq!(
        step(Phase::Proving, Event::ProofAccepted),
        (Phase::Failed(RunError::OutOfOrder), Action::Stop)
    );
    assert_eq!(
        step(Phase::Proved, Event::InputsReady),
        (Phase::Failed(RunError::OutOfOrder), Action::Stop)
    );
    assert_eq!(
        step(Phase::Proving, Event::ProofRejected),
        (Phase::Failed(RunError::OutOfOrder), Action::Stop)
    );
}

#[test]
fn a_run_can_be_cancelled_in_every_phase_before_it_is_over() {
    for phase in [Phase::Idle, Phase::InputAssembled, Phase::Proving, Phase::Proved] {
        assert_eq!(
            step(phase, Event::Cancelled),
            (Phase::Failed(RunError::Cancelled), Action::Stop)
        );
    }
    assert_eq!(step(Phase::Verified, Event::Cancelled), (Phase::Verified, Action::Stop));
    assert_eq!(
        step(Phase::Failed(RunError::Verification), Event::Cancelled),
        (Phase::Failed(RunError::Verification), Action::Stop)
    );
}

#[test]
fn only_the_four_successes_in_order_verify_a_run() {
    let events = all_events();
    let successes =
        vec![Event::InputsReady, Event::Encoded, Event::ProofGenerated, Event::ProofAccepted];
    for a in &events {
        for b in &events {
            for c in &events {
                for d in &events {
                    let tried = vec![a.clone(), b.clone(), c.clone(), d.clone()];
                    let verified = run(tried.clone()).0 == Phase::Verified;
                    assert_eq!(verified, tried == successes);
                }
            }
        }
    }
    for length in 0..4 {
        for a in &events {
            let tried: Vec<Event> = std::iter::repeat(a.clone()).take(length).collect();
            assert_ne!(run(tried).0, Phase::Verified);
        }
    }
}

#[test]
fn a_rejected_proof_is_never_reported_as_verified() {
    let mut events =
        vec![Event::InputsReady, Event::Encoded, Event::ProofGenerated, Event::ProofRejected];
    assert_eq!(run(events.clone()), (Phase::Failed(RunError::Verification), Action::Stop));
    events.push(Event::ProofAccepted);
    assert_eq!(run(events), (Phase::Failed(RunError::Verification), Action::Stop));
}

#[test]
fn end_to_end_a_claim_is_prepared_and_the_run_follows_the_verifier() {
    let args = SP1KonaCliArgs {
        l1_head: "aa".repeat(32),
        l2_output_root: "bb".repeat(32),
        l2_claim: "cc".repeat(32),
        l2_claim_block: "100".to_string(),
        chain_id: "10".to_string(),
    };
    let manifest = BootInfoWithoutRollupConfig::build(&args).unwrap();
    assert_eq!(
        manifest,
        BootInfoWithoutRollupConfig {
            l1_head: [0xaa; 32],
            l2_output_root: [0xbb; 32],
            l2_claim: [0xcc; 32],
            l2_claim_block: 100,
            chain_id: 10,
        }
    );
    assert_eq!(store_path(manifest.l2_claim_block), "../data/100");
    let backing = vec![RawEntry { key: vec![0x01; 32], value: vec![1, 2, 3] }];
    let store = load_kv_store(Some(&backing)).unwrap();
    let (phase, action) = step(Phase::Idle, Event::InputsReady);
    assert_eq!(action, Action::Encode);

    let buffer = encode(&manifest, &store).unwrap();
    let (read_manifest, read_store) = decode(&buffer).unwrap();
    assert_eq!(read_manifest, manifest);
    assert_eq!(read_store, store);
    assert_eq!(read_store.get(&[0x01; 32]), Some(&vec![1, 2, 3]));
    let (phase, action) = step(phase, Event::Encoded);
    assert_eq!(action, Action::Prove);
    let (phase, action) = step(phase, Event::ProofGenerated);
    assert_eq!(action, Action::Verify);

    assert_eq!(step(phase.clone(), Event::ProofAccepted), (Phase::Verified, Action::Stop));
    assert_eq!(
        step(phase, Event::ProofRejected),
        (Phase::Failed(RunError::Verification), Action::Stop)
    );
}
