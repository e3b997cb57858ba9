use layerx_agentd::outbox::codec::{decode_status, encode_status};
use layerx_agentd::outbox::unknown::{
    apply_lookup, backoff_from_digest, begin_resolution, finish_resend, LookupReply,
    ResendObservation, ResolutionNext, ResolutionObservation, ResolutionStep, UnknownResolutionError,
};
use layerx_agentd::outbox::{legal_transition, Outbox, OutboxError, ReceiptBinding, SubmissionState};
use layerx_agentd::sign_verify::VerifiedSubmission;
use layerx_agentd::store::{ObjectKind, Store, TenantId, TenantKey};

fn tenant() -> TenantId {
    TenantId::new("acme".to_owned()).unwrap()
}

fn queued(id: u8) -> (Outbox, Store) {
    let mut outbox = Outbox::new();
    let mut store = Store::new();
    let verified = VerifiedSubmission::new(b"signed bytes".to_vec(), [id; 32], [id + 100; 32]);
    outbox.enqueue(&mut store, tenant(), [id; 32], verified).unwrap();
    (outbox, store)
}

#[test]
fn state_machine_allows_only_forward_moves() {
    assert!(legal_transition(SubmissionState::Queued, SubmissionState::Submitted));
    assert!(legal_transition(SubmissionState::Unknown, SubmissionState::Executed));
    assert!(!legal_transition(SubmissionState::Queued, SubmissionState::Executed));
    assert!(!legal_transition(SubmissionState::Executed, SubmissionState::Failed));
    assert!(SubmissionState::Superseded.terminal());
    assert!(!SubmissionState::Unknown.terminal());
    assert_eq!(SubmissionState::from_code(SubmissionState::Acknowledged.code()), Some(SubmissionState::Acknowledged));
    assert_eq!(SubmissionState::from_code(0), None);
}

#[test]
fn enqueue_persists_exact_bytes_and_queued_state() {
    let (outbox, store) = queued(1);
    let status = outbox.status([1; 32]).unwrap();
    assert_eq!(status.state, SubmissionState::Queued);
    assert_eq!(status.activity_id, [101; 32]);
    assert_eq!(status.transitions.len(), 2);
    assert_eq!(outbox.bytes_for_transmission([1; 32]).unwrap(), b"signed bytes");
    assert_eq!(outbox.exact_signed_bytes([1; 32]).unwrap(), b"signed bytes");
    assert_eq!(outbox.tenant_of(&[1; 32]).unwrap().as_str(), "acme");
    let prepared = TenantKey::new(tenant(), ObjectKind::PreparedActivity, vec![1; 32]).unwrap();
    assert_eq!(store.get(&prepared).unwrap().bytes(), b"signed bytes");
    let state = TenantKey::new(tenant(), ObjectKind::Outbox, vec![1; 32]).unwrap();
    assert_eq!(decode_status(store.get(&state).unwrap().bytes()).unwrap(), *status);
}

#[test]
fn enqueue_refuses_duplicates_and_mismatched_keys() {
    let (mut outbox, mut store) = queued(1);
    let again = VerifiedSubmission::new(b"x".to_vec(), [1; 32], [2; 32]);
    assert!(matches!(outbox.enqueue(&mut store, tenant(), [1; 32], again), Err(OutboxError::Duplicate)));
    let other = VerifiedSubmission::new(b"x".to_vec(), [3; 32], [2; 32]);
    assert!(matches!(
        outbox.enqueue(&mut store, tenant(), [4; 32], other),
        Err(OutboxError::IdempotencyMismatch)
    ));
    assert!(outbox.status([4; 32]).is_none());
}

#[test]
fn transitions_are_checked_and_recorded() {
    let (mut outbox, mut store) = queued(1);
    let id = [1; 32];
    assert!(matches!(
        outbox.transition(&mut store, id, SubmissionState::Submitted, String::new(), None),
        Err(OutboxError::EmptyCause)
    ));
    assert!(matches!(
        outbox.transition(&mut store, [9; 32], SubmissionState::Submitted, "sent".to_owned(), None),
        Err(OutboxError::NotFound)
    ));
    assert!(matches!(
        outbox.transition(&mut store, id, SubmissionState::Executed, "done".to_owned(), None),
        Err(OutboxError::InvalidTransition { from: SubmissionState::Queued, to: SubmissionState::Executed })
    ));
    outbox.transition(&mut store, id, SubmissionState::Submitted, "sent".to_owned(), None).unwrap();
    assert!(matches!(outbox.bytes_for_transmission(id), Err(OutboxError::NotQueued)));
    assert_eq!(outbox.exact_signed_bytes(id).unwrap(), b"signed bytes");
    outbox.transition(&mut store, id, SubmissionState::Acknowledged, "ack".to_owned(), None).unwrap();
    assert!(matches!(
        outbox.transition(&mut store, id, SubmissionState::Executed, "done".to_owned(), None),
        Err(OutboxError::SuccessWithoutVerifiedReceipt)
    ));
    let wrong = ReceiptBinding { activity_id: [7; 32], receipt_ref: [8; 32] };
    assert!(matches!(
        outbox.transition(&mut store, id, SubmissionState::Executed, "done".to_owned(), Some(wrong)),
        Err(OutboxError::ReceiptMismatch)
    ));
    let right = ReceiptBinding { activity_id: [101; 32], receipt_ref: [8; 32] };
    let status = outbox.transition(&mut store, id, SubmissionState::Executed, "done".to_owned(), Some(right)).unwrap();
    assert_eq!(status.state, SubmissionState::Executed);
    assert_eq!(status.evidence.unwrap().receipt_ref(), [8; 32]);
    assert_eq!(status.transitions.len(), 5);
    assert_eq!(status.transitions[4].cause, "done");
}

#[test]
fn restore_reads_back_what_was_queued() {
    let (outbox, store) = queued(2);
    let mut restored = Outbox::new();
    restored.restore(&store, tenant(), [2; 32]).unwrap();
    assert_eq!(restored.status([2; 32]), outbox.status([2; 32]));
    assert_eq!(restored.bytes_for_transmission([2; 32]).unwrap(), b"signed bytes");
    assert!(matches!(restored.restore(&store, tenant(), [3; 32]), Err(OutboxError::NotFound)));
}

#[test]
fn status_encoding_round_trips_and_refuses_damage() {
    let (outbox, _) = queued(3);
    let status = outbox.status([3; 32]).unwrap();
    let bytes = encode_status(status).unwrap();
    assert_eq!(&bytes[0..4], b"LXOB");
    assert_eq!(decode_status(&bytes).unwrap(), *status);
    assert!(matches!(decode_status(&bytes[..bytes.len() - 1]), Err(OutboxError::Corrupt)));
}

#[test]
fn backoff_doubles_with_bounded_jitter() {
    assert_eq!(backoff_from_digest(1, [0; 32]), 1000);
    assert_eq!(backoff_from_digest(1, [0xff; 32]), 1068);
    assert_eq!(backoff_from_digest(2, [0xff; 32]), 2048);
    assert_eq!(backoff_from_digest(6, [0; 32]), 32000);
    assert_eq!(backoff_from_digest(40, [0xff; 32]), 60000);
}

#[test]
fn unknown_submissions_resolve_from_verified_receipts() {
    let (mut outbox, mut store) = queued(5);
    let id = [5; 32];
    assert!(matches!(begin_resolution(&outbox, &mut store, id, 10), Err(UnknownResolutionError::NotUnknown)));
    outbox.transition(&mut store, id, SubmissionState::Submitted, "sent".to_owned(), None).unwrap();
    outbox.transition(&mut store, id, SubmissionState::Unknown, "timeout".to_owned(), None).unwrap();
    let age = match begin_resolution(&outbox, &mut store, id, 1_000).unwrap() {
        ResolutionStep::Lookup(age) => age,
        other => panic!("unexpected {other:?}"),
    };
    assert_eq!(age.attempt_count, 1);
    assert_eq!(age.first_observed_at_ms, 1_000);
    assert!(age.next_attempt_at_ms >= 2_000 && age.next_attempt_at_ms <= 2_250);
    match begin_resolution(&outbox, &mut store, id, 1_001).unwrap() {
        ResolutionStep::Finished(done) => assert_eq!(done.observation, ResolutionObservation::Backoff),
        other => panic!("unexpected {other:?}"),
    }
    match apply_lookup(&mut outbox, &mut store, id, age, LookupReply::Missing).unwrap() {
        ResolutionNext::Resend(bytes) => assert_eq!(bytes, b"signed bytes".to_vec()),
        other => panic!("unexpected {other:?}"),
    }
    let resent = finish_resend(age, true);
    assert_eq!(resent.resend, ResendObservation::Sent);
    assert_eq!(finish_resend(age, false).resend, ResendObservation::Indeterminate);
    let verified = LookupReply::Verified { activity_id: [105; 32], receipt_ref: [6; 32], result_code: 0 };
    match apply_lookup(&mut outbox, &mut store, id, age, verified).unwrap() {
        ResolutionNext::Finished(done) => {
            assert_eq!(done.state, SubmissionState::Executed);
            assert_eq!(done.observation, ResolutionObservation::ExecutedReceipt);
        },
        other => panic!("unexpected {other:?}"),
    }
    assert_eq!(outbox.status(id).unwrap().state, SubmissionState::Executed);
}

#[test]
fn failure_receipts_settle_as_failed() {
    let (mut outbox, mut store) = queued(6);
    let id = [6; 32];
    outbox.transition(&mut store, id, SubmissionState::Submitted, "sent".to_owned(), None).unwrap();
    outbox.transition(&mut store, id, SubmissionState::Unknown, "timeout".to_owned(), None).unwrap();
    let age = match begin_resolution(&outbox, &mut store, id, 5).unwrap() {
        ResolutionStep::Lookup(age) => age,
        other => panic!("unexpected {other:?}"),
    };
    match apply_lookup(&mut outbox, &mut store, id, age, LookupReply::Unavailable).unwrap() {
        ResolutionNext::Finished(done) => assert_eq!(done.observation, ResolutionObservation::LookupUnavailable),
        other => panic!("unexpected {other:?}"),
    }
    let failed = LookupReply::Verified { activity_id: [106; 32], receipt_ref: [1; 32], result_code: 3 };
    match apply_lookup(&mut outbox, &mut store, id, age, failed).unwrap() {
        ResolutionNext::Finished(done) => assert_eq!(done.state, SubmissionState::Failed),
        other => panic!("unexpected {other:?}"),
    }
}
