use layerx_agentd::outbox::recover::{recover, RecoveryError, RecoveryInputs};
use layerx_agentd::outbox::{Outbox, SubmissionState};
use layerx_agentd::shutdown::{graceful, DaemonLifecycle, ShutdownError, WriteStage};
use layerx_agentd::sign_verify::VerifiedSubmission;
use layerx_agentd::store::{ObjectKind, Store, TenantId, TenantKey};

fn tenant() -> TenantId {
    TenantId::new("acme".to_owned()).unwrap()
}

fn enqueue(outbox: &mut Outbox, store: &mut Store, id: u8) {
    let verified = VerifiedSubmission::new(vec![id; 4], [id; 32], [id + 50; 32]);
    outbox.enqueue(store, tenant(), [id; 32], verified).unwrap();
}

#[test]
fn verified_submissions_keep_their_exact_bytes() {
    let verified = VerifiedSubmission::new(b"exact".to_vec(), [1; 32], [2; 32]);
    assert_eq!(verified.exact_bytes(), b"exact");
    assert_eq!(verified.idempotency_key(), [1; 32]);
    assert_eq!(verified.activity_id(), [2; 32]);
    assert_eq!(verified.duplicate().into_exact_bytes(), b"exact".to_vec());
}

#[test]
fn recovery_resumes_queued_and_resolves_interrupted_work() {
    let mut outbox = Outbox::new();
    let mut store = Store::new();
    enqueue(&mut outbox, &mut store, 1);
    enqueue(&mut outbox, &mut store, 2);
    outbox.transition(&mut store, [2; 32], SubmissionState::Submitted, "sent".to_owned(), None).unwrap();
    let inputs = RecoveryInputs { budget_reconciled: true, ceiling_reconciled: true };
    let recovered = recover(&mut store, &tenant(), &inputs).unwrap();
    assert_eq!(recovered.queued_for_transmission, vec![[1; 32]]);
    assert_eq!(recovered.awaiting_receipt_resolution, vec![[2; 32]]);
    assert_eq!(recovered.outbox.status([2; 32]).unwrap().state, SubmissionState::Unknown);
    assert_eq!(recovered.outbox.status([1; 32]).unwrap().state, SubmissionState::Queued);
    assert!(recovered.require_write_ready().is_ok());
}

#[test]
fn writes_wait_for_reconciled_spend_controls() {
    let mut store = Store::new();
    let inputs = RecoveryInputs { budget_reconciled: false, ceiling_reconciled: true };
    match recover(&mut store, &tenant(), &inputs) {
        Ok(recovered) => assert!(matches!(recovered.require_write_ready(), Err(RecoveryError::WritesBlocked))),
        Err(e) => assert!(matches!(e, RecoveryError::Budget)),
    }
}

#[test]
fn corrupt_outbox_records_stop_recovery() {
    let mut store = Store::new();
    let key = TenantKey::new(tenant(), ObjectKind::Outbox, vec![3; 32]).unwrap();
    store.put_local(key, b"garbage".to_vec()).unwrap();
    let inputs = RecoveryInputs { budget_reconciled: true, ceiling_reconciled: true };
    assert!(recover(&mut store, &tenant(), &inputs).is_err());
}

#[test]
fn shutdown_records_in_flight_work_and_stops_admission() {
    let mut outbox = Outbox::new();
    let mut store = Store::new();
    enqueue(&mut outbox, &mut store, 1);
    let mut lifecycle = DaemonLifecycle::running();
    assert!(lifecycle.accepting_work());
    lifecycle.begin_work([1; 32], b"queued".to_vec()).unwrap();
    assert!(matches!(lifecycle.begin_work([1; 32], b"again".to_vec()), Err(ShutdownError::DuplicateInFlight(id)) if id == [1; 32]));
    assert!(matches!(lifecycle.begin_stage([9; 32], WriteStage::Preparing, vec![]), Err(ShutdownError::EmptyInFlight)));
    lifecycle.begin_stage([9; 32], WriteStage::Preparing, b"draft".to_vec()).unwrap();
    assert!(matches!(lifecycle.append_audit(vec![]), Err(ShutdownError::EmptyAudit)));
    lifecycle.append_audit(b"audit".to_vec()).unwrap();
    let report = graceful(&mut store, tenant(), &outbox, &mut lifecycle).unwrap();
    assert_eq!(report.in_flight_recorded, 2);
    assert_eq!(report.pre_submission_recorded, 1);
    assert_eq!(report.outbox_submissions_verified, 1);
    assert_eq!(report.audit_entries_flushed, 1);
    assert!(!report.accepting_work);
    assert!(!lifecycle.accepting_work());
    assert!(matches!(lifecycle.begin_work([2; 32], b"late".to_vec()), Err(ShutdownError::NotAccepting)));
}

#[test]
fn shutdown_checks_outbox_stage_of_in_flight_submissions() {
    let mut outbox = Outbox::new();
    let mut store = Store::new();
    enqueue(&mut outbox, &mut store, 1);
    let mut lifecycle = DaemonLifecycle::running();
    lifecycle.begin_stage([1; 32], WriteStage::Submitted, b"sent".to_vec()).unwrap();
    lifecycle.begin_stage([4; 32], WriteStage::Queued, b"q".to_vec()).unwrap();
    match graceful(&mut store, tenant(), &outbox, &mut lifecycle) {
        Err(ShutdownError::OutboxStageMismatch { submission_id, expected, actual }) => {
            assert_eq!(submission_id, [1; 32]);
            assert_eq!(expected, SubmissionState::Submitted);
            assert_eq!(actual, SubmissionState::Queued);
        },
        other => panic!("unexpected {other:?}"),
    }
}
