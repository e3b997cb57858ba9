use layerx_agentd::human::receipt::{
    evidence_step, receipt_lookup_correlation, receipt_lookup_response, served_receipt_consistent,
    BatchAuthority, EvidenceAnswer, ReceiptProtocol, ServedMetadata,
};
use layerx_agentd::human::capability::{
    agent_evidence_digest, capability_install_begin, capability_install_finish,
    capability_request_digest, decode_capability_action, CapabilityInstall, CapabilityStep,
    IdentityObservation, ScopeObservation, StoredCapability,
};
use layerx_agentd::human::journey::{
    prepare_authentic, prepare_digest, state_after_submit, submission_observation, submit_authentic,
    submit_digest, submit_dispatch, submit_record_outcome, NodeSubmitOutcome, PrepareRequest,
    SubmitRequest,
};
use layerx_agentd::identity::ProtocolAuthority;
use layerx_agentd::managed_agent::HumanOperationError;
use layerx_agentd::outbox::{Outbox, SubmissionState};
use layerx_agentd::sign_verify::VerifiedSubmission;
use layerx_agentd::store::{ObjectKind, Store, TenantId, TenantKey};

const EVIDENCE: [u8; 32] = [
    231, 137, 170, 111, 165, 142, 9, 244, 22, 47, 123, 92, 67, 62, 13, 172, 179, 70, 56, 94, 198,
    6, 242, 43, 56, 190, 66, 214, 196, 103, 68, 191,
];

fn hex(bytes: &[u8]) -> String {
    bytes.iter().map(|b| format!("{b:02x}")).collect()
}

fn tenant() -> TenantId {
    TenantId::new("acme".to_owned()).unwrap()
}

fn install() -> CapabilityInstall {
    CapabilityInstall {
        action_key: [1; 32],
        agent: "did:layerx:agent-7".to_owned(),
        authority_id: [2; 32],
        capability_id: [3; 32],
        activity_types: vec![1, 2],
        counterparties: vec![[4; 32]],
        assets: vec![[5; 32]],
        amount_ceiling: 500,
        rate_maximum_uses: 3,
        rate_window_sequences: 100,
        purposes: vec!["invoices".to_owned()],
        expiry_sequence: 900,
    }
}

fn identity() -> IdentityObservation {
    IdentityObservation { frozen: false, unverified: false, authorities: vec![ProtocolAuthority::PrimaryKey([2; 32])] }
}

fn scope() -> ScopeObservation {
    ScopeObservation { observed_sequence: 50, verification: 4, evidence_digest: EVIDENCE, narrows: true }
}

fn action_key() -> TenantKey {
    let mut id = b"human-capability-action-v1:".to_vec();
    id.extend_from_slice(&[1; 32]);
    TenantKey::new(tenant(), ObjectKind::Idempotency, id).unwrap()
}

#[test]
fn capability_digests_cover_the_request() {
    assert_eq!(
        hex(&capability_request_digest(&install())),
        "d47b9acf2ea646b5e20d186ea0f50ae32bed003882b4d22df66d233da18a162e"
    );
    assert_eq!(agent_evidence_digest([1; 32], [3; 32], 50, 4), EVIDENCE);
    let other = CapabilityInstall { expiry_sequence: 901, ..install() };
    assert_ne!(capability_request_digest(&other), capability_request_digest(&install()));
}

#[test]
fn capability_installation_is_recorded_once_and_replayed() {
    let mut store = Store::new();
    let refused = capability_install_begin(&mut store, &tenant(), &CapabilityInstall { assets: vec![], ..install() });
    assert!(matches!(refused, Err(HumanOperationError::Refused)));
    assert!(matches!(capability_install_begin(&mut store, &tenant(), &install()), Ok(CapabilityStep::Pending)));
    let digest = capability_request_digest(&install());
    let mut pending = vec![1];
    pending.extend_from_slice(&digest);
    pending.push(0);
    assert_eq!(store.get(&action_key()).unwrap().bytes(), &pending[..]);
    assert!(matches!(capability_install_begin(&mut store, &tenant(), &install()), Err(HumanOperationError::Unavailable)));

    let frozen = IdentityObservation { frozen: true, ..identity() };
    assert!(matches!(
        capability_install_finish(&mut store, &tenant(), &install(), frozen, scope(), StoredCapability::Same),
        Err(HumanOperationError::Refused)
    ));
    let wrong = ScopeObservation { evidence_digest: [9; 32], ..scope() };
    assert!(matches!(
        capability_install_finish(&mut store, &tenant(), &install(), identity(), wrong, StoredCapability::Same),
        Err(HumanOperationError::Refused)
    ));
    assert!(matches!(
        capability_install_finish(&mut store, &tenant(), &install(), identity(), scope(), StoredCapability::Different),
        Err(HumanOperationError::Refused)
    ));
    let response = capability_install_finish(
        &mut store,
        &tenant(),
        &install(),
        identity(),
        scope(),
        StoredCapability::Absent { encoded: b"capability".to_vec() },
    )
    .unwrap();
    let mut expected = vec![3; 32];
    expected.extend_from_slice(&50u64.to_be_bytes());
    expected.push(4);
    expected.extend_from_slice(&EVIDENCE);
    assert_eq!(response, expected);
    let capability = TenantKey::new(tenant(), ObjectKind::Capability, vec![3; 32]).unwrap();
    assert_eq!(store.get(&capability).unwrap().bytes(), b"capability");
    match capability_install_begin(&mut store, &tenant(), &install()) {
        Ok(CapabilityStep::Replayed(bytes)) => assert_eq!(bytes, expected),
        other => panic!("unexpected {other:?}"),
    }
    let changed = CapabilityInstall { expiry_sequence: 901, ..install() };
    assert!(matches!(capability_install_begin(&mut store, &tenant(), &changed), Err(HumanOperationError::Refused)));
    assert!(matches!(decode_capability_action(&[1; 10], digest), Err(HumanOperationError::Refused)));
}

fn prepare() -> PrepareRequest {
    PrepareRequest {
        activity_type: 7,
        actor: "did:a".to_owned(),
        authority: "owner".to_owned(),
        account_sequence: 3,
        not_before: 10,
        not_after: 20,
        idempotency_key: "ab".to_owned(),
        fee_limit: 1000,
        payload_hash: [6; 32],
        payload: b"payload".to_vec(),
    }
}

fn submit() -> SubmitRequest {
    SubmitRequest {
        preparation_ref: "ref".to_owned(),
        signature: vec![9; 64],
        signer_public_key: [7; 32],
        approval_release_ref: Some([8; 32]),
    }
}

#[test]
fn request_bodies_are_authenticated_by_their_digests() {
    let p = prepare_digest(&prepare());
    assert_eq!(hex(&p), "d2744cd480833fab84bc09733147709832963ebf32a60551c7f756855e613d53");
    assert!(prepare_authentic(&prepare(), p));
    assert!(!prepare_authentic(&PrepareRequest { payload: b"other".to_vec(), ..prepare() }, p));
    let s = submit_digest(&submit());
    assert_eq!(hex(&s), "08748cd1dc127b301985be143ce62fa16fb35206708b7eb856ace42d20e519d4");
    assert!(submit_authentic(&submit(), s));
    assert!(!submit_authentic(&SubmitRequest { approval_release_ref: None, ..submit() }, s));
}

#[test]
fn submissions_move_on_the_node_answer() {
    assert_eq!(state_after_submit(NodeSubmitOutcome::Acknowledged), SubmissionState::Acknowledged);
    assert_eq!(state_after_submit(NodeSubmitOutcome::Unknown), SubmissionState::Unknown);
    assert_eq!(state_after_submit(NodeSubmitOutcome::Unavailable), SubmissionState::Unknown);
    let mut outbox = Outbox::new();
    let mut store = Store::new();
    let verified = VerifiedSubmission::new(b"signed".to_vec(), [4; 32], [5; 32]);
    let dispatched = submit_dispatch(&mut outbox, &mut store, tenant(), [4; 32], verified);
    assert!(matches!(dispatched, Err(HumanOperationError::Unavailable)));
    assert_eq!(outbox.status([4; 32]).unwrap().state, SubmissionState::Submitted);
    let observed = submit_record_outcome(&mut outbox, &mut store, [4; 32], NodeSubmitOutcome::Acknowledged).unwrap();
    let mut expected = vec![5; 32];
    expected.extend_from_slice(&64u32.to_be_bytes());
    expected.extend_from_slice("04".repeat(32).as_bytes());
    expected.push(5);
    expected.extend_from_slice(&[0, 0, 0, 0]);
    assert_eq!(observed, expected);
    assert_eq!(submission_observation(outbox.status([4; 32]).unwrap()).unwrap(), expected);
    let again = submit_record_outcome(&mut outbox, &mut store, [4; 32], NodeSubmitOutcome::Unknown);
    assert!(again.is_ok());
    let refused = submit_record_outcome(&mut outbox, &mut store, [4; 32], NodeSubmitOutcome::Unknown);
    assert!(matches!(refused, Err(HumanOperationError::Unavailable)));
}

#[test]
fn receipt_lookup_decisions() {
    let mut key = [0u8; 32];
    key[7] = 3;
    key[0] = 1;
    assert_eq!(receipt_lookup_correlation(&key), (1u64 << 56) | 3);

    let served = ServedMetadata {
        canonical_bytes: b"receipt".to_vec(),
        idempotency_key: [4; 32],
        activity_id: [5; 32],
        global_sequence: 9,
        result_code: 0,
        verification_rank: 4,
    };
    let protocol = ReceiptProtocol { activity_id: [5; 32], global_sequence: 9, result_code: 0 };
    assert!(served_receipt_consistent(&served, b"receipt", 3, &protocol, &[4; 32], &[5; 32]));
    assert!(!served_receipt_consistent(&served, b"receipt", 5, &protocol, &[4; 32], &[5; 32]));
    assert!(!served_receipt_consistent(&served, b"other", 3, &protocol, &[4; 32], &[5; 32]));
    let moved = ReceiptProtocol { global_sequence: 10, ..protocol };
    assert!(!served_receipt_consistent(&served, b"receipt", 3, &moved, &[4; 32], &[5; 32]));

    let mut outbox = Outbox::new();
    let mut store = Store::new();
    outbox
        .enqueue(&mut store, tenant(), [4; 32], VerifiedSubmission::new(b"signed".to_vec(), [4; 32], [5; 32]))
        .unwrap();
    let bundle = |b: &[u8]| EvidenceAnswer::Bundle(b.to_vec());
    assert_eq!(evidence_step(&bundle(b"signed"), &bundle(b"receipt"), &outbox, [4; 32], b"receipt"), Ok(true));
    assert_eq!(
        evidence_step(&bundle(b"forged"), &bundle(b"receipt"), &outbox, [4; 32], b"receipt"),
        Err(HumanOperationError::Refused)
    );
    assert_eq!(
        evidence_step(&bundle(b"signed"), &bundle(b"receipt"), &outbox, [6; 32], b"receipt"),
        Err(HumanOperationError::Refused)
    );
    assert_eq!(evidence_step(&EvidenceAnswer::Unavailable, &EvidenceAnswer::Failed, &outbox, [4; 32], b"receipt"), Ok(false));
    assert_eq!(evidence_step(&EvidenceAnswer::Failed, &EvidenceAnswer::Unavailable, &outbox, [4; 32], b"receipt"), Ok(false));
    assert_eq!(
        evidence_step(&EvidenceAnswer::Failed, &bundle(b"receipt"), &outbox, [4; 32], b"receipt"),
        Err(HumanOperationError::Refused)
    );

    assert_eq!(receipt_lookup_response(None).unwrap(), vec![0]);
    let authority = BatchAuthority {
        batch_id: [1; 32],
        asset: [2; 32],
        previous_state_root: [3; 32],
        resulting_state_root: [4; 32],
        sequencer_public_key: [5; 32],
    };
    let answer = receipt_lookup_response(Some((b"rc", &authority, 4))).unwrap();
    let mut expected = vec![1, 0, 0, 0, 2, b'r', b'c'];
    for b in 1..=5u8 {
        expected.extend_from_slice(&[b; 32]);
    }
    expected.push(4);
    assert_eq!(answer, expected);
    assert_eq!(receipt_lookup_response(Some((b"", &authority, 4))), Err(HumanOperationError::Refused));
}
