use layerx_agentd::managed_agent::finalize::{
    action_record, action_record_object, archive_operation, challenge_response, control_operation,
    evidence_acceptable, journey_response,
    finalization_digest, finalize_record, journey_operation, journey_request_acceptable,
    limit_operation, operation_code, receipt_acceptable, replay, AgentChange, ServedReceipt,
};
use layerx_agentd::managed_agent::{
    FinalizationEvidence, HumanAgentLifecycleSeed, HumanOperationError, ManagedAgent,
};
use layerx_agentd::managed_agent::finalize::finalize_limit;
use layerx_agentd::managed_agent::observations::bind_session;
use layerx_agentd::managed_agent::records::{load_agent, publish_creation, publish_creation_with_companion};
use layerx_agentd::store::{ObjectKind, TenantKey};
use layerx_agentd::store::{StorageClass, Store, TenantId};

const DID: &str = "did:layerx:agent-7";

fn agent_id() -> String {
    format!("agt_{}", "01".repeat(32))
}

fn seed() -> HumanAgentLifecycleSeed {
    HumanAgentLifecycleSeed {
        agent_id: agent_id(),
        name: "Treasurer".to_owned(),
        purpose: "Pays invoices".to_owned(),
        currency: "USD".to_owned(),
        monthly_limit: 1_000,
        period_start: 10,
        period_end: 20,
        created_at: 5,
        updated_at: 6,
        verified_evidence: vec![[7; 32]],
        actor: "owner".to_owned(),
        primary_authority: "primary".to_owned(),
        custody_key: "custody".to_owned(),
        custody_public_key: [8; 32],
        owner_account: "acct-owner".to_owned(),
        budget_account: "acct-budget".to_owned(),
        budget_asset: [9; 32],
        purpose_hash: [10; 32],
        recovery_root: [11; 32],
        recovery_threshold: 2,
        capability_id: [12; 32],
        activity_types: vec![1, 2],
        counterparties: vec![[13; 32]],
        assets: vec![[14; 32]],
        amount_ceiling: 500,
        rate_maximum_uses: 3,
        rate_window_sequences: 100,
        purposes: vec!["invoices".to_owned()],
        capability_expiry_sequence: 900,
        session_scopes: vec!["pay".to_owned()],
        session_expiry_unix_seconds: 1_700_000_000,
        protocol_grant_id: [15; 32],
        budget_period_seconds: 2_592_000,
        budget_expiry_seconds: 31_536_000,
        initial_funding: 200,
        network_id: 1,
        creation_receipt_roots: vec![[16; 32]],
    }
}

fn fresh_agent() -> ManagedAgent {
    ManagedAgent::from_creation(&seed(), DID, [21; 32], [22; 32]).unwrap()
}

fn evidence() -> FinalizationEvidence {
    FinalizationEvidence {
        action_key: [1; 32],
        activity_id: [1; 32],
        receipt_digest: [2; 32],
        observed_sequence: 9,
        verification: 4,
        finalized_at: 100,
    }
}

fn hex(bytes: &[u8]) -> String {
    bytes.iter().map(|b| format!("{b:02x}")).collect()
}

#[test]
fn evidence_must_be_complete() {
    assert!(evidence_acceptable(&evidence()));
    assert!(!evidence_acceptable(&FinalizationEvidence { activity_id: [3; 32], ..evidence() }));
    assert!(!evidence_acceptable(&FinalizationEvidence { receipt_digest: [0; 32], ..evidence() }));
    assert!(!evidence_acceptable(&FinalizationEvidence { verification: 3, ..evidence() }));
    assert!(!evidence_acceptable(&FinalizationEvidence { verification: 6, ..evidence() }));
    assert!(!evidence_acceptable(&FinalizationEvidence { observed_sequence: 0, ..evidence() }));
    assert!(!evidence_acceptable(&FinalizationEvidence { finalized_at: 0, ..evidence() }));
}

#[test]
fn finalization_digest_binds_agent_operation_and_evidence() {
    let op = control_operation(false, [3; 32]);
    let digest = finalization_digest(&agent_id(), &op, &evidence());
    assert_eq!(hex(&digest), "90338387f5fdd8c46505ed2b413d5688aedefa930cce341907a7e391d9c38292");
    let other = finalization_digest(&agent_id(), &control_operation(true, [3; 32]), &evidence());
    assert_ne!(digest, other);
}

#[test]
fn operation_bytes_are_exact() {
    let mut control = vec![26, 1];
    control.extend_from_slice(&[3; 32]);
    assert_eq!(control_operation(true, [3; 32]), control);
    let mut limit = vec![27];
    limit.extend_from_slice(&500u128.to_be_bytes());
    limit.extend_from_slice(b"USD");
    limit.extend_from_slice(&[4; 32]);
    assert_eq!(limit_operation(500, "USD", [4; 32]), limit);
    let mut journey = vec![28, 1];
    journey.extend_from_slice(&0u128.to_be_bytes());
    journey.extend_from_slice(&7u64.to_be_bytes());
    journey.extend_from_slice(&200u64.to_be_bytes());
    journey.extend_from_slice(&[5; 32]);
    journey.extend_from_slice(&[0; 32]);
    assert_eq!(journey_operation(1, 0, "", 7, 200, [5; 32], [0; 32]), journey);
    let mut archive = vec![29];
    archive.extend_from_slice(b"Treasurer");
    archive.extend_from_slice(&[5; 32]);
    archive.extend_from_slice(&[6; 32]);
    archive.extend_from_slice(&[7; 32]);
    assert_eq!(archive_operation("Treasurer", [5; 32], [6; 32], [7; 32]), archive);
    let mut object = b"managed-agent-action-v1:".to_vec();
    object.extend_from_slice(&[1; 32]);
    assert_eq!(action_record_object([1; 32]), object);
}

#[test]
fn operation_codes_follow_the_change() {
    assert_eq!(operation_code(&AgentChange::Control { resume: true }), Some(6));
    assert_eq!(
        operation_code(&AgentChange::Limit { monthly_limit: 1, currency: "USD".to_owned(), replacement_budget_id: [1; 32] }),
        Some(1)
    );
    assert_eq!(operation_code(&AgentChange::Journey { kind: 0, currency: "USD".to_owned() }), Some(3));
    assert_eq!(operation_code(&AgentChange::Journey { kind: 2, currency: String::new() }), Some(2));
    assert_eq!(operation_code(&AgentChange::Journey { kind: 3, currency: String::new() }), None);
    assert_eq!(operation_code(&AgentChange::Archive { confirm_name: "x".to_owned() }), Some(6));
}

#[test]
fn pausing_and_resuming_follow_the_state() {
    let paused = finalize_record(fresh_agent(), &AgentChange::Control { resume: false }, &evidence()).unwrap();
    assert_eq!(paused.state, 2);
    assert_eq!(paused.updated_at, 100);
    assert_eq!(paused.verified_evidence, vec![[7; 32], [2; 32]]);
    let again = finalize_record(paused, &AgentChange::Control { resume: false }, &evidence());
    assert!(matches!(again, Err(HumanOperationError::Refused)));
    let paused = finalize_record(fresh_agent(), &AgentChange::Control { resume: false }, &evidence()).unwrap();
    let resumed = finalize_record(paused, &AgentChange::Control { resume: true }, &evidence()).unwrap();
    assert_eq!(resumed.state, 1);
    let not_paused = finalize_record(fresh_agent(), &AgentChange::Control { resume: true }, &evidence());
    assert!(matches!(not_paused, Err(HumanOperationError::Refused)));
}

#[test]
fn limits_change_only_in_the_agent_currency_and_above_spending() {
    let changed = finalize_record(
        fresh_agent(),
        &AgentChange::Limit { monthly_limit: 2_000, currency: "USD".to_owned(), replacement_budget_id: [30; 32] },
        &evidence(),
    )
    .unwrap();
    assert_eq!(changed.monthly_limit, 2_000);
    assert_eq!(changed.active_budget_id, [30; 32]);
    assert_eq!(changed.name, "Treasurer");
    let refused = |change: AgentChange| matches!(finalize_record(fresh_agent(), &change, &evidence()), Err(HumanOperationError::Refused));
    assert!(refused(AgentChange::Limit { monthly_limit: 0, currency: "USD".to_owned(), replacement_budget_id: [30; 32] }));
    assert!(refused(AgentChange::Limit { monthly_limit: 2_000, currency: "EUR".to_owned(), replacement_budget_id: [30; 32] }));
    assert!(refused(AgentChange::Limit { monthly_limit: 2_000, currency: "USD".to_owned(), replacement_budget_id: [0; 32] }));
}

#[test]
fn archiving_needs_the_agent_name_and_stale_evidence_is_refused() {
    let archived = finalize_record(fresh_agent(), &AgentChange::Archive { confirm_name: "Treasurer".to_owned() }, &evidence()).unwrap();
    assert_eq!(archived.state, 4);
    let twice = finalize_record(archived, &AgentChange::Archive { confirm_name: "Treasurer".to_owned() }, &evidence());
    assert!(matches!(twice, Err(HumanOperationError::Refused)));
    let wrong = finalize_record(fresh_agent(), &AgentChange::Archive { confirm_name: "Other".to_owned() }, &evidence());
    assert!(matches!(wrong, Err(HumanOperationError::Refused)));
    let stale = FinalizationEvidence { finalized_at: 1, ..evidence() };
    let old = finalize_record(fresh_agent(), &AgentChange::Journey { kind: 0, currency: "USD".to_owned() }, &stale);
    assert!(matches!(old, Err(HumanOperationError::Refused)));
    let reclaim = finalize_record(fresh_agent(), &AgentChange::Journey { kind: 0, currency: "USD".to_owned() }, &evidence()).unwrap();
    assert_eq!(reclaim.state, 1);
}

#[test]
fn journey_requests_are_checked_before_anything_is_read() {
    assert!(journey_request_acceptable(0, 10, "USD", 0, 0, [1; 32], [2; 32], 100));
    assert!(!journey_request_acceptable(0, 10, "USD", 0, 0, [1; 32], [1; 32], 100));
    assert!(!journey_request_acceptable(0, 0, "USD", 0, 0, [1; 32], [2; 32], 100));
    assert!(journey_request_acceptable(1, 0, "", 7, 200, [1; 32], [0; 32], 100));
    assert!(!journey_request_acceptable(1, 0, "", 7, 100, [1; 32], [0; 32], 100));
    assert!(!journey_request_acceptable(2, 0, "", 7, 200, [0; 32], [0; 32], 100));
    assert!(!journey_request_acceptable(3, 0, "", 7, 200, [1; 32], [0; 32], 100));
}

#[test]
fn a_repeated_request_is_answered_as_the_first() {
    let record = action_record([9; 32], b"response");
    assert_eq!(replay(StorageClass::LocalOnly, &record, [9; 32]).unwrap(), b"response".to_vec());
    assert!(matches!(replay(StorageClass::LocalOnly, &record, [8; 32]), Err(HumanOperationError::Refused)));
    assert!(matches!(replay(StorageClass::CoreProducedCache, &record, [9; 32]), Err(HumanOperationError::Refused)));
    assert!(matches!(replay(StorageClass::LocalOnly, &[9; 31], [9; 32]), Err(HumanOperationError::Refused)));
}

fn text(out: &mut Vec<u8>, value: &str) {
    out.extend_from_slice(&(value.len() as u32).to_be_bytes());
    out.extend_from_slice(value.as_bytes());
}

#[test]
fn journeys_are_described_with_their_receipt() {
    let a = fresh_agent();
    let mut expected = Vec::new();
    text(&mut expected, &format!("jrn_{}", "01".repeat(32)));
    text(&mut expected, "archive");
    expected.extend_from_slice(&[2, 1]);
    text(&mut expected, "receipt-finalized");
    text(&mut expected, "agent.journey.receipt-finalized");
    expected.extend_from_slice(&[2, 1]);
    text(&mut expected, &"02".repeat(32));
    text(&mut expected, "archive");
    expected.push(4);
    text(&mut expected, "100");
    text(&mut expected, &a.updated_at.to_string());
    expected.push(1);
    text(&mut expected, &"02".repeat(32));
    text(&mut expected, "archive");
    expected.push(4);
    assert_eq!(journey_response(&a, 3, evidence()).unwrap(), expected);
    assert!(matches!(journey_response(&a, 4, evidence()), Err(HumanOperationError::Refused)));
}

#[test]
fn challenges_are_described_with_their_delay() {
    let a = fresh_agent();
    let mut expected = Vec::new();
    text(&mut expected, &agent_id());
    expected.push(1);
    expected.extend_from_slice(&7u64.to_be_bytes());
    text(&mut expected, "200");
    expected.push(1);
    text(&mut expected, &"02".repeat(32));
    text(&mut expected, "recover");
    expected.push(4);
    assert_eq!(challenge_response(&a, 2, 7, 200, evidence()).unwrap(), expected);
}

const RECEIPT_DIGEST: [u8; 32] = [
    111, 50, 134, 9, 16, 202, 15, 178, 162, 12, 127, 218, 20, 54, 102, 176, 157, 191, 141, 181,
    35, 129, 149, 201, 10, 88, 111, 181, 66, 255, 12, 173,
];

fn served() -> ServedReceipt {
    ServedReceipt {
        canonical_bytes: b"receipt".to_vec(),
        protocol: Some((true, 6)),
        activity_id: [1; 32],
        idempotency_key: [1; 32],
        global_sequence: 9,
        succeeded: true,
        checkpoint_finalised: true,
        verification_rank: 4,
    }
}

#[test]
fn receipts_must_finalize_the_named_action() {
    let e = FinalizationEvidence { receipt_digest: RECEIPT_DIGEST, ..evidence() };
    assert!(receipt_acceptable(&served(), 6, &e));
    assert!(!receipt_acceptable(&served(), 1, &e));
    assert!(!receipt_acceptable(&served(), 6, &evidence()));
    assert!(!receipt_acceptable(&ServedReceipt { protocol: None, ..served() }, 6, &e));
    assert!(!receipt_acceptable(&ServedReceipt { protocol: Some((false, 6)), ..served() }, 6, &e));
    assert!(!receipt_acceptable(&ServedReceipt { global_sequence: 8, ..served() }, 6, &e));
    assert!(!receipt_acceptable(&ServedReceipt { succeeded: false, ..served() }, 6, &e));
    assert!(!receipt_acceptable(&ServedReceipt { checkpoint_finalised: false, ..served() }, 6, &e));
    assert!(!receipt_acceptable(&ServedReceipt { verification_rank: 5, ..served() }, 6, &e));
}

#[test]
fn finalized_limits_are_stored_with_their_action_record() {
    let tenant = TenantId::new("tenant-a".to_owned()).unwrap();
    let mut store = Store::new();
    publish_creation(&mut store, &tenant, fresh_agent()).unwrap();
    let e = FinalizationEvidence { receipt_digest: RECEIPT_DIGEST, ..evidence() };
    let receipt = || ServedReceipt { protocol: Some((true, 1)), ..served() };
    let missing = finalize_limit(&mut store, &tenant, &agent_id(), 2_000, "USD", [30; 32], e, Err(HumanOperationError::Unavailable));
    assert!(matches!(missing, Err(HumanOperationError::Unavailable)));
    let wrong_operation = finalize_limit(&mut store, &tenant, &agent_id(), 2_000, "USD", [30; 32], e, Ok(served()));
    assert!(matches!(wrong_operation, Err(HumanOperationError::Refused)));
    let first = finalize_limit(&mut store, &tenant, &agent_id(), 2_000, "USD", [30; 32], e, Ok(receipt())).unwrap();
    let loaded = load_agent(&store, &tenant, &agent_id()).unwrap();
    assert_eq!(loaded.monthly_limit, 2_000);
    assert_eq!(loaded.active_budget_id, [30; 32]);
    assert_eq!(loaded.updated_at, 100);
    let again = finalize_limit(&mut store, &tenant, &agent_id(), 2_000, "USD", [30; 32], e, Err(HumanOperationError::Unavailable)).unwrap();
    assert_eq!(again, first);
    let different = finalize_limit(&mut store, &tenant, &agent_id(), 3_000, "USD", [30; 32], e, Ok(receipt()));
    assert!(matches!(different, Err(HumanOperationError::Refused)));
    assert!(matches!(
        finalize_limit(&mut store, &tenant, &agent_id(), 0, "USD", [30; 32], e, Ok(receipt())),
        Err(HumanOperationError::Refused)
    ));
}

#[test]
fn sessions_bind_once_and_creation_records_its_companion() {
    let tenant = TenantId::new("tenant-a".to_owned()).unwrap();
    let mut store = Store::new();
    let companion = TenantKey::new(tenant.clone(), ObjectKind::Idempotency, b"companion".to_vec()).unwrap();
    publish_creation_with_companion(&mut store, &tenant, fresh_agent(), companion.clone(), b"first".to_vec()).unwrap();
    assert_eq!(store.get(&companion).unwrap().bytes(), b"first");
    publish_creation_with_companion(&mut store, &tenant, fresh_agent(), companion.clone(), b"again".to_vec()).unwrap();
    assert_eq!(store.get(&companion).unwrap().bytes(), b"again");
    let mut other = fresh_agent();
    other.name = "Other".to_owned();
    assert!(publish_creation_with_companion(&mut store, &tenant, other, companion.clone(), b"x".to_vec()).is_err());

    let zero = bind_session(&mut store, &tenant, &agent_id(), [0; 32], [32; 32], [33; 32], [34; 32]);
    assert!(matches!(zero, Err(HumanOperationError::Refused)));
    let bound = bind_session(&mut store, &tenant, &agent_id(), [31; 32], [32; 32], [33; 32], [34; 32]).unwrap();
    let loaded = load_agent(&store, &tenant, &agent_id()).unwrap();
    assert_eq!(loaded.session_id, [31; 32]);
    assert_eq!(loaded.session_token_id, [32; 32]);
    assert_eq!(loaded.protocol_grant_id, [33; 32]);
    assert_eq!(loaded.context.protocol_grant_id, [33; 32]);
    let again = bind_session(&mut store, &tenant, &agent_id(), [31; 32], [32; 32], [33; 32], [34; 32]).unwrap();
    assert_eq!(again, bound);
    assert_eq!(&bound[bound.len() - 32..].len(), &32);
}
