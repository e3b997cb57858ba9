use layerx_agentd::managed_agent::HumanAgentLifecycleSeed;
use layerx_agentd::identity::ProtocolAuthority;
use layerx_agentd::managed_agent::HumanOperationError;
use layerx_agentd::owner::{owner_digest, OwnerInstall};
use layerx_agentd::owner_action::{
    decode_owner_action, encode_owner_validated, owner_install_begin, owner_install_complete,
    owner_install_validate, pending_owner_action, OwnerAction, OwnerValidation,
};
use layerx_agentd::store::{ObjectKind, Store, TenantId, TenantKey};

fn agent_id() -> String {
    format!("agt_{}", "01".repeat(32))
}

fn seed() -> HumanAgentLifecycleSeed {
    HumanAgentLifecycleSeed {
        agent_id: agent_id(),
        name: "Treasurer".to_owned(),
        purpose: "Pays invoices".to_owned(),
        currency: "USD".to_owned(),
        monthly_limit: 1_000,
        period_start: 10,
        period_end: 20,
        created_at: 5,
        updated_at: 6,
        verified_evidence: vec![[7; 32]],
        actor: "owner".to_owned(),
        primary_authority: "primary".to_owned(),
        custody_key: "custody".to_owned(),
        custody_public_key: [8; 32],
        owner_account: "acct-owner".to_owned(),
        budget_account: "acct-budget".to_owned(),
        budget_asset: [9; 32],
        purpose_hash: [10; 32],
        recovery_root: [11; 32],
        recovery_threshold: 2,
        capability_id: [12; 32],
        activity_types: vec![1, 2],
        counterparties: vec![[13; 32]],
        assets: vec![[14; 32]],
        amount_ceiling: 500,
        rate_maximum_uses: 3,
        rate_window_sequences: 100,
        purposes: vec!["invoices".to_owned()],
        capability_expiry_sequence: 900,
        session_scopes: vec!["pay".to_owned()],
        session_expiry_unix_seconds: 1_700_000_000,
        protocol_grant_id: [15; 32],
        budget_period_seconds: 2_592_000,
        budget_expiry_seconds: 31_536_000,
        initial_funding: 200,
        network_id: 1,
        creation_receipt_roots: vec![[16; 32]],
    }
}

fn request() -> OwnerInstall {
    OwnerInstall {
        agent: "did:layerx:agent-7".to_owned(),
        authority_kind: 2,
        authority_id: [1; 32],
        session_id: [2; 32],
        token_id: [0; 32],
        session_public_key: [3; 32],
        registration_payload: b"payload".to_vec(),
        grantor: [4; 32],
        grant_not_before: 10,
        grant_expires_at: 20,
        grant_revocation_sequence: 5,
        permitted_activity_types: vec![7, 9],
        scopes: vec!["pay".to_owned()],
        lease_not_before_unix_ms: 100,
        lease_not_after_unix_ms: 200,
        opening_client: "cli".to_owned(),
        policy_version: "v1".to_owned(),
        lifecycle: None,
    }
}

fn hex(bytes: &[u8]) -> String {
    bytes.iter().map(|b| format!("{b:02x}")).collect()
}

#[test]
fn owner_digest_covers_every_field_in_order() {
    assert_eq!(
        hex(&owner_digest(&request())),
        "635e7eb81652a78ddbcf10209cc3e8f276cbc4cd4143b4388b54822970e3e7b7"
    );
    let other = OwnerInstall { grant_revocation_sequence: 6, ..request() };
    assert_ne!(owner_digest(&other), owner_digest(&request()));
    let with_terms = OwnerInstall { lifecycle: Some(seed()), ..request() };
    assert_ne!(owner_digest(&with_terms), owner_digest(&request()));
    let mut changed = seed();
    changed.network_id = 2;
    let with_other_terms = OwnerInstall { lifecycle: Some(changed), ..request() };
    assert_ne!(owner_digest(&with_other_terms), owner_digest(&with_terms));
}

fn tenant() -> TenantId {
    TenantId::new("tenant-a".to_owned()).unwrap()
}

fn validation() -> OwnerValidation {
    OwnerValidation {
        head_sequence: 40,
        revocation_sequence: 5,
        verification: 4,
        frozen: false,
        authorities: vec![ProtocolAuthority::PrimaryKey([1; 32]), ProtocolAuthority::SessionKey([2; 32])],
        canonical_bytes: vec![9, 9, 9],
        expiry: 20,
        observed: 41,
    }
}

fn action_key(action: [u8; 32]) -> TenantKey {
    let mut id = b"human-owner-action-v1:".to_vec();
    id.extend_from_slice(&action);
    TenantKey::new(tenant(), ObjectKind::Idempotency, id).unwrap()
}

#[test]
fn validated_owner_record_reads_back() {
    let body = [6; 32];
    let record = encode_owner_validated(body, &validation(), [8; 32]).unwrap();
    let mut expected = vec![1, 1];
    expected.extend_from_slice(&body);
    expected.extend_from_slice(&40u64.to_be_bytes());
    expected.extend_from_slice(&5u64.to_be_bytes());
    expected.extend_from_slice(&[4, 0, 0, 2, 1]);
    expected.extend_from_slice(&[1; 32]);
    expected.push(2);
    expected.extend_from_slice(&[2; 32]);
    expected.extend_from_slice(&3u32.to_be_bytes());
    expected.extend_from_slice(&[9, 9, 9]);
    expected.extend_from_slice(&20u64.to_be_bytes());
    expected.extend_from_slice(&41u64.to_be_bytes());
    expected.extend_from_slice(&[8; 32]);
    assert_eq!(record, expected);
    match decode_owner_action(&record, body).unwrap() {
        OwnerAction::Validated(v, Some(t)) => {
            assert_eq!(t, [8; 32]);
            assert_eq!(v.head_sequence, 40);
            assert_eq!(v.revocation_sequence, 5);
            assert_eq!(v.verification, 4);
            assert!(!v.frozen);
            assert_eq!(v.authorities, validation().authorities);
            assert_eq!(v.canonical_bytes, vec![9, 9, 9]);
            assert_eq!((v.expiry, v.observed), (20, 41));
        }
        other => panic!("unexpected {other:?}"),
    }
    // Another request's digest, a zero token, or a bad rank is refused.
    assert!(decode_owner_action(&record, [7; 32]).is_err());
    assert_eq!(
        encode_owner_validated(body, &validation(), [0; 32]).unwrap_err(),
        HumanOperationError::Refused
    );
    let mut bad = record.clone();
    bad[50] = 6;
    assert!(decode_owner_action(&bad, body).is_err());
    // Without its token the record still reads back.
    let untokened = &record[..record.len() - 32];
    assert!(matches!(decode_owner_action(untokened, body).unwrap(), OwnerAction::Validated(_, None)));
}

#[test]
fn pending_and_completed_owner_records() {
    let body = [6; 32];
    let mut pending = vec![1, 0];
    pending.extend_from_slice(&body);
    assert!(pending_owner_action(&pending, body));
    assert!(!pending_owner_action(&pending, [5; 32]));
    assert!(decode_owner_action(&pending, body).is_err());
    let mut completed = vec![1, 2];
    completed.extend_from_slice(&body);
    completed.extend_from_slice(&[3, 4]);
    assert!(matches!(decode_owner_action(&completed, body).unwrap(), OwnerAction::Completed(r) if r == vec![3, 4]));
}

#[test]
fn owner_install_steps() {
    let mut store = Store::new();
    let action = [21; 32];
    let body = owner_digest(&request());
    assert_eq!(
        owner_install_begin(&mut store, &tenant(), action, [0; 32], &request()).unwrap_err(),
        HumanOperationError::Refused
    );
    assert!(owner_install_begin(&mut store, &tenant(), action, body, &request()).unwrap().is_none());
    let mut pending = vec![1, 0];
    pending.extend_from_slice(&body);
    assert_eq!(store.get(&action_key(action)).unwrap().bytes(), pending.as_slice());
    assert!(matches!(
        owner_install_begin(&mut store, &tenant(), action, body, &request()).unwrap(),
        Some(OwnerAction::Pending)
    ));
    // No session yet and no token generated: unavailable; an all-zero session token: refused.
    assert_eq!(
        owner_install_validate(&mut store, &tenant(), action, body, None, None, validation()).unwrap_err(),
        HumanOperationError::Unavailable
    );
    assert_eq!(
        owner_install_validate(&mut store, &tenant(), action, body, Some([0; 32]), None, validation()).unwrap_err(),
        HumanOperationError::Refused
    );
    match owner_install_validate(&mut store, &tenant(), action, body, None, Some([8; 32]), validation()).unwrap() {
        OwnerAction::Validated(_, Some(t)) => assert_eq!(t, [8; 32]),
        other => panic!("unexpected {other:?}"),
    }
    assert_eq!(
        store.get(&action_key(action)).unwrap().bytes(),
        encode_owner_validated(body, &validation(), [8; 32]).unwrap().as_slice()
    );
    // A second validation keeps the token already recorded.
    match owner_install_validate(&mut store, &tenant(), action, body, None, Some([9; 32]), validation()).unwrap() {
        OwnerAction::Validated(_, Some(t)) => assert_eq!(t, [8; 32]),
        other => panic!("unexpected {other:?}"),
    }
    let response = owner_install_complete(&mut store, &tenant(), action, body, [8; 32], [2; 32], 3, 20, 41);
    let mut expected = vec![8; 32];
    expected.extend_from_slice(&[2; 32]);
    expected.extend_from_slice(&3u64.to_be_bytes());
    expected.extend_from_slice(&20u64.to_be_bytes());
    expected.extend_from_slice(&41u64.to_be_bytes());
    assert_eq!(response, expected);
    assert!(matches!(
        owner_install_begin(&mut store, &tenant(), action, body, &request()).unwrap(),
        Some(OwnerAction::Completed(r)) if r == expected
    ));
}
