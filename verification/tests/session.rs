use layerx_agentd::identity::{IdentityRecord, ProtocolAuthority};
use layerx_agentd::session::record::{decode_session, encode_session};
use layerx_agentd::session::registry::SessionRegistry;
use layerx_agentd::session::{
    close, invalidate_on_revocation, open, InvalidationReason, OpenRequest, PendingActivity,
    PreparationState, RevocationEvent, SessionError, SessionId,
};
use layerx_agentd::store::{ObjectKind, Store, TenantId, TenantKey};

const AGENT: &str = "did:layerx:agent-1";

fn tenant(name: &str) -> TenantId {
    TenantId::new(name.to_owned()).unwrap()
}

fn identity(t: &str, did: &str, authorities: Vec<ProtocolAuthority>) -> IdentityRecord {
    IdentityRecord::new(tenant(t), did.to_owned(), 7, 1, authorities, vec![1, 2, 3])
}

fn request(id: u8, authority: ProtocolAuthority) -> OpenRequest {
    OpenRequest {
        session_id: SessionId([id; 32]),
        token_id: [id + 100; 32],
        tenant: tenant("tenant-a"),
        agent: AGENT.to_owned(),
        authority,
        permitted_activity_types: vec![9, 3, 9],
        scopes: vec!["write".to_owned(), "read".to_owned(), "write".to_owned()],
        expiry_sequence: 50,
        opening_client: "cli".to_owned(),
        policy_version: "v1".to_owned(),
    }
}

fn primary() -> ProtocolAuthority {
    ProtocolAuthority::PrimaryKey([1; 32])
}

fn session_key() -> ProtocolAuthority {
    ProtocolAuthority::SessionKey([2; 32])
}

#[test]
fn open_issues_a_token_bound_to_tenant_agent_scopes_and_expiry() {
    let mut store = Store::new();
    let mut registry = SessionRegistry::new();
    let who = identity("tenant-a", AGENT, vec![primary()]);
    let token = open(&mut store, &mut registry, &who, request(1, primary()), 10).unwrap();
    assert_eq!(token.token_id(), [101; 32]);
    let id = token.authorize(&tenant("tenant-a"), AGENT, "read", 10).unwrap();
    assert_eq!(id, SessionId([1; 32]));
    assert!(matches!(
        token.authorize(&tenant("tenant-b"), AGENT, "read", 10),
        Err(SessionError::WrongPrincipal)
    ));
    assert!(matches!(
        token.authorize(&tenant("tenant-a"), "did:layerx:other", "read", 10),
        Err(SessionError::WrongPrincipal)
    ));
    assert!(matches!(
        token.authorize(&tenant("tenant-a"), AGENT, "read", 50),
        Err(SessionError::Expired)
    ));
    assert!(matches!(
        token.authorize(&tenant("tenant-a"), AGENT, "admin", 10),
        Err(SessionError::ScopeDenied)
    ));
    assert_eq!(registry.open_count(), 1);
    let record = registry.get(SessionId([1; 32])).unwrap();
    assert!(record.open);
    assert_eq!(record.request.permitted_activity_types, vec![3, 9]);
    assert_eq!(record.request.scopes, vec!["read".to_owned(), "write".to_owned()]);
    let key = TenantKey::new(tenant("tenant-a"), ObjectKind::Session, vec![1; 32]).unwrap();
    assert_eq!(store.get(&key).unwrap().bytes(), encode_session(record).unwrap().as_slice());
}

#[test]
fn open_refusals_follow_validation_order() {
    let who = identity("tenant-a", AGENT, vec![primary()]);
    let cases: Vec<(OpenRequest, u64, &str)> = vec![
        (
            OpenRequest { agent: "did:layerx:else".to_owned(), ..request(1, primary()) },
            10,
            "identity",
        ),
        (OpenRequest { permitted_activity_types: vec![], ..request(1, primary()) }, 10, "permitted_activity_types"),
        (OpenRequest { scopes: vec![], ..request(1, primary()) }, 10, "scopes"),
        (OpenRequest { opening_client: String::new(), ..request(1, primary()) }, 10, "opening_client"),
        (OpenRequest { policy_version: String::new(), ..request(1, primary()) }, 10, "policy_version"),
        (request(1, primary()), 50, "expired"),
        (request(1, session_key()), 10, "authority"),
    ];
    for (req, core, expected) in cases {
        let mut store = Store::new();
        let mut registry = SessionRegistry::new();
        let outcome = open(&mut store, &mut registry, &who, req, core);
        match (expected, outcome) {
            ("identity", Err(SessionError::IdentityMismatch)) => {}
            ("expired", Err(SessionError::Expired)) => {}
            ("authority", Err(SessionError::AuthorityMissing)) => {}
            (field, Err(SessionError::MissingField(got))) => assert_eq!(field, got),
            (field, other) => panic!("{field}: unexpected {other:?}"),
        }
        assert_eq!(registry.open_count(), 0);
        assert!(store.list_object_ids(&tenant("tenant-a"), ObjectKind::Session).is_empty());
    }
    let elsewhere = identity("tenant-b", AGENT, vec![primary()]);
    let mut store = Store::new();
    let mut registry = SessionRegistry::new();
    assert!(matches!(
        open(&mut store, &mut registry, &elsewhere, request(1, primary()), 10),
        Err(SessionError::IdentityMismatch)
    ));
}

#[test]
fn close_affects_exactly_one_session() {
    let mut store = Store::new();
    let mut registry = SessionRegistry::new();
    let who = identity("tenant-a", AGENT, vec![primary()]);
    open(&mut store, &mut registry, &who, request(1, primary()), 10).unwrap();
    open(&mut store, &mut registry, &who, request(2, primary()), 10).unwrap();
    assert_eq!(registry.open_count(), 2);
    close(&mut store, &mut registry, SessionId([1; 32])).unwrap();
    assert_eq!(registry.open_count(), 1);
    assert!(!registry.get(SessionId([1; 32])).unwrap().open);
    assert!(registry.get(SessionId([2; 32])).unwrap().open);
    assert!(matches!(
        close(&mut store, &mut registry, SessionId([1; 32])),
        Err(SessionError::AlreadyClosed)
    ));
    assert!(matches!(
        close(&mut store, &mut registry, SessionId([3; 32])),
        Err(SessionError::NotFound)
    ));
    let key = TenantKey::new(tenant("tenant-a"), ObjectKind::Session, vec![1; 32]).unwrap();
    let stored = decode_session(store.get(&key).unwrap().bytes(), tenant("tenant-a")).unwrap();
    assert!(!stored.open);
}

#[test]
fn restore_reads_back_what_open_persisted() {
    let mut store = Store::new();
    let mut registry = SessionRegistry::new();
    let who = identity("tenant-a", AGENT, vec![primary()]);
    open(&mut store, &mut registry, &who, request(1, primary()), 10).unwrap();
    open(&mut store, &mut registry, &who, request(2, primary()), 10).unwrap();
    close(&mut store, &mut registry, SessionId([2; 32])).unwrap();
    let mut restored = SessionRegistry::new();
    restored.restore_tenant(&store, &tenant("tenant-a")).unwrap();
    assert_eq!(restored.open_count(), 1);
    for id in [1u8, 2u8] {
        let original = registry.get(SessionId([id; 32])).unwrap();
        let back = restored.get(SessionId([id; 32])).unwrap();
        assert_eq!(encode_session(back).unwrap(), encode_session(original).unwrap());
        assert_eq!(back.request.tenant.as_str(), "tenant-a");
    }
    let mut other = SessionRegistry::new();
    other.restore_tenant(&store, &tenant("tenant-b")).unwrap();
    assert_eq!(other.open_count(), 0);
    assert!(matches!(
        restored.restore_tenant(&store, &tenant("tenant-a")),
        Err(SessionError::IdentityMismatch)
    ));
}

#[test]
fn decoding_refuses_damaged_records_by_field() {
    let mut store = Store::new();
    let mut registry = SessionRegistry::new();
    let who = identity("tenant-a", AGENT, vec![primary()]);
    open(&mut store, &mut registry, &who, request(1, primary()), 10).unwrap();
    let good = encode_session(registry.get(SessionId([1; 32])).unwrap()).unwrap();
    let field = |bytes: &[u8]| match decode_session(bytes, tenant("tenant-a")) {
        Err(SessionError::MissingField(f)) => f,
        other => panic!("unexpected {other:?}"),
    };
    assert_eq!(field(&good[..5]), "record");
    let mut magic = good.clone();
    magic[5] = b'1';
    assert_eq!(field(&magic), "record_version");
    let mut state = good.clone();
    state[78] = 2;
    assert_eq!(field(&state), "open");
    let mut trailing = good.clone();
    trailing.push(0);
    assert_eq!(field(&trailing), "record");
    let authority_at = 111 + 2 + 3 + 2 + 2 + 2 + AGENT.len();
    let mut authority = good.clone();
    authority[authority_at] = 9;
    assert_eq!(field(&authority), "authority");
    let mut text = good.clone();
    text[113] = 0xff;
    assert_eq!(field(&text), "text");
    let decoded = decode_session(&good, tenant("tenant-a")).unwrap();
    assert_eq!(encode_session(&decoded).unwrap(), good);
}

#[test]
fn revocation_closes_matching_sessions_and_handles_their_activities() {
    let mut store = Store::new();
    let mut registry = SessionRegistry::new();
    let who = identity("tenant-a", AGENT, vec![primary(), session_key()]);
    open(&mut store, &mut registry, &who, request(1, primary()), 10).unwrap();
    open(&mut store, &mut registry, &who, request(2, session_key()), 10).unwrap();
    open(&mut store, &mut registry, &who, request(3, session_key()), 10).unwrap();
    let activity = |id: u8, state: PreparationState| PendingActivity {
        session: SessionId([id; 32]),
        state,
        cancelled: false,
        resolution_continues: false,
    };
    let mut activities = vec![
        activity(1, PreparationState::Prepared),
        activity(2, PreparationState::Signed),
        activity(2, PreparationState::Queued),
        activity(3, PreparationState::Executed),
        activity(3, PreparationState::Unknown),
    ];
    let event = RevocationEvent {
        did: AGENT.to_owned(),
        authority: Some(session_key()),
        reason: InvalidationReason::SessionKeyRevoked,
        observed_sequence: 12,
    };
    let report = invalidate_on_revocation(&mut store, &mut registry, &mut activities, &event).unwrap();
    assert_eq!(report.reason, InvalidationReason::SessionKeyRevoked);
    assert_eq!(report.observed_sequence, 12);
    assert_eq!(report.invalidated_sessions, vec![SessionId([2; 32]), SessionId([3; 32])]);
    assert_eq!(report.cancelled_preparations, 1);
    assert_eq!(report.unresolved_left_for_resolution, 2);
    assert_eq!(report.executed_untouched, 1);
    assert!(!activities[0].cancelled);
    assert!(activities[1].cancelled);
    assert!(activities[2].resolution_continues && !activities[2].cancelled);
    assert!(!activities[3].cancelled && !activities[3].resolution_continues);
    assert!(activities[4].resolution_continues);
    assert_eq!(registry.open_count(), 1);
    assert!(registry.get(SessionId([1; 32])).unwrap().open);
    let key = TenantKey::new(tenant("tenant-a"), ObjectKind::Session, vec![3; 32]).unwrap();
    assert!(!decode_session(store.get(&key).unwrap().bytes(), tenant("tenant-a")).unwrap().open);

    let everything = RevocationEvent {
        did: AGENT.to_owned(),
        authority: None,
        reason: InvalidationReason::IdentityFrozen,
        observed_sequence: 13,
    };
    let report =
        invalidate_on_revocation(&mut store, &mut registry, &mut activities, &everything).unwrap();
    assert_eq!(report.invalidated_sessions, vec![SessionId([1; 32])]);
    assert_eq!(registry.open_count(), 0);
}
