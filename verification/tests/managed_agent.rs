use layerx_agentd::managed_agent::codec::{decode, encode, same_agent};
use layerx_agentd::managed_agent::observations::{
    budget_observation, key_policy_observation, observation_key, record_observation,
    record_session_observation, require_session_observation,
};
use layerx_agentd::managed_agent::records::{
    load_agent, protocol_grant, publish_creation, session_coordinates, validate_tenant,
};
use layerx_agentd::managed_agent::listing::{cursor_for, list};
use layerx_agentd::managed_agent::responses::{context, get, lifecycle_publish_digest};
use layerx_agentd::managed_agent::{
    parse_agent_digest, HumanAgentLifecycleSeed, HumanOperationError, ManagedAgent,
};
use layerx_agentd::store::{ObjectKind, Store, TenantId, TenantKey};

const DID: &str = "did:layerx:agent-7";

fn tenant() -> TenantId {
    TenantId::new("tenant-a".to_owned()).unwrap()
}

fn agent_id() -> String {
    format!("agt_{}", "01".repeat(32))
}

fn seed() -> HumanAgentLifecycleSeed {
    HumanAgentLifecycleSeed {
        agent_id: agent_id(),
        name: "Treasurer".to_owned(),
        purpose: "Pays invoices".to_owned(),
        currency: "USD".to_owned(),
        monthly_limit: 1_000,
        period_start: 10,
        period_end: 20,
        created_at: 5,
        updated_at: 6,
        verified_evidence: vec![[7; 32]],
        actor: "owner".to_owned(),
        primary_authority: "primary".to_owned(),
        custody_key: "custody".to_owned(),
        custody_public_key: [8; 32],
        owner_account: "acct-owner".to_owned(),
        budget_account: "acct-budget".to_owned(),
        budget_asset: [9; 32],
        purpose_hash: [10; 32],
        recovery_root: [11; 32],
        recovery_threshold: 2,
        capability_id: [12; 32],
        activity_types: vec![1, 2],
        counterparties: vec![[13; 32]],
        assets: vec![[14; 32]],
        amount_ceiling: 500,
        rate_maximum_uses: 3,
        rate_window_sequences: 100,
        purposes: vec!["invoices".to_owned()],
        capability_expiry_sequence: 900,
        session_scopes: vec!["pay".to_owned()],
        session_expiry_unix_seconds: 1_700_000_000,
        protocol_grant_id: [15; 32],
        budget_period_seconds: 2_592_000,
        budget_expiry_seconds: 31_536_000,
        initial_funding: 200,
        network_id: 1,
        creation_receipt_roots: vec![[16; 32]],
    }
}

fn agent() -> ManagedAgent {
    ManagedAgent::from_creation(&seed(), DID, [21; 32], [22; 32]).unwrap()
}

fn text(out: &mut Vec<u8>, value: &str) {
    out.extend_from_slice(&(value.len() as u32).to_be_bytes());
    out.extend_from_slice(value.as_bytes());
}

#[test]
fn creation_binds_the_agent_and_names_its_budget() {
    let a = agent();
    assert_eq!(a.state, 1);
    assert_eq!(a.spent, 0);
    assert_eq!(a.active_budget_id, [1; 32]);
    assert_eq!(a.agent_did, DID);
    assert_eq!(a.session_id, [21; 32]);
    assert_eq!(a.protocol_grant_id, [15; 32]);
    assert!(a.validate().is_ok());
    let refused = |s: HumanAgentLifecycleSeed, did: &str, session: [u8; 32]| {
        matches!(
            ManagedAgent::from_creation(&s, did, session, [22; 32]),
            Err(HumanOperationError::Refused)
        )
    };
    assert!(refused(seed(), "", [21; 32]));
    assert!(refused(seed(), DID, [0; 32]));
    assert!(refused(HumanAgentLifecycleSeed { monthly_limit: 0, ..seed() }, DID, [21; 32]));
    assert!(refused(HumanAgentLifecycleSeed { period_end: 10, ..seed() }, DID, [21; 32]));
    assert!(refused(HumanAgentLifecycleSeed { verified_evidence: vec![], ..seed() }, DID, [21; 32]));
    assert!(refused(HumanAgentLifecycleSeed { verified_evidence: vec![[0; 32]], ..seed() }, DID, [21; 32]));
    assert!(refused(HumanAgentLifecycleSeed { recovery_threshold: 0, ..seed() }, DID, [21; 32]));
    assert!(refused(HumanAgentLifecycleSeed { purposes: vec![], ..seed() }, DID, [21; 32]));
    assert!(refused(HumanAgentLifecycleSeed { agent_id: "agt_xyz".to_owned(), ..seed() }, DID, [21; 32]));
}

#[test]
fn agent_identifiers_name_lowercase_hex_digests() {
    let mut expected = [0u8; 32];
    expected[31] = 0xab;
    let id = format!("agt_{}ab", "00".repeat(31));
    assert_eq!(parse_agent_digest(&id).unwrap(), expected);
    assert!(parse_agent_digest(&format!("agt_{}", "00".repeat(32))).is_err());
    assert!(parse_agent_digest(&format!("agt_{}AB", "00".repeat(31))).is_err());
    assert!(parse_agent_digest(&format!("agx_{}", "01".repeat(32))).is_err());
    assert!(parse_agent_digest(&format!("agt_{}", "01".repeat(31))).is_err());
}

#[test]
fn records_decode_to_what_was_encoded() {
    let a = agent();
    let bytes = encode(&a).unwrap();
    assert_eq!(bytes[0], 3);
    let back = decode(&bytes).unwrap();
    assert!(same_agent(&back, &a));
    let mut version = bytes.clone();
    version[0] = 2;
    assert_eq!(decode(&version).unwrap_err(), HumanOperationError::Refused);
    let mut trailing = bytes.clone();
    trailing.push(0);
    assert!(decode(&trailing).is_err());
    assert!(decode(&bytes[..bytes.len() - 1]).is_err());
    let mut spent = agent();
    spent.spent = 2_000;
    assert!(decode(&encode(&spent).unwrap()).is_err());
}

#[test]
fn publishing_is_idempotent_and_refuses_a_different_agent() {
    let mut store = Store::new();
    publish_creation(&mut store, &tenant(), agent()).unwrap();
    publish_creation(&mut store, &tenant(), agent()).unwrap();
    let mut renamed = agent();
    renamed.name = "Other".to_owned();
    assert_eq!(
        publish_creation(&mut store, &tenant(), renamed).unwrap_err(),
        HumanOperationError::Refused
    );
    let loaded = load_agent(&store, &tenant(), &agent_id()).unwrap();
    assert!(same_agent(&loaded, &agent()));
    let (did, session, token) = session_coordinates(&store, &tenant(), &agent_id()).unwrap();
    assert_eq!((did.as_str(), session, token), (DID, [21; 32], [22; 32]));
    assert_eq!(protocol_grant(&store, &tenant(), &agent_id()).unwrap(), [15; 32]);
    assert!(load_agent(&store, &tenant(), "agt_missing").is_err());
    validate_tenant(&store, &tenant()).unwrap();
    let stray = TenantKey::new(tenant(), ObjectKind::Configuration, b"managed-agent-v1:stray".to_vec())
        .unwrap();
    store.put_local(stray, vec![1, 2, 3]).unwrap();
    assert!(validate_tenant(&store, &tenant()).is_err());
}

#[test]
fn descriptions_carry_the_agent_fields() {
    let mut store = Store::new();
    publish_creation(&mut store, &tenant(), agent()).unwrap();
    let described = get(&store, &tenant(), &agent_id()).unwrap();
    let mut expected = Vec::new();
    text(&mut expected, &agent_id());
    text(&mut expected, "Treasurer");
    assert!(described.starts_with(&expected));
    let mut tail = Vec::new();
    text(&mut tail, &"07".repeat(32));
    text(&mut tail, "agent-creation");
    tail.push(3);
    assert!(described.ends_with(&tail));
    let ctx = context(&store, &tenant(), &agent_id()).unwrap();
    let mut head = Vec::new();
    text(&mut head, &agent_id());
    assert!(ctx.starts_with(&head));
    assert_eq!(&ctx[ctx.len() - 8..], &6u64.to_be_bytes());
}

#[test]
fn observations_are_recorded_once() {
    let mut store = Store::new();
    assert!(record_observation(&mut store, &tenant(), 1, [0; 32], vec![1]).is_err());
    assert!(record_observation(&mut store, &tenant(), 1, [5; 32], vec![]).is_err());
    record_observation(&mut store, &tenant(), 1, [5; 32], vec![1, 2]).unwrap();
    record_observation(&mut store, &tenant(), 1, [5; 32], vec![1, 2]).unwrap();
    assert!(record_observation(&mut store, &tenant(), 1, [5; 32], vec![9]).is_err());
    let key = observation_key(&tenant(), 1, &[5; 32]);
    assert_eq!(store.get(&key).unwrap().bytes(), &[1, 2]);
}

fn budget_bytes(budget: [u8; 32], digest: [u8; 32], observed: u64, remaining: u128) -> Vec<u8> {
    let mut b = Vec::new();
    b.extend_from_slice(&budget);
    b.extend_from_slice(&[0; 8]);
    b.extend_from_slice(&observed.to_be_bytes());
    b.push(4);
    b.extend_from_slice(&digest);
    b.extend_from_slice(&[1; 32]);
    b.extend_from_slice(&[2; 32]);
    b.extend_from_slice(&10u64.to_be_bytes());
    b.extend_from_slice(&60u64.to_be_bytes());
    b.extend_from_slice(&remaining.to_be_bytes());
    b.extend_from_slice(&[3; 32]);
    assert_eq!(b.len(), 209);
    b
}

#[test]
fn budget_observations_are_checked_field_by_field() {
    let mut store = Store::new();
    let digest = [40; 32];
    let budget = [1; 32];
    assert_eq!(
        budget_observation(&store, &tenant(), digest, budget, 0, false).unwrap_err(),
        HumanOperationError::Unavailable
    );
    assert_eq!(
        budget_observation(&store, &tenant(), [0; 32], budget, 0, false).unwrap_err(),
        HumanOperationError::Refused
    );
    record_observation(&mut store, &tenant(), 1, digest, budget_bytes(budget, digest, 50, 7)).unwrap();
    budget_observation(&store, &tenant(), digest, budget, 50, false).unwrap();
    assert!(budget_observation(&store, &tenant(), digest, budget, 51, false).is_err());
    assert!(budget_observation(&store, &tenant(), digest, budget, 0, true).is_err());
    assert!(budget_observation(&store, &tenant(), digest, [2; 32], 0, false).is_err());
    let drained = [41; 32];
    record_observation(&mut store, &tenant(), 1, drained, budget_bytes(budget, drained, 50, 0)).unwrap();
    budget_observation(&store, &tenant(), drained, budget, 0, true).unwrap();
}

#[test]
fn key_policy_observations_fix_the_delay() {
    let mut store = Store::new();
    let digest = [50; 32];
    let mut b = Vec::new();
    text(&mut b, DID);
    b.push(1);
    for value in [1u64, 30, 100, 5, 9] {
        b.extend_from_slice(&value.to_be_bytes());
    }
    b.push(4);
    b.extend_from_slice(&digest);
    b.extend_from_slice(&[6; 32]);
    b.extend_from_slice(&2u64.to_be_bytes());
    b.extend_from_slice(&10u64.to_be_bytes());
    record_observation(&mut store, &tenant(), 2, digest, b).unwrap();
    key_policy_observation(&store, &tenant(), digest, DID, true, 30, 130, 100).unwrap();
    assert!(key_policy_observation(&store, &tenant(), digest, DID, false, 30, 130, 100).is_err());
    assert!(key_policy_observation(&store, &tenant(), digest, DID, true, 30, 131, 100).is_err());
    assert!(key_policy_observation(&store, &tenant(), digest, "did:other", true, 30, 130, 100).is_err());
    assert!(key_policy_observation(&store, &tenant(), digest, DID, true, 30, 30, u64::MAX).is_err());
    assert_eq!(
        key_policy_observation(&store, &tenant(), [51; 32], DID, true, 30, 130, 100).unwrap_err(),
        HumanOperationError::Unavailable
    );
}

#[test]
fn session_observations_bind_the_agent_session() {
    let mut store = Store::new();
    publish_creation(&mut store, &tenant(), agent()).unwrap();
    assert!(record_session_observation(&mut store, &tenant(), &agent_id(), [0; 32], true, true).is_err());
    assert!(record_session_observation(&mut store, &tenant(), &agent_id(), [30; 32], true, false).is_err());
    let bytes = record_session_observation(&mut store, &tenant(), &agent_id(), [30; 32], true, true).unwrap();
    let again = record_session_observation(&mut store, &tenant(), &agent_id(), [30; 32], true, false).unwrap();
    assert_eq!(bytes, again);
    let mut digest = [0u8; 32];
    digest.copy_from_slice(&bytes[bytes.len() - 32..]);
    require_session_observation(&store, &tenant(), &agent_id(), digest, true).unwrap();
    assert!(require_session_observation(&store, &tenant(), &agent_id(), digest, false).is_err());
    assert_eq!(
        require_session_observation(&store, &tenant(), &agent_id(), [77; 32], true).unwrap_err(),
        HumanOperationError::Unavailable
    );
}

#[test]
fn listing_pages_through_agents_in_identifier_order() {
    let mut store = Store::new();
    publish_creation(&mut store, &tenant(), agent()).unwrap();
    let second_id = format!("agt_{}", "02".repeat(32));
    let second = ManagedAgent::from_creation(
        &HumanAgentLifecycleSeed { agent_id: second_id.clone(), ..seed() },
        DID,
        [21; 32],
        [22; 32],
    )
    .unwrap();
    publish_creation(&mut store, &tenant(), second).unwrap();
    let first_page = list(&store, &tenant(), None, 1).unwrap();
    assert_eq!(first_page[0], 1);
    let mut first_id = Vec::new();
    text(&mut first_id, &agent_id());
    assert!(first_page[1..].starts_with(&first_id));
    let cursor = cursor_for(&agent_id());
    assert_eq!(first_page[first_page.len() - 33], 1);
    assert_eq!(&first_page[first_page.len() - 32..], &cursor);
    let second_page = list(&store, &tenant(), Some(cursor), 1).unwrap();
    assert_eq!(second_page[0], 1);
    let mut next_id = Vec::new();
    text(&mut next_id, &second_id);
    assert!(second_page[1..].starts_with(&next_id));
    assert_eq!(*second_page.last().unwrap(), 0);
    let whole = list(&store, &tenant(), None, 100).unwrap();
    assert_eq!(whole[0], 2);
    assert_eq!(*whole.last().unwrap(), 0);
    assert!(list(&store, &tenant(), None, 0).is_err());
    assert!(list(&store, &tenant(), None, 101).is_err());
    assert!(list(&store, &tenant(), Some([9; 32]), 1).is_err());
}

#[test]
fn publication_digests_depend_on_the_seed() {
    let a = lifecycle_publish_digest(&seed()).unwrap();
    assert_eq!(a, lifecycle_publish_digest(&seed()).unwrap());
    let b = lifecycle_publish_digest(&HumanAgentLifecycleSeed { network_id: 2, ..seed() }).unwrap();
    assert_ne!(a, b);
    assert!(lifecycle_publish_digest(&HumanAgentLifecycleSeed { actor: String::new(), ..seed() }).is_err());
}
