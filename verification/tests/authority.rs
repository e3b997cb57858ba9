use layerx_agentd::human::lease::{lease_map_response, CoreLeaseAttestation};
use layerx_agentd::managed_agent::authority::{
    agent_budget_state, agent_key_policy, budget_state_acceptable, key_policy_acceptable,
    CoreBudgetState, CoreKeyPolicy,
};
use layerx_agentd::managed_agent::observations::{
    budget_observation, key_policy_observation, observation_key,
};
use layerx_agentd::managed_agent::HumanOperationError;
use layerx_agentd::store::{Store, TenantId};

fn tenant() -> TenantId {
    TenantId::new("tenant-a".to_owned()).unwrap()
}

fn attestation() -> CoreLeaseAttestation {
    CoreLeaseAttestation {
        lower_unix_ms: 1_000,
        lower_sequence: 10,
        upper_unix_ms: 2_000,
        upper_sequence: 20,
        observed_head_sequence: 15,
        canonical_bytes: vec![7, 8],
    }
}

#[test]
fn lease_window_rounds_start_down_and_end_up() {
    assert_eq!(attestation().map(1_000, 1_550).unwrap(), (10, 16));
    assert_eq!(attestation().map(1_099, 1_901).unwrap(), (10, 20));
    assert_eq!(attestation().map(1_100, 2_000).unwrap(), (11, 20));
}

#[test]
fn lease_window_refusals() {
    let refused = Err(HumanOperationError::Refused);
    // The last sequence does not pass the observed head.
    assert_eq!(attestation().map(1_000, 1_400), refused);
    // Outside the attested instants, or empty.
    assert_eq!(attestation().map(999, 1_600), refused);
    assert_eq!(attestation().map(1_000, 2_001), refused);
    assert_eq!(attestation().map(1_600, 1_600), refused);
    let mut a = attestation();
    a.canonical_bytes.clear();
    assert_eq!(a.map(1_000, 1_600), refused);
    let mut a = attestation();
    a.lower_sequence = 0;
    assert_eq!(a.map(1_000, 1_600), refused);
    let mut a = attestation();
    a.upper_unix_ms = 1_000;
    assert_eq!(a.map(1_000, 1_000), refused);
    let mut a = attestation();
    a.observed_head_sequence = 21;
    assert_eq!(a.map(1_000, 1_600), refused);
    // The product of the window and the sequence span exceeds 64 bits.
    let a = CoreLeaseAttestation {
        lower_unix_ms: 1,
        lower_sequence: 1,
        upper_unix_ms: u64::MAX,
        upper_sequence: u64::MAX,
        observed_head_sequence: 1,
        canonical_bytes: vec![1],
    };
    assert_eq!(a.map(1, u64::MAX), refused);
}

#[test]
fn lease_response_carries_window_head_and_attestation() {
    let r = lease_map_response(&attestation(), 1_000, 1_550).unwrap();
    let mut expected = Vec::new();
    expected.extend_from_slice(&10u64.to_be_bytes());
    expected.extend_from_slice(&16u64.to_be_bytes());
    expected.extend_from_slice(&15u64.to_be_bytes());
    expected.extend_from_slice(&2u32.to_be_bytes());
    expected.extend_from_slice(&[7, 8]);
    assert_eq!(r, expected);
    assert_eq!(
        lease_map_response(&attestation(), 1_000, 1_400),
        Err(HumanOperationError::Refused)
    );
}

fn budget_state() -> CoreBudgetState {
    CoreBudgetState {
        revocation_sequence: 3,
        observed_head_sequence: 50,
        verification: 4,
        evidence_digest: [40; 32],
        receipt_digest: [1; 32],
        checkpoint_digest: [2; 32],
        age_sequences: 10,
        maximum_age_sequences: 60,
        remaining: 7,
        asset: [3; 32],
    }
}

#[test]
fn budget_reports_are_checked() {
    assert!(budget_state_acceptable(&budget_state()));
    let mut s = budget_state();
    s.verification = 6;
    assert!(!budget_state_acceptable(&s));
    let mut s = budget_state();
    s.observed_head_sequence = 2;
    assert!(!budget_state_acceptable(&s));
    let mut s = budget_state();
    s.age_sequences = 61;
    assert!(!budget_state_acceptable(&s));
    let mut s = budget_state();
    s.asset = [0; 32];
    assert!(!budget_state_acceptable(&s));
}

#[test]
fn budget_state_is_answered_and_read_back() {
    let mut store = Store::new();
    let budget = [1; 32];
    assert_eq!(
        agent_budget_state(&mut store, &tenant(), [0; 32], budget_state()),
        Err(HumanOperationError::Refused)
    );
    let answer = agent_budget_state(&mut store, &tenant(), budget, budget_state()).unwrap();
    let mut expected = Vec::new();
    expected.extend_from_slice(&budget);
    expected.extend_from_slice(&3u64.to_be_bytes());
    expected.extend_from_slice(&50u64.to_be_bytes());
    expected.push(4);
    expected.extend_from_slice(&[40; 32]);
    expected.extend_from_slice(&[1; 32]);
    expected.extend_from_slice(&[2; 32]);
    expected.extend_from_slice(&10u64.to_be_bytes());
    expected.extend_from_slice(&60u64.to_be_bytes());
    expected.extend_from_slice(&7u128.to_be_bytes());
    expected.extend_from_slice(&[3; 32]);
    assert_eq!(answer, expected);
    let key = observation_key(&tenant(), 1, &[40; 32]);
    assert_eq!(store.get(&key).unwrap().bytes(), expected.as_slice());
    // What was recorded is read back as the budget observation.
    budget_observation(&store, &tenant(), [40; 32], budget, 50, false).unwrap();
    assert!(budget_observation(&store, &tenant(), [40; 32], budget, 51, false).is_err());
    assert!(budget_observation(&store, &tenant(), [40; 32], budget, 0, true).is_err());
    // The same report again is answered; a different one under the same digest is refused.
    assert_eq!(agent_budget_state(&mut store, &tenant(), budget, budget_state()).unwrap(), expected);
    let mut other = budget_state();
    other.remaining = 8;
    assert_eq!(
        agent_budget_state(&mut store, &tenant(), budget, other),
        Err(HumanOperationError::Refused)
    );
}

fn key_policy() -> CoreKeyPolicy {
    CoreKeyPolicy {
        policy_revision: 2,
        required_delay_seconds: 600,
        maximum_delay_seconds: 900,
        effective_sequence: 5,
        observed_head_sequence: 9,
        verification: 5,
        evidence_digest: [50; 32],
        checkpoint_digest: [4; 32],
        age_sequences: 1,
        maximum_age_sequences: 8,
    }
}

#[test]
fn key_policy_reports_are_checked() {
    assert!(key_policy_acceptable(&key_policy()));
    let mut s = key_policy();
    s.maximum_delay_seconds = 599;
    assert!(!key_policy_acceptable(&s));
    let mut s = key_policy();
    s.effective_sequence = 10;
    assert!(!key_policy_acceptable(&s));
    let mut s = key_policy();
    s.checkpoint_digest = [0; 32];
    assert!(!key_policy_acceptable(&s));
}

#[test]
fn key_policy_is_answered_and_read_back() {
    let mut store = Store::new();
    let did = "did:layerx:agent-7";
    assert_eq!(
        agent_key_policy(&mut store, &tenant(), "", false, key_policy()),
        Err(HumanOperationError::Refused)
    );
    let answer = agent_key_policy(&mut store, &tenant(), did, true, key_policy()).unwrap();
    let mut expected = Vec::new();
    expected.extend_from_slice(&(did.len() as u32).to_be_bytes());
    expected.extend_from_slice(did.as_bytes());
    expected.push(1);
    for v in [2u64, 600, 900, 5, 9] {
        expected.extend_from_slice(&v.to_be_bytes());
    }
    expected.push(5);
    expected.extend_from_slice(&[50; 32]);
    expected.extend_from_slice(&[4; 32]);
    expected.extend_from_slice(&1u64.to_be_bytes());
    expected.extend_from_slice(&8u64.to_be_bytes());
    assert_eq!(answer, expected);
    key_policy_observation(&store, &tenant(), [50; 32], did, true, 600, 1_600, 1_000).unwrap();
    assert!(key_policy_observation(&store, &tenant(), [50; 32], did, false, 600, 1_600, 1_000).is_err());
    assert!(key_policy_observation(&store, &tenant(), [50; 32], did, true, 601, 1_601, 1_000).is_err());
}
