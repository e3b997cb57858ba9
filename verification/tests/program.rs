use layerx_agentd::ops::program::ProgramSimulationEvidence;

fn evidence() -> ProgramSimulationEvidence {
    ProgramSimulationEvidence {
        boundary_id: [1; 32],
        activity_id: [2; 32],
        previous_state_root: [3; 32],
        hypothetical_state_root: [4; 32],
        observed_sequence: 5,
        observed_at: 6,
        committed: false,
    }
}

fn hex(bytes: &[u8]) -> String {
    bytes.iter().map(|b| format!("{b:02x}")).collect()
}

#[test]
fn committed_lie_is_refused_before_signature_authority() {
    let mut value = evidence();
    value.committed = true;
    assert!(!value.matches_context([1; 32], [2; 32], [3; 32], [4; 32], 5, 6));
}

#[test]
fn stale_discovery_root_is_refused() {
    assert!(!evidence().matches_context([1; 32], [2; 32], [9; 32], [4; 32], 5, 6));
}

#[test]
fn stale_sequence_and_freshness_are_refused() {
    assert!(!evidence().matches_context([1; 32], [2; 32], [3; 32], [4; 32], 7, 8));
}

#[test]
fn matching_uncommitted_evidence_is_accepted() {
    assert!(evidence().matches_context([1; 32], [2; 32], [3; 32], [4; 32], 5, 6));
    assert!(!evidence().matches_context([9; 32], [2; 32], [3; 32], [4; 32], 5, 6));
}

#[test]
fn signing_digest_covers_domain_and_every_field() {
    let value = evidence();
    assert_eq!(
        hex(&value.signing_digest()),
        "090ee6741d4ed044bd59bda037d99a81b76b23927d25bccafed7f8b8c5a00c37"
    );
    let mut committed = evidence();
    committed.committed = true;
    assert_ne!(committed.signing_digest(), value.signing_digest());
}
