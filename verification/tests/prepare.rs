use layerx_agentd::prepare::expiry::{
    valid_transition, LifecycleError, LifecycleState, PayloadRedaction, PreparationAuthorization,
    PreparationLifecycle,
};
use layerx_agentd::prepare::{expire, retention_sweep};
use layerx_agentd::session::SessionId;
use layerx_agentd::store::TenantId;

fn signed(lifecycle: &mut PreparationLifecycle, id: u8, not_after: u64) {
    lifecycle.register([id; 32], not_after, [id + 1; 32], vec![[id + 2; 32]]).unwrap();
    lifecycle.transition([id; 32], LifecycleState::Signing, 1).unwrap();
    lifecycle.retain_signed_bytes([id; 32], vec![1, 2, 3], [id + 3; 32]).unwrap();
}

fn authorization(generation: u64) -> PreparationAuthorization {
    PreparationAuthorization {
        tenant: TenantId::new("acme".to_owned()).unwrap(),
        session: SessionId([4; 32]),
        generation,
    }
}

#[test]
fn lifecycle_edges_only_move_forward() {
    assert!(valid_transition(LifecycleState::Prepared, LifecycleState::Signing));
    assert!(valid_transition(LifecycleState::Submitted, LifecycleState::Executed));
    assert!(!valid_transition(LifecycleState::Prepared, LifecycleState::Signed));
    assert!(!valid_transition(LifecycleState::Executed, LifecycleState::Failed));
    assert!(!valid_transition(LifecycleState::Expired, LifecycleState::Prepared));
}

#[test]
fn preparations_follow_their_lifecycle() {
    let mut lifecycle = PreparationLifecycle::new();
    lifecycle.register([1; 32], 100, [2; 32], vec![]).unwrap();
    assert_eq!(lifecycle.register([1; 32], 100, [2; 32], vec![]), Err(LifecycleError::Duplicate));
    assert_eq!(
        lifecycle.transition([1; 32], LifecycleState::Signed, 1),
        Err(LifecycleError::InvalidTransition { from: LifecycleState::Prepared, to: LifecycleState::Signed })
    );
    assert_eq!(lifecycle.transition([9; 32], LifecycleState::Signing, 1), Err(LifecycleError::NotFound));
    assert_eq!(lifecycle.retain_signed_bytes([1; 32], vec![1], [3; 32]), Err(LifecycleError::InvalidTransition {
        from: LifecycleState::Prepared,
        to: LifecycleState::Signed,
    }));
    lifecycle.transition([1; 32], LifecycleState::Signing, 1).unwrap();
    assert_eq!(lifecycle.retain_signed_bytes([1; 32], vec![], [3; 32]), Err(LifecycleError::InvalidSignedBytes));
    lifecycle.retain_signed_bytes([1; 32], vec![5], [3; 32]).unwrap();
    assert_eq!(lifecycle.state([1; 32]), Ok(LifecycleState::Signed));
    assert_eq!(lifecycle.has_signed_bytes([1; 32]), Ok(true));
}

#[test]
fn submission_admission_respects_the_bound() {
    let mut lifecycle = PreparationLifecycle::new();
    signed(&mut lifecycle, 10, 100);
    assert_eq!(lifecycle.admit_submission([10; 32], 100), Ok(()));
    assert_eq!(lifecycle.admit_submission([10; 32], 101), Err(LifecycleError::PreparationExpired));
    assert_eq!(lifecycle.admit_submission([99; 32], 1), Err(LifecycleError::NotFound));
}

#[test]
fn log_lines_never_carry_the_payload() {
    let mut lifecycle = PreparationLifecycle::new();
    lifecycle.register([1; 32], 100, [0xaa; 32], vec![]).unwrap();
    assert_eq!(lifecycle.redacted_log([1; 32], PayloadRedaction::Omit), Err(LifecycleError::ActivityIdUnavailable));
    lifecycle.transition([1; 32], LifecycleState::Signing, 1).unwrap();
    lifecycle.retain_signed_bytes([1; 32], vec![7, 7, 7], [0x0f; 32]).unwrap();
    let omitted = lifecycle.redacted_log([1; 32], PayloadRedaction::Omit).unwrap();
    assert_eq!(omitted, format!("activity_id={} payload=[redacted]", "0f".repeat(32)));
    let digest = lifecycle.redacted_log([1; 32], PayloadRedaction::DigestOnly).unwrap();
    assert_eq!(digest, format!("activity_id={} payload=[redacted] payload_hash={}", "0f".repeat(32), "aa".repeat(32)));
}

#[test]
fn elapsed_preparations_expire_and_release_reservations() {
    let mut lifecycle = PreparationLifecycle::new();
    signed(&mut lifecycle, 10, 100);
    signed(&mut lifecycle, 20, 500);
    let release = |_id: [u8; 32]| -> Result<bool, LifecycleError> { Ok(true) };
    let report = expire(&mut lifecycle, &release, 200).unwrap();
    assert_eq!(report.expired_preparations, vec![[10; 32]]);
    assert_eq!(report.released_reservations, vec![[12; 32]]);
    assert_eq!(lifecycle.state([10; 32]), Ok(LifecycleState::Expired));
    assert_eq!(lifecycle.state([20; 32]), Ok(LifecycleState::Signed));
    let refusing = |_id: [u8; 32]| -> Result<bool, LifecycleError> { Err(LifecycleError::Reservation) };
    assert_eq!(expire(&mut lifecycle, &refusing, 600).unwrap_err(), LifecycleError::Reservation);
}

#[test]
fn retention_keeps_unresolved_signed_bytes() {
    let mut lifecycle = PreparationLifecycle::new();
    signed(&mut lifecycle, 10, 100);
    lifecycle.transition([10; 32], LifecycleState::Submitted, 2).unwrap();
    lifecycle.transition([10; 32], LifecycleState::Executed, 5).unwrap();
    signed(&mut lifecycle, 20, 100);
    lifecycle.transition([20; 32], LifecycleState::Submitted, 2).unwrap();
    lifecycle.transition([20; 32], LifecycleState::Unknown, 3).unwrap();
    let early = retention_sweep(&mut lifecycle, 10, 10);
    assert_eq!(early.discarded_terminal_signed_bytes, 0);
    let report = retention_sweep(&mut lifecycle, 15, 10);
    assert_eq!(report.discarded_terminal_signed_bytes, 1);
    assert_eq!(report.preserved_unresolved_signed_bytes, 1);
    assert_eq!(lifecycle.has_signed_bytes([10; 32]), Ok(false));
    assert_eq!(lifecycle.has_signed_bytes([20; 32]), Ok(true));
}

#[test]
fn token_bound_preparations_need_their_session_generation() {
    let mut lifecycle = PreparationLifecycle::new();
    assert_eq!(
        lifecycle.register_authorized([1; 32], 100, [2; 32], vec![], authorization(0)),
        Err(LifecycleError::InvalidAuthorization)
    );
    lifecycle.register_authorized([1; 32], 100, [2; 32], vec![[3; 32]], authorization(1)).unwrap();
    assert_eq!(lifecycle.transition([1; 32], LifecycleState::Signing, 1), Err(LifecycleError::AuthorizationRequired));
    assert_eq!(
        lifecycle.transition_authorized([1; 32], LifecycleState::Signing, 1, &authorization(2)),
        Err(LifecycleError::AuthorizationMismatch)
    );
    lifecycle.transition_authorized([1; 32], LifecycleState::Signing, 1, &authorization(1)).unwrap();
    let release = |_id: [u8; 32]| -> Result<bool, LifecycleError> { Ok(true) };
    let report = lifecycle.invalidate_authorizations(&[authorization(1)], 4, &release).unwrap();
    assert_eq!(report.cancelled_preparations, 1);
    assert_eq!(report.released_reservations, vec![[3; 32]]);
    assert_eq!(lifecycle.state([1; 32]), Ok(LifecycleState::Failed));
}
