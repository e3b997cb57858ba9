use layerx_agentd::bytes::{compare_bytes, read_sized, starts_with, Precedence};
use layerx_agentd::store::TenantId;
use layerx_agentd::tenant::{
    AuthorizationError, AuthorizationOutcome, OperationClass, Surface, TenantObservability,
};
use layerx_agentd::text::{same_text, to_hex};

fn tenant(name: &str) -> TenantId {
    TenantId::new(name.to_owned()).unwrap()
}

#[test]
fn operation_classes_map_to_scopes() {
    assert_eq!(OperationClass::Read.scope(), "read");
    assert_eq!(OperationClass::Write.scope(), "write");
    assert_eq!(OperationClass::ALL.len(), 6);
    assert_eq!(Surface::ALL.len(), 7);
}

#[test]
fn refusals_are_never_recorded_as_allowed() {
    assert_eq!(AuthorizationError::Expired.outcome(), AuthorizationOutcome::Expired);
    assert_eq!(AuthorizationError::NotAuthorized.outcome(), AuthorizationOutcome::NotAuthorized);
}

#[test]
fn attempts_are_audited_counted_and_traced() {
    let mut observability = TenantObservability::new();
    observability.record(&tenant("a"), [1; 32], Surface::Mcp, "prepare", AuthorizationOutcome::Allowed);
    observability.record(&tenant("a"), [2; 32], Surface::Mcp, "prepare", AuthorizationOutcome::Allowed);
    observability.record(&tenant("b"), [3; 32], Surface::Export, "export", AuthorizationOutcome::Revoked);
    assert_eq!(observability.audit().len(), 3);
    assert_eq!(observability.audit()[2].token_correlation, [3; 32]);
    assert_eq!(observability.traces().len(), 3);
    assert_eq!(observability.traces()[0].operation, "prepare");
    let counts: Vec<u64> = observability.metrics().iter().map(|(_, n)| *n).collect();
    assert_eq!(counts, vec![2, 1]);
    assert_eq!(observability.metrics()[1].0.outcome, AuthorizationOutcome::Revoked);
}

#[test]
fn hex_and_byte_helpers() {
    assert_eq!(to_hex(&[0x00, 0x0f, 0xa0, 0xff]), "000fa0ff");
    assert!(same_text("ké", "ké"));
    assert!(!same_text("ké", "ke"));
    assert_eq!(compare_bytes(b"ab", b"abc"), Precedence::Before);
    assert_eq!(compare_bytes(b"b", b"abc"), Precedence::After);
    assert_eq!(compare_bytes(b"x", b"x"), Precedence::Same);
    assert!(starts_with(b"LXAS1", b"LXAS"));
    let framed = [0, 0, 0, 2, 9, 9, 7];
    assert_eq!(read_sized(&framed, 0), Some((4, 6)));
    assert_eq!(read_sized(&framed, 4), None);
}
