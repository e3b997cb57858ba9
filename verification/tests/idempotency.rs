use layerx_agentd::idempotency::{
    request_digest, EconomicResult, IdempotencyError, Outcome, ProtocolAttempt, RetentionPolicy,
    Store, MAX_REQUEST_BYTES, MAX_RESULT_BYTES,
};
use layerx_agentd::store::{decode_image, encode_image, ObjectKind, Store as DurableStore, TenantId, TenantKey};

fn tenant() -> TenantId {
    TenantId::new("acme".to_owned()).unwrap()
}

fn retention() -> RetentionPolicy {
    RetentionPolicy::new(100, 10).unwrap()
}

fn store() -> Store {
    Store::open(DurableStore::new(), tenant(), retention())
}

fn result(byte: u8) -> EconomicResult {
    EconomicResult { response_bytes: vec![byte; 3], receipt_ref: Some([byte; 32]) }
}

fn hex(bytes: &[u8]) -> String {
    bytes.iter().map(|b| format!("{b:02x}")).collect()
}

#[test]
fn retention_never_shorter_than_protocol() {
    assert!(matches!(RetentionPolicy::new(10, 0), Err(IdempotencyError::InvalidRetention)));
    assert!(matches!(RetentionPolicy::new(9, 10), Err(IdempotencyError::InvalidRetention)));
    assert_eq!(RetentionPolicy::new(10, 10).unwrap().daemon_sequences, 10);
}

#[test]
fn request_digest_is_domain_separated_sha256() {
    assert_eq!(
        hex(&request_digest(b"abc")),
        "92ae0e6fe3621df9f44bf6267235e8f7fb4c8805283657578ad447c16991d996"
    );
}

#[test]
fn repeated_request_returns_original_result() {
    let mut store = store();
    let mut seen: Vec<ProtocolAttempt> = Vec::new();
    let first = store
        .execute([1; 32], b"pay 5", 3, |attempt: ProtocolAttempt| {
            seen.push(attempt);
            Ok(result(7))
        })
        .unwrap();
    assert_eq!(first, Outcome::First(result(7)));
    assert_eq!(seen.len(), 1);
    assert!(!seen[0].retry);
    assert_eq!(seen[0].exact_request_bytes, b"pay 5".to_vec());
    assert_eq!(seen[0].request_digest, request_digest(b"pay 5"));
    let again = store
        .execute([1; 32], b"pay 5", 4, |_attempt: ProtocolAttempt| Ok(result(9)))
        .unwrap();
    assert_eq!(again, Outcome::RepeatedOriginal(result(7)));
}

#[test]
fn different_request_under_same_key_conflicts() {
    let mut store = store();
    store.execute([1; 32], b"pay 5", 3, |_a: ProtocolAttempt| Ok(result(7))).unwrap();
    match store.execute([1; 32], b"pay 6", 3, |_a: ProtocolAttempt| Ok(result(8))) {
        Err(IdempotencyError::Conflict(conflict)) => {
            assert_eq!(conflict.key, [1; 32]);
            assert_eq!(conflict.original_request_digest, request_digest(b"pay 5"));
            assert_eq!(conflict.repeated_request_digest, request_digest(b"pay 6"));
        },
        other => panic!("unexpected {other:?}"),
    }
}

#[test]
fn invalid_requests_are_refused() {
    let mut store = store();
    let op = |_a: ProtocolAttempt| Ok(result(1));
    assert!(matches!(store.execute([0; 32], b"x", 1, op), Err(IdempotencyError::InvalidRequest)));
    assert!(matches!(store.execute([1; 32], b"", 1, op), Err(IdempotencyError::InvalidRequest)));
    let long = vec![1u8; MAX_REQUEST_BYTES + 1];
    assert!(matches!(store.execute([1; 32], &long, 1, op), Err(IdempotencyError::InvalidRequest)));
}

#[test]
fn failed_operation_is_retried_with_original_bytes() {
    let mut store = store();
    let failed = store.execute([2; 32], b"first bytes", 1, |_a: ProtocolAttempt| Err("offline".to_owned()));
    assert!(matches!(failed, Err(IdempotencyError::Operation(ref m)) if m == "offline"));
    let mut seen: Vec<ProtocolAttempt> = Vec::new();
    let retried = store
        .execute([2; 32], b"first bytes", 2, |attempt: ProtocolAttempt| {
            seen.push(attempt);
            Ok(result(4))
        })
        .unwrap();
    assert_eq!(retried, Outcome::RepeatedOriginal(result(4)));
    assert!(seen[0].retry);
    assert_eq!(seen[0].exact_request_bytes, b"first bytes".to_vec());
}

#[test]
fn oversized_result_leaves_record_pending() {
    let mut store = store();
    let big = EconomicResult { response_bytes: vec![0; MAX_RESULT_BYTES + 1], receipt_ref: None };
    let outcome = store.execute([3; 32], b"r", 1, move |_a: ProtocolAttempt| Ok(big));
    assert!(matches!(outcome, Err(IdempotencyError::ResultTooLarge)));
    let retried = store.execute([3; 32], b"r", 1, |_a: ProtocolAttempt| Ok(result(2))).unwrap();
    assert_eq!(retried, Outcome::RepeatedOriginal(result(2)));
}

#[test]
fn records_survive_a_restart() {
    let mut store = store();
    store.execute([5; 32], b"keep", 1, |_a: ProtocolAttempt| Ok(result(6))).unwrap();
    let image = encode_image(store.durable()).unwrap();
    let durable = decode_image(&image).unwrap();
    let mut reopened = Store::open(durable, tenant(), retention());
    assert_eq!(reopened.restore(&[[5; 32], [6; 32]]).unwrap(), 1);
    let again = reopened
        .execute([5; 32], b"keep", 2, |_a: ProtocolAttempt| Ok(result(9)))
        .unwrap();
    assert_eq!(again, Outcome::RepeatedOriginal(result(6)));
}

#[test]
fn unreadable_record_is_corrupt_on_restore() {
    let mut durable = DurableStore::new();
    let key = TenantKey::new(tenant(), ObjectKind::Idempotency, vec![8; 32]).unwrap();
    durable.put_local(key, b"not a record".to_vec()).unwrap();
    let mut reopened = Store::open(durable, tenant(), retention());
    assert!(matches!(reopened.restore(&[[8; 32]]), Err(IdempotencyError::Corrupt)));
}

#[test]
fn sweep_removes_only_expired_records() {
    let mut store = store();
    store.execute([1; 32], b"old", 10, |_a: ProtocolAttempt| Ok(result(1))).unwrap();
    store.execute([2; 32], b"new", 50, |_a: ProtocolAttempt| Ok(result(2))).unwrap();
    assert_eq!(store.sweep(109).unwrap(), 0);
    assert_eq!(store.sweep(110).unwrap(), 1);
    let key = TenantKey::new(tenant(), ObjectKind::Idempotency, vec![1; 32]).unwrap();
    assert!(store.durable().get(&key).is_none());
    let replay = store.execute([1; 32], b"other", 111, |_a: ProtocolAttempt| Ok(result(3))).unwrap();
    assert_eq!(replay, Outcome::First(result(3)));
    let kept = store.execute([2; 32], b"new", 111, |_a: ProtocolAttempt| Ok(result(9))).unwrap();
    assert_eq!(kept, Outcome::RepeatedOriginal(result(2)));
}

#[test]
fn saturating_retention_never_expires_late_records() {
    let mut store = Store::open(DurableStore::new(), tenant(), RetentionPolicy::new(u64::MAX, 1).unwrap());
    store.execute([1; 32], b"x", 5, |_a: ProtocolAttempt| Ok(result(1))).unwrap();
    assert_eq!(store.sweep(u64::MAX - 1).unwrap(), 0);
    assert_eq!(store.sweep(u64::MAX).unwrap(), 1);
}
