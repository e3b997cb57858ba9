use layerx_agentd::limits::admission::Priority;
use layerx_agentd::limits::quota::{
    ClientActivity, Quota, QuotaError, Resource, SheddingPolicy, SheddingReason, TenantQuota,
};
use layerx_agentd::store::{Store, TenantId};

fn tenant(name: &str) -> TenantId {
    TenantId::new(name.to_owned()).unwrap()
}

fn limits(subscriptions: usize) -> Vec<(Resource, usize)> {
    Resource::ALL.iter().map(|r| (*r, if *r == Resource::Subscription { subscriptions } else { 10 })).collect()
}

fn policy() -> SheddingPolicy {
    SheddingPolicy {
        window_ms: 1_000,
        maximum_requests: 100,
        maximum_retries: 2,
        maximum_identical_operations: 50,
        shed_for_ms: 5_000,
    }
}

fn quota(subscriptions: usize) -> Quota {
    let tq = TenantQuota::new(tenant("acme"), limits(subscriptions)).unwrap();
    Quota::new(vec![tq], policy()).unwrap()
}

fn retry(at: u64) -> ClientActivity {
    ClientActivity {
        tenant: tenant("acme"),
        client_id: "cli".to_owned(),
        operation_digest: [at as u8; 32],
        retry: true,
        observed_at_ms: at,
    }
}

#[test]
fn tenant_quota_needs_every_nonzero_limit() {
    let mut partial = limits(1);
    partial.pop();
    assert!(matches!(TenantQuota::new(tenant("acme"), partial), Err(QuotaError::InvalidConfiguration)));
    assert!(matches!(TenantQuota::new(tenant("acme"), limits(0)), Err(QuotaError::InvalidConfiguration)));
    let mut later = limits(0);
    later.push((Resource::Subscription, 3));
    assert!(TenantQuota::new(tenant("acme"), later).is_ok());
}

#[test]
fn shedding_policy_counters_must_be_positive() {
    let tq = TenantQuota::new(tenant("acme"), limits(1)).unwrap();
    let mut bad = policy();
    bad.shed_for_ms = 0;
    assert!(matches!(Quota::new(vec![tq], bad), Err(QuotaError::InvalidConfiguration)));
}

#[test]
fn resources_stop_at_the_limit() {
    let quota = quota(1);
    let mut store = Store::new();
    quota
        .create_resource(&mut store, &tenant("acme"), "cli", Resource::Subscription, b"s1".to_vec(), b"x".to_vec(), 1)
        .unwrap();
    quota
        .create_resource(&mut store, &tenant("acme"), "cli", Resource::Subscription, b"s1".to_vec(), b"y".to_vec(), 2)
        .unwrap();
    match quota.create_resource(&mut store, &tenant("acme"), "cli", Resource::Subscription, b"s2".to_vec(), b"z".to_vec(), 3) {
        Err(QuotaError::Exhausted { resource, used, limit, .. }) => {
            assert_eq!((resource, used, limit), (Resource::Subscription, 1, 1));
        },
        other => panic!("unexpected {other:?}"),
    }
    let health = quota.health(&store, &tenant("acme"), 4).unwrap();
    let subscriptions = health.resources.iter().find(|u| u.resource == Resource::Subscription).unwrap();
    assert_eq!((subscriptions.used, subscriptions.limit, subscriptions.remaining), (1, 1, 0));
    assert!(health.actively_shed_clients.is_empty());
}

#[test]
fn unconfigured_tenants_and_bad_clients_are_refused() {
    let quota = quota(1);
    let store = Store::new();
    assert!(matches!(
        quota.admit_work(&store, &tenant("other"), "cli", Priority::InteractiveRead, 1),
        Err(QuotaError::UnconfiguredTenant(_))
    ));
    assert!(matches!(
        quota.admit_work(&store, &tenant("acme"), "", Priority::InteractiveRead, 1),
        Err(QuotaError::InvalidClient)
    ));
    assert!(quota.admit_work(&store, &tenant("acme"), "cli", Priority::InteractiveRead, 1).is_ok());
}

#[test]
fn retry_storms_shed_noncritical_work_only() {
    let mut quota = quota(1);
    let mut store = Store::new();
    assert!(quota.observe_activity(&mut store, retry(10)).unwrap().is_none());
    assert!(quota.observe_activity(&mut store, retry(11)).unwrap().is_none());
    let decision = quota.observe_activity(&mut store, retry(12)).unwrap().unwrap();
    assert_eq!(decision.reason, SheddingReason::RetryStorm);
    assert_eq!(decision.retries_in_window, 3);
    assert_eq!(decision.shed_until_ms, 5_012);
    match quota.admit_work(&store, &tenant("acme"), "cli", Priority::BulkRead, 20) {
        Err(QuotaError::ClientShed { reason, retry_after_ms, .. }) => {
            assert_eq!(reason, SheddingReason::RetryStorm);
            assert_eq!(retry_after_ms, 4_992);
        },
        other => panic!("unexpected {other:?}"),
    }
    assert!(quota.admit_work(&store, &tenant("acme"), "cli", Priority::Submission, 20).is_ok());
    assert!(quota.admit_work(&store, &tenant("acme"), "other", Priority::BulkRead, 20).is_ok());
    assert!(quota.admit_work(&store, &tenant("acme"), "cli", Priority::BulkRead, 5_012).is_ok());
    let health = quota.health(&store, &tenant("acme"), 30).unwrap();
    assert_eq!(health.actively_shed_clients, vec!["cli".to_owned()]);
}

#[test]
fn observations_may_not_go_back_in_time() {
    let mut quota = quota(1);
    let mut store = Store::new();
    quota.observe_activity(&mut store, retry(10)).unwrap();
    assert!(matches!(quota.observe_activity(&mut store, retry(9)), Err(QuotaError::TimeRegressed)));
}

#[test]
fn shedding_reason_codes_are_stable() {
    assert_eq!(SheddingReason::RetryStorm.code(), 1);
    assert_eq!(SheddingReason::HotLoop.code(), 2);
    assert_eq!(SheddingReason::PathologicalClient.code(), 3);
    assert_eq!(Resource::at(Resource::OutboxEntry.index()), Resource::OutboxEntry);
}
