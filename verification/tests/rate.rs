use layerx_agentd::limits::rate::{
    CounterLedger, LimitConfig, LimitId, LimitScope, RateLimiter, RateRequest, Refusal, Window,
};

fn id(name: &str) -> LimitId {
    LimitId::new(name.to_owned()).unwrap()
}

fn tenant_limit(name: &str, limit: u64) -> LimitConfig {
    LimitConfig { id: id(name), scope: LimitScope::Tenant { tenant: "acme".to_owned() }, limit, window_ms: 1_000 }
}

fn request(at: u64, cost: u64) -> RateRequest {
    RateRequest {
        tenant: "acme".to_owned(),
        agent: "agent".to_owned(),
        session: "s".to_owned(),
        capability: "c".to_owned(),
        operation_class: "write".to_owned(),
        logical_time_ms: at,
        cost,
    }
}

#[test]
fn limit_identifiers_are_validated() {
    assert_eq!(LimitId::new(String::new()), Err(Refusal::InvalidConfiguration));
    assert_eq!(id("x").as_str(), "x");
}

#[test]
fn configuration_is_checked() {
    assert_eq!(RateLimiter::new(vec![]).unwrap_err(), Refusal::InvalidConfiguration);
    assert_eq!(
        RateLimiter::new(vec![tenant_limit("a", 1), tenant_limit("a", 2)]).unwrap_err(),
        Refusal::InvalidConfiguration
    );
    assert_eq!(RateLimiter::new(vec![tenant_limit("a", 0)]).unwrap_err(), Refusal::InvalidConfiguration);
}

#[test]
fn fixed_windows_count_and_refuse_atomically() {
    let limiter = RateLimiter::new(vec![
        tenant_limit("t", 3),
        LimitConfig {
            id: id("agent"),
            scope: LimitScope::Agent { tenant: "acme".to_owned(), agent: "agent".to_owned() },
            limit: 2,
            window_ms: 1_000,
        },
    ])
    .unwrap();
    let mut ledger = CounterLedger::shared();
    let first = limiter.admit_request(&mut ledger, &request(1_500, 1)).unwrap();
    assert_eq!(first.applied_limits, vec![id("agent"), id("t")]);
    limiter.admit_request(&mut ledger, &request(1_600, 1)).unwrap();
    match limiter.admit_request(&mut ledger, &request(1_700, 1)) {
        Err(Refusal::Exceeded { limit, window, remaining, retry_after_ms }) => {
            assert_eq!(limit.id, id("agent"));
            assert_eq!(window, Window { start_ms: 1_000, end_ms: 2_000 });
            assert_eq!(remaining, 0);
            assert_eq!(retry_after_ms, 300);
        },
        other => panic!("unexpected {other:?}"),
    }
    let usage = limiter.utilization(&ledger, "acme", 1_800).unwrap();
    let tenant_usage = usage.iter().find(|u| u.config.id == id("t")).unwrap();
    assert_eq!((tenant_usage.used, tenant_usage.remaining), (2, 1));
    assert!(limiter.admit_request(&mut ledger, &request(2_000, 2)).is_ok());
}

#[test]
fn malformed_requests_are_refused() {
    let limiter = RateLimiter::new(vec![tenant_limit("t", 3)]).unwrap();
    let mut ledger = CounterLedger::shared();
    assert_eq!(limiter.admit_request(&mut ledger, &request(1, 0)), Err(Refusal::InvalidRequest));
    let mut other = request(1, 1);
    other.tenant = "other".to_owned();
    assert_eq!(limiter.admit_request(&mut ledger, &other), Err(Refusal::NoApplicableLimits));
}
