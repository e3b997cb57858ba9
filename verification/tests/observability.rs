use layerx_agentd::obs::health::{
    evaluate, guard_write, BoundaryConnectivity, DegradedMode, HealthInput, WriteBlocker,
    WriteReadiness,
};
use layerx_agentd::obs::metrics::{valid_label, MetricKind, MetricLabel, MetricPoint, Metrics, MetricsError};
use layerx_agentd::obs::trace::{Trace, TraceError, TraceOutcome, TraceStage};
use layerx_agentd::store::TenantId;

fn tenant(name: &str) -> TenantId {
    TenantId::new(name.to_owned()).unwrap()
}

fn ready_input() -> HealthInput {
    HealthInput {
        live: true,
        boundary: BoundaryConnectivity::Ready,
        audit_writable: true,
        recovery_complete: true,
        verification_backlog: 0,
        maximum_verification_backlog: 10,
        unknown_backlog: 0,
        maximum_unknown_backlog: 10,
        degraded_modes: vec![],
    }
}

#[test]
fn traces_enter_stages_in_pipeline_order() {
    let mut trace = Trace::start(tenant("acme"), [0xab; 32]);
    assert_eq!(trace.enter(TraceStage::Policy, TraceOutcome::Started), Err(TraceError::StageOutOfOrder));
    for stage in TraceStage::ALL {
        trace.enter(stage, TraceOutcome::Completed).unwrap();
    }
    assert_eq!(trace.enter(TraceStage::Caller, TraceOutcome::Started), Err(TraceError::StageOutOfOrder));
    assert_eq!(trace.spans().len(), 6);
    assert!(trace.correlates(&tenant("acme"), &[0xab; 32]));
    assert!(!trace.correlates(&tenant("other"), &[0xab; 32]));
    assert!(!trace.correlates(&tenant("acme"), &[0xac; 32]));
    assert_eq!(trace.correlation_id().to_hex(), "ab".repeat(32));
    let done = trace.finish().unwrap();
    assert_eq!(done.tenant().as_str(), "acme");
}

#[test]
fn incomplete_traces_cannot_finish() {
    let mut trace = Trace::start(tenant("acme"), [1; 32]);
    trace.enter(TraceStage::Caller, TraceOutcome::Allowed).unwrap();
    assert_eq!(trace.finish().unwrap_err(), TraceError::TraceIncomplete);
}

#[test]
fn metric_labels_belong_to_their_kind() {
    assert!(valid_label(MetricKind::SubmissionOutcome, MetricLabel::Executed));
    assert!(!valid_label(MetricKind::SubmissionOutcome, MetricLabel::Allowed));
    assert!(valid_label(MetricKind::RateLimitRefusal, MetricLabel::RateExceeded));
}

#[test]
fn metrics_are_bounded_per_tenant() {
    assert!(matches!(Metrics::new(0), Err(MetricsError::InvalidCapacity)));
    let mut metrics = Metrics::new(1).unwrap();
    metrics.register_tenant(tenant("a")).unwrap();
    metrics.register_tenant(tenant("a")).unwrap();
    assert_eq!(metrics.register_tenant(tenant("b")), Err(MetricsError::TenantCapacityExceeded));
    assert_eq!(
        metrics.observe(&tenant("b"), MetricKind::SubmissionOutcome, MetricLabel::Executed, 1),
        Err(MetricsError::UnknownTenant)
    );
    assert_eq!(
        metrics.observe(&tenant("a"), MetricKind::SubmissionOutcome, MetricLabel::Lagging, 1),
        Err(MetricsError::InvalidLabel)
    );
    metrics.observe(&tenant("a"), MetricKind::SubmissionOutcome, MetricLabel::Executed, 5).unwrap();
    metrics.observe(&tenant("a"), MetricKind::SubmissionOutcome, MetricLabel::Executed, 3).unwrap();
    let snapshot = metrics.snapshot(&tenant("a"));
    assert_eq!(snapshot.len(), 1);
    assert_eq!(snapshot[0].1, MetricPoint { total: 8, samples: 2, maximum: 5 });
    assert!(metrics.snapshot(&tenant("b")).is_empty());
}

#[test]
fn healthy_daemon_is_write_ready() {
    let health = evaluate(ready_input());
    assert_eq!(health.write_readiness, WriteReadiness::Ready);
    assert_eq!(health.require_write_ready(), Ok(()));
    assert_eq!(guard_write(&health, || 42), Ok(42));
}

#[test]
fn every_blocker_is_reported_in_order() {
    let mut input = ready_input();
    input.live = false;
    input.boundary = BoundaryConnectivity::Unavailable;
    input.recovery_complete = false;
    input.unknown_backlog = 11;
    input.degraded_modes = vec![DegradedMode::ReadOnly];
    let health = evaluate(input);
    let expected = vec![
        WriteBlocker::NotLive,
        WriteBlocker::BoundaryUnavailable,
        WriteBlocker::RecoveryIncomplete,
        WriteBlocker::UnknownBacklog,
        WriteBlocker::Degraded,
    ];
    assert_eq!(health.write_readiness, WriteReadiness::NotReady(expected.clone()));
    assert_eq!(health.require_write_ready().unwrap_err().blockers, expected);
    let mut ran = false;
    assert!(guard_write(&health, || ran = true).is_err());
    assert!(!ran);
}
