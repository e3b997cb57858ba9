use layerx_agentd::limits::deadline::{
    disconnect_request, BoundaryDeadline, DeadlineError, DeadlineOutcome, DisconnectOutcome,
    RequestDeadline, RequestTracker, WorkOwner, WriteStage,
};

fn deadline(start: u64, end: u64) -> RequestDeadline {
    RequestDeadline::new(start, end).unwrap()
}

#[test]
fn request_deadlines_must_move_forward() {
    assert_eq!(RequestDeadline::new(5, 5), Err(DeadlineError::InvalidDeadline));
    assert_eq!(RequestDeadline::new(5, 4), Err(DeadlineError::InvalidDeadline));
    assert_eq!(deadline(5, 6).expires_at_ms, 6);
}

#[test]
fn boundary_calls_are_bounded_by_the_request() {
    let d = deadline(100, 200);
    assert_eq!(d.boundary_call(110, 30), Ok(BoundaryDeadline { started_at_ms: 110, expires_at_ms: 140 }));
    assert_eq!(d.boundary_call(190, 30), Ok(BoundaryDeadline { started_at_ms: 190, expires_at_ms: 200 }));
    assert_eq!(d.boundary_call(110, 0), Err(DeadlineError::InvalidDeadline));
    assert_eq!(d.boundary_call(99, 10), Err(DeadlineError::InvalidDeadline));
    assert_eq!(d.boundary_call(200, 10), Err(DeadlineError::Elapsed));
    assert_eq!(deadline(0, u64::MAX).boundary_call(10, u64::MAX), Err(DeadlineError::Arithmetic));
}

#[test]
fn disconnecting_a_read_cancels_it() {
    let mut tracker = RequestTracker::new();
    let token = tracker.begin_read(1, deadline(0, 100)).unwrap();
    assert!(matches!(tracker.begin_read(1, deadline(0, 100)), Err(DeadlineError::DuplicateRequest(1))));
    assert!(!token.is_cancelled());
    assert_eq!(disconnect_request(&mut tracker, 1, 10), Ok(DisconnectOutcome::Cancelled));
    assert!(token.is_cancelled());
    assert_eq!(disconnect_request(&mut tracker, 9, 10), Err(DeadlineError::UnknownRequest(9)));
}

#[test]
fn writes_advance_one_stage_at_a_time() {
    let mut tracker = RequestTracker::new();
    tracker.begin_write(2, [7; 32], deadline(0, 100)).unwrap();
    assert_eq!(tracker.advance_write(2, WriteStage::DurableQueued, 1), Err(DeadlineError::InvalidTransition));
    tracker.advance_write(2, WriteStage::Signing, 1).unwrap();
    tracker.advance_write(2, WriteStage::DurableQueued, 2).unwrap();
    tracker.advance_write(2, WriteStage::Transmitting, 3).unwrap();
    assert_eq!(tracker.complete(2), Err(DeadlineError::OrphanRisk));
    assert_eq!(
        disconnect_request(&mut tracker, 2, 4),
        Ok(DisconnectOutcome::ResolutionContinues { submission_id: [7; 32] })
    );
    let view = tracker.view(2).unwrap();
    assert_eq!(view.owner, WorkOwner::DaemonResolver);
    assert_eq!(view.unknown_since_ms, Some(4));
    assert_eq!(tracker.metrics(5).unwrap().unresolved, 1);
    assert_eq!(tracker.resolved_by_receipt(2), Ok(()));
    assert!(tracker.view(2).is_none());
}

#[test]
fn early_writes_complete_and_reads_cannot_advance() {
    let mut tracker = RequestTracker::new();
    tracker.begin_write(3, [1; 32], deadline(0, 100)).unwrap();
    assert_eq!(tracker.resolved_by_receipt(3), Err(DeadlineError::InvalidTransition));
    assert_eq!(tracker.complete(3), Ok(()));
    assert_eq!(tracker.complete(3), Err(DeadlineError::UnknownRequest(3)));
    tracker.begin_read(4, deadline(10, 100)).unwrap();
    assert_eq!(tracker.advance_write(4, WriteStage::Signing, 20), Err(DeadlineError::InvalidTransition));
    assert_eq!(tracker.advance_write(4, WriteStage::Signing, 5), Err(DeadlineError::TimeRegressed));
}

#[test]
fn expired_requests_are_cancelled_or_reported_unknown() {
    let mut tracker = RequestTracker::new();
    tracker.begin_read(1, deadline(0, 50)).unwrap();
    tracker.begin_write(2, [2; 32], deadline(0, 50)).unwrap();
    tracker.advance_write(2, WriteStage::Signing, 1).unwrap();
    tracker.advance_write(2, WriteStage::DurableQueued, 1).unwrap();
    tracker.advance_write(2, WriteStage::Transmitting, 1).unwrap();
    tracker.begin_read(3, deadline(0, 500)).unwrap();
    let outcomes = tracker.expire(60).unwrap();
    assert_eq!(
        outcomes,
        vec![
            DeadlineOutcome::Cancelled { request_id: 1 },
            DeadlineOutcome::ReportedUnknown { request_id: 2, submission_id: [2; 32] },
        ]
    );
    assert!(tracker.view(3).is_some());
    let metrics = tracker.metrics(60).unwrap();
    assert_eq!((metrics.in_flight, metrics.unresolved), (2, 1));
}
