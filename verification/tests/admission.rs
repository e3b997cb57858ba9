use layerx_agentd::limits::admission::{
    AdmissionConfig, AdmissionError, BackpressureSource, BoundaryAdmission, BoundaryWork,
    CoreAvailability, CoreOutcome, Priority, QueueBound,
};

fn config(requests: usize, bytes: usize, in_flight: usize) -> AdmissionConfig {
    let lanes = Priority::ALL
        .iter()
        .map(|p| (*p, QueueBound { requests, bytes }))
        .collect();
    AdmissionConfig::new(in_flight, 64, lanes).unwrap()
}

fn work(id: u64, priority: Priority, len: usize) -> BoundaryWork {
    BoundaryWork { request_id: id, tenant: "tenant-a".to_owned(), priority, bytes: vec![7; len] }
}

#[test]
fn strict_priority_then_fifo() {
    let mut admission = BoundaryAdmission::new(config(4, 100, 8));
    admission.admit_request(work(1, Priority::BulkRead, 3), CoreAvailability::Ready).unwrap();
    admission.admit_request(work(2, Priority::Submission, 3), CoreAvailability::Ready).unwrap();
    admission.admit_request(work(3, Priority::Submission, 3), CoreAvailability::Ready).unwrap();
    let order: Vec<u64> = (0..3)
        .map(|_| admission.dispatch(CoreAvailability::Ready).unwrap().unwrap().work.request_id)
        .collect();
    assert_eq!(order, vec![2, 3, 1]);
    assert_eq!(admission.in_flight(), 3);
    assert_eq!(admission.dispatch(CoreAvailability::Ready).unwrap(), None);
}

#[test]
fn lane_bounds_and_duplicates_are_refused() {
    let mut admission = BoundaryAdmission::new(config(1, 10, 1));
    admission.admit_request(work(1, Priority::Retry, 4), CoreAvailability::Ready).unwrap();
    assert_eq!(
        admission.admit_request(work(1, Priority::Retry, 4), CoreAvailability::Ready),
        Err(AdmissionError::DuplicateRequest(1))
    );
    match admission.admit_request(work(2, Priority::Retry, 4), CoreAvailability::Ready) {
        Err(AdmissionError::Backpressure { source, queued_requests, queued_bytes, .. }) => {
            assert_eq!(source, BackpressureSource::QueueRequests);
            assert_eq!((queued_requests, queued_bytes), (1, 4));
        }
        other => panic!("unexpected {other:?}"),
    }
    admission.dispatch(CoreAvailability::Ready).unwrap().unwrap();
    assert_eq!(admission.finish(1, CoreOutcome::Completed), Ok(()));
    assert_eq!(admission.finish(1, CoreOutcome::Completed), Err(AdmissionError::UnknownInFlight(1)));
}
