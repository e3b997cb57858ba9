//! Request deadlines, cancellation and detached resolution of indeterminate writes.
use vstd::prelude::*;

use crate::assoc::{
    ascending, as_map, find_key, lemma_absent, lemma_at, lemma_insert, lemma_remove, lemma_update,
};

pub use super::cancellation::CancellationToken;

verus! {

/// An absolute finite lifetime required for every daemon request.
#[derive(Clone, Copy, Debug, PartialEq, Eq, Structural)]
pub struct RequestDeadline {
    pub started_at_ms: u64,
    pub expires_at_ms: u64,
}

/// Finite lifetime for one core, signer, or storage boundary call.
#[derive(Clone, Copy, Debug, PartialEq, Eq, Structural)]
pub struct BoundaryDeadline {
    pub started_at_ms: u64,
    pub expires_at_ms: u64,
}

impl RequestDeadline {
    /// Builds a request lifetime from absolute start and expiry milliseconds.
    ///
    /// # Errors
    ///
    /// Returns `InvalidDeadline` unless `expires_at_ms` is strictly after `started_at_ms`.
    pub fn new(started_at_ms: u64, expires_at_ms: u64) -> (r: Result<Self, DeadlineError>)
        ensures
            r is Ok <==> expires_at_ms > started_at_ms,
            r matches Ok(d) ==> d.started_at_ms == started_at_ms && d.expires_at_ms == expires_at_ms,
            r matches Err(e) ==> e == DeadlineError::InvalidDeadline,
    {
        if expires_at_ms <= started_at_ms {
            Err(DeadlineError::InvalidDeadline)
        } else {
            Ok(RequestDeadline { started_at_ms, expires_at_ms })
        }
    }

    /// Bounds one downstream call by both its own timeout and the request lifetime.
    ///
    /// # Errors
    ///
    /// `InvalidDeadline` for a zero `maximum_duration_ms` or an observation before the request
    /// started, `Elapsed` once the request lifetime is over, `Arithmetic` when the call expiry
    /// overflows.
    pub fn boundary_call(self, observed_at_ms: u64, maximum_duration_ms: u64) -> (r: Result<
        BoundaryDeadline,
        DeadlineError,
    >)
        ensures
            maximum_duration_ms == 0 || observed_at_ms < self.started_at_ms ==> r == Err::<
                BoundaryDeadline,
                DeadlineError,
            >(DeadlineError::InvalidDeadline),
            !(maximum_duration_ms == 0 || observed_at_ms < self.started_at_ms) && observed_at_ms
                >= self.expires_at_ms ==> r == Err::<BoundaryDeadline, DeadlineError>(
                DeadlineError::Elapsed,
            ),
            !(maximum_duration_ms == 0 || observed_at_ms < self.started_at_ms) && observed_at_ms
                < self.expires_at_ms ==> if observed_at_ms + maximum_duration_ms > u64::MAX {
                r == Err::<BoundaryDeadline, DeadlineError>(DeadlineError::Arithmetic)
            } else {
                r == Ok::<BoundaryDeadline, DeadlineError>(
                    BoundaryDeadline {
                        started_at_ms: observed_at_ms,
                        expires_at_ms: if observed_at_ms + maximum_duration_ms
                            <= self.expires_at_ms {
                            (observed_at_ms + maximum_duration_ms) as u64
                        } else {
                            self.expires_at_ms
                        },
                    },
                )
            },
    {
        if maximum_duration_ms == 0 || observed_at_ms < self.started_at_ms {
            return Err(DeadlineError::InvalidDeadline);
        }
        if observed_at_ms >= self.expires_at_ms {
            return Err(DeadlineError::Elapsed);
        }
        if observed_at_ms > u64::MAX - maximum_duration_ms {
            return Err(DeadlineError::Arithmetic);
        }
        let call_expiry = observed_at_ms + maximum_duration_ms;
        Ok(
            BoundaryDeadline {
                started_at_ms: observed_at_ms,
                expires_at_ms: if call_expiry <= self.expires_at_ms {
                    call_expiry
                } else {
                    self.expires_at_ms
                },
            },
        )
    }
}

/// Stages of a tracked write, in order.
#[derive(Clone, Copy, Debug, PartialEq, Eq, Structural)]
pub enum WriteStage {
    Preparing,
    Signing,
    DurableQueued,
    Transmitting,
    Acknowledged,
    UnknownResolving,
}

/// Position of a write stage.
pub open spec fn stage_ordinal(stage: WriteStage) -> u8 {
    match stage {
        WriteStage::Preparing => 0,
        WriteStage::Signing => 1,
        WriteStage::DurableQueued => 2,
        WriteStage::Transmitting => 3,
        WriteStage::Acknowledged => 4,
        WriteStage::UnknownResolving => 5,
    }
}

/// Whether bytes of a write in this stage may already have reached the core.
pub open spec fn reached_core(stage: WriteStage) -> bool {
    stage_ordinal(stage) >= 3
}

impl WriteStage {
    fn ordinal(self) -> (r: u8)
        ensures
            r == stage_ordinal(self),
    {
        match self {
            WriteStage::Preparing => 0,
            WriteStage::Signing => 1,
            WriteStage::DurableQueued => 2,
            WriteStage::Transmitting => 3,
            WriteStage::Acknowledged => 4,
            WriteStage::UnknownResolving => 5,
        }
    }

    fn may_have_reached_core(self) -> (r: bool)
        ensures
            r == reached_core(self),
    {
        self.ordinal() >= 3
    }
}

/// Who is responsible for a tracked request's outcome.
#[derive(Clone, Copy, Debug, PartialEq, Eq, Structural)]
pub enum WorkOwner {
    Caller,
    DaemonResolver,
}

/// What a tracked request is doing.
#[derive(Clone, Copy, Debug, PartialEq, Eq)]
pub enum TrackedWork {
    Read,
    Write { submission_id: [u8; 32], stage: WriteStage, reservation_held: bool },
}

/// Result of a caller disconnecting.
#[derive(Clone, Copy, Debug, PartialEq, Eq)]
pub enum DisconnectOutcome {
    Cancelled,
    ResolutionContinues { submission_id: [u8; 32] },
}

/// Result of a request deadline passing.
#[derive(Clone, Copy, Debug, PartialEq, Eq)]
pub enum DeadlineOutcome {
    Cancelled { request_id: u64 },
    ReportedUnknown { request_id: u64, submission_id: [u8; 32] },
}

/// Counts of ages in four buckets with the oldest age seen.
#[derive(Clone, Copy, Debug, Default, PartialEq, Eq, Structural)]
pub struct AgeDistribution {
    pub under_one_second: usize,
    pub under_ten_seconds: usize,
    pub under_one_minute: usize,
    pub at_least_one_minute: usize,
    pub oldest_ms: u64,
}

/// The distribution after recording one more age.
pub open spec fn with_age(d: AgeDistribution, age_ms: u64) -> AgeDistribution {
    let d2 = AgeDistribution { oldest_ms: if age_ms > d.oldest_ms { age_ms } else { d.oldest_ms }, ..d };
    if age_ms < 1000 {
        AgeDistribution { under_one_second: (d.under_one_second + 1) as usize, ..d2 }
    } else if age_ms < 10000 {
        AgeDistribution { under_ten_seconds: (d.under_ten_seconds + 1) as usize, ..d2 }
    } else if age_ms < 60000 {
        AgeDistribution { under_one_minute: (d.under_one_minute + 1) as usize, ..d2 }
    } else {
        AgeDistribution { at_least_one_minute: (d.at_least_one_minute + 1) as usize, ..d2 }
    }
}

/// Total number of ages recorded.
pub open spec fn age_count(d: AgeDistribution) -> int {
    d.under_one_second + d.under_ten_seconds + d.under_one_minute + d.at_least_one_minute
}

impl AgeDistribution {
    fn record(&mut self, age_ms: u64)
        requires
            age_count(*old(self)) < usize::MAX,
        ensures
            *final(self) == with_age(*old(self), age_ms),
    {
        if age_ms > self.oldest_ms {
            self.oldest_ms = age_ms;
        }
        if age_ms < 1000 {
            self.under_one_second = self.under_one_second + 1;
        } else if age_ms < 10000 {
            self.under_ten_seconds = self.under_ten_seconds + 1;
        } else if age_ms < 60000 {
            self.under_one_minute = self.under_one_minute + 1;
        } else {
            self.at_least_one_minute = self.at_least_one_minute + 1;
        }
    }
}

/// Summary of tracked work.
#[derive(Clone, Copy, Debug, Default, PartialEq, Eq, Structural)]
pub struct WorkMetrics {
    pub in_flight: usize,
    pub unresolved: usize,
    pub in_flight_age: AgeDistribution,
    pub unresolved_age: AgeDistribution,
}

struct TrackedRequest {
    deadline: RequestDeadline,
    work: TrackedWork,
    owner: WorkOwner,
    caller_connected: bool,
    unknown_since_ms: Option<u64>,
    cancellation: CancellationToken,
}

/// The observable state of one tracked request.
pub struct TrackedView {
    pub deadline: RequestDeadline,
    pub work: TrackedWork,
    pub owner: WorkOwner,
    pub caller_connected: bool,
    pub unknown_since_ms: Option<u64>,
}

/// A snapshot of one tracked request.
#[derive(Clone, Debug, PartialEq, Eq)]
pub struct WorkView {
    pub deadline: RequestDeadline,
    pub work: TrackedWork,
    pub owner: WorkOwner,
    pub caller_connected: bool,
    pub unknown_since_ms: Option<u64>,
    pub cancelled: bool,
}

/// Deadline and lifecycle failures.
#[derive(Clone, Copy, Debug, PartialEq, Eq, Structural)]
pub enum DeadlineError {
    InvalidDeadline,
    Elapsed,
    DuplicateRequest(u64),
    UnknownRequest(u64),
    InvalidTransition,
    TimeRegressed,
    Arithmetic,
    OrphanRisk,
}

spec fn tracked_view(t: TrackedRequest) -> TrackedView {
    TrackedView {
        deadline: t.deadline,
        work: t.work,
        owner: t.owner,
        caller_connected: t.caller_connected,
        unknown_since_ms: t.unknown_since_ms,
    }
}

/// The request map after a caller disconnects, and what `disconnect_request` returns.
pub open spec fn disconnect_effect(m: Map<u64, TrackedView>, request_id: u64, observed_at_ms: u64) -> (
    Map<u64, TrackedView>,
    Result<DisconnectOutcome, DeadlineError>,
) {
    if !m.contains_key(request_id) {
        (m, Err(DeadlineError::UnknownRequest(request_id)))
    } else {
        let t = m[request_id];
        if observed_at_ms < t.deadline.started_at_ms {
            (m, Err(DeadlineError::TimeRegressed))
        } else {
            match t.work {
                TrackedWork::Write { submission_id, stage, .. } => if reached_core(stage) {
                    (
                        m.insert(
                            request_id,
                            TrackedView {
                                deadline: t.deadline,
                                work: TrackedWork::Write {
                                    submission_id,
                                    stage: WriteStage::UnknownResolving,
                                    reservation_held: true,
                                },
                                owner: WorkOwner::DaemonResolver,
                                caller_connected: false,
                                unknown_since_ms: Some(
                                    match t.unknown_since_ms {
                                        Some(u) => u,
                                        None => observed_at_ms,
                                    },
                                ),
                            },
                        ),
                        Ok(DisconnectOutcome::ResolutionContinues { submission_id }),
                    )
                } else {
                    (m.remove(request_id), Ok(DisconnectOutcome::Cancelled))
                },
                TrackedWork::Read => (m.remove(request_id), Ok(DisconnectOutcome::Cancelled)),
            }
        }
    }
}

/// Identifiers (ascending) of connected requests whose deadline has passed.
pub open spec fn expired_ids(records: Seq<(u64, TrackedView)>, observed_at_ms: u64) -> Seq<u64>
    decreases records.len(),
{
    if records.len() == 0 {
        Seq::empty()
    } else {
        let rest = expired_ids(records.drop_last(), observed_at_ms);
        let last = records.last();
        if last.1.caller_connected && observed_at_ms >= last.1.deadline.expires_at_ms {
            rest.push(last.0)
        } else {
            rest
        }
    }
}

/// The deadline outcome of a disconnect.
pub open spec fn deadline_outcome(request_id: u64, o: DisconnectOutcome) -> DeadlineOutcome {
    match o {
        DisconnectOutcome::Cancelled => DeadlineOutcome::Cancelled { request_id },
        DisconnectOutcome::ResolutionContinues { submission_id } => DeadlineOutcome::ReportedUnknown {
            request_id,
            submission_id,
        },
    }
}

/// Disconnecting each listed request in turn; the first failure stops the run.
pub open spec fn expire_run(m: Map<u64, TrackedView>, ids: Seq<u64>, observed_at_ms: u64) -> (
    Map<u64, TrackedView>,
    Result<Seq<DeadlineOutcome>, DeadlineError>,
)
    decreases ids.len(),
{
    if ids.len() == 0 {
        (m, Ok(Seq::empty()))
    } else {
        let (m1, r1) = expire_run(m, ids.drop_last(), observed_at_ms);
        match r1 {
            Err(e) => (m1, Err(e)),
            Ok(outcomes) => {
                let (m2, r2) = disconnect_effect(m1, ids.last(), observed_at_ms);
                match r2 {
                    Err(e) => (m2, Err(e)),
                    Ok(o) => (m2, Ok(outcomes.push(deadline_outcome(ids.last(), o)))),
                }
            },
        }
    }
}

/// Metrics over the first records, or the first time regression met.
pub open spec fn tally(records: Seq<(u64, TrackedView)>, observed_at_ms: u64) -> Result<
    WorkMetrics,
    DeadlineError,
>
    decreases records.len(),
{
    if records.len() == 0 {
        Ok(WorkMetrics::default_spec())
    } else {
        match tally(records.drop_last(), observed_at_ms) {
            Err(e) => Err(e),
            Ok(w) => {
                let t = records.last().1;
                if observed_at_ms < t.deadline.started_at_ms {
                    Err(DeadlineError::TimeRegressed)
                } else {
                    let w1 = WorkMetrics {
                        in_flight_age: with_age(
                            w.in_flight_age,
                            (observed_at_ms - t.deadline.started_at_ms) as u64,
                        ),
                        ..w
                    };
                    match t.unknown_since_ms {
                        None => Ok(w1),
                        Some(u) => if observed_at_ms < u {
                            Err(DeadlineError::TimeRegressed)
                        } else {
                            Ok(
                                WorkMetrics {
                                    unresolved: (w1.unresolved + 1) as usize,
                                    unresolved_age: with_age(w1.unresolved_age, (observed_at_ms - u) as u64),
                                    ..w1
                                },
                            )
                        },
                    }
                }
            },
        }
    }
}

impl WorkMetrics {
    /// All-zero metrics.
    pub open spec fn default_spec() -> WorkMetrics {
        WorkMetrics {
            in_flight: 0,
            unresolved: 0,
            in_flight_age: AgeDistribution {
                under_one_second: 0,
                under_ten_seconds: 0,
                under_one_minute: 0,
                at_least_one_minute: 0,
                oldest_ms: 0,
            },
            unresolved_age: AgeDistribution {
                under_one_second: 0,
                under_ten_seconds: 0,
                under_one_minute: 0,
                at_least_one_minute: 0,
                oldest_ms: 0,
            },
        }
    }
}

/// Owns request deadlines, cancellation signals, and detached unknown resolvers.
pub struct RequestTracker {
    requests: Vec<(u64, TrackedRequest)>,
}

impl RequestTracker {
    /// Tracked requests in ascending identifier order.
    pub closed spec fn records(&self) -> Seq<(u64, TrackedView)> {
        self.requests@.map_values(|e: (u64, TrackedRequest)| (e.0, tracked_view(e.1)))
    }

    /// Tracked requests by identifier.
    pub open spec fn active(&self) -> Map<u64, TrackedView> {
        as_map(self.records())
    }

    /// Invariant: identifiers strictly ascending.
    pub closed spec fn wf(&self) -> bool {
        ascending(self.records())
    }

    /// A well-formed tracker lists its requests in strictly ascending identifier order.
    pub proof fn lemma_wf(&self)
        requires
            self.wf(),
        ensures
            ascending(self.records()),
    {
    }

    /// A tracker with nothing tracked.
    pub fn new() -> (r: Self)
        ensures
            r.wf(),
            r.active() == Map::<u64, TrackedView>::empty(),
    {
        let r = RequestTracker { requests: Vec::new() };
        assert(r.active() =~= Map::<u64, TrackedView>::empty());
        r
    }

    proof fn lemma_records_len(&self)
        ensures
            ascending(self.records()) == ascending(self.requests@),
            self.records().len() == self.requests@.len(),
            forall|i: int|
                0 <= i < self.requests@.len() ==> #[trigger] self.records()[i] == (
                    self.requests@[i].0,
                    tracked_view(self.requests@[i].1),
                ),
    {
        let r = self.records();
        let q = self.requests@;
        if ascending(r) {
            assert forall|i: int, j: int| 0 <= i < j < q.len() implies #[trigger] q[i].0 < #[trigger] q[j].0 by {
                assert(r[i].0 == q[i].0 && r[j].0 == q[j].0);
            }
        }
        if ascending(q) {
            assert forall|i: int, j: int| 0 <= i < j < r.len() implies #[trigger] r[i].0 < #[trigger] r[j].0 by {
                assert(r[i].0 == q[i].0 && r[j].0 == q[j].0);
            }
        }
    }

    fn insert(&mut self, request_id: u64, deadline: RequestDeadline, work: TrackedWork) -> (r: Result<
        CancellationToken,
        DeadlineError,
    >)
        requires
            old(self).wf(),
        ensures
            final(self).wf(),
            old(self).active().contains_key(request_id) ==> r == Err::<
                CancellationToken,
                DeadlineError,
            >(DeadlineError::DuplicateRequest(request_id)) && final(self).active() == old(
                self,
            ).active(),
            !old(self).active().contains_key(request_id) ==> r is Ok && final(self).active()
                == old(self).active().insert(
                request_id,
                TrackedView {
                    deadline,
                    work,
                    owner: WorkOwner::Caller,
                    caller_connected: true,
                    unknown_since_ms: None,
                },
            ),
    {
        let ghost before = self.records();
        proof {
            self.lemma_records_len();
        }
        match find_key(&self.requests, request_id) {
            Ok(i) => {
                proof {
                    lemma_at(before, i as int);
                }
                Err(DeadlineError::DuplicateRequest(request_id))
            },
            Err(p) => {
                proof {
                    lemma_absent(before, request_id, p as int);
                }
                let cancellation = CancellationToken::fresh();
                let request = TrackedRequest {
                    deadline,
                    work,
                    owner: WorkOwner::Caller,
                    caller_connected: true,
                    unknown_since_ms: None,
                    cancellation: cancellation.clone(),
                };
                self.requests.insert(p, (request_id, request));
                proof {
                    assert(self.records() =~= before.insert(
                        p as int,
                        (request_id, tracked_view(request)),
                    ));
                    lemma_insert(before, p as int, request_id, tracked_view(request));
                }
                Ok(cancellation)
            },
        }
    }

    /// Tracks one cancellable read for the life of its request deadline.
    ///
    /// # Errors
    ///
    /// Returns `DuplicateRequest` when `request_id` is already tracked.
    pub fn begin_read(&mut self, request_id: u64, deadline: RequestDeadline) -> (r: Result<
        CancellationToken,
        DeadlineError,
    >)
        requires
            old(self).wf(),
        ensures
            final(self).wf(),
            old(self).active().contains_key(request_id) ==> r == Err::<
                CancellationToken,
                DeadlineError,
            >(DeadlineError::DuplicateRequest(request_id)) && final(self).active() == old(
                self,
            ).active(),
            !old(self).active().contains_key(request_id) ==> r is Ok && final(self).active()
                == old(self).active().insert(
                request_id,
                TrackedView {
                    deadline,
                    work: TrackedWork::Read,
                    owner: WorkOwner::Caller,
                    caller_connected: true,
                    unknown_since_ms: None,
                },
            ),
    {
        self.insert(request_id, deadline, TrackedWork::Read)
    }

    /// Tracks one write from its preparing stage with the reservation held.
    ///
    /// # Errors
    ///
    /// Returns `DuplicateRequest` when `request_id` is already tracked.
    pub fn begin_write(
        &mut self,
        request_id: u64,
        submission_id: [u8; 32],
        deadline: RequestDeadline,
    ) -> (r: Result<CancellationToken, DeadlineError>)
        requires
            old(self).wf(),
        ensures
            final(self).wf(),
            old(self).active().contains_key(request_id) ==> r == Err::<
                CancellationToken,
                DeadlineError,
            >(DeadlineError::DuplicateRequest(request_id)) && final(self).active() == old(
                self,
            ).active(),
            !old(self).active().contains_key(request_id) ==> r is Ok && final(self).active()
                == old(self).active().insert(
                request_id,
                TrackedView {
                    deadline,
                    work: TrackedWork::Write {
                        submission_id,
                        stage: WriteStage::Preparing,
                        reservation_held: true,
                    },
                    owner: WorkOwner::Caller,
                    caller_connected: true,
                    unknown_since_ms: None,
                },
            ),
    {
        self.insert(
            request_id,
            deadline,
            TrackedWork::Write { submission_id, stage: WriteStage::Preparing, reservation_held: true },
        )
    }

    fn locate(&self, request_id: u64) -> (r: Option<usize>)
        requires
            self.wf(),
        ensures
            r is None ==> !self.active().contains_key(request_id),
            r matches Some(i) ==> i < self.requests@.len() && self.requests@[i as int].0 == request_id
                && self.active().contains_key(request_id) && self.active()[request_id]
                == tracked_view(self.requests@[i as int].1),
    {
        proof {
            self.lemma_records_len();
        }
        match find_key(&self.requests, request_id) {
            Ok(i) => {
                proof {
                    lemma_at(self.records(), i as int);
                }
                Some(i)
            },
            Err(p) => {
                proof {
                    lemma_absent(self.records(), request_id, p as int);
                }
                None
            },
        }
    }

    fn replace_at(&mut self, i: usize, request: TrackedRequest)
        requires
            old(self).wf(),
            i < old(self).requests@.len(),
        ensures
            final(self).wf(),
            final(self).requests@ == old(self).requests@.update(i as int, (old(self).requests@[i as int].0, request)),
            final(self).active() == old(self).active().insert(
                old(self).requests@[i as int].0,
                tracked_view(request),
            ),
    {
        let ghost before = self.records();
        let id = self.requests[i].0;
        self.requests.set(i, (id, request));
        proof {
            assert(self.records() =~= before.update(i as int, (id, tracked_view(request))));
            lemma_update(before, i as int, tracked_view(request));
        }
    }

    fn remove_at(&mut self, i: usize) -> (r: TrackedRequest)
        requires
            old(self).wf(),
            i < old(self).requests@.len(),
        ensures
            final(self).wf(),
            r == old(self).requests@[i as int].1,
            final(self).active() == old(self).active().remove(old(self).requests@[i as int].0),
    {
        let ghost before = self.records();
        let (_, request) = self.requests.remove(i);
        proof {
            assert(self.records() =~= before.remove(i as int));
            lemma_remove(before, i as int);
        }
        request
    }

    /// Moves a tracked write to the stage exactly one ordinal ahead of its current one.
    ///
    /// # Errors
    ///
    /// `UnknownRequest` for an untracked identifier, `TimeRegressed` when `observed_at_ms`
    /// precedes the request start, or `InvalidTransition` for read work or any stage that is
    /// not the immediate successor.
    pub fn advance_write(&mut self, request_id: u64, stage: WriteStage, observed_at_ms: u64) -> (r:
        Result<(), DeadlineError>)
        requires
            old(self).wf(),
        ensures
            final(self).wf(),
            !old(self).active().contains_key(request_id) ==> r == Err::<(), DeadlineError>(
                DeadlineError::UnknownRequest(request_id),
            ) && final(self).active() == old(self).active(),
            old(self).active().contains_key(request_id) ==> {
                let t = old(self).active()[request_id];
                if observed_at_ms < t.deadline.started_at_ms {
                    r == Err::<(), DeadlineError>(DeadlineError::TimeRegressed)
                        && final(self).active() == old(self).active()
                } else {
                    match t.work {
                        TrackedWork::Read => r == Err::<(), DeadlineError>(
                            DeadlineError::InvalidTransition,
                        ) && final(self).active() == old(self).active(),
                        TrackedWork::Write { submission_id, stage: current, reservation_held } => if stage_ordinal(stage)
                            != stage_ordinal(current) + 1 {
                            r == Err::<(), DeadlineError>(DeadlineError::InvalidTransition)
                                && final(self).active() == old(self).active()
                        } else {
                            r is Ok && final(self).active() == old(self).active().insert(
                                request_id,
                                if stage == WriteStage::UnknownResolving {
                                    TrackedView {
                                        work: TrackedWork::Write { submission_id, stage, reservation_held },
                                        owner: WorkOwner::DaemonResolver,
                                        unknown_since_ms: Some(
                                            match t.unknown_since_ms {
                                                Some(u) => u,
                                                None => observed_at_ms,
                                            },
                                        ),
                                        ..t
                                    }
                                } else {
                                    TrackedView {
                                        work: TrackedWork::Write { submission_id, stage, reservation_held },
                                        ..t
                                    }
                                },
                            )
                        },
                    }
                }
            },
    {
        let i = match self.locate(request_id) {
            None => {
                return Err(DeadlineError::UnknownRequest(request_id));
            },
            Some(i) => i,
        };
        let current = &self.requests[i].1;
        if observed_at_ms < current.deadline.started_at_ms {
            return Err(DeadlineError::TimeRegressed);
        }
        let (submission_id, current_stage, reservation_held) = match current.work {
            TrackedWork::Read => {
                return Err(DeadlineError::InvalidTransition);
            },
            TrackedWork::Write { submission_id, stage, reservation_held } => (
                submission_id,
                stage,
                reservation_held,
            ),
        };
        if stage.ordinal() != current_stage.ordinal() + 1 {
            return Err(DeadlineError::InvalidTransition);
        }
        let resolving = stage == WriteStage::UnknownResolving;
        let updated = TrackedRequest {
            deadline: current.deadline,
            work: TrackedWork::Write { submission_id, stage, reservation_held },
            owner: if resolving {
                WorkOwner::DaemonResolver
            } else {
                current.owner
            },
            caller_connected: current.caller_connected,
            unknown_since_ms: if resolving {
                match current.unknown_since_ms {
                    Some(u) => Some(u),
                    None => Some(observed_at_ms),
                }
            } else {
                current.unknown_since_ms
            },
            cancellation: current.cancellation.clone(),
        };
        self.replace_at(i, updated);
        Ok(())
    }

    /// Removes completed cancellable work. Unknown submissions require receipt resolution.
    ///
    /// # Errors
    ///
    /// `UnknownRequest` for an untracked identifier, or `OrphanRisk` for a write already
    /// transmitting, acknowledged, or resolving as unknown.
    pub fn complete(&mut self, request_id: u64) -> (r: Result<(), DeadlineError>)
        requires
            old(self).wf(),
        ensures
            final(self).wf(),
            !old(self).active().contains_key(request_id) ==> r == Err::<(), DeadlineError>(
                DeadlineError::UnknownRequest(request_id),
            ) && final(self).active() == old(self).active(),
            old(self).active().contains_key(request_id) ==> if old(self).active()[request_id].work matches TrackedWork::Write { stage, .. }
                && reached_core(stage) {
                r == Err::<(), DeadlineError>(DeadlineError::OrphanRisk) && final(self).active()
                    == old(self).active()
            } else {
                r is Ok && final(self).active() == old(self).active().remove(request_id)
            },
    {
        let i = match self.locate(request_id) {
            None => {
                return Err(DeadlineError::UnknownRequest(request_id));
            },
            Some(i) => i,
        };
        match self.requests[i].1.work {
            TrackedWork::Write { stage, .. } => {
                if stage.may_have_reached_core() {
                    return Err(DeadlineError::OrphanRisk);
                }
            },
            TrackedWork::Read => {},
        }
        self.remove_at(i);
        Ok(())
    }

    /// Removes an unresolved write only after receipt-only resolution reaches terminal state.
    ///
    /// # Errors
    ///
    /// `UnknownRequest` for an untracked identifier, or `InvalidTransition` unless the work is a
    /// write in the `UnknownResolving` stage.
    pub fn resolved_by_receipt(&mut self, request_id: u64) -> (r: Result<(), DeadlineError>)
        requires
            old(self).wf(),
        ensures
            final(self).wf(),
            !old(self).active().contains_key(request_id) ==> r == Err::<(), DeadlineError>(
                DeadlineError::UnknownRequest(request_id),
            ) && final(self).active() == old(self).active(),
            old(self).active().contains_key(request_id) ==> if old(self).active()[request_id].work matches TrackedWork::Write { stage, .. }
                && stage == WriteStage::UnknownResolving {
                r is Ok && final(self).active() == old(self).active().remove(request_id)
            } else {
                r == Err::<(), DeadlineError>(DeadlineError::InvalidTransition)
                    && final(self).active() == old(self).active()
            },
    {
        let i = match self.locate(request_id) {
            None => {
                return Err(DeadlineError::UnknownRequest(request_id));
            },
            Some(i) => i,
        };
        let resolving = match self.requests[i].1.work {
            TrackedWork::Write { stage, .. } => stage == WriteStage::UnknownResolving,
            TrackedWork::Read => false,
        };
        if !resolving {
            return Err(DeadlineError::InvalidTransition);
        }
        self.remove_at(i);
        Ok(())
    }

    fn disconnect(&mut self, request_id: u64, observed_at_ms: u64) -> (r: Result<
        DisconnectOutcome,
        DeadlineError,
    >)
        requires
            old(self).wf(),
        ensures
            final(self).wf(),
            (final(self).active(), r) == disconnect_effect(
                old(self).active(),
                request_id,
                observed_at_ms,
            ),
    {
        let i = match self.locate(request_id) {
            None => {
                return Err(DeadlineError::UnknownRequest(request_id));
            },
            Some(i) => i,
        };
        let current = &self.requests[i].1;
        if observed_at_ms < current.deadline.started_at_ms {
            return Err(DeadlineError::TimeRegressed);
        }
        match current.work {
            TrackedWork::Write { submission_id, stage, .. } => {
                if stage.may_have_reached_core() {
                    let updated = TrackedRequest {
                        deadline: current.deadline,
                        work: TrackedWork::Write {
                            submission_id,
                            stage: WriteStage::UnknownResolving,
                            reservation_held: true,
                        },
                        owner: WorkOwner::DaemonResolver,
                        caller_connected: false,
                        unknown_since_ms: match current.unknown_since_ms {
                            Some(u) => Some(u),
                            None => Some(observed_at_ms),
                        },
                        cancellation: current.cancellation.clone(),
                    };
                    self.replace_at(i, updated);
                    return Ok(DisconnectOutcome::ResolutionContinues { submission_id });
                }
            },
            TrackedWork::Read => {},
        }
        let removed = self.remove_at(i);
        removed.cancellation.mark_cancelled();
        Ok(DisconnectOutcome::Cancelled)
    }

    /// Disconnects every still-connected request whose deadline has passed, in ascending
    /// identifier order.
    ///
    /// # Errors
    ///
    /// `TimeRegressed` when `observed_at_ms` precedes the start of a request being expired; the
    /// requests expired before it stay expired.
    pub fn expire(&mut self, observed_at_ms: u64) -> (r: Result<Vec<DeadlineOutcome>, DeadlineError>)
        requires
            old(self).wf(),
        ensures
            final(self).wf(),
            ({
                let (m, result) = expire_run(
                    old(self).active(),
                    expired_ids(old(self).records(), observed_at_ms),
                    observed_at_ms,
                );
                &&& final(self).active() == m
                &&& match result {
                    Ok(outcomes) => r matches Ok(v) && v@ == outcomes,
                    Err(e) => r == Err::<Vec<DeadlineOutcome>, DeadlineError>(e),
                }
            }),
            r matches Ok(v) ==> outcomes_ascending(v@),
    {
        let ghost records = self.records();
        let mut expired: Vec<u64> = Vec::new();
        let mut i: usize = 0;
        while i < self.requests.len()
            invariant
                records == self.records(),
                records.len() == self.requests@.len(),
                i <= self.requests@.len(),
                expired@ == expired_ids(records.take(i as int), observed_at_ms),
            decreases self.requests@.len() - i,
        {
            proof {
                self.lemma_records_len();
                assert(records.take(i + 1).drop_last() =~= records.take(i as int));
            }
            let request = &self.requests[i].1;
            if request.caller_connected && observed_at_ms >= request.deadline.expires_at_ms {
                expired.push(self.requests[i].0);
            }
            i = i + 1;
        }
        assert(records.take(i as int) =~= records);
        let ghost start = self.active();
        let mut outcomes: Vec<DeadlineOutcome> = Vec::new();
        let mut k: usize = 0;
        while k < expired.len()
            invariant
                self.wf(),
                k <= expired@.len(),
                expired@ == expired_ids(records, observed_at_ms),
                records == old(self).records(),
                start == old(self).active(),
                expire_run(start, expired@.take(k as int), observed_at_ms) == (
                    self.active(),
                    Ok::<Seq<DeadlineOutcome>, DeadlineError>(outcomes@),
                ),
            decreases expired@.len() - k,
        {
            let request_id = expired[k];
            proof {
                assert(expired@.take(k + 1).drop_last() =~= expired@.take(k as int));
            }
            let outcome = self.disconnect(request_id, observed_at_ms);
            match outcome {
                Err(e) => {
                    proof {
                        let t1 = expired@.take(k + 1);
                        assert(t1.last() == request_id);
                        assert(t1.len() > 0);
                        assert(expire_run(start, t1, observed_at_ms) == (self.active(), Err::<Seq<DeadlineOutcome>, DeadlineError>(e)));
                        lemma_expire_run_stops(start, expired@, observed_at_ms, k + 1);
                    }
                    return Err(e);
                },
                Ok(o) => {
                    outcomes.push(
                        match o {
                            DisconnectOutcome::Cancelled => DeadlineOutcome::Cancelled { request_id },
                            DisconnectOutcome::ResolutionContinues { submission_id } => DeadlineOutcome::ReportedUnknown {
                                request_id,
                                submission_id,
                            },
                        },
                    );
                },
            }
            k = k + 1;
        }
        assert(expired@.take(k as int) =~= expired@);
        proof {
            lemma_expired_ascending(records, observed_at_ms);
            lemma_expire_run_ids(start, expired@, observed_at_ms);
        }
        Ok(outcomes)
    }

    /// Summarizes in-flight and unresolved work with their age distributions.
    ///
    /// # Errors
    ///
    /// `TimeRegressed` when `observed_at_ms` precedes any tracked request's start or the instant
    /// its submission first became unknown.
    pub fn metrics(&self, observed_at_ms: u64) -> (r: Result<WorkMetrics, DeadlineError>)
        requires
            self.wf(),
        ensures
            match tally(self.records(), observed_at_ms) {
                Ok(w) => r == Ok::<WorkMetrics, DeadlineError>(
                    WorkMetrics { in_flight: self.records().len() as usize, ..w },
                ),
                Err(e) => r == Err::<WorkMetrics, DeadlineError>(e),
            },
    {
        let ghost records = self.records();
        let mut metrics = WorkMetrics {
            in_flight: 0,
            unresolved: 0,
            in_flight_age: AgeDistribution {
                under_one_second: 0,
                under_ten_seconds: 0,
                under_one_minute: 0,
                at_least_one_minute: 0,
                oldest_ms: 0,
            },
            unresolved_age: AgeDistribution {
                under_one_second: 0,
                under_ten_seconds: 0,
                under_one_minute: 0,
                at_least_one_minute: 0,
                oldest_ms: 0,
            },
        };
        let mut i: usize = 0;
        while i < self.requests.len()
            invariant
                records == self.records(),
                records.len() == self.requests@.len(),
                i <= self.requests@.len(),
                tally(records.take(i as int), observed_at_ms) == Ok::<WorkMetrics, DeadlineError>(metrics),
                metrics.in_flight == 0,
                age_count(metrics.in_flight_age) == i,
                age_count(metrics.unresolved_age) <= i,
                metrics.unresolved <= i,
            decreases self.requests@.len() - i,
        {
            proof {
                self.lemma_records_len();
                assert(records.take(i + 1).drop_last() =~= records.take(i as int));
            }
            let request = &self.requests[i].1;
            if observed_at_ms < request.deadline.started_at_ms {
                proof {
                    lemma_tally_stops(records, observed_at_ms, i + 1);
                }
                return Err(DeadlineError::TimeRegressed);
            }
            metrics.in_flight_age.record(observed_at_ms - request.deadline.started_at_ms);
            match request.unknown_since_ms {
                None => {},
                Some(unknown_since_ms) => {
                    if observed_at_ms < unknown_since_ms {
                        proof {
                            lemma_tally_stops(records, observed_at_ms, i + 1);
                        }
                        return Err(DeadlineError::TimeRegressed);
                    }
                    metrics.unresolved = metrics.unresolved + 1;
                    metrics.unresolved_age.record(observed_at_ms - unknown_since_ms);
                },
            }
            i = i + 1;
        }
        assert(records.take(i as int) =~= records);
        metrics.in_flight = self.requests.len();
        Ok(metrics)
    }

    /// A snapshot of one tracked request.
    ///
    /// A tracked request is never cancelled: the tracker signals cancellation only to a request
    /// it has just stopped tracking, and each tracked request holds a signal of its own.
    pub fn view(&self, request_id: u64) -> (r: Option<WorkView>)
        requires
            self.wf(),
        ensures
            r is Some <==> self.active().contains_key(request_id),
            r matches Some(v) ==> ({
                let t = self.active()[request_id];
                &&& v.deadline == t.deadline
                &&& v.work == t.work
                &&& v.owner == t.owner
                &&& v.caller_connected == t.caller_connected
                &&& v.unknown_since_ms == t.unknown_since_ms
                &&& !v.cancelled
            }),
    {
        match self.locate(request_id) {
            None => None,
            Some(i) => {
                let request = &self.requests[i].1;
                Some(
                    WorkView {
                        deadline: request.deadline,
                        work: request.work,
                        owner: request.owner,
                        caller_connected: request.caller_connected,
                        unknown_since_ms: request.unknown_since_ms,
                        cancelled: false,
                    },
                )
            },
        }
    }
}

/// The request an outcome reports on.
pub open spec fn outcome_request(o: DeadlineOutcome) -> u64 {
    match o {
        DeadlineOutcome::Cancelled { request_id } => request_id,
        DeadlineOutcome::ReportedUnknown { request_id, .. } => request_id,
    }
}

/// Outcomes in strictly ascending request identifier order.
pub open spec fn outcomes_ascending(outcomes: Seq<DeadlineOutcome>) -> bool {
    forall|a: int, b: int|
        0 <= a < b < outcomes.len() ==> outcome_request(#[trigger] outcomes[a]) < outcome_request(#[trigger] outcomes[b])
}

proof fn lemma_expired_ascending(records: Seq<(u64, TrackedView)>, observed_at_ms: u64)
    requires
        ascending(records),
    ensures
        forall|a: int, b: int|
            0 <= a < b < expired_ids(records, observed_at_ms).len() ==> #[trigger] expired_ids(records, observed_at_ms)[a]
                < #[trigger] expired_ids(records, observed_at_ms)[b],
        forall|a: int|
            0 <= a < expired_ids(records, observed_at_ms).len() ==> exists|k: int|
                0 <= k < records.len() && records[k].0 == #[trigger] expired_ids(records, observed_at_ms)[a],
    decreases records.len(),
{
    if records.len() > 0 {
        let front = records.drop_last();
        assert(ascending(front)) by {
            assert forall|i: int, j: int| 0 <= i < j < front.len() implies #[trigger] front[i].0 < #[trigger] front[j].0 by {
                assert(records[i].0 < records[j].0);
            }
        }
        lemma_expired_ascending(front, observed_at_ms);
        let rest = expired_ids(front, observed_at_ms);
        let e = expired_ids(records, observed_at_ms);
        assert forall|a: int| 0 <= a < e.len() implies exists|k: int| 0 <= k < records.len() && records[k].0 == #[trigger] e[a] by {
            if a < rest.len() {
                assert(e[a] == rest[a]);
                let k = choose|k: int| 0 <= k < front.len() && front[k].0 == rest[a];
                assert(records[k].0 == e[a]);
            } else {
                assert(records[records.len() - 1].0 == e[a]);
            }
        }
        assert forall|a: int, b: int| 0 <= a < b < e.len() implies #[trigger] e[a] < #[trigger] e[b] by {
            if b < rest.len() {
                assert(e[a] == rest[a] && e[b] == rest[b]);
            } else {
                assert(e[a] == rest[a]);
                let k = choose|k: int| 0 <= k < front.len() && front[k].0 == rest[a];
                assert(records[k].0 < records[records.len() - 1].0);
            }
        }
    }
}

proof fn lemma_expire_run_ids(m: Map<u64, TrackedView>, ids: Seq<u64>, observed_at_ms: u64)
    ensures
        expire_run(m, ids, observed_at_ms).1 matches Ok(outcomes) ==> outcomes.len() == ids.len() && forall|k: int|
            0 <= k < ids.len() ==> outcome_request(#[trigger] outcomes[k]) == ids[k],
    decreases ids.len(),
{
    if ids.len() > 0 {
        lemma_expire_run_ids(m, ids.drop_last(), observed_at_ms);
    }
}

proof fn lemma_expire_run_stops(m: Map<u64, TrackedView>, ids: Seq<u64>, observed_at_ms: u64, n: int)
    requires
        0 < n <= ids.len(),
        expire_run(m, ids.take(n), observed_at_ms).1 is Err,
    ensures
        expire_run(m, ids, observed_at_ms) == expire_run(m, ids.take(n), observed_at_ms),
    decreases ids.len() - n,
{
    if n < ids.len() {
        assert(ids.take(n + 1).drop_last() =~= ids.take(n));
        lemma_expire_run_stops(m, ids, observed_at_ms, n + 1);
    } else {
        assert(ids.take(n) =~= ids);
    }
}

proof fn lemma_tally_stops(records: Seq<(u64, TrackedView)>, observed_at_ms: u64, n: int)
    requires
        0 < n <= records.len(),
        tally(records.take(n), observed_at_ms) is Err,
    ensures
        tally(records, observed_at_ms) == tally(records.take(n), observed_at_ms),
    decreases records.len() - n,
{
    if n < records.len() {
        assert(records.take(n + 1).drop_last() =~= records.take(n));
        lemma_tally_stops(records, observed_at_ms, n + 1);
    } else {
        assert(records.take(n) =~= records);
    }
}

/// Cancels caller-owned downstream work or transfers an indeterminate submission to the
/// daemon's receipt resolver.
///
/// # Errors
///
/// `UnknownRequest` for an untracked identifier, or `TimeRegressed` when `observed_at_ms`
/// precedes that request's start.
pub fn disconnect_request(tracker: &mut RequestTracker, request_id: u64, observed_at_ms: u64) -> (r:
    Result<DisconnectOutcome, DeadlineError>)
    requires
        old(tracker).wf(),
    ensures
        final(tracker).wf(),
        (final(tracker).active(), r) == disconnect_effect(
            old(tracker).active(),
            request_id,
            observed_at_ms,
        ),
{
    tracker.disconnect(request_id, observed_at_ms)
}

} // verus!
