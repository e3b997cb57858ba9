//! Bounded, strictly priority-ordered admission of outbound core work.
use vstd::prelude::*;

use crate::bytes::{is_valid_identifier, valid_identifier};

verus! {

/// Strict outbound scheduling order. Lower variants always dispatch first.
#[derive(Clone, Copy, Debug, PartialEq, Eq, Structural, PartialOrd, Ord)]
pub enum Priority {
    Submission,
    ReceiptResolution,
    Retry,
    InteractiveRead,
    Backfill,
    SubscriptionCatchUp,
    BulkRead,
}

/// Number of scheduling lanes.
pub const LANES: usize = 7;

/// Position of a priority in dispatch order.
pub open spec fn rank(p: Priority) -> int {
    match p {
        Priority::Submission => 0,
        Priority::ReceiptResolution => 1,
        Priority::Retry => 2,
        Priority::InteractiveRead => 3,
        Priority::Backfill => 4,
        Priority::SubscriptionCatchUp => 5,
        Priority::BulkRead => 6,
    }
}

/// The priority at a dispatch position.
pub open spec fn priority_at(i: int) -> Priority {
    if i <= 0 {
        Priority::Submission
    } else if i == 1 {
        Priority::ReceiptResolution
    } else if i == 2 {
        Priority::Retry
    } else if i == 3 {
        Priority::InteractiveRead
    } else if i == 4 {
        Priority::Backfill
    } else if i == 5 {
        Priority::SubscriptionCatchUp
    } else {
        Priority::BulkRead
    }
}

pub proof fn lemma_rank_bijective(p: Priority, i: int)
    ensures
        0 <= rank(p) < 7,
        priority_at(rank(p)) == p,
        0 <= i < 7 ==> rank(priority_at(i)) == i,
{
}

impl Priority {
    /// Every priority, in dispatch order.
    pub const ALL: [Priority; 7] = [
        Priority::Submission,
        Priority::ReceiptResolution,
        Priority::Retry,
        Priority::InteractiveRead,
        Priority::Backfill,
        Priority::SubscriptionCatchUp,
        Priority::BulkRead,
    ];

    /// Position in dispatch order.
    pub fn index(self) -> (r: usize)
        ensures
            r == rank(self),
    {
        match self {
            Priority::Submission => 0,
            Priority::ReceiptResolution => 1,
            Priority::Retry => 2,
            Priority::InteractiveRead => 3,
            Priority::Backfill => 4,
            Priority::SubscriptionCatchUp => 5,
            Priority::BulkRead => 6,
        }
    }

    /// The priority at a dispatch position.
    pub fn at(i: usize) -> (r: Priority)
        requires
            i < 7,
        ensures
            r == priority_at(i as int),
            rank(r) == i,
    {
        match i {
            0 => Priority::Submission,
            1 => Priority::ReceiptResolution,
            2 => Priority::Retry,
            3 => Priority::InteractiveRead,
            4 => Priority::Backfill,
            5 => Priority::SubscriptionCatchUp,
            _ => Priority::BulkRead,
        }
    }
}

/// Independent finite bounds for one scheduling lane.
#[derive(Clone, Copy, Debug, PartialEq, Eq, Structural)]
pub struct QueueBound {
    pub requests: usize,
    pub bytes: usize,
}

/// Complete boundary admission configuration: one bound per priority, in dispatch order.
#[derive(Clone, Debug, PartialEq, Eq)]
pub struct AdmissionConfig {
    pub maximum_in_flight: usize,
    pub maximum_message_bytes: usize,
    pub lanes: Vec<QueueBound>,
}

/// The bound a lane list gives a priority: its last entry for that priority.
pub open spec fn lane_bound(lanes: Seq<(Priority, QueueBound)>, p: Priority) -> Option<QueueBound>
    decreases lanes.len(),
{
    if lanes.len() == 0 {
        None
    } else if lanes.last().0 == p {
        Some(lanes.last().1)
    } else {
        lane_bound(lanes.drop_last(), p)
    }
}

/// A finite, non-zero bound.
pub open spec fn bound_usable(bound: Option<QueueBound>) -> bool {
    bound matches Some(b) && b.requests > 0 && b.bytes > 0
}

/// When `AdmissionConfig::new` accepts its input.
pub open spec fn config_acceptable(
    maximum_in_flight: usize,
    maximum_message_bytes: usize,
    lanes: Seq<(Priority, QueueBound)>,
) -> bool {
    &&& maximum_in_flight > 0
    &&& maximum_message_bytes > 0
    &&& forall|i: int| 0 <= i < 7 ==> #[trigger] bound_usable(lane_bound(lanes, priority_at(i)))
}

impl AdmissionConfig {
    /// The configured bound of one priority lane.
    pub open spec fn bound(&self, p: Priority) -> QueueBound {
        self.lanes@[rank(p)]
    }

    /// Well-formed configuration: non-zero limits and a non-zero bound for every lane.
    pub open spec fn wf(&self) -> bool {
        &&& self.maximum_in_flight > 0
        &&& self.maximum_message_bytes > 0
        &&& self.lanes@.len() == 7
        &&& forall|i: int| 0 <= i < 7 ==> #[trigger] self.lanes@[i].requests > 0 && self.lanes@[i].bytes > 0
    }

    /// Creates a configuration only when every priority lane has finite bounds. A later entry
    /// for the same priority replaces an earlier one.
    ///
    /// # Errors
    ///
    /// Returns `InvalidConfiguration` for a zero in-flight or message limit, a missing lane, or
    /// a lane bound with zero requests or zero bytes.
    pub fn new(
        maximum_in_flight: usize,
        maximum_message_bytes: usize,
        lanes: Vec<(Priority, QueueBound)>,
    ) -> (r: Result<Self, AdmissionError>)
        ensures
            r is Ok <==> config_acceptable(maximum_in_flight, maximum_message_bytes, lanes@),
            r matches Err(e) ==> e is InvalidConfiguration,
            r matches Ok(c) ==> c.wf() && c.maximum_in_flight == maximum_in_flight
                && c.maximum_message_bytes == maximum_message_bytes && forall|i: int|
                0 <= i < 7 ==> lane_bound(lanes@, priority_at(i)) == Some(#[trigger] c.lanes@[i]),
    {
        if maximum_in_flight == 0 || maximum_message_bytes == 0 {
            return Err(AdmissionError::InvalidConfiguration);
        }
        let mut table: Vec<QueueBound> = Vec::new();
        let mut i: usize = 0;
        while i < 7
            invariant
                i <= 7,
                table@.len() == i,
                forall|j: int|
                    0 <= j < i ==> lane_bound(lanes@, priority_at(j)) == Some(#[trigger] table@[j])
                        && table@[j].requests > 0 && table@[j].bytes > 0,
            decreases 7 - i,
        {
            let p = Priority::at(i);
            match last_bound(&lanes, p) {
                Some(bound) => {
                    if bound.requests == 0 || bound.bytes == 0 {
                        assert(!bound_usable(lane_bound(lanes@, priority_at(i as int))));
                        return Err(AdmissionError::InvalidConfiguration);
                    }
                    table.push(bound);
                },
                None => {
                    assert(!bound_usable(lane_bound(lanes@, priority_at(i as int))));
                    return Err(AdmissionError::InvalidConfiguration);
                },
            }
            i = i + 1;
        }
        let r = AdmissionConfig { maximum_in_flight, maximum_message_bytes, lanes: table };
        assert(config_acceptable(maximum_in_flight, maximum_message_bytes, lanes@)) by {
            assert forall|i: int| 0 <= i < 7 implies #[trigger] bound_usable(
                lane_bound(lanes@, priority_at(i)),
            ) by {
                assert(lane_bound(lanes@, priority_at(i)) == Some(table@[i]));
            }
        }
        Ok(r)
    }
}

/// The last bound given for `p`.
fn last_bound(lanes: &Vec<(Priority, QueueBound)>, p: Priority) -> (r: Option<QueueBound>)
    ensures
        r == lane_bound(lanes@, p),
{
    let mut i: usize = lanes.len();
    assert(lanes@.take(i as int) =~= lanes@);
    while i > 0
        invariant
            i <= lanes.len(),
            lane_bound(lanes@, p) == lane_bound(lanes@.take(i as int), p),
        decreases i,
    {
        let (q, bound) = lanes[i - 1];
        assert(lanes@.take(i as int).last() == lanes@[i - 1]);
        assert(lanes@.take(i as int).drop_last() =~= lanes@.take(i - 1));
        if q == p {
            return Some(bound);
        }
        i = i - 1;
    }
    assert(lanes@.take(0) =~= Seq::<(Priority, QueueBound)>::empty());
    None
}

/// One caller-owned unit of outbound core work.
#[derive(Clone, Debug, PartialEq, Eq)]
pub struct BoundaryWork {
    pub request_id: u64,
    pub tenant: String,
    pub priority: Priority,
    pub bytes: Vec<u8>,
}

/// Current core signal observed at the admission boundary.
#[derive(Clone, Copy, Debug, PartialEq, Eq, Structural)]
pub enum CoreAvailability {
    Ready,
    Backpressured { retry_after_ms: u64 },
    Unavailable { retry_after_ms: u64 },
}

/// Completion signal for dispatched work.
#[derive(Clone, Copy, Debug, PartialEq, Eq, Structural)]
pub enum CoreOutcome {
    Completed,
    Backpressured { retry_after_ms: u64 },
    Unavailable { retry_after_ms: u64 },
}

/// Exact source of caller-visible boundary backpressure.
#[derive(Clone, Copy, Debug, PartialEq, Eq, Structural)]
pub enum BackpressureSource {
    QueueRequests,
    QueueBytes,
    InFlight,
    CoreBackpressured,
    CoreUnavailable,
}

/// Typed immediate refusal; the controller never waits or queues implicitly.
#[derive(Clone, Debug, PartialEq, Eq)]
pub enum AdmissionError {
    InvalidConfiguration,
    InvalidWork,
    DuplicateRequest(u64),
    UnknownInFlight(u64),
    Backpressure {
        source: BackpressureSource,
        priority: Priority,
        retry_after_ms: Option<u64>,
        queued_requests: usize,
        queued_bytes: usize,
    },
}

/// Requests and bytes currently queued in one lane.
#[derive(Clone, Copy, Debug, Default, PartialEq, Eq, Structural)]
pub struct LaneUtilization {
    pub queued_requests: usize,
    pub queued_bytes: usize,
}

/// Work removed from the queue and owned by one boundary call.
#[derive(Clone, Debug, PartialEq, Eq)]
pub struct Dispatch {
    pub work: BoundaryWork,
    pub in_flight: usize,
}

/// Total payload bytes of a lane.
pub open spec fn lane_bytes(lane: Seq<BoundaryWork>) -> nat
    decreases lane.len(),
{
    if lane.len() == 0 {
        0
    } else {
        lane_bytes(lane.drop_last()) + lane.last().bytes@.len()
    }
}

pub proof fn lemma_lane_bytes_drop_first(lane: Seq<BoundaryWork>)
    requires
        lane.len() > 0,
    ensures
        lane_bytes(lane) == lane[0].bytes@.len() + lane_bytes(lane.drop_first()),
    decreases lane.len(),
{
    if lane.len() > 1 {
        lemma_lane_bytes_drop_first(lane.drop_last());
        assert(lane.drop_last().drop_first() =~= lane.drop_first().drop_last());
        assert(lane.drop_first().last() == lane.last());
        assert(lane.drop_last()[0] == lane[0]);
    } else {
        assert(lane.drop_first().len() == 0);
        assert(lane.drop_last().len() == 0);
        assert(lane_bytes(lane.drop_last()) == 0);
        assert(lane_bytes(lane.drop_first()) == 0);
        assert(lane.last() == lane[0]);
    }
}

/// The error describing backpressure from `source` in lane `priority`.
pub open spec fn backpressure_error(
    source: BackpressureSource,
    priority: Priority,
    retry_after_ms: Option<u64>,
    current: LaneUtilization,
) -> AdmissionError {
    AdmissionError::Backpressure {
        source,
        priority,
        retry_after_ms,
        queued_requests: current.queued_requests,
        queued_bytes: current.queued_bytes,
    }
}

/// The refusal a non-ready core signal causes, if any.
pub open spec fn availability_refusal(
    availability: CoreAvailability,
    priority: Priority,
    current: LaneUtilization,
) -> Option<AdmissionError> {
    match availability {
        CoreAvailability::Ready => None,
        CoreAvailability::Backpressured { retry_after_ms } => Some(
            backpressure_error(
                BackpressureSource::CoreBackpressured,
                priority,
                Some(retry_after_ms),
                current,
            ),
        ),
        CoreAvailability::Unavailable { retry_after_ms } => Some(
            backpressure_error(
                BackpressureSource::CoreUnavailable,
                priority,
                Some(retry_after_ms),
                current,
            ),
        ),
    }
}

/// Valid work: a valid tenant identifier and a non-empty payload within the message limit.
pub open spec fn work_valid(work: BoundaryWork, maximum_message_bytes: usize) -> bool {
    &&& valid_identifier(work.tenant@)
    &&& work.bytes@.len() > 0
    &&& work.bytes@.len() <= maximum_message_bytes
}

/// Whether any lane of `lanes` holds work with this request identifier.
pub open spec fn queued_in(lanes: Seq<Seq<BoundaryWork>>, request_id: u64) -> bool {
    exists|l: int, k: int|
        0 <= l < lanes.len() && 0 <= k < lanes[l].len() && #[trigger] lanes[l][k].request_id
            == request_id
}

/// Bounded, priority-ordered admission controller for all outbound core work.
pub struct BoundaryAdmission {
    config: AdmissionConfig,
    queues: Vec<Vec<BoundaryWork>>,
    utilization: Vec<LaneUtilization>,
    in_flight: Vec<(u64, Priority)>,
}

impl BoundaryAdmission {
    /// The configuration.
    pub closed spec fn config(&self) -> AdmissionConfig {
        self.config
    }

    /// The queued work of each lane, oldest first, in dispatch order of lanes.
    pub closed spec fn lanes(&self) -> Seq<Seq<BoundaryWork>> {
        self.queues@.map_values(|q: Vec<BoundaryWork>| q@)
    }

    /// The queued work of one lane, oldest first.
    pub open spec fn lane(&self, p: Priority) -> Seq<BoundaryWork> {
        self.lanes()[rank(p)]
    }

    /// Dispatched work not yet finished, with its lane, in dispatch order.
    pub closed spec fn dispatched(&self) -> Seq<(u64, Priority)> {
        self.in_flight@
    }

    /// Whether `request_id` is dispatched and unfinished.
    pub open spec fn is_in_flight(&self, request_id: u64) -> bool {
        exists|k: int| 0 <= k < self.dispatched().len() && #[trigger] self.dispatched()[k].0 == request_id
    }

    /// Whether `request_id` is queued in some lane.
    pub open spec fn is_queued(&self, request_id: u64) -> bool {
        queued_in(self.lanes(), request_id)
    }

    /// The utilization a lane's queued work amounts to.
    pub open spec fn lane_utilization(&self, p: Priority) -> (nat, nat) {
        (self.lane(p).len(), lane_bytes(self.lane(p)))
    }

    /// Invariant: one lane per priority, utilization equal to the lane contents and within
    /// its bound, distinct request identifiers, in-flight count within its limit.
    pub closed spec fn wf(&self) -> bool {
        &&& self.config.wf()
        &&& self.queues@.len() == 7
        &&& self.utilization@.len() == 7
        &&& forall|i: int|
            0 <= i < 7 ==> {
                &&& #[trigger] self.utilization@[i].queued_requests == self.queues@[i]@.len()
                &&& self.utilization@[i].queued_bytes == lane_bytes(self.queues@[i]@)
                &&& self.queues@[i]@.len() <= self.config.lanes@[i].requests
                &&& lane_bytes(self.queues@[i]@) <= self.config.lanes@[i].bytes
            }
        &&& forall|i: int, k: int|
            0 <= i < 7 && 0 <= k < self.queues@[i]@.len() ==> (#[trigger] self.queues@[i]@[k]).priority
                == priority_at(i)
        &&& self.in_flight@.len() <= self.config.maximum_in_flight
        &&& forall|a: int, b: int|
            0 <= a < b < self.in_flight@.len() ==> #[trigger] self.in_flight@[a].0
                != #[trigger] self.in_flight@[b].0
        &&& forall|i1: int, k1: int, i2: int, k2: int|
            0 <= i1 < 7 && 0 <= i2 < 7 && 0 <= k1 < self.queues@[i1]@.len() && 0 <= k2
                < self.queues@[i2]@.len() && (i1 != i2 || k1 != k2) ==> #[trigger] self.queues@[i1]@[k1].request_id
                != #[trigger] self.queues@[i2]@[k2].request_id
        &&& forall|i: int, k: int, a: int|
            0 <= i < 7 && 0 <= k < self.queues@[i]@.len() && 0 <= a < self.in_flight@.len() ==> #[trigger] self.queues@[i]@[k].request_id
                != #[trigger] self.in_flight@[a].0
    }

    /// Current utilization of one lane.
    pub open spec fn current(&self, p: Priority) -> LaneUtilization {
        LaneUtilization {
            queued_requests: self.lane(p).len() as usize,
            queued_bytes: lane_bytes(self.lane(p)) as usize,
        }
    }

    pub proof fn lemma_wf(&self, p: Priority)
        requires
            self.wf(),
        ensures
            self.lanes().len() == 7,
            self.lane(p).len() <= self.config().bound(p).requests,
            lane_bytes(self.lane(p)) <= self.config().bound(p).bytes,
            self.dispatched().len() <= self.config().maximum_in_flight,
            forall|k: int| 0 <= k < self.lane(p).len() ==> (#[trigger] self.lane(p)[k]).priority == p,
            !exists|r: u64| self.is_queued(r) && self.is_in_flight(r),
            forall|a: int, b: int|
                0 <= a < b < self.dispatched().len() ==> #[trigger] self.dispatched()[a].0
                    != #[trigger] self.dispatched()[b].0,
    {
        let i = rank(p);
        assert(self.lanes()[i] == self.queues@[i]@);
        assert(self.utilization@[i].queued_requests == self.queues@[i]@.len());
        assert forall|k: int| 0 <= k < self.lane(p).len() implies (#[trigger] self.lane(p)[k]).priority
            == p by {
            assert(self.queues@[i]@[k].priority == priority_at(i));
        }
        if exists|r: u64| self.is_queued(r) && self.is_in_flight(r) {
            let r = choose|r: u64| self.is_queued(r) && self.is_in_flight(r);
            let (l, k) = choose|l: int, k: int|
                0 <= l < self.lanes().len() && 0 <= k < self.lanes()[l].len()
                    && #[trigger] self.lanes()[l][k].request_id == r;
            let a = choose|a: int| 0 <= a < self.dispatched().len() && #[trigger] self.dispatched()[a].0 == r;
            assert(self.queues@[l]@[k].request_id != self.in_flight@[a].0);
        }
    }

    /// An empty controller with every lane initialized.
    pub fn new(config: AdmissionConfig) -> (r: Self)
        requires
            config.wf(),
        ensures
            r.wf(),
            r.config() == config,
            forall|i: int| 0 <= i < 7 ==> (#[trigger] r.lanes()[i]).len() == 0,
            r.lanes().len() == 7,
            r.dispatched().len() == 0,
    {
        let mut queues: Vec<Vec<BoundaryWork>> = Vec::new();
        let mut utilization: Vec<LaneUtilization> = Vec::new();
        let mut i: usize = 0;
        while i < 7
            invariant
                i <= 7,
                queues@.len() == i,
                utilization@.len() == i,
                forall|j: int|
                    0 <= j < i ==> (#[trigger] queues@[j])@.len() == 0
                        && utilization@[j].queued_requests == 0 && utilization@[j].queued_bytes
                        == 0,
            decreases 7 - i,
        {
            queues.push(Vec::new());
            utilization.push(LaneUtilization { queued_requests: 0, queued_bytes: 0 });
            i = i + 1;
        }
        BoundaryAdmission { config, queues, utilization, in_flight: Vec::new() }
    }

    fn is_request_known(&self, request_id: u64) -> (r: bool)
        requires
            self.wf(),
        ensures
            r == (self.is_queued(request_id) || self.is_in_flight(request_id)),
    {
        let mut l: usize = 0;
        while l < 7
            invariant
                self.wf(),
                l <= 7,
                forall|i: int, k: int|
                    0 <= i < l && 0 <= k < self.queues@[i]@.len() ==> #[trigger] self.queues@[i]@[k].request_id
                        != request_id,
            decreases 7 - l,
        {
            let mut k: usize = 0;
            while k < self.queues[l].len()
                invariant
                    self.wf(),
                    l < 7,
                    k <= self.queues@[l as int]@.len(),
                    forall|j: int| 0 <= j < k ==> #[trigger] self.queues@[l as int]@[j].request_id != request_id,
                decreases self.queues@[l as int]@.len() - k,
            {
                if self.queues[l][k].request_id == request_id {
                    assert(self.lanes().len() == 7);
                    assert(self.lanes()[l as int][k as int].request_id == request_id);
                    return true;
                }
                k = k + 1;
            }
            l = l + 1;
        }
        let mut a: usize = 0;
        while a < self.in_flight.len()
            invariant
                self.wf(),
                a <= self.in_flight@.len(),
                forall|j: int| 0 <= j < a ==> #[trigger] self.in_flight@[j].0 != request_id,
            decreases self.in_flight@.len() - a,
        {
            if self.in_flight[a].0 == request_id {
                assert(self.dispatched()[a as int].0 == request_id);
                return true;
            }
            a = a + 1;
        }
        proof {
            if self.is_queued(request_id) {
                let (i, k) = choose|i: int, k: int|
                    0 <= i < self.lanes().len() && 0 <= k < self.lanes()[i].len()
                        && #[trigger] self.lanes()[i][k].request_id == request_id;
                assert(self.queues@[i]@[k].request_id == request_id);
            }
        }
        false
    }

    fn first_lane(&self) -> (r: Option<usize>)
        requires
            self.wf(),
        ensures
            r matches Some(l) ==> first_nonempty(self.lanes()) == Some(l as int) && l < 7
                && self.lanes()[l as int] == self.queues@[l as int]@,
            r is None ==> first_nonempty(self.lanes()) is None,
    {
        let ghost lanes = self.lanes();
        let mut l: usize = 0;
        while l < 7
            invariant
                self.wf(),
                lanes == self.lanes(),
                lanes.len() == 7,
                l <= 7,
                forall|j: int| 0 <= j < l ==> (#[trigger] lanes[j]).len() == 0,
            decreases 7 - l,
        {
            assert(lanes[l as int] == self.queues@[l as int]@);
            if self.queues[l].len() > 0 {
                proof {
                    lemma_first_nonempty(lanes);
                }
                return Some(l);
            }
            l = l + 1;
        }
        proof {
            lemma_first_nonempty(lanes);
        }
        None
    }

    fn position_in_flight(&self, request_id: u64) -> (r: Option<usize>)
        requires
            self.wf(),
        ensures
            r is None ==> !self.is_in_flight(request_id),
            r matches Some(k) ==> k < self.dispatched().len() && self.dispatched()[k as int].0 == request_id
                && k == (choose|c: int|
                0 <= c < self.dispatched().len() && #[trigger] self.dispatched()[c].0
                    == request_id),
    {
        let mut k: usize = 0;
        while k < self.in_flight.len()
            invariant
                self.wf(),
                k <= self.in_flight@.len(),
                forall|j: int| 0 <= j < k ==> #[trigger] self.in_flight@[j].0 != request_id,
            decreases self.in_flight@.len() - k,
        {
            if self.in_flight[k].0 == request_id {
                proof {
                    assert(self.is_in_flight(request_id));
                    let c = choose|c: int|
                        0 <= c < self.dispatched().len() && #[trigger] self.dispatched()[c].0
                            == request_id;
                    if c != k {
                        if c < k {
                            assert(self.in_flight@[c].0 != self.in_flight@[k as int].0);
                        } else {
                            assert(self.in_flight@[k as int].0 != self.in_flight@[c].0);
                        }
                    }
                }
                return Some(k);
            }
            k = k + 1;
        }
        None
    }

    fn refusal_for(&self, priority: Priority, availability: CoreAvailability) -> (r: Option<
        AdmissionError,
    >)
        requires
            self.wf(),
        ensures
            r == availability_refusal(availability, priority, self.current(priority)),
    {
        let current = self.utilization[priority.index()];
        proof {
            assert(self.lanes()[rank(priority)] == self.queues@[rank(priority)]@);
            assert(self.utilization@[rank(priority)].queued_requests
                == self.queues@[rank(priority)]@.len());
        }
        match availability {
            CoreAvailability::Ready => None,
            CoreAvailability::Backpressured { retry_after_ms } => Some(
                backpressure(
                    BackpressureSource::CoreBackpressured,
                    priority,
                    Some(retry_after_ms),
                    current,
                ),
            ),
            CoreAvailability::Unavailable { retry_after_ms } => Some(
                backpressure(
                    BackpressureSource::CoreUnavailable,
                    priority,
                    Some(retry_after_ms),
                    current,
                ),
            ),
        }
    }

    /// Admits work into its independently bounded lane only while core is ready.
    ///
    /// # Errors
    ///
    /// `InvalidWork` for an invalid tenant or payload; backpressure from a non-ready core;
    /// `DuplicateRequest` for an identifier already queued or in flight; `QueueRequests` or
    /// `QueueBytes` backpressure when the lane bound would be exceeded.
    pub fn admit_request(&mut self, work: BoundaryWork, availability: CoreAvailability) -> (r: Result<
        (),
        AdmissionError,
    >)
        requires
            old(self).wf(),
        ensures
            final(self).wf(),
            final(self).config() == old(self).config(),
            r == admit_outcome(*old(self), work, availability),
            r is Ok ==> final(self).lanes() == old(self).lanes().update(
                rank(work.priority),
                old(self).lane(work.priority).push(work),
            ) && final(self).dispatched() == old(self).dispatched(),
            r is Err ==> final(self).lanes() == old(self).lanes() && final(self).dispatched()
                == old(self).dispatched(),
    {
        if !is_valid_identifier(work.tenant.as_str()) || work.bytes.len() == 0 || work.bytes.len()
            > self.config.maximum_message_bytes {
            return Err(AdmissionError::InvalidWork);
        }
        match self.refusal_for(work.priority, availability) {
            Some(error) => {
                return Err(error);
            },
            None => {},
        }
        if self.is_request_known(work.request_id) {
            return Err(AdmissionError::DuplicateRequest(work.request_id));
        }
        let idx = work.priority.index();
        let bound = self.config.lanes[idx];
        let current = self.utilization[idx];
        proof {
            assert(self.lanes()[idx as int] == self.queues@[idx as int]@);
        }
        if current.queued_requests >= bound.requests {
            return Err(backpressure(BackpressureSource::QueueRequests, work.priority, None, current));
        }
        if current.queued_bytes > usize::MAX - work.bytes.len() {
            return Err(backpressure(BackpressureSource::QueueBytes, work.priority, None, current));
        }
        let next_bytes = current.queued_bytes + work.bytes.len();
        if next_bytes > bound.bytes {
            return Err(backpressure(BackpressureSource::QueueBytes, work.priority, None, current));
        }
        let ghost old_self = *self;
        let ghost lane = self.queues@[idx as int]@;
        proof {
            assert(lane.push(work).drop_last() =~= lane);
        }
        let request_id = work.request_id;
        self.queues[idx].push(work);
        self.utilization.set(
            idx,
            LaneUtilization { queued_requests: current.queued_requests + 1, queued_bytes: next_bytes },
        );
        proof {
            assert(self.lanes() =~= old_self.lanes().update(idx as int, lane.push(work)));
            assert(lane_bytes(lane.push(work)) == lane_bytes(lane) + work.bytes@.len());
            assert forall|i: int| 0 <= i < 7 implies {
                &&& #[trigger] self.utilization@[i].queued_requests == self.queues@[i]@.len()
                &&& self.utilization@[i].queued_bytes == lane_bytes(self.queues@[i]@)
                &&& self.queues@[i]@.len() <= self.config.lanes@[i].requests
                &&& lane_bytes(self.queues@[i]@) <= self.config.lanes@[i].bytes
            } by {
                if i != idx {
                    assert(old_self.utilization@[i] == self.utilization@[i]);
                    assert(old_self.queues@[i] == self.queues@[i]);
                    assert(old_self.utilization@[i].queued_requests == old_self.queues@[i]@.len());
                } else {
                    assert(old_self.utilization@[i].queued_requests == old_self.queues@[i]@.len());
                }
            }
            assert forall|i1: int, k1: int, i2: int, k2: int|
                0 <= i1 < 7 && 0 <= i2 < 7 && 0 <= k1 < self.queues@[i1]@.len() && 0 <= k2
                    < self.queues@[i2]@.len() && (i1 != i2 || k1 != k2) implies #[trigger] self.queues@[i1]@[k1].request_id
                != #[trigger] self.queues@[i2]@[k2].request_id by {
                if i1 == idx && k1 == lane.len() {
                    assert(old_self.lanes()[i2] == old_self.queues@[i2]@);
                    assert(old_self.queues@[i2]@[k2] == self.queues@[i2]@[k2]);
                } else if i2 == idx && k2 == lane.len() {
                    assert(old_self.lanes()[i1] == old_self.queues@[i1]@);
                    assert(old_self.queues@[i1]@[k1] == self.queues@[i1]@[k1]);
                } else {
                    assert(old_self.queues@[i1]@[k1] == self.queues@[i1]@[k1]);
                    assert(old_self.queues@[i2]@[k2] == self.queues@[i2]@[k2]);
                }
            }
            assert forall|i: int, k: int, a: int|
                0 <= i < 7 && 0 <= k < self.queues@[i]@.len() && 0 <= a < self.in_flight@.len() implies #[trigger] self.queues@[i]@[k].request_id
                != #[trigger] self.in_flight@[a].0 by {
                if i == idx && k == lane.len() {
                    assert(old_self.dispatched()[a].0 == self.in_flight@[a].0);
                } else {
                    assert(old_self.queues@[i]@[k] == self.queues@[i]@[k]);
                }
            }
            assert forall|i: int, k: int|
                0 <= i < 7 && 0 <= k < self.queues@[i]@.len() implies (#[trigger] self.queues@[i]@[k]).priority
                == priority_at(i) by {
                if !(i == idx && k == lane.len()) {
                    assert(old_self.queues@[i]@[k] == self.queues@[i]@[k]);
                }
            }
        }
        Ok(())
    }

    /// Dispatches the oldest request from the strict highest-priority non-empty lane.
    ///
    /// # Errors
    ///
    /// Backpressure from a non-ready core, or `InFlight` backpressure at the in-flight limit.
    pub fn dispatch(&mut self, availability: CoreAvailability) -> (r: Result<
        Option<Dispatch>,
        AdmissionError,
    >)
        requires
            old(self).wf(),
        ensures
            final(self).wf(),
            final(self).config() == old(self).config(),
            ({
                let lanes = old(self).lanes();
                match first_nonempty(lanes) {
                    None => r == Ok::<Option<Dispatch>, AdmissionError>(None) && final(self).lanes() == lanes
                        && final(self).dispatched() == old(self).dispatched(),
                    Some(i) => {
                        let p = priority_at(i);
                        match availability_refusal(availability, p, old(self).current(p)) {
                            Some(e) => r == Err::<Option<Dispatch>, AdmissionError>(e) && final(self).lanes() == lanes
                                && final(self).dispatched() == old(self).dispatched(),
                            None => if old(self).dispatched().len() >= old(self).config().maximum_in_flight {
                                r == Err::<Option<Dispatch>, AdmissionError>(
                                    backpressure_error(
                                        BackpressureSource::InFlight,
                                        p,
                                        None,
                                        old(self).current(p),
                                    ),
                                ) && final(self).lanes() == lanes && final(self).dispatched()
                                    == old(self).dispatched()
                            } else {
                                &&& r matches Ok(Some(d))
                                &&& d.work == lanes[i][0]
                                &&& final(self).lanes() == lanes.update(i, lanes[i].drop_first())
                                &&& final(self).dispatched() == old(self).dispatched().push(
                                    (d.work.request_id, p),
                                )
                                &&& d.in_flight == final(self).dispatched().len()
                            },
                        }
                    },
                }
            }),
    {
        let ghost lanes = self.lanes();
        let l = match self.first_lane() {
            None => {
                return Ok(None);
            },
            Some(l) => l,
        };
        let priority = Priority::at(l);
        match self.refusal_for(priority, availability) {
            Some(error) => {
                return Err(error);
            },
            None => {},
        }
        if self.in_flight.len() >= self.config.maximum_in_flight {
            let current = self.utilization[l];
            assert(self.lanes()[l as int] == self.queues@[l as int]@);
            return Err(backpressure(BackpressureSource::InFlight, priority, None, current));
        }
        let ghost old_self = *self;
        let ghost lane = self.queues@[l as int]@;
        let current = self.utilization[l];
        let work = self.queues[l].remove(0);
        proof {
            lemma_lane_bytes_drop_first(lane);
            assert(self.queues@[l as int]@ =~= lane.drop_first());
        }
        self.utilization.set(
            l,
            LaneUtilization {
                queued_requests: current.queued_requests - 1,
                queued_bytes: current.queued_bytes - work.bytes.len(),
            },
        );
        let request_id = work.request_id;
        self.in_flight.push((request_id, priority));
        proof {
            assert(self.lanes() =~= lanes.update(l as int, lane.drop_first()));
            assert forall|i: int| 0 <= i < 7 implies {
                &&& #[trigger] self.utilization@[i].queued_requests == self.queues@[i]@.len()
                &&& self.utilization@[i].queued_bytes == lane_bytes(self.queues@[i]@)
                &&& self.queues@[i]@.len() <= self.config.lanes@[i].requests
                &&& lane_bytes(self.queues@[i]@) <= self.config.lanes@[i].bytes
            } by {
                assert(old_self.utilization@[i].queued_requests == old_self.queues@[i]@.len());
                if i != l {
                    assert(old_self.utilization@[i] == self.utilization@[i]);
                    assert(old_self.queues@[i] == self.queues@[i]);
                }
            }
            assert(work == lanes[l as int][0]);
            assert forall|a: int, b: int| 0 <= a < b < self.in_flight@.len() implies #[trigger] self.in_flight@[a].0
                != #[trigger] self.in_flight@[b].0 by {
                if b == self.in_flight@.len() - 1 {
                    assert(old_self.queues@[l as int]@[0].request_id != old_self.in_flight@[a].0);
                }
            }
            assert forall|i1: int, k1: int, i2: int, k2: int|
                0 <= i1 < 7 && 0 <= i2 < 7 && 0 <= k1 < self.queues@[i1]@.len() && 0 <= k2
                    < self.queues@[i2]@.len() && (i1 != i2 || k1 != k2) implies #[trigger] self.queues@[i1]@[k1].request_id
                != #[trigger] self.queues@[i2]@[k2].request_id by {
                let o1 = if i1 == l { k1 + 1 } else { k1 };
                let o2 = if i2 == l { k2 + 1 } else { k2 };
                assert(old_self.queues@[i1]@[o1] == self.queues@[i1]@[k1]);
                assert(old_self.queues@[i2]@[o2] == self.queues@[i2]@[k2]);
            }
            assert forall|i: int, k: int, a: int|
                0 <= i < 7 && 0 <= k < self.queues@[i]@.len() && 0 <= a < self.in_flight@.len() implies #[trigger] self.queues@[i]@[k].request_id
                != #[trigger] self.in_flight@[a].0 by {
                let o = if i == l { k + 1 } else { k };
                assert(old_self.queues@[i]@[o] == self.queues@[i]@[k]);
                if a == self.in_flight@.len() - 1 {
                    assert(old_self.queues@[l as int]@[0].request_id == request_id);
                    assert(i != l || o != 0);
                }
            }
            assert forall|i: int, k: int|
                0 <= i < 7 && 0 <= k < self.queues@[i]@.len() implies (#[trigger] self.queues@[i]@[k]).priority
                == priority_at(i) by {
                let o = if i == l { k + 1 } else { k };
                assert(old_self.queues@[i]@[o] == self.queues@[i]@[k]);
            }
        }
        let in_flight = self.in_flight.len();
        Ok(Some(Dispatch { work, in_flight }))
    }

    /// Releases one boundary slot and propagates the exact core outcome. Failed work is
    /// caller-owned and is never silently requeued.
    ///
    /// # Errors
    ///
    /// `UnknownInFlight` for an identifier not in flight; otherwise the core's backpressure or
    /// unavailability, after the slot is released.
    pub fn finish(&mut self, request_id: u64, outcome: CoreOutcome) -> (r: Result<
        (),
        AdmissionError,
    >)
        requires
            old(self).wf(),
        ensures
            final(self).wf(),
            final(self).config() == old(self).config(),
            final(self).lanes() == old(self).lanes(),
            !old(self).is_in_flight(request_id) ==> r == Err::<(), AdmissionError>(
                AdmissionError::UnknownInFlight(request_id),
            ) && final(self).dispatched() == old(self).dispatched(),
            old(self).is_in_flight(request_id) ==> {
                let k = choose|k: int|
                    0 <= k < old(self).dispatched().len() && #[trigger] old(self).dispatched()[k].0
                        == request_id;
                let p = old(self).dispatched()[k].1;
                &&& final(self).dispatched() == old(self).dispatched().remove(k)
                &&& !final(self).is_in_flight(request_id)
                &&& r == finish_outcome(outcome, p, old(self).current(p))
            },
    {
        let k = match self.position_in_flight(request_id) {
            None => {
                return Err(AdmissionError::UnknownInFlight(request_id));
            },
            Some(k) => k,
        };
        let ghost old_self = *self;
        let (_, priority) = self.in_flight.remove(k);
        proof {
            assert forall|a: int, b: int| 0 <= a < b < self.in_flight@.len() implies #[trigger] self.in_flight@[a].0
                != #[trigger] self.in_flight@[b].0 by {
                let oa = if a < k { a } else { a + 1 };
                let ob = if b < k { b } else { b + 1 };
                assert(old_self.in_flight@[oa] == self.in_flight@[a]);
                assert(old_self.in_flight@[ob] == self.in_flight@[b]);
            }
            assert forall|i: int, kk: int, a: int|
                0 <= i < 7 && 0 <= kk < self.queues@[i]@.len() && 0 <= a < self.in_flight@.len() implies #[trigger] self.queues@[i]@[kk].request_id
                != #[trigger] self.in_flight@[a].0 by {
                let oa = if a < k { a } else { a + 1 };
                assert(old_self.in_flight@[oa] == self.in_flight@[a]);
            }
            assert(old_self.in_flight@[k as int].0 == request_id);
            if self.is_in_flight(request_id) {
                let a = choose|a: int| 0 <= a < self.dispatched().len() && #[trigger] self.dispatched()[a].0 == request_id;
                let oa = if a < k { a } else { a + 1 };
                assert(old_self.in_flight@[oa] == self.in_flight@[a]);
                if oa < k {
                    assert(old_self.in_flight@[oa].0 != old_self.in_flight@[k as int].0);
                } else {
                    assert(old_self.in_flight@[k as int].0 != old_self.in_flight@[oa].0);
                }
            }
        }
        let current = self.utilization[priority.index()];
        proof {
            assert(self.lanes()[rank(priority)] == self.queues@[rank(priority)]@);
            assert(self.utilization@[rank(priority)].queued_requests
                == self.queues@[rank(priority)]@.len());
        }
        match outcome {
            CoreOutcome::Completed => Ok(()),
            CoreOutcome::Backpressured { retry_after_ms } => Err(
                backpressure(
                    BackpressureSource::CoreBackpressured,
                    priority,
                    Some(retry_after_ms),
                    current,
                ),
            ),
            CoreOutcome::Unavailable { retry_after_ms } => Err(
                backpressure(
                    BackpressureSource::CoreUnavailable,
                    priority,
                    Some(retry_after_ms),
                    current,
                ),
            ),
        }
    }

    /// Current utilization of one lane.
    pub fn utilization(&self, priority: Priority) -> (r: LaneUtilization)
        requires
            self.wf(),
        ensures
            r == self.current(priority),
            r.queued_requests == self.lane(priority).len(),
            r.queued_bytes == lane_bytes(self.lane(priority)),
    {
        proof {
            assert(self.lanes()[rank(priority)] == self.queues@[rank(priority)]@);
            assert(self.utilization@[rank(priority)].queued_requests
                == self.queues@[rank(priority)]@.len());
        }
        self.utilization[priority.index()]
    }

    /// Number of dispatched, unfinished requests.
    pub fn in_flight(&self) -> (r: usize)
        requires
            self.wf(),
        ensures
            r == self.dispatched().len(),
    {
        self.in_flight.len()
    }
}

/// The first lane (in dispatch order) holding work.
pub open spec fn first_nonempty(lanes: Seq<Seq<BoundaryWork>>) -> Option<int> {
    if exists|i: int| 0 <= i < 7 && (#[trigger] lanes[i]).len() > 0 {
        Some(choose|i: int| 0 <= i < 7 && (#[trigger] lanes[i]).len() > 0 && forall|j: int| 0 <= j < i ==> (#[trigger] lanes[j]).len() == 0)
    } else {
        None
    }
}

proof fn lemma_first_nonempty(lanes: Seq<Seq<BoundaryWork>>)
    ensures
        forall|i: int|
            0 <= i < 7 && (#[trigger] lanes[i]).len() > 0 && (forall|j: int| 0 <= j < i ==> (#[trigger] lanes[j]).len() == 0)
                ==> first_nonempty(lanes) == Some(i),
        (forall|i: int| 0 <= i < 7 ==> (#[trigger] lanes[i]).len() == 0) ==> first_nonempty(lanes) is None,
{
    assert forall|i: int|
        0 <= i < 7 && (#[trigger] lanes[i]).len() > 0 && (forall|j: int| 0 <= j < i ==> (#[trigger] lanes[j]).len() == 0)
            implies first_nonempty(lanes) == Some(i) by {
        let c = choose|c: int| 0 <= c < 7 && (#[trigger] lanes[c]).len() > 0 && forall|j: int| 0 <= j < c ==> (#[trigger] lanes[j]).len() == 0;
        if c < i {
            assert(lanes[c].len() == 0);
        } else if c > i {
            assert(lanes[i].len() == 0);
        }
    }
}

/// Law: the lanes are served in the order of `Priority::ALL`: the `i`-th priority listed
/// there is the `i`-th lane in dispatch order, so submissions go first, then receipt
/// resolution, retries, interactive reads, backfill, subscription catch-up and bulk reads.
pub proof fn lemma_dispatch_order_is_all(i: int)
    requires
        0 <= i < 7,
    ensures
        rank(Priority::ALL[i]) == i,
        priority_at(i) == Priority::ALL[i],
        forall|j: int| 0 <= j < i ==> rank(#[trigger] Priority::ALL[j]) < rank(Priority::ALL[i]),
{
}

impl BoundaryAdmission {
    /// Law: the work `dispatch` takes (the oldest of the first non-empty lane) is of the
    /// earliest priority in `Priority::ALL` that has queued work: its priority is the `i`-th
    /// listed, and every lane of a priority listed before it is empty.
    pub proof fn lemma_dispatch_serves_earliest(&self)
        requires
            self.wf(),
        ensures
            first_nonempty(self.lanes()) matches Some(i) ==> {
                &&& 0 <= i < 7
                &&& self.lanes()[i].len() > 0
                &&& self.lanes()[i][0].priority == Priority::ALL[i]
                &&& self.lane(Priority::ALL[i]) == self.lanes()[i]
                &&& forall|j: int| 0 <= j < i ==> (#[trigger] self.lane(Priority::ALL[j])).len() == 0
            },
            first_nonempty(self.lanes()) is None ==> forall|j: int| 0 <= j < 7 ==> (#[trigger] self.lane(Priority::ALL[j])).len() == 0,
    {
        lemma_first_nonempty(self.lanes());
        if first_nonempty(self.lanes()) is Some {
            let i = first_nonempty(self.lanes())->Some_0;
            assert(self.queues@[i]@ == self.lanes()[i]);
            assert(self.queues@[i]@[0].priority == priority_at(i));
            assert forall|j: int| 0 <= j < i implies (#[trigger] self.lane(Priority::ALL[j])).len() == 0 by {
                assert(rank(Priority::ALL[j]) == j);
            }
        } else {
            assert forall|j: int| 0 <= j < 7 implies (#[trigger] self.lane(Priority::ALL[j])).len() == 0 by {
                assert(rank(Priority::ALL[j]) == j);
                if self.lanes()[j].len() > 0 {
                    assert(exists|i: int| 0 <= i < 7 && (#[trigger] self.lanes()[i]).len() > 0);
                }
            }
        }
    }
}

/// The result `admit` returns for a controller, work and core signal.
pub open spec fn admit_outcome(
    s: BoundaryAdmission,
    work: BoundaryWork,
    availability: CoreAvailability,
) -> Result<(), AdmissionError> {
    let p = work.priority;
    let current = s.current(p);
    let bound = s.config().bound(p);
    if !work_valid(work, s.config().maximum_message_bytes) {
        Err(AdmissionError::InvalidWork)
    } else if availability_refusal(availability, p, current) is Some {
        Err(availability_refusal(availability, p, current).unwrap())
    } else if s.is_queued(work.request_id) || s.is_in_flight(work.request_id) {
        Err(AdmissionError::DuplicateRequest(work.request_id))
    } else if current.queued_requests >= bound.requests {
        Err(backpressure_error(BackpressureSource::QueueRequests, p, None, current))
    } else if current.queued_bytes + work.bytes@.len() > bound.bytes {
        Err(backpressure_error(BackpressureSource::QueueBytes, p, None, current))
    } else {
        Ok(())
    }
}

/// The result `finish` returns for a core outcome in lane `p`.
pub open spec fn finish_outcome(
    outcome: CoreOutcome,
    p: Priority,
    current: LaneUtilization,
) -> Result<(), AdmissionError> {
    match outcome {
        CoreOutcome::Completed => Ok(()),
        CoreOutcome::Backpressured { retry_after_ms } => Err(
            backpressure_error(
                BackpressureSource::CoreBackpressured,
                p,
                Some(retry_after_ms),
                current,
            ),
        ),
        CoreOutcome::Unavailable { retry_after_ms } => Err(
            backpressure_error(BackpressureSource::CoreUnavailable, p, Some(retry_after_ms), current),
        ),
    }
}

fn backpressure(
    source: BackpressureSource,
    priority: Priority,
    retry_after_ms: Option<u64>,
    current: LaneUtilization,
) -> (r: AdmissionError)
    ensures
        r == backpressure_error(source, priority, retry_after_ms, current),
{
    AdmissionError::Backpressure {
        source,
        priority,
        retry_after_ms,
        queued_requests: current.queued_requests,
        queued_bytes: current.queued_bytes,
    }
}

} // verus!
