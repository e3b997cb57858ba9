//! Bounded per-tenant metrics with a fixed label set per metric.
use vstd::prelude::*;

use crate::store::TenantId;

verus! {

/// What a metric measures.
#[derive(Clone, Copy, Debug, PartialEq, Eq, Structural, PartialOrd, Ord)]
pub enum MetricKind {
    SubmissionOutcome,
    UnknownPopulation,
    UnknownAge,
    VerificationLevel,
    BoundaryLatency,
    ErrorClass,
    PolicyDecision,
    CapabilityDecision,
    BudgetUtilization,
    SubscriptionLag,
    RateLimitRefusal,
    DegradedState,
}

/// A metric label.
#[derive(Clone, Copy, Debug, PartialEq, Eq, Structural, PartialOrd, Ord)]
pub enum MetricLabel {
    Executed,
    Failed,
    Unknown,
    AgeUnderSecond,
    AgeUnderMinute,
    AgeAtLeastMinute,
    SequencerSigned,
    BatchIncluded,
    StateProven,
    CheckpointFinalised,
    SettlementAnchored,
    BoundaryReady,
    BoundaryBackpressured,
    BoundaryUnavailable,
    BoundaryBehind,
    CoreHalted,
    CoreEmergency,
    DataUnavailable,
    AccessDenied,
    InvalidRequest,
    StorageFailure,
    InternalFailure,
    Allowed,
    Denied,
    UtilizationLow,
    UtilizationHigh,
    LagHealthy,
    Lagging,
    RateExceeded,
}

/// Number of metric kinds.
pub const KINDS: usize = 12;

/// Number of metric labels.
pub const LABELS: usize = 29;

/// Declaration position of a metric kind.
pub open spec fn kind_index(kind: MetricKind) -> int {
    match kind {
        MetricKind::SubmissionOutcome => 0,
        MetricKind::UnknownPopulation => 1,
        MetricKind::UnknownAge => 2,
        MetricKind::VerificationLevel => 3,
        MetricKind::BoundaryLatency => 4,
        MetricKind::ErrorClass => 5,
        MetricKind::PolicyDecision => 6,
        MetricKind::CapabilityDecision => 7,
        MetricKind::BudgetUtilization => 8,
        MetricKind::SubscriptionLag => 9,
        MetricKind::RateLimitRefusal => 10,
        MetricKind::DegradedState => 11,
    }
}

/// Declaration position of a metric label.
pub open spec fn label_index(label: MetricLabel) -> int {
    match label {
        MetricLabel::Executed => 0,
        MetricLabel::Failed => 1,
        MetricLabel::Unknown => 2,
        MetricLabel::AgeUnderSecond => 3,
        MetricLabel::AgeUnderMinute => 4,
        MetricLabel::AgeAtLeastMinute => 5,
        MetricLabel::SequencerSigned => 6,
        MetricLabel::BatchIncluded => 7,
        MetricLabel::StateProven => 8,
        MetricLabel::CheckpointFinalised => 9,
        MetricLabel::SettlementAnchored => 10,
        MetricLabel::BoundaryReady => 11,
        MetricLabel::BoundaryBackpressured => 12,
        MetricLabel::BoundaryUnavailable => 13,
        MetricLabel::BoundaryBehind => 14,
        MetricLabel::CoreHalted => 15,
        MetricLabel::CoreEmergency => 16,
        MetricLabel::DataUnavailable => 17,
        MetricLabel::AccessDenied => 18,
        MetricLabel::InvalidRequest => 19,
        MetricLabel::StorageFailure => 20,
        MetricLabel::InternalFailure => 21,
        MetricLabel::Allowed => 22,
        MetricLabel::Denied => 23,
        MetricLabel::UtilizationLow => 24,
        MetricLabel::UtilizationHigh => 25,
        MetricLabel::LagHealthy => 26,
        MetricLabel::Lagging => 27,
        MetricLabel::RateExceeded => 28,
    }
}

/// The metric kind at a declaration position.
pub open spec fn kind_at(i: int) -> MetricKind {
    if i <= 0 { MetricKind::SubmissionOutcome }
    else if i == 1 { MetricKind::UnknownPopulation }
    else if i == 2 { MetricKind::UnknownAge }
    else if i == 3 { MetricKind::VerificationLevel }
    else if i == 4 { MetricKind::BoundaryLatency }
    else if i == 5 { MetricKind::ErrorClass }
    else if i == 6 { MetricKind::PolicyDecision }
    else if i == 7 { MetricKind::CapabilityDecision }
    else if i == 8 { MetricKind::BudgetUtilization }
    else if i == 9 { MetricKind::SubscriptionLag }
    else if i == 10 { MetricKind::RateLimitRefusal }
    else { MetricKind::DegradedState }
}

/// The metric label at a declaration position.
pub open spec fn label_at(i: int) -> MetricLabel {
    if i <= 0 { MetricLabel::Executed }
    else if i == 1 { MetricLabel::Failed }
    else if i == 2 { MetricLabel::Unknown }
    else if i == 3 { MetricLabel::AgeUnderSecond }
    else if i == 4 { MetricLabel::AgeUnderMinute }
    else if i == 5 { MetricLabel::AgeAtLeastMinute }
    else if i == 6 { MetricLabel::SequencerSigned }
    else if i == 7 { MetricLabel::BatchIncluded }
    else if i == 8 { MetricLabel::StateProven }
    else if i == 9 { MetricLabel::CheckpointFinalised }
    else if i == 10 { MetricLabel::SettlementAnchored }
    else if i == 11 { MetricLabel::BoundaryReady }
    else if i == 12 { MetricLabel::BoundaryBackpressured }
    else if i == 13 { MetricLabel::BoundaryUnavailable }
    else if i == 14 { MetricLabel::BoundaryBehind }
    else if i == 15 { MetricLabel::CoreHalted }
    else if i == 16 { MetricLabel::CoreEmergency }
    else if i == 17 { MetricLabel::DataUnavailable }
    else if i == 18 { MetricLabel::AccessDenied }
    else if i == 19 { MetricLabel::InvalidRequest }
    else if i == 20 { MetricLabel::StorageFailure }
    else if i == 21 { MetricLabel::InternalFailure }
    else if i == 22 { MetricLabel::Allowed }
    else if i == 23 { MetricLabel::Denied }
    else if i == 24 { MetricLabel::UtilizationLow }
    else if i == 25 { MetricLabel::UtilizationHigh }
    else if i == 26 { MetricLabel::LagHealthy }
    else if i == 27 { MetricLabel::Lagging }
    else { MetricLabel::RateExceeded }
}

impl MetricKind {
    /// Every metric kind, in declaration order.
    pub const ALL: [MetricKind; 12] = [
        MetricKind::SubmissionOutcome,
        MetricKind::UnknownPopulation,
        MetricKind::UnknownAge,
        MetricKind::VerificationLevel,
        MetricKind::BoundaryLatency,
        MetricKind::ErrorClass,
        MetricKind::PolicyDecision,
        MetricKind::CapabilityDecision,
        MetricKind::BudgetUtilization,
        MetricKind::SubscriptionLag,
        MetricKind::RateLimitRefusal,
        MetricKind::DegradedState,
    ];

    fn index(self) -> (r: usize)
        ensures
            r == kind_index(self),
    {
        match self {
            MetricKind::SubmissionOutcome => 0,
            MetricKind::UnknownPopulation => 1,
            MetricKind::UnknownAge => 2,
            MetricKind::VerificationLevel => 3,
            MetricKind::BoundaryLatency => 4,
            MetricKind::ErrorClass => 5,
            MetricKind::PolicyDecision => 6,
            MetricKind::CapabilityDecision => 7,
            MetricKind::BudgetUtilization => 8,
            MetricKind::SubscriptionLag => 9,
            MetricKind::RateLimitRefusal => 10,
            MetricKind::DegradedState => 11,
        }
    }

    fn at(i: usize) -> (r: MetricKind)
        requires
            i < 12,
        ensures
            r == kind_at(i as int),
            kind_index(r) == i,
    {
        match i {
            0 => MetricKind::SubmissionOutcome,
            1 => MetricKind::UnknownPopulation,
            2 => MetricKind::UnknownAge,
            3 => MetricKind::VerificationLevel,
            4 => MetricKind::BoundaryLatency,
            5 => MetricKind::ErrorClass,
            6 => MetricKind::PolicyDecision,
            7 => MetricKind::CapabilityDecision,
            8 => MetricKind::BudgetUtilization,
            9 => MetricKind::SubscriptionLag,
            10 => MetricKind::RateLimitRefusal,
            _ => MetricKind::DegradedState,
        }
    }
}

impl MetricLabel {
    fn index(self) -> (r: usize)
        ensures
            r == label_index(self),
    {
        match self {
            MetricLabel::Executed => 0,
            MetricLabel::Failed => 1,
            MetricLabel::Unknown => 2,
            MetricLabel::AgeUnderSecond => 3,
            MetricLabel::AgeUnderMinute => 4,
            MetricLabel::AgeAtLeastMinute => 5,
            MetricLabel::SequencerSigned => 6,
            MetricLabel::BatchIncluded => 7,
            MetricLabel::StateProven => 8,
            MetricLabel::CheckpointFinalised => 9,
            MetricLabel::SettlementAnchored => 10,
            MetricLabel::BoundaryReady => 11,
            MetricLabel::BoundaryBackpressured => 12,
            MetricLabel::BoundaryUnavailable => 13,
            MetricLabel::BoundaryBehind => 14,
            MetricLabel::CoreHalted => 15,
            MetricLabel::CoreEmergency => 16,
            MetricLabel::DataUnavailable => 17,
            MetricLabel::AccessDenied => 18,
            MetricLabel::InvalidRequest => 19,
            MetricLabel::StorageFailure => 20,
            MetricLabel::InternalFailure => 21,
            MetricLabel::Allowed => 22,
            MetricLabel::Denied => 23,
            MetricLabel::UtilizationLow => 24,
            MetricLabel::UtilizationHigh => 25,
            MetricLabel::LagHealthy => 26,
            MetricLabel::Lagging => 27,
            MetricLabel::RateExceeded => 28,
        }
    }

    fn at(i: usize) -> (r: MetricLabel)
        requires
            i < 29,
        ensures
            r == label_at(i as int),
            label_index(r) == i,
    {
        match i {
            0 => MetricLabel::Executed,
            1 => MetricLabel::Failed,
            2 => MetricLabel::Unknown,
            3 => MetricLabel::AgeUnderSecond,
            4 => MetricLabel::AgeUnderMinute,
            5 => MetricLabel::AgeAtLeastMinute,
            6 => MetricLabel::SequencerSigned,
            7 => MetricLabel::BatchIncluded,
            8 => MetricLabel::StateProven,
            9 => MetricLabel::CheckpointFinalised,
            10 => MetricLabel::SettlementAnchored,
            11 => MetricLabel::BoundaryReady,
            12 => MetricLabel::BoundaryBackpressured,
            13 => MetricLabel::BoundaryUnavailable,
            14 => MetricLabel::BoundaryBehind,
            15 => MetricLabel::CoreHalted,
            16 => MetricLabel::CoreEmergency,
            17 => MetricLabel::DataUnavailable,
            18 => MetricLabel::AccessDenied,
            19 => MetricLabel::InvalidRequest,
            20 => MetricLabel::StorageFailure,
            21 => MetricLabel::InternalFailure,
            22 => MetricLabel::Allowed,
            23 => MetricLabel::Denied,
            24 => MetricLabel::UtilizationLow,
            25 => MetricLabel::UtilizationHigh,
            26 => MetricLabel::LagHealthy,
            27 => MetricLabel::Lagging,
            _ => MetricLabel::RateExceeded,
        }
    }
}

/// Key of one metric series.
#[derive(Clone, Debug, PartialEq, Eq, PartialOrd, Ord)]
pub struct MetricKey {
    pub tenant: TenantId,
    pub kind: MetricKind,
    pub label: MetricLabel,
}

/// Aggregated observations of one series.
#[derive(Clone, Copy, Debug, Default, PartialEq, Eq, Structural)]
pub struct MetricPoint {
    pub total: u128,
    pub samples: u64,
    pub maximum: u64,
}

/// Metric refusals.
#[derive(Clone, Copy, Debug, PartialEq, Eq, Structural)]
pub enum MetricsError {
    InvalidCapacity,
    TenantCapacityExceeded,
    UnknownTenant,
    InvalidLabel,
}

/// Which labels each metric kind admits.
pub open spec fn label_allowed(kind: MetricKind, label: MetricLabel) -> bool {
    match kind {
        MetricKind::SubmissionOutcome => label == MetricLabel::Executed || label
            == MetricLabel::Failed || label == MetricLabel::Unknown,
        MetricKind::UnknownPopulation => label == MetricLabel::Unknown,
        MetricKind::UnknownAge => label == MetricLabel::AgeUnderSecond || label
            == MetricLabel::AgeUnderMinute || label == MetricLabel::AgeAtLeastMinute,
        MetricKind::VerificationLevel => label == MetricLabel::SequencerSigned || label
            == MetricLabel::BatchIncluded || label == MetricLabel::StateProven || label
            == MetricLabel::CheckpointFinalised || label == MetricLabel::SettlementAnchored,
        MetricKind::BoundaryLatency => label == MetricLabel::BoundaryReady || label
            == MetricLabel::BoundaryBackpressured || label == MetricLabel::BoundaryUnavailable,
        MetricKind::ErrorClass => label == MetricLabel::AccessDenied || label
            == MetricLabel::InvalidRequest || label == MetricLabel::StorageFailure || label
            == MetricLabel::BoundaryUnavailable || label == MetricLabel::InternalFailure,
        MetricKind::PolicyDecision | MetricKind::CapabilityDecision => label
            == MetricLabel::Allowed || label == MetricLabel::Denied,
        MetricKind::BudgetUtilization => label == MetricLabel::UtilizationLow || label
            == MetricLabel::UtilizationHigh,
        MetricKind::SubscriptionLag => label == MetricLabel::LagHealthy || label
            == MetricLabel::Lagging,
        MetricKind::RateLimitRefusal => label == MetricLabel::RateExceeded,
        MetricKind::DegradedState => label == MetricLabel::BoundaryReady || label
            == MetricLabel::BoundaryUnavailable || label == MetricLabel::BoundaryBehind || label
            == MetricLabel::CoreHalted || label == MetricLabel::CoreEmergency || label
            == MetricLabel::DataUnavailable,
    }
}

/// Whether `label` belongs to metric `kind`.
pub fn valid_label(kind: MetricKind, label: MetricLabel) -> (r: bool)
    ensures
        r == label_allowed(kind, label),
{
    match kind {
        MetricKind::SubmissionOutcome => label == MetricLabel::Executed || label
            == MetricLabel::Failed || label == MetricLabel::Unknown,
        MetricKind::UnknownPopulation => label == MetricLabel::Unknown,
        MetricKind::UnknownAge => label == MetricLabel::AgeUnderSecond || label
            == MetricLabel::AgeUnderMinute || label == MetricLabel::AgeAtLeastMinute,
        MetricKind::VerificationLevel => label == MetricLabel::SequencerSigned || label
            == MetricLabel::BatchIncluded || label == MetricLabel::StateProven || label
            == MetricLabel::CheckpointFinalised || label == MetricLabel::SettlementAnchored,
        MetricKind::BoundaryLatency => label == MetricLabel::BoundaryReady || label
            == MetricLabel::BoundaryBackpressured || label == MetricLabel::BoundaryUnavailable,
        MetricKind::ErrorClass => label == MetricLabel::AccessDenied || label
            == MetricLabel::InvalidRequest || label == MetricLabel::StorageFailure || label
            == MetricLabel::BoundaryUnavailable || label == MetricLabel::InternalFailure,
        MetricKind::PolicyDecision | MetricKind::CapabilityDecision => label
            == MetricLabel::Allowed || label == MetricLabel::Denied,
        MetricKind::BudgetUtilization => label == MetricLabel::UtilizationLow || label
            == MetricLabel::UtilizationHigh,
        MetricKind::SubscriptionLag => label == MetricLabel::LagHealthy || label
            == MetricLabel::Lagging,
        MetricKind::RateLimitRefusal => label == MetricLabel::RateExceeded,
        MetricKind::DegradedState => label == MetricLabel::BoundaryReady || label
            == MetricLabel::BoundaryUnavailable || label == MetricLabel::BoundaryBehind || label
            == MetricLabel::CoreHalted || label == MetricLabel::CoreEmergency || label
            == MetricLabel::DataUnavailable,
    }
}

/// A point after one more observation: saturating total and sample count, running maximum.
pub open spec fn observed_point(p: MetricPoint, value: u64) -> MetricPoint {
    MetricPoint {
        total: if p.total + value > u128::MAX { u128::MAX } else { (p.total + value) as u128 },
        samples: if p.samples + 1 > u64::MAX { u64::MAX } else { (p.samples + 1) as u64 },
        maximum: if value > p.maximum { value } else { p.maximum },
    }
}

/// The all-zero point.
pub open spec fn zero_point() -> MetricPoint {
    MetricPoint { total: 0, samples: 0, maximum: 0 }
}

/// Position of a series within a tenant's table.
pub open spec fn slot(kind: MetricKind, label: MetricLabel) -> int {
    kind_index(kind) * 29 + label_index(label)
}

/// Per-tenant metrics: a table of series per registered tenant, bounded tenant count.
pub struct Metrics {
    maximum_tenants: usize,
    tenants: Vec<(TenantId, Vec<Option<MetricPoint>>)>,
}

/// The `(key, point)` pairs of recorded series among the first `upto` slots, in slot order.
pub open spec fn recorded(table: Seq<Option<MetricPoint>>, tenant: Seq<char>, upto: int) -> Seq<
    (Seq<char>, MetricKind, MetricLabel, MetricPoint),
>
    decreases upto,
{
    if upto <= 0 {
        Seq::empty()
    } else {
        let rest = recorded(table, tenant, upto - 1);
        match table[upto - 1] {
            Some(p) => rest.push((tenant, kind_at((upto - 1) / 29), label_at((upto - 1) % 29), p)),
            None => rest,
        }
    }
}

impl Metrics {
    /// The registered tenants, in registration order.
    pub closed spec fn registered(&self) -> Seq<Seq<char>> {
        self.tenants@.map_values(|e: (TenantId, Vec<Option<MetricPoint>>)| e.0@)
    }

    /// The recorded point of one series, if any.
    pub closed spec fn point(&self, tenant: Seq<char>, kind: MetricKind, label: MetricLabel) -> Option<MetricPoint> {
        if exists|i: int| 0 <= i < self.tenants@.len() && #[trigger] self.tenants@[i].0@ == tenant {
            let i = choose|i: int| 0 <= i < self.tenants@.len() && #[trigger] self.tenants@[i].0@ == tenant;
            self.tenants@[i].1@[slot(kind, label)]
        } else {
            None
        }
    }

    /// Every series of a tenant in key order.
    pub closed spec fn series(&self, tenant: Seq<char>) -> Seq<(Seq<char>, MetricKind, MetricLabel, MetricPoint)> {
        if exists|i: int| 0 <= i < self.tenants@.len() && #[trigger] self.tenants@[i].0@ == tenant {
            let i = choose|i: int| 0 <= i < self.tenants@.len() && #[trigger] self.tenants@[i].0@ == tenant;
            recorded(self.tenants@[i].1@, tenant, 348)
        } else {
            Seq::empty()
        }
    }

    /// Tenant capacity.
    pub closed spec fn capacity(&self) -> usize {
        self.maximum_tenants
    }

    /// Invariant: distinct tenants within capacity, each with a full table.
    pub closed spec fn wf(&self) -> bool {
        &&& self.maximum_tenants > 0
        &&& self.tenants@.len() <= self.maximum_tenants
        &&& forall|i: int| 0 <= i < self.tenants@.len() ==> (#[trigger] self.tenants@[i]).1@.len() == 348
        &&& forall|a: int, b: int|
            0 <= a < b < self.tenants@.len() ==> #[trigger] self.tenants@[a].0@ != #[trigger] self.tenants@[b].0@
    }

    /// An empty registry admitting at most `maximum_tenants` tenants.
    ///
    /// # Errors
    ///
    /// `InvalidCapacity` for a zero capacity.
    pub fn new(maximum_tenants: usize) -> (r: Result<Self, MetricsError>)
        ensures
            r is Ok <==> maximum_tenants > 0,
            r matches Err(e) ==> e == MetricsError::InvalidCapacity,
            r matches Ok(m) ==> m.wf() && m.capacity() == maximum_tenants && m.registered().len()
                == 0,
    {
        if maximum_tenants == 0 {
            return Err(MetricsError::InvalidCapacity);
        }
        Ok(Metrics { maximum_tenants, tenants: Vec::new() })
    }

    fn locate(&self, tenant: &TenantId) -> (r: Option<usize>)
        requires
            self.wf(),
        ensures
            r is None ==> !self.registered().contains(tenant@) && !(exists|i: int|
                0 <= i < self.tenants@.len() && #[trigger] self.tenants@[i].0@ == tenant@),
            r matches Some(i) ==> i < self.tenants@.len() && self.tenants@[i as int].0@ == tenant@
                && self.registered().contains(tenant@) && i == (choose|j: int|
                0 <= j < self.tenants@.len() && #[trigger] self.tenants@[j].0@ == tenant@),
    {
        let mut i: usize = 0;
        while i < self.tenants.len()
            invariant
                self.wf(),
                i <= self.tenants@.len(),
                forall|j: int| 0 <= j < i ==> #[trigger] self.tenants@[j].0@ != tenant@,
            decreases self.tenants@.len() - i,
        {
            if self.tenants[i].0.same(tenant) {
                proof {
                    assert(self.registered()[i as int] == tenant@);
                    let c = choose|j: int| 0 <= j < self.tenants@.len() && #[trigger] self.tenants@[j].0@ == tenant@;
                    if c < i {
                        assert(self.tenants@[c].0@ != self.tenants@[i as int].0@);
                    } else if c > i {
                        assert(self.tenants@[i as int].0@ != self.tenants@[c].0@);
                    }
                }
                return Some(i);
            }
            i = i + 1;
        }
        proof {
            if self.registered().contains(tenant@) {
                let j = choose|j: int| 0 <= j < self.registered().len() && self.registered()[j] == tenant@;
                assert(self.tenants@[j].0@ == tenant@);
            }
        }
        None
    }

    /// Registers a tenant; registering an already registered tenant changes nothing.
    ///
    /// # Errors
    ///
    /// `TenantCapacityExceeded` when a new tenant would exceed the capacity.
    pub fn register_tenant(&mut self, tenant: TenantId) -> (r: Result<(), MetricsError>)
        requires
            old(self).wf(),
        ensures
            final(self).wf(),
            final(self).capacity() == old(self).capacity(),
            old(self).registered().contains(tenant@) ==> r is Ok && final(self).registered() == old(
                self,
            ).registered(),
            !old(self).registered().contains(tenant@) && old(self).registered().len() >= old(
                self,
            ).capacity() ==> r == Err::<(), MetricsError>(MetricsError::TenantCapacityExceeded)
                && final(self).registered() == old(self).registered(),
            !old(self).registered().contains(tenant@) && old(self).registered().len() < old(
                self,
            ).capacity() ==> r is Ok && final(self).registered() == old(self).registered().push(
                tenant@,
            ),
            forall|t: Seq<char>, k: MetricKind, l: MetricLabel|
                #[trigger] final(self).point(t, k, l) == old(self).point(t, k, l),
    {
        match self.locate(&tenant) {
            Some(_) => Ok(()),
            None => {
                if self.tenants.len() >= self.maximum_tenants {
                    return Err(MetricsError::TenantCapacityExceeded);
                }
                let ghost before = self.tenants@;
                let mut table: Vec<Option<MetricPoint>> = Vec::new();
                let mut i: usize = 0;
                while i < 348
                    invariant
                        i <= 348,
                        table@.len() == i,
                        forall|j: int| 0 <= j < i ==> #[trigger] table@[j] == None::<MetricPoint>,
                    decreases 348 - i,
                {
                    table.push(None);
                    i = i + 1;
                }
                self.tenants.push((tenant, table));
                proof {
                    let n = before.len() as int;
                    assert(self.registered() =~= old(self).registered().push(tenant@));
                    assert forall|a: int, b: int|
                        0 <= a < b < self.tenants@.len() implies #[trigger] self.tenants@[a].0@
                        != #[trigger] self.tenants@[b].0@ by {
                        if b == n {
                            assert(old(self).registered()[a] == before[a].0@);
                        }
                    }
                    assert forall|t: Seq<char>, k: MetricKind, l: MetricLabel|
                        #[trigger] self.point(t, k, l) == old(self).point(t, k, l) by {
                        if exists|j: int| 0 <= j < self.tenants@.len() && #[trigger] self.tenants@[j].0@ == t {
                            let j = choose|j: int| 0 <= j < self.tenants@.len() && #[trigger] self.tenants@[j].0@ == t;
                            if j < n {
                                assert(before[j].0@ == t);
                                let c = choose|c: int| 0 <= c < before.len() && #[trigger] before[c].0@ == t;
                                if c != j {
                                    if c < j {
                                        assert(self.tenants@[c].0@ != self.tenants@[j].0@);
                                    } else {
                                        assert(self.tenants@[j].0@ != self.tenants@[c].0@);
                                    }
                                }
                            } else {
                                assert(slot(k, l) >= 0 && slot(k, l) < 348);
                                assert(!(exists|c: int| 0 <= c < before.len() && #[trigger] before[c].0@ == t));
                            }
                        } else {
                            if exists|c: int| 0 <= c < before.len() && #[trigger] before[c].0@ == t {
                                let c = choose|c: int| 0 <= c < before.len() && #[trigger] before[c].0@ == t;
                                assert(self.tenants@[c].0@ == t);
                            }
                        }
                    }
                }
                Ok(())
            },
        }
    }

    /// Records one observation of a registered tenant's series.
    ///
    /// # Errors
    ///
    /// `UnknownTenant` for an unregistered tenant, `InvalidLabel` for a label the kind does not
    /// admit.
    pub fn observe(&mut self, tenant: &TenantId, kind: MetricKind, label: MetricLabel, value: u64) -> (r: Result<
        (),
        MetricsError,
    >)
        requires
            old(self).wf(),
        ensures
            final(self).wf(),
            final(self).capacity() == old(self).capacity(),
            final(self).registered() == old(self).registered(),
            !old(self).registered().contains(tenant@) ==> r == Err::<(), MetricsError>(MetricsError::UnknownTenant)
                && *final(self) == *old(self),
            old(self).registered().contains(tenant@) && !label_allowed(kind, label) ==> r == Err::<(), MetricsError>(
                MetricsError::InvalidLabel,
            ) && *final(self) == *old(self),
            old(self).registered().contains(tenant@) && label_allowed(kind, label) ==> r is Ok
                && (forall|t: Seq<char>, k: MetricKind, l: MetricLabel|
                    #[trigger] final(self).point(t, k, l) == if t == tenant@ && k == kind && l == label {
                        Some(observed_point(
                            match old(self).point(t, k, l) {
                                Some(p) => p,
                                None => zero_point(),
                            },
                            value,
                        ))
                    } else {
                        old(self).point(t, k, l)
                    }),
    {
        let i = match self.locate(tenant) {
            None => {
                return Err(MetricsError::UnknownTenant);
            },
            Some(i) => i,
        };
        if !valid_label(kind, label) {
            return Err(MetricsError::InvalidLabel);
        }
        let s = kind.index() * 29 + label.index();
        let ghost before = self.tenants@;
        assert(self.tenants@[i as int].1@.len() == 348);
        let current = match self.tenants[i].1[s] {
            Some(p) => p,
            None => MetricPoint { total: 0, samples: 0, maximum: 0 },
        };
        let updated = MetricPoint {
            total: if current.total > u128::MAX - (value as u128) {
                u128::MAX
            } else {
                current.total + (value as u128)
            },
            samples: if current.samples == u64::MAX {
                u64::MAX
            } else {
                current.samples + 1
            },
            maximum: if value > current.maximum {
                value
            } else {
                current.maximum
            },
        };
        self.tenants[i].1.set(s, Some(updated));
        proof {
            assert forall|j: int| 0 <= j < self.tenants@.len() implies #[trigger] self.tenants@[j].0@ == before[j].0@ by {
                if j == i { assert(self.tenants@[j].0 == before[j].0); }
            }
            assert(self.registered() =~= old(self).registered());
            assert forall|t: Seq<char>, k: MetricKind, l: MetricLabel|
                #[trigger] self.point(t, k, l) == if t == tenant@ && k == kind && l == label {
                    Some(observed_point(
                        match old(self).point(t, k, l) {
                            Some(p) => p,
                            None => zero_point(),
                        },
                        value,
                    ))
                } else {
                    old(self).point(t, k, l)
                } by {
                assert(0 <= slot(k, l) < 348);
                if exists|j: int| 0 <= j < self.tenants@.len() && #[trigger] self.tenants@[j].0@ == t {
                    let j = choose|j: int| 0 <= j < self.tenants@.len() && #[trigger] self.tenants@[j].0@ == t;
                    assert(before[j].0@ == t);
                    if j == i && slot(k, l) == s {
                        assert(kind_index(k) == kind_index(kind) && label_index(l) == label_index(label));
                    }
                } else {
                    if exists|c: int| 0 <= c < before.len() && #[trigger] before[c].0@ == t {
                        let c = choose|c: int| 0 <= c < before.len() && #[trigger] before[c].0@ == t;
                        assert(self.tenants@[c].0@ == t);
                    }
                }
            }
        }
        Ok(())
    }

    /// Every recorded series of one tenant, in key order.
    pub fn snapshot(&self, tenant: &TenantId) -> (r: Vec<(MetricKey, MetricPoint)>)
        requires
            self.wf(),
        ensures
            r@.len() == self.series(tenant@).len(),
            forall|j: int| 0 <= j < r@.len() ==> {
                let (key, p) = #[trigger] r@[j];
                self.series(tenant@)[j] == (key.tenant@, key.kind, key.label, p)
            },
    {
        let mut out: Vec<(MetricKey, MetricPoint)> = Vec::new();
        let i = match self.locate(tenant) {
            None => {
                return out;
            },
            Some(i) => i,
        };
        let ghost table = self.tenants@[i as int].1@;
        let mut s: usize = 0;
        while s < 348
            invariant
                self.wf(),
                i < self.tenants@.len(),
                table == self.tenants@[i as int].1@,
                table.len() == 348,
                s <= 348,
                out@.len() == recorded(table, tenant@, s as int).len(),
                forall|j: int| 0 <= j < out@.len() ==> {
                    let (key, p) = #[trigger] out@[j];
                    recorded(table, tenant@, s as int)[j] == (key.tenant@, key.kind, key.label, p)
                },
            decreases 348 - s,
        {
            match self.tenants[i].1[s] {
                Some(p) => {
                    let kind = MetricKind::at(s / 29);
                    let label = MetricLabel::at(s % 29);
                    out.push((MetricKey { tenant: tenant.clone(), kind, label }, p));
                },
                None => {},
            }
            s = s + 1;
        }
        out
    }
}

} // verus!
