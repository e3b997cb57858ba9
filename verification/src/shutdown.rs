//! Graceful daemon shutdown with durable in-flight and audit draining.
use vstd::prelude::*;

use crate::bytes::{compare_bytes, lemma_lex_transitive, lex_lt, push_all, push_u64, u64_be, Precedence};
use crate::outbox::{Outbox, SubmissionState};
use crate::store::{KeyView, ObjectKind, StorageClass, Store, StoreError, StoreView, TenantId, TenantKey};

verus! {

/// The stage an in-flight write has reached.
#[derive(Clone, Copy, Debug, PartialEq, Eq, Structural)]
pub enum WriteStage {
    Preparing,
    Signing,
    Queued,
    Submitted,
    Acknowledged,
    Unknown,
}

/// The stable one-byte code of a stage.
pub open spec fn stage_code(s: WriteStage) -> u8 {
    match s {
        WriteStage::Preparing => 1,
        WriteStage::Signing => 2,
        WriteStage::Queued => 3,
        WriteStage::Submitted => 4,
        WriteStage::Acknowledged => 5,
        WriteStage::Unknown => 6,
    }
}

/// The outbox state a stage's submission must be in, for stages past signing.
pub open spec fn stage_outbox(s: WriteStage) -> Option<SubmissionState> {
    match s {
        WriteStage::Preparing | WriteStage::Signing => None,
        WriteStage::Queued => Some(SubmissionState::Queued),
        WriteStage::Submitted => Some(SubmissionState::Submitted),
        WriteStage::Acknowledged => Some(SubmissionState::Acknowledged),
        WriteStage::Unknown => Some(SubmissionState::Unknown),
    }
}

impl WriteStage {
    fn code(self) -> (r: u8)
        ensures
            r == stage_code(self),
    {
        match self {
            WriteStage::Preparing => 1,
            WriteStage::Signing => 2,
            WriteStage::Queued => 3,
            WriteStage::Submitted => 4,
            WriteStage::Acknowledged => 5,
            WriteStage::Unknown => 6,
        }
    }

    fn outbox_state(self) -> (r: Option<SubmissionState>)
        ensures
            r == stage_outbox(self),
    {
        match self {
            WriteStage::Preparing | WriteStage::Signing => None,
            WriteStage::Queued => Some(SubmissionState::Queued),
            WriteStage::Submitted => Some(SubmissionState::Submitted),
            WriteStage::Acknowledged => Some(SubmissionState::Acknowledged),
            WriteStage::Unknown => Some(SubmissionState::Unknown),
        }
    }
}

#[derive(Debug)]
struct InFlight {
    id: [u8; 32],
    stage: WriteStage,
    durable_state: Vec<u8>,
}

/// One in-flight write: its identifier, stage and durable state.
pub struct InFlightView {
    pub id: Seq<u8>,
    pub stage: WriteStage,
    pub state: Seq<u8>,
}

/// Whether the daemon accepts work, the writes in flight (in identifier order) and the
/// audit entries not yet flushed.
#[derive(Debug)]
pub struct DaemonLifecycle {
    accepting_work: bool,
    in_flight: Vec<InFlight>,
    pending_audit: Vec<Vec<u8>>,
}

/// Report of a completed shutdown.
#[derive(Clone, Copy, Debug, PartialEq, Eq, Structural)]
pub struct ShutdownReport {
    pub in_flight_recorded: usize,
    pub pre_submission_recorded: usize,
    pub outbox_submissions_verified: usize,
    pub audit_entries_flushed: usize,
    pub accepting_work: bool,
}

/// Refusals of lifecycle operations.
#[derive(Debug)]
pub enum ShutdownError {
    NotAccepting,
    EmptyInFlight,
    DuplicateInFlight([u8; 32]),
    EmptyAudit,
    MissingOutboxRecord([u8; 32]),
    OutboxStageMismatch { submission_id: [u8; 32], expected: SubmissionState, actual: SubmissionState },
    Store(StoreError),
    Arithmetic,
}

/// The identifier under which an in-flight write is recorded.
pub open spec fn inflight_id(id: Seq<u8>) -> Seq<u8> {
    seq![115u8, 104u8, 117u8, 116u8, 100u8, 111u8, 119u8, 110u8, 45u8, 105u8, 110u8, 102u8,
        108u8, 105u8, 103u8, 104u8, 116u8, 58u8] + id
}

/// The identifier under which the audit entry at `index` is flushed.
pub open spec fn audit_id(index: u64) -> Seq<u8> {
    seq![115u8, 104u8, 117u8, 116u8, 100u8, 111u8, 119u8, 110u8, 45u8, 97u8, 117u8, 100u8,
        105u8, 116u8, 58u8] + u64_be(index)
}

/// The identifier `shutdown-complete` of the completion marker.
pub open spec fn complete_id() -> Seq<u8> {
    seq![115u8, 104u8, 117u8, 116u8, 100u8, 111u8, 119u8, 110u8, 45u8, 99u8, 111u8, 109u8,
        112u8, 108u8, 101u8, 116u8, 101u8]
}

/// The completion marker's bytes, `durable`.
pub open spec fn durable_marker() -> Seq<u8> {
    seq![100u8, 117u8, 114u8, 97u8, 98u8, 108u8, 101u8]
}

/// An in-flight write whose outbox record agrees with its stage.
pub open spec fn flight_ok(outbox: Outbox, f: InFlightView) -> bool {
    stage_outbox(f.stage) is None || (outbox.entry(f.id) is Some && outbox.entry(f.id).unwrap().status.state == stage_outbox(f.stage).unwrap())
}

/// The record of an in-flight write: its stage code, then its durable state.
pub open spec fn flight_key(tenant: Seq<char>, f: InFlightView) -> KeyView {
    KeyView { tenant, kind: ObjectKind::Configuration, object_id: inflight_id(f.id) }
}

/// A store after recording in-flight writes in order.
pub open spec fn with_flights(view: StoreView, tenant: Seq<char>, fs: Seq<InFlightView>) -> StoreView
    decreases fs.len(),
{
    if fs.len() == 0 {
        view
    } else {
        with_flights(view, tenant, fs.drop_last()).insert(
            flight_key(tenant, fs.last()),
            (StorageClass::LocalOnly, seq![stage_code(fs.last().stage)] + fs.last().state),
        )
    }
}

/// A store after flushing audit entries, each under its position.
pub open spec fn with_audits(view: StoreView, tenant: Seq<char>, audits: Seq<Seq<u8>>) -> StoreView
    decreases audits.len(),
{
    if audits.len() == 0 {
        view
    } else {
        with_audits(view, tenant, audits.drop_last()).insert(
            KeyView { tenant, kind: ObjectKind::Audit, object_id: audit_id((audits.len() - 1) as u64) },
            (StorageClass::LocalOnly, audits.last()),
        )
    }
}

/// The number of writes still before submission.
pub open spec fn pre_submission_count(fs: Seq<InFlightView>) -> nat
    decreases fs.len(),
{
    if fs.len() == 0 {
        0
    } else {
        pre_submission_count(fs.drop_last()) + if stage_outbox(fs.last().stage) is None { 1nat } else { 0nat }
    }
}

/// Whether `id` is in flight.
pub open spec fn in_flight(fs: Seq<InFlightView>, id: Seq<u8>) -> bool {
    exists|a: int| 0 <= a < fs.len() && (#[trigger] fs[a]).id == id
}

impl DaemonLifecycle {
    /// Whether work is admitted.
    pub closed spec fn accepting(&self) -> bool {
        self.accepting_work
    }

    /// The writes in flight, in identifier order.
    pub closed spec fn flights(&self) -> Seq<InFlightView> {
        self.in_flight@.map_values(|f: InFlight| InFlightView { id: f.id@, stage: f.stage, state: f.durable_state@ })
    }

    /// The audit entries not yet flushed, in order.
    pub closed spec fn audits(&self) -> Seq<Seq<u8>> {
        self.pending_audit@.map_values(|a: Vec<u8>| a@)
    }

    /// The lifecycle's invariant: in-flight identifiers strictly increase.
    pub closed spec fn wf(&self) -> bool {
        forall|a: int, b: int| 0 <= a < b < self.in_flight.len() ==> lex_lt((#[trigger] self.in_flight[a]).id@, (#[trigger] self.in_flight[b]).id@)
    }

    /// A running daemon with nothing in flight.
    pub fn running() -> (r: Self)
        ensures
            r.wf(),
            r.accepting(),
            r.flights().len() == 0,
            r.audits().len() == 0,
    {
        let r = DaemonLifecycle { accepting_work: true, in_flight: Vec::new(), pending_audit: Vec::new() };
        assert(r.flights() =~= Seq::<InFlightView>::empty());
        assert(r.audits() =~= Seq::<Seq<u8>>::empty());
        r
    }

    /// Where `id` sits among the in-flight writes: `Ok` at its entry, or `Err` at its
    /// insertion point.
    fn position(&self, id: &[u8; 32]) -> (r: Result<usize, usize>)
        requires
            self.wf(),
        ensures
            r matches Ok(p) ==> p < self.in_flight.len() && self.in_flight[p as int].id@ == id@,
            r matches Err(p) ==> p <= self.in_flight.len() && (forall|a: int| 0 <= a < p ==> lex_lt((#[trigger] self.in_flight[a]).id@, id@))
                && (forall|a: int| p <= a < self.in_flight.len() ==> lex_lt(id@, (#[trigger] self.in_flight[a]).id@)),
    {
        let mut p: usize = 0;
        while p < self.in_flight.len()
            invariant
                self.wf(),
                p <= self.in_flight.len(),
                forall|a: int| 0 <= a < p ==> lex_lt((#[trigger] self.in_flight[a]).id@, id@),
            decreases self.in_flight.len() - p,
        {
            match compare_bytes(&self.in_flight[p].id, id) {
                Precedence::Before => {},
                Precedence::Same => {
                    return Ok(p);
                },
                Precedence::After => {
                    proof {
                        assert forall|a: int| p <= a < self.in_flight.len() implies lex_lt(id@, (#[trigger] self.in_flight[a]).id@) by {
                            if a > p {
                                lemma_lex_transitive(id@, self.in_flight[p as int].id@, self.in_flight[a].id@);
                            }
                        }
                    }
                    return Err(p);
                },
            }
            p = p + 1;
        }
        Err(p)
    }

    /// Tracks queued submission work.
    ///
    /// # Errors
    ///
    /// As [`DaemonLifecycle::begin_stage`] at stage `Queued`.
    pub fn begin_work(&mut self, submission_id: [u8; 32], durable_state: Vec<u8>) -> (r: Result<(), ShutdownError>)
        requires
            old(self).wf(),
        ensures
            final(self).wf(),
            begin_outcome(*old(self), *final(self), submission_id@, WriteStage::Queued, durable_state@, r),
    {
        self.begin_stage(submission_id, WriteStage::Queued, durable_state)
    }

    /// Tracks in-flight work at `stage` with the state to record durably at shutdown.
    ///
    /// # Errors
    ///
    /// `NotAccepting` once shutdown began, `EmptyInFlight` for an empty state, and
    /// `DuplicateInFlight` for an identifier already in flight.
    pub fn begin_stage(&mut self, work_id: [u8; 32], stage: WriteStage, durable_state: Vec<u8>) -> (r: Result<(), ShutdownError>)
        requires
            old(self).wf(),
        ensures
            final(self).wf(),
            begin_outcome(*old(self), *final(self), work_id@, stage, durable_state@, r),
    {
        if !self.accepting_work {
            return Err(ShutdownError::NotAccepting);
        }
        if durable_state.len() == 0 {
            return Err(ShutdownError::EmptyInFlight);
        }
        let p = match self.position(&work_id) {
            Ok(found) => {
                proof {
                    assert(self.flights()[found as int].id == work_id@);
                }
                return Err(ShutdownError::DuplicateInFlight(work_id));
            },
            Err(p) => p,
        };
        let ghost before = *self;
        proof {
            assert forall|a: int| 0 <= a < before.flights().len() implies (#[trigger] before.flights()[a]).id != work_id@ by {
                if a < p {
                    assert(lex_lt(before.in_flight[a].id@, work_id@));
                } else {
                    assert(lex_lt(work_id@, before.in_flight[a].id@));
                }
                crate::bytes::lemma_lex_irreflexive(work_id@);
            }
        }
        self.in_flight.insert(p, InFlight { id: work_id, stage, durable_state });
        proof {
            assert forall|a: int, b: int| 0 <= a < b < self.in_flight.len() implies lex_lt((#[trigger] self.in_flight[a]).id@, (#[trigger] self.in_flight[b]).id@) by {
                if b < p {
                    assert(self.in_flight[a] == before.in_flight[a] && self.in_flight[b] == before.in_flight[b]);
                } else if b == p {
                    assert(self.in_flight[a] == before.in_flight[a]);
                } else if a == p {
                    assert(self.in_flight[b] == before.in_flight[b - 1]);
                } else if a < p {
                    assert(self.in_flight[a] == before.in_flight[a] && self.in_flight[b] == before.in_flight[b - 1]);
                } else {
                    assert(self.in_flight[a] == before.in_flight[a - 1] && self.in_flight[b] == before.in_flight[b - 1]);
                }
            }
            assert(self.flights() =~= before.flights().insert(p as int, InFlightView { id: work_id@, stage, state: durable_state@ }));
            assert(self.audits() =~= before.audits());
        }
        Ok(())
    }

    /// Queues an audit entry to flush at shutdown.
    ///
    /// # Errors
    ///
    /// `EmptyAudit` for an empty record.
    pub fn append_audit(&mut self, record: Vec<u8>) -> (r: Result<(), ShutdownError>)
        requires
            old(self).wf(),
        ensures
            final(self).wf(),
            record@.len() == 0 ==> (r matches Err(e) && e is EmptyAudit) && *final(self) == *old(self),
            record@.len() > 0 ==> r is Ok && final(self).audits() == old(self).audits().push(record@)
                && final(self).flights() == old(self).flights() && final(self).accepting() == old(self).accepting(),
    {
        if record.len() == 0 {
            return Err(ShutdownError::EmptyAudit);
        }
        let ghost before = self.pending_audit@;
        let ghost r = record@;
        self.pending_audit.push(record);
        proof {
            assert(self.audits() =~= before.map_values(|a: Vec<u8>| a@).push(r));
        }
        Ok(())
    }

    /// Whether work is admitted.
    pub fn accepting_work(&self) -> (r: bool)
        ensures
            r == self.accepting(),
    {
        self.accepting_work
    }
}

/// What beginning in-flight work does.
pub open spec fn begin_outcome(before: DaemonLifecycle, after: DaemonLifecycle, id: Seq<u8>, stage: WriteStage, state: Seq<u8>, r: Result<(), ShutdownError>) -> bool {
    if !before.accepting() {
        (r matches Err(e) && e is NotAccepting) && after == before
    } else if state.len() == 0 {
        (r matches Err(e) && e is EmptyInFlight) && after == before
    } else if in_flight(before.flights(), id) {
        (r matches Err(ShutdownError::DuplicateInFlight(x)) && x@ == id) && after == before
    } else {
        &&& r is Ok
        &&& after.accepting()
        &&& after.audits() == before.audits()
        &&& exists|p: int| 0 <= p <= before.flights().len() && after.flights() == before.flights().insert(p, InFlightView { id, stage, state })
    }
}

fn inflight_object_id(id: &[u8; 32]) -> (r: Vec<u8>)
    ensures
        r@ == inflight_id(id@),
{
    let mut out: Vec<u8> = vec![115u8, 104u8, 117u8, 116u8, 100u8, 111u8, 119u8, 110u8, 45u8,
        105u8, 110u8, 102u8, 108u8, 105u8, 103u8, 104u8, 116u8, 58u8];
    push_all(&mut out, id);
    assert(out@ =~= inflight_id(id@));
    out
}

fn audit_object_id(index: u64) -> (r: Vec<u8>)
    ensures
        r@ == audit_id(index),
{
    let mut out: Vec<u8> = vec![115u8, 104u8, 117u8, 116u8, 100u8, 111u8, 119u8, 110u8, 45u8,
        97u8, 117u8, 100u8, 105u8, 116u8, 58u8];
    push_u64(&mut out, index);
    assert(out@ =~= audit_id(index));
    out
}

/// Stops admission, durably records all in-flight work in identifier order, flushes the
/// audit entries and marks the shutdown complete.
///
/// # Errors
///
/// `MissingOutboxRecord` or `OutboxStageMismatch` at the first in-flight submission whose
/// outbox record is absent or in another state than its stage; the writes before it stay
/// recorded.
#[verifier::rlimit(60)]
pub fn graceful(store: &mut Store, tenant: TenantId, outbox: &Outbox, lifecycle: &mut DaemonLifecycle) -> (r: Result<ShutdownReport, ShutdownError>)
    requires
        old(store).wf(),
        old(lifecycle).wf(),
        outbox.wf(),
    ensures
        final(store).wf(),
        final(lifecycle).wf(),
        !final(lifecycle).accepting(),
        ({
            let view = old(store).view();
            let fs = old(lifecycle).flights();
            let audits = old(lifecycle).audits();
            let t = tenant@;
            &&& r is Err <==> exists|j: int| 0 <= j < fs.len() && !flight_ok(*outbox, #[trigger] fs[j])
            &&& r is Err ==> exists|j: int| 0 <= j < fs.len() && !flight_ok(*outbox, #[trigger] fs[j]) && (forall|k: int| 0 <= k < j ==> flight_ok(*outbox, #[trigger] fs[k])) && {
                &&& final(store).view() == with_flights(view, t, fs.take(j))
                &&& final(lifecycle).flights() == fs
                &&& final(lifecycle).audits() == audits
                &&& if outbox.entry(fs[j].id) is None {
                    r matches Err(ShutdownError::MissingOutboxRecord(x)) && x@ == fs[j].id
                } else {
                    r matches Err(ShutdownError::OutboxStageMismatch { submission_id: x, expected, actual }) && x@ == fs[j].id
                        && expected == stage_outbox(fs[j].stage).unwrap() && actual == outbox.entry(fs[j].id).unwrap().status.state
                }
            }
            &&& r matches Ok(report) ==> {
                &&& report == (ShutdownReport {
                    in_flight_recorded: fs.len() as usize,
                    pre_submission_recorded: pre_submission_count(fs) as usize,
                    outbox_submissions_verified: (fs.len() - pre_submission_count(fs)) as usize,
                    audit_entries_flushed: audits.len() as usize,
                    accepting_work: false,
                })
                &&& final(store).view() == with_audits(with_flights(view, t, fs), t, audits).insert(
                    KeyView { tenant: t, kind: ObjectKind::Configuration, object_id: complete_id() },
                    (StorageClass::LocalOnly, durable_marker()),
                )
                &&& final(lifecycle).flights().len() == 0
                &&& final(lifecycle).audits().len() == 0
            }
        }),
{
    lifecycle.accepting_work = false;
    let ghost view = store.view();
    let ghost fs = lifecycle.flights();
    let ghost audits = lifecycle.audits();
    let ghost t = tenant@;
    let mut pre_submission_recorded: usize = 0;
    let mut outbox_submissions_verified: usize = 0;
    let mut i: usize = 0;
    while i < lifecycle.in_flight.len()
        invariant
            store.wf(),
            lifecycle.wf(),
            outbox.wf(),
            !lifecycle.accepting(),
            fs == lifecycle.flights(),
            audits == lifecycle.audits(),
            view == old(store).view(),
            fs == old(lifecycle).flights(),
            audits == old(lifecycle).audits(),
            t == tenant@,
            i <= fs.len(),
            fs.len() == lifecycle.in_flight.len(),
            forall|k: int| 0 <= k < i ==> flight_ok(*outbox, #[trigger] fs[k]),
            store.view() == with_flights(view, t, fs.take(i as int)),
            pre_submission_recorded == pre_submission_count(fs.take(i as int)),
            pre_submission_recorded + outbox_submissions_verified == i,
        decreases fs.len() - i,
    {
        let flight = &lifecycle.in_flight[i];
        let ghost f = fs[i as int];
        assert(f.id == flight.id@ && f.stage == flight.stage && f.state == flight.durable_state@);
        proof {
            assert(fs.take(i + 1).drop_last() =~= fs.take(i as int));
            assert(fs.take(i + 1).last() == f);
            lemma_pre_count_bound(fs.take(i as int));
        }
        match flight.stage.outbox_state() {
            Some(expected) => {
                let actual = match outbox.status(flight.id) {
                    Some(status) => status.state,
                    None => {
                        assert(!flight_ok(*outbox, fs[i as int]));
                        return Err(ShutdownError::MissingOutboxRecord(flight.id));
                    },
                };
                if actual != expected {
                    assert(!flight_ok(*outbox, fs[i as int]));
                    return Err(ShutdownError::OutboxStageMismatch { submission_id: flight.id, expected, actual });
                }
                outbox_submissions_verified = outbox_submissions_verified + 1;
            },
            None => {
                pre_submission_recorded = pre_submission_recorded + 1;
            },
        }
        let mut durable_state: Vec<u8> = Vec::new();
        durable_state.push(flight.stage.code());
        push_all(&mut durable_state, flight.durable_state.as_slice());
        let key = match TenantKey::new(tenant.clone(), ObjectKind::Configuration, inflight_object_id(&flight.id)) {
            Ok(k) => k,
            Err(e) => {
                return Err(ShutdownError::Store(e));
            },
        };
        assert(durable_state@ =~= seq![stage_code(f.stage)] + f.state);
        store.put(key, StorageClass::LocalOnly, durable_state);
        i = i + 1;
    }
    assert(fs.take(fs.len() as int) =~= fs);
    let mut index: usize = 0;
    while index < lifecycle.pending_audit.len()
        invariant
            store.wf(),
            audits == lifecycle.audits(),
            view == old(store).view(),
            fs == old(lifecycle).flights(),
            audits == old(lifecycle).audits(),
            t == tenant@,
            index <= audits.len(),
            audits.len() == lifecycle.pending_audit.len(),
            store.view() == with_audits(with_flights(view, t, fs), t, audits.take(index as int)),
        decreases audits.len() - index,
    {
        let mut bytes: Vec<u8> = Vec::new();
        push_all(&mut bytes, lifecycle.pending_audit[index].as_slice());
        let key = match TenantKey::new(tenant.clone(), ObjectKind::Audit, audit_object_id(index as u64)) {
            Ok(k) => k,
            Err(e) => {
                return Err(ShutdownError::Store(e));
            },
        };
        proof {
            assert(audits.take(index + 1).drop_last() =~= audits.take(index as int));
            assert(audits.take(index + 1).last() == bytes@);
        }
        store.put(key, StorageClass::LocalOnly, bytes);
        index = index + 1;
    }
    assert(audits.take(audits.len() as int) =~= audits);
    let complete = match TenantKey::new(tenant, ObjectKind::Configuration, complete_bytes()) {
        Ok(k) => k,
        Err(e) => {
            return Err(ShutdownError::Store(e));
        },
    };
    store.put(complete, StorageClass::LocalOnly, durable_bytes());
    let in_flight_recorded = lifecycle.in_flight.len();
    let audit_entries_flushed = lifecycle.pending_audit.len();
    lifecycle.in_flight.clear();
    lifecycle.pending_audit.clear();
    proof {
        assert(lifecycle.flights() =~= Seq::<InFlightView>::empty());
        assert(lifecycle.audits() =~= Seq::<Seq<u8>>::empty());
    }
    Ok(ShutdownReport {
        in_flight_recorded,
        pre_submission_recorded,
        outbox_submissions_verified,
        audit_entries_flushed,
        accepting_work: false,
    })
}

proof fn lemma_pre_count_bound(fs: Seq<InFlightView>)
    ensures
        pre_submission_count(fs) <= fs.len(),
    decreases fs.len(),
{
    if fs.len() > 0 {
        lemma_pre_count_bound(fs.drop_last());
    }
}

fn complete_bytes() -> (r: Vec<u8>)
    ensures
        r@ == complete_id(),
{
    let r = vec![115u8, 104u8, 117u8, 116u8, 100u8, 111u8, 119u8, 110u8, 45u8, 99u8, 111u8, 109u8, 112u8, 108u8, 101u8, 116u8, 101u8];
    assert(r@ =~= complete_id());
    r
}

fn durable_bytes() -> (r: Vec<u8>)
    ensures
        r@ == durable_marker(),
{
    let r = vec![100u8, 117u8, 114u8, 97u8, 98u8, 108u8, 101u8];
    assert(r@ =~= durable_marker());
    r
}

} // verus!
