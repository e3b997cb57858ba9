//! Immediate session invalidation from core-produced authority events.
use vstd::prelude::*;

use crate::bytes::{fixed_equal, lex_lt, lemma_lex_irreflexive};
use crate::identity::{same_authority, ProtocolAuthority};
use crate::session::record::{encode_fault, encode_session_as, session_bytes, session_view};
use crate::session::registry::{
    lemma_record_of_at, ordered_records, record_id, SessionRegistry,
};
use crate::session::{closed_record, id_bytes, session_key, SessionError, SessionId, SessionRecord};
use crate::store::{ObjectKind, StorageClass, Store, StoreView, TenantKey};
use crate::text::same_text;

verus! {

/// Exact reason reported to affected clients.
#[derive(Clone, Copy, Debug, PartialEq, Eq, Structural)]
pub enum InvalidationReason {
    IdentityFrozen,
    PrimaryKeyRotated,
    SessionKeyRevoked,
    CapabilityGrantRevoked,
    AccountRecovered,
}

/// Core event that invalidates one authority or every authority under a DID.
#[derive(Debug)]
pub struct RevocationEvent {
    pub did: String,
    pub authority: Option<ProtocolAuthority>,
    pub reason: InvalidationReason,
    pub observed_sequence: u64,
}

/// Local lifecycle state relevant to revocation handling.
#[derive(Clone, Copy, Debug, PartialEq, Eq, Structural)]
pub enum PreparationState {
    Prepared,
    Signed,
    Queued,
    Unknown,
    Executed,
    Failed,
}

/// One activity whose local handling may be changed by invalidation.
#[derive(Clone, Copy, Debug, PartialEq, Eq)]
pub struct PendingActivity {
    pub session: SessionId,
    pub state: PreparationState,
    pub cancelled: bool,
    pub resolution_continues: bool,
}

/// Observable invalidation result.
#[derive(Debug)]
pub struct InvalidationReport {
    pub reason: InvalidationReason,
    pub observed_sequence: u64,
    pub invalidated_sessions: Vec<SessionId>,
    pub cancelled_preparations: usize,
    pub unresolved_left_for_resolution: usize,
    pub executed_untouched: usize,
}

/// Whether a revocation closes a record: an open session of the event's DID, opened under
/// the event's authority where the event names one.
pub open spec fn revokes(event: RevocationEvent, r: SessionRecord) -> bool {
    &&& r.open
    &&& r.request.agent@ == event.did@
    &&& match event.authority {
        None => true,
        Some(a) => same_authority(r.request.authority, a),
    }
}

/// The records a revocation closes, in their order.
pub open spec fn revoked_records(event: RevocationEvent, s: Seq<SessionRecord>) -> Seq<SessionRecord>
    decreases s.len(),
{
    if s.len() == 0 {
        Seq::empty()
    } else {
        let rest = revoked_records(event, s.drop_last());
        if revokes(event, s.last()) {
            rest.push(s.last())
        } else {
            rest
        }
    }
}

/// The encoding of a record closed.
#[verifier::opaque]
pub open spec fn closed_encoding(r: SessionRecord) -> Seq<u8> {
    session_bytes(session_view(closed_record(r)))
}

/// The field the encoding of a record closed refuses, if any.
#[verifier::opaque]
pub open spec fn closed_fault(r: SessionRecord) -> Option<Seq<char>> {
    encode_fault(session_view(closed_record(r)))
}

/// The store writes that close records: each closed record under its session key.
pub open spec fn closing_writes(c: Seq<SessionRecord>) -> StoreView
    decreases c.len(),
{
    if c.len() == 0 {
        Map::empty()
    } else {
        closing_writes(c.drop_last()).insert(
            session_key(c.last().request.tenant@, record_id(c.last())),
            (StorageClass::LocalOnly, closed_encoding(c.last())),
        )
    }
}

/// The closed records under their identifiers.
pub open spec fn closed_records(c: Seq<SessionRecord>) -> Map<Seq<u8>, SessionRecord>
    decreases c.len(),
{
    if c.len() == 0 {
        Map::empty()
    } else {
        closed_records(c.drop_last()).insert(record_id(c.last()), closed_record(c.last()))
    }
}

/// The identifiers of records, in order.
pub open spec fn ids_of(c: Seq<SessionRecord>) -> Seq<Seq<u8>> {
    c.map_values(|r: SessionRecord| record_id(r))
}

/// The identifier bytes of session identifiers, in order.
pub open spec fn session_ids(v: Seq<SessionId>) -> Seq<Seq<u8>> {
    v.map_values(|s: SessionId| s.0@)
}

/// How invalidation treats a state: 0 cancels it, 1 leaves it to resolution, 2 leaves it.
pub open spec fn state_class(s: PreparationState) -> u8 {
    match s {
        PreparationState::Prepared | PreparationState::Signed => 0,
        PreparationState::Queued | PreparationState::Unknown => 1,
        PreparationState::Executed | PreparationState::Failed => 2,
    }
}

/// An activity after invalidation of the sessions `ids`: a prepared or signed one of an
/// invalidated session is cancelled, a queued or unknown one is left to resolution, any
/// other is unchanged.
pub open spec fn handled(a: PendingActivity, ids: Seq<Seq<u8>>) -> PendingActivity {
    if !ids.contains(a.session.0@) {
        a
    } else if state_class(a.state) == 0 {
        PendingActivity { cancelled: true, ..a }
    } else if state_class(a.state) == 1 {
        PendingActivity { resolution_continues: true, ..a }
    } else {
        a
    }
}

/// The number of activities of the sessions `ids` whose state has the class `class`.
pub open spec fn count_class(acts: Seq<PendingActivity>, ids: Seq<Seq<u8>>, class: u8) -> nat
    decreases acts.len(),
{
    if acts.len() == 0 {
        0
    } else {
        count_class(acts.drop_last(), ids, class) + if ids.contains(acts.last().session.0@)
            && state_class(acts.last().state) == class {
            1nat
        } else {
            0nat
        }
    }
}

/// The records a revocation closes are records of `s`, in the same order.
proof fn lemma_revoked(event: RevocationEvent, s: Seq<SessionRecord>)
    requires
        ordered_records(s),
    ensures
        ordered_records(revoked_records(event, s)),
        forall|j: int|
            0 <= j < revoked_records(event, s).len() ==> exists|q: int|
                0 <= q < s.len() && s[q] == #[trigger] revoked_records(event, s)[j],
        forall|j: int|
            0 <= j < revoked_records(event, s).len() ==> revokes(
                event,
                #[trigger] revoked_records(event, s)[j],
            ),
    decreases s.len(),
{
    if s.len() > 0 {
        let d = s.drop_last();
        assert(ordered_records(d)) by {
            assert forall|i: int, j: int| 0 <= i < j < d.len() implies lex_lt(
                record_id(#[trigger] d[i]),
                record_id(#[trigger] d[j]),
            ) by {
                assert(d[i] == s[i] && d[j] == s[j]);
            }
        }
        lemma_revoked(event, d);
        let rest = revoked_records(event, d);
        let c = revoked_records(event, s);
        assert forall|j: int| 0 <= j < c.len() implies exists|q: int|
            0 <= q < s.len() && s[q] == #[trigger] c[j] by {
            if j < rest.len() {
                let q = choose|q: int| 0 <= q < d.len() && d[q] == rest[j];
                assert(s[q] == c[j]);
            } else {
                assert(s[s.len() - 1] == c[j]);
            }
        }
        if revokes(event, s.last()) {
            assert forall|i: int, j: int| 0 <= i < j < c.len() implies lex_lt(
                record_id(#[trigger] c[i]),
                record_id(#[trigger] c[j]),
            ) by {
                if j < rest.len() {
                    assert(c[i] == rest[i] && c[j] == rest[j]);
                } else {
                    let q = choose|q: int| 0 <= q < d.len() && d[q] == rest[i];
                    assert(s[q] == c[i]);
                    assert(lex_lt(record_id(s[q]), record_id(s[s.len() - 1])));
                }
            }
        }
    }
}

/// The records a revocation closes among the first `m` records come first among those
/// it closes overall.
proof fn lemma_revoked_prefix(event: RevocationEvent, s: Seq<SessionRecord>, m: int)
    requires
        0 <= m <= s.len(),
    ensures
        revoked_records(event, s.take(m)).len() <= revoked_records(event, s).len(),
        forall|j: int|
            0 <= j < revoked_records(event, s.take(m)).len() ==> #[trigger] revoked_records(
                event,
                s.take(m),
            )[j] == revoked_records(event, s)[j],
    decreases s.len(),
{
    if m == s.len() {
        assert(s.take(m) =~= s);
    } else {
        let d = s.drop_last();
        assert(d.take(m) =~= s.take(m));
        lemma_revoked_prefix(event, d, m);
    }
}

/// The identifiers of the closed records are the identifiers of the records closed.
proof fn lemma_closed_records_keys(c: Seq<SessionRecord>, k: Seq<u8>)
    requires
        closed_records(c).contains_key(k),
    ensures
        exists|j: int| 0 <= j < c.len() && record_id(#[trigger] c[j]) == k,
    decreases c.len(),
{
    if c.len() > 0 && k != record_id(c.last()) {
        lemma_closed_records_keys(c.drop_last(), k);
        let j = choose|j: int| 0 <= j < c.len() - 1 && record_id(#[trigger] c.drop_last()[j]) == k;
        assert(c[j] == c.drop_last()[j]);
    } else if c.len() > 0 {
        assert(record_id(c[c.len() - 1]) == k);
    }
}

/// Whether an event revokes a record.
fn revokes_record(event: &RevocationEvent, record: &SessionRecord) -> (r: bool)
    ensures
        r == revokes(*event, *record),
{
    if !record.open || !same_text(record.request.agent.as_str(), event.did.as_str()) {
        return false;
    }
    match &event.authority {
        None => true,
        Some(a) => record.request.authority.same(a),
    }
}

/// Whether a list of session identifiers holds `id`.
fn holds_session(v: &Vec<SessionId>, id: &SessionId) -> (r: bool)
    ensures
        r == session_ids(v@).contains(id.0@),
{
    let mut i: usize = 0;
    while i < v.len()
        invariant
            i <= v@.len(),
            forall|q: int| 0 <= q < i ==> session_ids(v@)[q] != id.0@,
        decreases v@.len() - i,
    {
        if fixed_equal(&v[i].0, &id.0) {
            assert(session_ids(v@)[i as int] == id.0@);
            return true;
        }
        i = i + 1;
    }
    false
}

proof fn lemma_revoked_step(event: RevocationEvent, s: Seq<SessionRecord>, i: int)
    requires
        0 <= i < s.len(),
    ensures
        revoked_records(event, s.take(i + 1)) == if revokes(event, s[i]) {
            revoked_records(event, s.take(i)).push(s[i])
        } else {
            revoked_records(event, s.take(i))
        },
{
    assert(s.take(i + 1).drop_last() =~= s.take(i));
    assert(s.take(i + 1).last() == s[i]);
}

/// Entry `j` of a plan: the identifier, key and closed encoding of record `j`, which
/// encodes.
pub open spec fn planned(
    ids: Seq<SessionId>,
    keys: Seq<TenantKey>,
    blobs: Seq<Vec<u8>>,
    done: Seq<SessionRecord>,
    j: int,
) -> bool {
    &&& ids[j].0@ == record_id(done[j])
    &&& keys[j]@ == session_key(done[j].request.tenant@, record_id(done[j]))
    &&& blobs[j]@ == closed_encoding(done[j])
    &&& closed_fault(done[j]) is None
}

/// The store key of a record and its encoding closed; or the field the encoding refuses.
fn closing_entry(record: &SessionRecord) -> (r: Result<(TenantKey, Vec<u8>), SessionError>)
    ensures
        match closed_fault(*record) {
            Some(f) => r matches Err(SessionError::MissingField(x)) && x@ == f,
            None => r matches Ok((k, b)) && k@ == session_key(
                record.request.tenant@,
                record_id(*record),
            ) && b@ == closed_encoding(*record),
        },
{
    proof {
        reveal(closed_fault);
        reveal(closed_encoding);
    }
    let blob = match encode_session_as(record, false) {
        Err(e) => {
            return Err(e);
        },
        Ok(b) => b,
    };
    match TenantKey::new(
        record.request.tenant.clone(),
        ObjectKind::Session,
        id_bytes(&record.request.session_id.0),
    ) {
        Ok(k) => Ok((k, blob)),
        Err(e) => Err(SessionError::Store(e)),
    }
}

/// The session identifiers, store keys and closed encodings of the records an event
/// revokes, in identifier order; or the first encoding refusal.
#[verifier::spinoff_prover]
#[verifier::rlimit(30)]
fn plan_revocation(registry: &SessionRegistry, event: &RevocationEvent) -> (r: Result<
    (Vec<SessionId>, Vec<TenantKey>, Vec<Vec<u8>>),
    SessionError,
>)
    requires
        registry.wf(),
    ensures
        ({
            let c = revoked_records(*event, registry.sessions());
            &&& r is Ok <==> forall|j: int|
                0 <= j < c.len() ==> closed_fault(#[trigger] c[j])
                    is None
            &&& r matches Err(e) ==> e matches SessionError::MissingField(x) && exists|j: int|
                0 <= j < c.len() && closed_fault(#[trigger] c[j])
                    == Some(x@)
            &&& r matches Ok((ids, keys, blobs)) ==> {
                &&& ids@.len() == c.len()
                &&& keys@.len() == c.len()
                &&& blobs@.len() == c.len()
                &&& forall|j: int| 0 <= j < c.len() ==> #[trigger] planned(ids@, keys@, blobs@, c, j)
            }
        }),
{
    let ghost s = registry.sessions();
    let ghost c = revoked_records(*event, s);
    let ghost mut done: Seq<SessionRecord> = Seq::empty();
    let mut ids: Vec<SessionId> = Vec::new();
    let mut keys: Vec<TenantKey> = Vec::new();
    let mut blobs: Vec<Vec<u8>> = Vec::new();
    let n = registry.record_count();
    let mut i: usize = 0;
    assert(s.take(0) =~= Seq::<SessionRecord>::empty());
    while i < n
        invariant
            registry.sessions() == s,
            c == revoked_records(*event, s),
            i <= n,
            n == s.len(),
            done == revoked_records(*event, s.take(i as int)),
            ids@.len() == done.len(),
            keys@.len() == done.len(),
            blobs@.len() == done.len(),
            forall|j: int| 0 <= j < done.len() ==> #[trigger] planned(ids@, keys@, blobs@, done, j),
        decreases n - i,
    {
        let record = registry.record_at(i);
        proof {
            lemma_revoked_step(*event, s, i as int);
        }
        if revokes_record(event, record) {
            let (key, blob) = match closing_entry(record) {
                Err(e) => {
                    proof {
                        lemma_revoked_prefix(*event, s, i + 1);
                        let j = done.len() as int;
                        assert(revoked_records(*event, s.take(i + 1))[j] == s[i as int]);
                        assert(c[j] == s[i as int]);
                    }
                    return Err(e);
                },
                Ok(entry) => entry,
            };
            let ghost ids0 = ids@;
            let ghost keys0 = keys@;
            let ghost blobs0 = blobs@;
            ids.push(record.request.session_id);
            keys.push(key);
            blobs.push(blob);
            proof {
                let before = done;
                done = done.push(s[i as int]);
                assert forall|j: int| 0 <= j < done.len() implies #[trigger] planned(
                    ids@,
                    keys@,
                    blobs@,
                    done,
                    j,
                ) by {
                    if j < before.len() {
                        assert(planned(ids0, keys0, blobs0, before, j));
                        assert(done[j] == before[j]);
                        assert(ids@[j] == ids0[j] && keys@[j] == keys0[j] && blobs@[j] == blobs0[j]);
                    } else {
                        assert(done[j] == s[i as int]);
                    }
                }
            }
        }
        i = i + 1;
    }
    proof {
        assert(s.take(n as int) =~= s);
        assert(done == c);
        assert forall|j: int| 0 <= j < c.len() implies closed_fault(#[trigger] c[j]) is None by {
            assert(planned(ids@, keys@, blobs@, done, j));
        }

    }
    Ok((ids, keys, blobs))
}

/// Writes each closed record and marks its session closed, in order.
fn close_revoked(
    store: &mut Store,
    registry: &mut SessionRegistry,
    c: Ghost<Seq<SessionRecord>>,
    ids: &Vec<SessionId>,
    keys: &Vec<TenantKey>,
    blobs: &Vec<Vec<u8>>,
)
    requires
        old(store).wf(),
        old(registry).wf(),
        ordered_records(c@),
        forall|j: int|
            0 <= j < c@.len() ==> old(registry)@.contains_key(record_id(#[trigger] c@[j]))
                && old(registry)@[record_id(c@[j])] == c@[j],
        ids@.len() == c@.len(),
        keys@.len() == c@.len(),
        blobs@.len() == c@.len(),
        forall|j: int| 0 <= j < c@.len() ==> #[trigger] planned(ids@, keys@, blobs@, c@, j),
    ensures
        final(store).wf(),
        final(registry).wf(),
        final(store).view() == old(store).view().union_prefer_right(closing_writes(c@)),
        final(registry)@ == old(registry)@.union_prefer_right(closed_records(c@)),
{
    let ghost c = c@;
    let ghost view0 = store.view();
    let ghost reg0 = registry@;
    let mut k: usize = 0;
    assert(closing_writes(c.take(0)) =~= Map::empty());
    assert(closed_records(c.take(0)) =~= Map::empty());
    assert(view0.union_prefer_right(Map::empty()) =~= view0);
    assert(reg0.union_prefer_right(Map::empty()) =~= reg0);
    while k < ids.len()
        invariant
            store.wf(),
            registry.wf(),
            k <= ids@.len(),
            ids@.len() == c.len(),
            keys@.len() == c.len(),
            blobs@.len() == c.len(),
            ordered_records(c),
            forall|j: int|
                0 <= j < c.len() ==> reg0.contains_key(record_id(#[trigger] c[j]))
                    && reg0[record_id(c[j])] == c[j],
            forall|j: int| 0 <= j < c.len() ==> #[trigger] planned(ids@, keys@, blobs@, c, j),
            store.view() == view0.union_prefer_right(closing_writes(c.take(k as int))),
            registry@ == reg0.union_prefer_right(closed_records(c.take(k as int))),
        decreases ids@.len() - k,
    {
        let ghost rec = c[k as int];
        let ghost id = record_id(rec);
        proof {
            assert(c.take(k + 1).drop_last() =~= c.take(k as int));
            assert(c.take(k + 1).last() == rec);
            assert(reg0.contains_key(record_id(c[k as int])));
            if closed_records(c.take(k as int)).contains_key(id) {
                lemma_closed_records_keys(c.take(k as int), id);
                let j = choose|j: int| 0 <= j < k && record_id(#[trigger] c.take(k as int)[j]) == id;
                assert(c.take(k as int)[j] == c[j]);
                assert(lex_lt(record_id(c[j]), record_id(c[k as int])));
                lemma_lex_irreflexive(id);
            }
            assert(registry@.contains_key(id));
            assert(registry@[id] == rec);
            assert(planned(ids@, keys@, blobs@, c, k as int));
        }
        let key = keys[k].clone();
        let mut blob: Vec<u8> = Vec::new();
        crate::bytes::push_all(&mut blob, blobs[k].as_slice());
        let _ = store.put_local(key, blob);
        registry.set_open(&ids[k], false);
        proof {
            assert(store.view() =~= view0.union_prefer_right(closing_writes(c.take(k + 1))));
            assert(registry@ =~= reg0.union_prefer_right(closed_records(c.take(k + 1))));
        }
        k = k + 1;
    }
    proof {
        assert(c.take(k as int) =~= c);
    }
}

/// Applies the invalidation of the sessions `ids` to activities; the numbers cancelled,
/// left to resolution, and left untouched.
fn handle_activities(activities: &mut Vec<PendingActivity>, ids: &Vec<SessionId>) -> (r: (
    usize,
    usize,
    usize,
))
    ensures
        final(activities)@.len() == old(activities)@.len(),
        forall|q: int|
            0 <= q < old(activities)@.len() ==> #[trigger] final(activities)@[q] == handled(
                old(activities)@[q],
                session_ids(ids@),
            ),
        r.0 == count_class(old(activities)@, session_ids(ids@), 0),
        r.1 == count_class(old(activities)@, session_ids(ids@), 1),
        r.2 == count_class(old(activities)@, session_ids(ids@), 2),
{
    let ghost acts0 = activities@;
    let ghost victims = session_ids(ids@);
    let mut cancelled: usize = 0;
    let mut unresolved: usize = 0;
    let mut untouched: usize = 0;
    let mut j: usize = 0;
    while j < activities.len()
        invariant
            j <= activities@.len(),
            activities@.len() == acts0.len(),
            victims == session_ids(ids@),
            forall|q: int| 0 <= q < j ==> #[trigger] activities@[q] == handled(acts0[q], victims),
            forall|q: int| j <= q < acts0.len() ==> #[trigger] activities@[q] == acts0[q],
            cancelled == count_class(acts0.take(j as int), victims, 0),
            unresolved == count_class(acts0.take(j as int), victims, 1),
            untouched == count_class(acts0.take(j as int), victims, 2),
            cancelled + unresolved + untouched <= j,
        decreases activities@.len() - j,
    {
        let a = activities[j];
        proof {
            assert(acts0.take(j + 1).drop_last() =~= acts0.take(j as int));
            assert(acts0.take(j + 1).last() == a);
        }
        if holds_session(ids, &a.session) {
            match a.state {
                PreparationState::Prepared | PreparationState::Signed => {
                    activities.set(
                        j,
                        PendingActivity {
                            session: a.session,
                            state: a.state,
                            cancelled: true,
                            resolution_continues: a.resolution_continues,
                        },
                    );
                    cancelled = cancelled + 1;
                },
                PreparationState::Queued | PreparationState::Unknown => {
                    activities.set(
                        j,
                        PendingActivity {
                            session: a.session,
                            state: a.state,
                            cancelled: a.cancelled,
                            resolution_continues: true,
                        },
                    );
                    unresolved = unresolved + 1;
                },
                PreparationState::Executed | PreparationState::Failed => {
                    untouched = untouched + 1;
                },
            }
        }
        j = j + 1;
    }
    proof {
        assert(acts0.take(j as int) =~= acts0);
    }
    (cancelled, unresolved, untouched)
}

/// Applies a core revocation event to sessions and unsubmitted preparations: every open
/// session of the event's DID (under its authority, where it names one) is closed and
/// durably recorded closed, in identifier order; their prepared or signed activities are
/// cancelled, their queued or unknown ones left to resolution.
///
/// # Errors
///
/// Returns `MissingField` when a revoked session's closed record cannot be encoded; the
/// store, the registry and the activities are then unchanged.
pub fn invalidate_on_revocation(
    store: &mut Store,
    registry: &mut SessionRegistry,
    activities: &mut Vec<PendingActivity>,
    event: &RevocationEvent,
) -> (r: Result<InvalidationReport, SessionError>)
    requires
        old(store).wf(),
        old(registry).wf(),
    ensures
        final(store).wf(),
        final(registry).wf(),
        ({
            let c = revoked_records(*event, old(registry).sessions());
            &&& r is Ok <==> forall|j: int|
                0 <= j < c.len() ==> closed_fault(#[trigger] c[j])
                    is None
            &&& r matches Err(e) ==> e matches SessionError::MissingField(x) && exists|j: int|
                0 <= j < c.len() && closed_fault(#[trigger] c[j])
                    == Some(x@)
            &&& r is Err ==> final(store).view() == old(store).view() && final(registry)@ == old(
                registry,
            )@ && final(activities)@ == old(activities)@
            &&& r matches Ok(report) ==> {
                &&& final(store).view() == old(store).view().union_prefer_right(closing_writes(c))
                &&& final(registry)@ == old(registry)@.union_prefer_right(closed_records(c))
                &&& session_ids(report.invalidated_sessions@) == ids_of(c)
                &&& report.reason == event.reason
                &&& report.observed_sequence == event.observed_sequence
                &&& final(activities)@.len() == old(activities)@.len()
                &&& forall|q: int|
                    0 <= q < old(activities)@.len() ==> #[trigger] final(activities)@[q] == handled(
                        old(activities)@[q],
                        ids_of(c),
                    )
                &&& report.cancelled_preparations == count_class(old(activities)@, ids_of(c), 0)
                &&& report.unresolved_left_for_resolution == count_class(
                    old(activities)@,
                    ids_of(c),
                    1,
                )
                &&& report.executed_untouched == count_class(old(activities)@, ids_of(c), 2)
            }
        }),
{
    let ghost s = registry.sessions();
    let ghost c = revoked_records(*event, s);
    let (ids, keys, blobs) = match plan_revocation(registry, event) {
        Err(e) => {
            return Err(e);
        },
        Ok(plan) => plan,
    };
    proof {
        lemma_revoked(*event, s);
        assert forall|j: int| 0 <= j < c.len() implies registry@.contains_key(
            record_id(#[trigger] c[j]),
        ) && registry@[record_id(c[j])] == c[j] by {
            let q = choose|q: int| 0 <= q < s.len() && s[q] == #[trigger] c[j];
            lemma_record_of_at(s, q);
        }
        assert forall|j: int| 0 <= j < c.len() implies session_ids(ids@)[j] == ids_of(c)[j] by {
            assert(planned(ids@, keys@, blobs@, c, j));
        }
        assert(session_ids(ids@) =~= ids_of(c));

    }
    close_revoked(store, registry, Ghost(c), &ids, &keys, &blobs);
    let (cancelled_preparations, unresolved_left_for_resolution, executed_untouched) =
        handle_activities(activities, &ids);
    Ok(
        InvalidationReport {
            reason: event.reason,
            observed_sequence: event.observed_sequence,
            invalidated_sessions: ids,
            cancelled_preparations,
            unresolved_left_for_resolution,
            executed_untouched,
        },
    )
}

/// The number of activities of the sessions `ids`.
pub open spec fn affected_count(acts: Seq<PendingActivity>, ids: Seq<Seq<u8>>) -> nat
    decreases acts.len(),
{
    if acts.len() == 0 {
        0
    } else {
        affected_count(acts.drop_last(), ids) + if ids.contains(acts.last().session.0@) {
            1nat
        } else {
            0nat
        }
    }
}

/// Every activity of an invalidated session is counted once: cancelled, left to
/// resolution, or left untouched.
pub proof fn lemma_counts_partition(acts: Seq<PendingActivity>, ids: Seq<Seq<u8>>)
    ensures
        count_class(acts, ids, 0) + count_class(acts, ids, 1) + count_class(acts, ids, 2)
            == affected_count(acts, ids),
    decreases acts.len(),
{
    if acts.len() > 0 {
        lemma_counts_partition(acts.drop_last(), ids);
    }
}

/// Invalidation changes only activities of invalidated sessions, and only their
/// cancellation and resolution flags.
pub proof fn lemma_handled_keeps_identity(a: PendingActivity, ids: Seq<Seq<u8>>)
    ensures
        handled(a, ids).session == a.session,
        handled(a, ids).state == a.state,
        !ids.contains(a.session.0@) ==> handled(a, ids) == a,
        state_class(a.state) == 2 ==> handled(a, ids) == a,
{
}

} // verus!
