//! Prepared-activity expiry, reservation release and signed-byte retention.
//!
//! Preparations are kept in identifier order. Releasing a budget reservation is the budget
//! limiter's work: the operations that release take it as a function from a reservation
//! identifier to whether it was released.
use vstd::prelude::*;

use crate::bytes::{compare_bytes, fixed_equal, lemma_lex_irreflexive, lemma_lex_transitive, lex_lt, Precedence};
use crate::session::SessionId;
use crate::store::TenantId;
use crate::text::{hex_text, push_hex};

verus! {

/// The lifecycle of one prepared activity.
#[derive(Clone, Copy, Debug, PartialEq, Eq, Structural)]
pub enum LifecycleState {
    Prepared,
    Signing,
    Signed,
    Submitted,
    Acknowledged,
    Unknown,
    Executed,
    Failed,
    Expired,
}

/// A state no edge leaves.
pub open spec fn is_terminal_state(s: LifecycleState) -> bool {
    s == LifecycleState::Executed || s == LifecycleState::Failed || s == LifecycleState::Expired
}

/// A submitted state whose outcome is not yet known.
pub open spec fn is_unresolved(s: LifecycleState) -> bool {
    s == LifecycleState::Submitted || s == LifecycleState::Acknowledged || s == LifecycleState::Unknown
}

/// A state before submission.
pub open spec fn is_pre_submission(s: LifecycleState) -> bool {
    s == LifecycleState::Prepared || s == LifecycleState::Signing || s == LifecycleState::Signed
}

/// The edges the lifecycle allows.
pub open spec fn valid_edge(from: LifecycleState, to: LifecycleState) -> bool {
    match from {
        LifecycleState::Prepared => to == LifecycleState::Signing,
        LifecycleState::Signing => to == LifecycleState::Signed,
        LifecycleState::Signed => to == LifecycleState::Submitted,
        LifecycleState::Submitted => to == LifecycleState::Acknowledged || to == LifecycleState::Unknown
            || to == LifecycleState::Executed || to == LifecycleState::Failed,
        LifecycleState::Acknowledged => to == LifecycleState::Unknown || to == LifecycleState::Executed
            || to == LifecycleState::Failed,
        LifecycleState::Unknown => to == LifecycleState::Executed || to == LifecycleState::Failed,
        _ => false,
    }
}

/// Whether the lifecycle allows an edge.
pub fn valid_transition(from: LifecycleState, to: LifecycleState) -> (r: bool)
    ensures
        r == valid_edge(from, to),
{
    match from {
        LifecycleState::Prepared => to == LifecycleState::Signing,
        LifecycleState::Signing => to == LifecycleState::Signed,
        LifecycleState::Signed => to == LifecycleState::Submitted,
        LifecycleState::Submitted => to == LifecycleState::Acknowledged || to == LifecycleState::Unknown
            || to == LifecycleState::Executed || to == LifecycleState::Failed,
        LifecycleState::Acknowledged => to == LifecycleState::Unknown || to == LifecycleState::Executed
            || to == LifecycleState::Failed,
        LifecycleState::Unknown => to == LifecycleState::Executed || to == LifecycleState::Failed,
        _ => false,
    }
}

/// Law: terminal states are final, and no edge leads back to preparation or signing.
pub proof fn lemma_terminal_states_final(from: LifecycleState, to: LifecycleState)
    ensures
        is_terminal_state(from) ==> !valid_edge(from, to),
        valid_edge(from, to) ==> to != LifecycleState::Prepared && to != LifecycleState::Expired,
        valid_edge(from, to) && is_unresolved(from) ==> is_unresolved(to) || is_terminal_state(to),
{
}

/// How much of the payload a log line may reveal.
#[derive(Clone, Copy, Debug, PartialEq, Eq, Structural)]
pub enum PayloadRedaction {
    Omit,
    DigestOnly,
}

/// Exact session generation that owns a token-gated preparation.
#[derive(Debug)]
pub struct PreparationAuthorization {
    pub tenant: TenantId,
    pub session: SessionId,
    pub generation: u64,
}

/// The content of an authorization.
pub struct AuthorizationView {
    pub tenant: Seq<char>,
    pub session: Seq<u8>,
    pub generation: u64,
}

impl View for PreparationAuthorization {
    type V = AuthorizationView;

    open spec fn view(&self) -> AuthorizationView {
        AuthorizationView { tenant: self.tenant@, session: self.session.0@, generation: self.generation }
    }
}

impl PreparationAuthorization {
    fn same(&self, other: &PreparationAuthorization) -> (r: bool)
        ensures
            r == (self@ == other@),
    {
        self.tenant.same(&other.tenant) && fixed_equal(&self.session.0, &other.session.0) && self.generation == other.generation
    }

    fn duplicate(&self) -> (r: PreparationAuthorization)
        ensures
            r@ == self@,
    {
        PreparationAuthorization { tenant: self.tenant.clone(), session: SessionId(self.session.0), generation: self.generation }
    }
}

/// The content of an optional authorization.
pub open spec fn auth_of(a: Option<PreparationAuthorization>) -> Option<AuthorizationView> {
    match a {
        Some(x) => Some(x@),
        None => None,
    }
}

/// The content of an optional presented authorization.
pub open spec fn presented_of(a: Option<&PreparationAuthorization>) -> Option<AuthorizationView> {
    match a {
        Some(x) => Some(x@),
        None => None,
    }
}

#[derive(Debug)]
struct RetainedPreparation {
    id: [u8; 32],
    authorization: Option<PreparationAuthorization>,
    state: LifecycleState,
    not_after: u64,
    reservation_ids: Vec<[u8; 32]>,
    signed_bytes: Option<Vec<u8>>,
    activity_id: Option<[u8; 32]>,
    payload_hash: [u8; 32],
    terminal_at_sequence: Option<u64>,
}

/// The content of a retained preparation.
pub struct PrepView {
    pub id: Seq<u8>,
    pub authorization: Option<AuthorizationView>,
    pub state: LifecycleState,
    pub not_after: u64,
    pub reservations: Seq<[u8; 32]>,
    pub signed: Option<Seq<u8>>,
    pub activity: Option<Seq<u8>>,
    pub payload_hash: Seq<u8>,
    pub terminal_at: Option<u64>,
}

impl RetainedPreparation {
    spec fn view_of(&self) -> PrepView {
        PrepView {
            id: self.id@,
            authorization: auth_of(self.authorization),
            state: self.state,
            not_after: self.not_after,
            reservations: self.reservation_ids@,
            signed: match self.signed_bytes { Some(b) => Some(b@), None => None },
            activity: match self.activity_id { Some(a) => Some(a@), None => None },
            payload_hash: self.payload_hash@,
            terminal_at: self.terminal_at_sequence,
        }
    }
}

/// Whether a preparation with `id` is retained.
pub open spec fn has_prep(ps: Seq<PrepView>, id: Seq<u8>) -> bool {
    exists|i: int| 0 <= i < ps.len() && (#[trigger] ps[i]).id == id
}

/// The position of the preparation with `id`.
pub open spec fn prep_index(ps: Seq<PrepView>, id: Seq<u8>) -> int {
    choose|i: int| 0 <= i < ps.len() && (#[trigger] ps[i]).id == id
}

/// The refusal an authorization check gives, if any.
pub open spec fn auth_error(expected: Option<AuthorizationView>, presented: Option<AuthorizationView>) -> Option<LifecycleError> {
    match expected {
        None => if presented is None { None } else { Some(LifecycleError::AuthorizationMismatch) },
        Some(e) => match presented {
            None => Some(LifecycleError::AuthorizationRequired),
            Some(p) => if e == p { None } else { Some(LifecycleError::AuthorizationMismatch) },
        },
    }
}

/// Retained preparations in identifier order.
#[derive(Debug)]
pub struct PreparationLifecycle {
    records: Vec<RetainedPreparation>,
}

/// Report of an expiry pass.
#[derive(Debug)]
pub struct ExpirationReport {
    pub expired_preparations: Vec<[u8; 32]>,
    pub released_reservations: Vec<[u8; 32]>,
}

/// Report of a retention sweep.
#[derive(Clone, Copy, Debug, PartialEq, Eq, Structural)]
pub struct RetentionReport {
    pub discarded_terminal_signed_bytes: usize,
    pub preserved_unresolved_signed_bytes: usize,
}

/// Report of invalidating session generations.
#[derive(Debug)]
pub struct PreparationInvalidationReport {
    pub cancelled_preparations: usize,
    pub unresolved_preserved: usize,
    pub terminal_untouched: usize,
    pub released_reservations: Vec<[u8; 32]>,
}

/// Refusals of lifecycle operations.
#[derive(Clone, Copy, Debug, PartialEq, Eq, Structural)]
pub enum LifecycleError {
    Duplicate,
    NotFound,
    Unavailable,
    InvalidSignedBytes,
    ActivityIdUnavailable,
    PreparationExpired,
    InvalidAuthorization,
    AuthorizationRequired,
    AuthorizationMismatch,
    InvalidTransition { from: LifecycleState, to: LifecycleState },
    Reservation,
}

/// A preparation an expiry pass at `now` expires: not yet submitted and past its bound.
pub open spec fn expiry_candidate(p: PrepView, now: u64) -> bool {
    is_pre_submission(p.state) && now > p.not_after
}

/// A preparation after expiring at `now`.
pub open spec fn expired(p: PrepView, now: u64) -> PrepView {
    PrepView { state: LifecycleState::Expired, terminal_at: Some(now), ..p }
}

/// The identifiers of the preparations an expiry pass expires, in order.
pub open spec fn candidate_ids(ps: Seq<PrepView>, now: u64) -> Seq<Seq<u8>>
    decreases ps.len(),
{
    if ps.len() == 0 {
        Seq::empty()
    } else {
        let rest = candidate_ids(ps.drop_last(), now);
        if expiry_candidate(ps.last(), now) { rest.push(ps.last().id) } else { rest }
    }
}

/// Preparations in strictly increasing identifier order.
pub open spec fn ids_increasing(ps: Seq<PrepView>) -> bool {
    forall|a: int, b: int| 0 <= a < b < ps.len() ==> lex_lt((#[trigger] ps[a]).id, (#[trigger] ps[b]).id)
}

/// Whether `reservation` is held by a preparation that an expiry pass at `now` expires.
pub open spec fn expired_reservation(ps: Seq<PrepView>, now: u64, reservation: [u8; 32]) -> bool {
    exists|j: int| #![trigger ps[j]] 0 <= j < ps.len() && expiry_candidate(ps[j], now) && ps[j].reservations.contains(reservation)
}

proof fn lemma_candidate_ids_increasing(ps: Seq<PrepView>, now: u64)
    requires
        ids_increasing(ps),
    ensures
        forall|a: int, b: int|
            0 <= a < b < candidate_ids(ps, now).len() ==> lex_lt(#[trigger] candidate_ids(ps, now)[a], #[trigger] candidate_ids(ps, now)[b]),
        forall|a: int|
            0 <= a < candidate_ids(ps, now).len() ==> exists|k: int| 0 <= k < ps.len() && (#[trigger] ps[k]).id == #[trigger] candidate_ids(ps, now)[a],
    decreases ps.len(),
{
    if ps.len() > 0 {
        let front = ps.drop_last();
        assert(ids_increasing(front)) by {
            assert forall|a: int, b: int| 0 <= a < b < front.len() implies lex_lt((#[trigger] front[a]).id, (#[trigger] front[b]).id) by {
                assert(front[a] == ps[a] && front[b] == ps[b]);
            }
        }
        lemma_candidate_ids_increasing(front, now);
        let rest = candidate_ids(front, now);
        let c = candidate_ids(ps, now);
        assert forall|a: int| 0 <= a < c.len() implies exists|k: int| 0 <= k < ps.len() && (#[trigger] ps[k]).id == #[trigger] c[a] by {
            if a < rest.len() {
                assert(c[a] == rest[a]);
                let k = choose|k: int| 0 <= k < front.len() && (#[trigger] front[k]).id == rest[a];
                assert(ps[k] == front[k]);
            } else {
                assert(ps[ps.len() - 1].id == c[a]);
            }
        }
        assert forall|a: int, b: int| 0 <= a < b < c.len() implies lex_lt(#[trigger] c[a], #[trigger] c[b]) by {
            if b < rest.len() {
                assert(c[a] == rest[a] && c[b] == rest[b]);
            } else {
                assert(c[a] == rest[a]);
                let k = choose|k: int| 0 <= k < front.len() && (#[trigger] front[k]).id == rest[a];
                assert(ps[k] == front[k]);
                assert(lex_lt(ps[k].id, ps[ps.len() - 1].id));
            }
        }
    }
}

proof fn lemma_released_of_within(ids: Seq<[u8; 32]>, outcomes: Seq<bool>)
    ensures
        forall|x: int| 0 <= x < released_of(ids, outcomes).len() ==> ids.contains(#[trigger] released_of(ids, outcomes)[x]),
    decreases ids.len(),
{
    if ids.len() > 0 {
        let n = ids.len() - 1;
        lemma_released_of_within(ids.take(n), outcomes.take(n));
        let rest = released_of(ids.take(n), outcomes.take(n));
        let all = released_of(ids, outcomes);
        assert forall|x: int| 0 <= x < all.len() implies ids.contains(#[trigger] all[x]) by {
            if x < rest.len() {
                assert(all[x] == rest[x]);
                let k = choose|k: int| 0 <= k < ids.take(n).len() && ids.take(n)[k] == rest[x];
                assert(ids[k] == rest[x]);
            } else {
                assert(all[x] == ids[n]);
            }
        }
    }
}

/// A preparation after a retention sweep: terminal signed bytes past retention are
/// discarded; unresolved ones are always kept.
pub open spec fn swept(p: PrepView, current: u64, retention: u64) -> PrepView {
    if discards(p, current, retention) {
        PrepView { signed: None, ..p }
    } else {
        p
    }
}

/// Whether a sweep discards a preparation's signed bytes.
pub open spec fn discards(p: PrepView, current: u64, retention: u64) -> bool {
    &&& is_terminal_state(p.state)
    &&& p.signed is Some
    &&& p.terminal_at matches Some(t)
    &&& current >= if t + retention <= u64::MAX { (t + retention) as u64 } else { u64::MAX }
}

/// Whether a sweep preserves unresolved signed bytes.
pub open spec fn preserves(p: PrepView) -> bool {
    is_unresolved(p.state) && p.signed is Some
}

/// How many preparations a sweep discards.
pub open spec fn count_discards(ps: Seq<PrepView>, current: u64, retention: u64) -> nat
    decreases ps.len(),
{
    if ps.len() == 0 {
        0
    } else {
        count_discards(ps.drop_last(), current, retention) + if discards(ps.last(), current, retention) { 1nat } else { 0nat }
    }
}

/// How many preparations a sweep preserves.
pub open spec fn count_preserves(ps: Seq<PrepView>) -> nat
    decreases ps.len(),
{
    if ps.len() == 0 {
        0
    } else {
        count_preserves(ps.drop_last()) + if preserves(ps.last()) { 1nat } else { 0nat }
    }
}

/// How many invalidated preparations are in states of one class: before submission
/// (`class == 0`), unresolved (`class == 1`) or terminal (`class == 2`).
pub open spec fn count_invalidated(ps: Seq<PrepView>, inv: Seq<AuthorizationView>, class: int) -> nat
    decreases ps.len(),
{
    if ps.len() == 0 {
        0
    } else {
        count_invalidated(ps.drop_last(), inv, class) + if selected_by(ps.last(), inv) && in_class(ps.last().state, class) { 1nat } else { 0nat }
    }
}

/// Whether a state belongs to a class: before submission (0), unresolved (1), terminal (2).
pub open spec fn in_class(s: LifecycleState, class: int) -> bool {
    if class == 0 {
        is_pre_submission(s)
    } else if class == 1 {
        is_unresolved(s)
    } else {
        is_terminal_state(s)
    }
}

/// A preparation owned by an invalidated session generation.
pub open spec fn selected_by(p: PrepView, invalidated: Seq<AuthorizationView>) -> bool {
    p.authorization is Some && exists|j: int| 0 <= j < invalidated.len() && (#[trigger] invalidated[j]) == p.authorization.unwrap()
}

/// A preparation after its session generation was invalidated at `now`.
pub open spec fn cancelled(p: PrepView, now: u64) -> PrepView {
    PrepView { state: LifecycleState::Failed, signed: None, terminal_at: Some(now), ..p }
}

/// The line logged for a preparation: its activity identifier, never the payload, and
/// the payload digest only when allowed.
pub open spec fn redacted_line(activity: Seq<u8>, payload_hash: Seq<u8>, policy: PayloadRedaction) -> Seq<char> {
    "activity_id="@ + hex_text(activity) + " payload=[redacted]"@ + if policy == PayloadRedaction::DigestOnly {
        " payload_hash="@ + hex_text(payload_hash)
    } else {
        Seq::<char>::empty()
    }
}

proof fn lemma_reinsert(before: Seq<RetainedPreparation>, after: Seq<RetainedPreparation>, i: int)
    requires
        0 <= i < before.len(),
        after == before.remove(i).insert(i, after[i]),
        after[i].id@ == before[i].id@,
        forall|a: int, b: int| 0 <= a < b < before.len() ==> lex_lt((#[trigger] before[a]).id@, (#[trigger] before[b]).id@),
    ensures
        after.len() == before.len(),
        forall|a: int, b: int| 0 <= a < b < after.len() ==> lex_lt((#[trigger] after[a]).id@, (#[trigger] after[b]).id@),
        after.map_values(|r: RetainedPreparation| r.view_of()) == before.map_values(|r: RetainedPreparation| r.view_of()).update(i, after[i].view_of()),
{
    assert(after =~= before.update(i, after[i]));
    assert forall|a: int, b: int| 0 <= a < b < after.len() implies lex_lt((#[trigger] after[a]).id@, (#[trigger] after[b]).id@) by {
        assert(lex_lt(before[a].id@, before[b].id@));
    }
    assert(after.map_values(|r: RetainedPreparation| r.view_of()) =~= before.map_values(|r: RetainedPreparation| r.view_of()).update(i, after[i].view_of()));
}

/// What a lifecycle transition does.
pub open spec fn transition_outcome(before: Seq<PrepView>, after: Seq<PrepView>, id: Seq<u8>, next: LifecycleState, seq: u64, presented: Option<AuthorizationView>, r: Result<(), LifecycleError>) -> bool {
    if !has_prep(before, id) {
        r == Err::<(), LifecycleError>(LifecycleError::NotFound) && after == before
    } else {
        let i = prep_index(before, id);
        let p = before[i];
        if auth_error(p.authorization, presented) is Some {
            r == Err::<(), LifecycleError>(auth_error(p.authorization, presented).unwrap()) && after == before
        } else if !valid_edge(p.state, next) {
            r == Err::<(), LifecycleError>(LifecycleError::InvalidTransition { from: p.state, to: next }) && after == before
        } else {
            r is Ok && after == before.update(i, PrepView {
                state: next,
                terminal_at: if is_terminal_state(next) { Some(seq) } else { p.terminal_at },
                ..p
            })
        }
    }
}

impl PreparationLifecycle {
    /// The retained preparations, in identifier order.
    pub closed spec fn preps(&self) -> Seq<PrepView> {
        self.records@.map_values(|r: RetainedPreparation| r.view_of())
    }

    /// The lifecycle's invariant: identifiers strictly increase.
    pub closed spec fn wf(&self) -> bool {
        forall|a: int, b: int| 0 <= a < b < self.records.len() ==> lex_lt((#[trigger] self.records[a]).id@, (#[trigger] self.records[b]).id@)
    }

    /// A well-formed lifecycle holds its preparations in strictly increasing identifier order.
    pub proof fn lemma_wf(&self)
        requires
            self.wf(),
        ensures
            ids_increasing(self.preps()),
    {
        let ps = self.preps();
        assert forall|a: int, b: int| 0 <= a < b < ps.len() implies lex_lt((#[trigger] ps[a]).id, (#[trigger] ps[b]).id) by {
            assert(ps[a].id == self.records[a].id@ && ps[b].id == self.records[b].id@);
        }
    }

    proof fn lemma_index(&self, i: int)
        requires
            self.wf(),
            0 <= i < self.records.len(),
        ensures
            has_prep(self.preps(), self.preps()[i].id),
            prep_index(self.preps(), self.preps()[i].id) == i,
    {
        let ps = self.preps();
        assert(ps[i].id == self.records[i].id@);
        let j = prep_index(ps, ps[i].id);
        if j != i {
            assert(ps[j].id == self.records[j].id@);
            lemma_lex_irreflexive(self.records[i].id@);
            if j < i {
                assert(lex_lt(self.records[j].id@, self.records[i].id@));
            } else {
                assert(lex_lt(self.records[i].id@, self.records[j].id@));
            }
        }
    }

    /// No preparation is retained.
    pub fn new() -> (r: Self)
        ensures
            r.wf(),
            r.preps().len() == 0,
    {
        let r = PreparationLifecycle { records: Vec::new() };
        assert(r.preps() =~= Seq::<PrepView>::empty());
        r
    }

    fn position(&self, id: &[u8; 32]) -> (r: Result<usize, usize>)
        requires
            self.wf(),
        ensures
            r matches Ok(i) ==> i < self.records.len() && self.preps()[i as int].id == id@ && prep_index(self.preps(), id@) == i && has_prep(self.preps(), id@),
            r matches Err(p) ==> p <= self.records.len() && !has_prep(self.preps(), id@)
                && (forall|a: int| 0 <= a < p ==> lex_lt((#[trigger] self.records[a]).id@, id@))
                && (forall|a: int| p <= a < self.records.len() ==> lex_lt(id@, (#[trigger] self.records[a]).id@)),
    {
        let mut p: usize = 0;
        while p < self.records.len()
            invariant
                self.wf(),
                p <= self.records.len(),
                forall|a: int| 0 <= a < p ==> lex_lt((#[trigger] self.records[a]).id@, id@),
            decreases self.records.len() - p,
        {
            match compare_bytes(&self.records[p].id, id) {
                Precedence::Before => {},
                Precedence::Same => {
                    proof {
                        self.lemma_index(p as int);
                    }
                    return Ok(p);
                },
                Precedence::After => {
                    proof {
                        assert forall|a: int| p <= a < self.records.len() implies lex_lt(id@, (#[trigger] self.records[a]).id@) by {
                            if a > p {
                                lemma_lex_transitive(id@, self.records[p as int].id@, self.records[a].id@);
                            }
                        }
                        self.lemma_absent(id@, p as int);
                    }
                    return Err(p);
                },
            }
            p = p + 1;
        }
        proof {
            self.lemma_absent(id@, p as int);
        }
        Err(p)
    }

    proof fn lemma_absent(&self, id: Seq<u8>, p: int)
        requires
            0 <= p <= self.records.len(),
            forall|a: int| 0 <= a < p ==> lex_lt((#[trigger] self.records[a]).id@, id),
            forall|a: int| p <= a < self.records.len() ==> lex_lt(id, (#[trigger] self.records[a]).id@),
        ensures
            !has_prep(self.preps(), id),
    {
        if has_prep(self.preps(), id) {
            let i = choose|i: int| 0 <= i < self.preps().len() && (#[trigger] self.preps()[i]).id == id;
            assert(self.preps()[i].id == self.records[i].id@);
            lemma_lex_irreflexive(id);
        }
    }

    fn register_inner(&mut self, preparation_id: [u8; 32], not_after: u64, payload_hash: [u8; 32], reservation_ids: Vec<[u8; 32]>, authorization: Option<PreparationAuthorization>) -> (r: Result<(), LifecycleError>)
        requires
            old(self).wf(),
        ensures
            final(self).wf(),
            has_prep(old(self).preps(), preparation_id@) ==> r == Err::<(), LifecycleError>(LifecycleError::Duplicate) && final(self).preps() == old(self).preps(),
            !has_prep(old(self).preps(), preparation_id@) ==> r is Ok && exists|p: int| 0 <= p <= old(self).preps().len() && final(self).preps() == old(self).preps().insert(p, PrepView {
                id: preparation_id@,
                authorization: auth_of(authorization),
                state: LifecycleState::Prepared,
                not_after,
                reservations: reservation_ids@,
                signed: None,
                activity: None,
                payload_hash: payload_hash@,
                terminal_at: None,
            }),
    {
        let p = match self.position(&preparation_id) {
            Ok(_) => {
                return Err(LifecycleError::Duplicate);
            },
            Err(p) => p,
        };
        let ghost before = self.records@;
        let record = RetainedPreparation {
            id: preparation_id,
            authorization,
            state: LifecycleState::Prepared,
            not_after,
            reservation_ids,
            signed_bytes: None,
            activity_id: None,
            payload_hash,
            terminal_at_sequence: None,
        };
        let ghost rv = record.view_of();
        self.records.insert(p, record);
        proof {
            assert forall|a: int, b: int| 0 <= a < b < self.records.len() implies lex_lt((#[trigger] self.records[a]).id@, (#[trigger] self.records[b]).id@) by {
                if b < p {
                    assert(self.records[a] == before[a] && self.records[b] == before[b]);
                } else if b == p {
                    assert(self.records[a] == before[a]);
                } else if a == p {
                    assert(self.records[b] == before[b - 1]);
                } else if a < p {
                    assert(self.records[a] == before[a] && self.records[b] == before[b - 1]);
                } else {
                    assert(self.records[a] == before[a - 1] && self.records[b] == before[b - 1]);
                }
            }
            assert(self.preps() =~= before.map_values(|r: RetainedPreparation| r.view_of()).insert(p as int, rv));
        }
        Ok(())
    }

    /// Records one prepared activity with its expiry bound, payload digest and the budget
    /// reservations it holds.
    ///
    /// # Errors
    ///
    /// `Duplicate` when the preparation identifier is already registered.
    pub fn register(&mut self, preparation_id: [u8; 32], not_after: u64, payload_hash: [u8; 32], reservation_ids: Vec<[u8; 32]>) -> (r: Result<(), LifecycleError>)
        requires
            old(self).wf(),
        ensures
            final(self).wf(),
            has_prep(old(self).preps(), preparation_id@) ==> r == Err::<(), LifecycleError>(LifecycleError::Duplicate) && final(self).preps() == old(self).preps(),
            !has_prep(old(self).preps(), preparation_id@) ==> r is Ok && exists|p: int| 0 <= p <= old(self).preps().len() && final(self).preps() == old(self).preps().insert(p, PrepView {
                id: preparation_id@,
                authorization: None,
                state: LifecycleState::Prepared,
                not_after,
                reservations: reservation_ids@,
                signed: None,
                activity: None,
                payload_hash: payload_hash@,
                terminal_at: None,
            }),
    {
        self.register_inner(preparation_id, not_after, payload_hash, reservation_ids, None)
    }

    /// Records a preparation under the exact session generation that authorized it.
    ///
    /// # Errors
    ///
    /// `InvalidAuthorization` for generation zero, and `Duplicate` as for
    /// [`PreparationLifecycle::register`].
    pub fn register_authorized(&mut self, preparation_id: [u8; 32], not_after: u64, payload_hash: [u8; 32], reservation_ids: Vec<[u8; 32]>, authorization: PreparationAuthorization) -> (r: Result<(), LifecycleError>)
        requires
            old(self).wf(),
        ensures
            final(self).wf(),
            authorization.generation == 0 ==> r == Err::<(), LifecycleError>(LifecycleError::InvalidAuthorization) && final(self).preps() == old(self).preps(),
            authorization.generation != 0 && has_prep(old(self).preps(), preparation_id@) ==> r == Err::<(), LifecycleError>(LifecycleError::Duplicate) && final(self).preps() == old(self).preps(),
            authorization.generation != 0 && !has_prep(old(self).preps(), preparation_id@) ==> r is Ok && exists|p: int| 0 <= p <= old(self).preps().len() && final(self).preps() == old(self).preps().insert(p, PrepView {
                id: preparation_id@,
                authorization: Some(authorization@),
                state: LifecycleState::Prepared,
                not_after,
                reservations: reservation_ids@,
                signed: None,
                activity: None,
                payload_hash: payload_hash@,
                terminal_at: None,
            }),
    {
        if authorization.generation == 0 {
            return Err(LifecycleError::InvalidAuthorization);
        }
        self.register_inner(preparation_id, not_after, payload_hash, reservation_ids, Some(authorization))
    }

    fn check_authorization(&self, i: usize, presented: Option<&PreparationAuthorization>) -> (r: Result<(), LifecycleError>)
        requires
            i < self.records.len(),
        ensures
            r == match auth_error(self.preps()[i as int].authorization, presented_of(presented)) {
                None => Ok::<(), LifecycleError>(()),
                Some(e) => Err(e),
            },
    {
        assert(self.preps()[i as int] == self.records[i as int].view_of());
        match &self.records[i].authorization {
            None => match presented {
                None => Ok(()),
                Some(_) => Err(LifecycleError::AuthorizationMismatch),
            },
            Some(expected) => match presented {
                None => Err(LifecycleError::AuthorizationRequired),
                Some(p) => if expected.same(p) { Ok(()) } else { Err(LifecycleError::AuthorizationMismatch) },
            },
        }
    }

    /// Replaces the record at `i` by one with the same identifier.
    fn replace(&mut self, i: usize, record: RetainedPreparation)
        requires
            old(self).wf(),
            i < old(self).records.len(),
            record.id@ == old(self).records[i as int].id@,
        ensures
            final(self).wf(),
            final(self).preps() == old(self).preps().update(i as int, record.view_of()),
    {
        let ghost before = self.records@;
        let ghost rv = record.view_of();
        let _ = self.records.remove(i);
        self.records.insert(i, record);
        proof {
            assert(self.records@ =~= before.update(i as int, self.records@[i as int]));
            assert forall|a: int, b: int| 0 <= a < b < self.records.len() implies lex_lt((#[trigger] self.records[a]).id@, (#[trigger] self.records[b]).id@) by {
                assert(lex_lt(before[a].id@, before[b].id@));
            }
            assert(self.preps() =~= before.map_values(|r: RetainedPreparation| r.view_of()).update(i as int, rv));
        }
    }

    fn transition_inner(&mut self, preparation_id: [u8; 32], next: LifecycleState, current_sequence: u64, presented: Option<&PreparationAuthorization>) -> (r: Result<(), LifecycleError>)
        requires
            old(self).wf(),
        ensures
            final(self).wf(),
            transition_outcome(old(self).preps(), final(self).preps(), preparation_id@, next, current_sequence, presented_of(presented), r),
    {
        let i = match self.position(&preparation_id) {
            Ok(i) => i,
            Err(_) => {
                return Err(LifecycleError::NotFound);
            },
        };
        self.check_authorization(i, presented)?;
        let from = self.records[i].state;
        if !valid_transition(from, next) {
            return Err(LifecycleError::InvalidTransition { from, to: next });
        }
        let ghost before = self.records@;
        let mut record = self.records.remove(i);
        record.state = next;
        if next == LifecycleState::Executed || next == LifecycleState::Failed || next == LifecycleState::Expired {
            record.terminal_at_sequence = Some(current_sequence);
        }
        self.records.insert(i, record);
        proof {
            lemma_reinsert(before, self.records@, i as int);
            self.lemma_index(i as int);
        }
        Ok(())
    }
}

/// What attaching signed bytes does.
pub open spec fn retain_outcome(before: Seq<PrepView>, after: Seq<PrepView>, id: Seq<u8>, signed: Seq<u8>, activity: Seq<u8>, presented: Option<AuthorizationView>, r: Result<(), LifecycleError>) -> bool {
    if signed.len() == 0 {
        r == Err::<(), LifecycleError>(LifecycleError::InvalidSignedBytes) && after == before
    } else if !has_prep(before, id) {
        r == Err::<(), LifecycleError>(LifecycleError::NotFound) && after == before
    } else {
        let i = prep_index(before, id);
        let p = before[i];
        if auth_error(p.authorization, presented) is Some {
            r == Err::<(), LifecycleError>(auth_error(p.authorization, presented).unwrap()) && after == before
        } else if p.state != LifecycleState::Signing {
            r == Err::<(), LifecycleError>(LifecycleError::InvalidTransition { from: p.state, to: LifecycleState::Signed }) && after == before
        } else {
            r is Ok && after == before.update(i, PrepView { signed: Some(signed), activity: Some(activity), state: LifecycleState::Signed, ..p })
        }
    }
}

/// What admitting a preparation for submission at `batch_time` answers.
pub open spec fn admit_outcome(ps: Seq<PrepView>, id: Seq<u8>, batch_time: u64, presented: Option<AuthorizationView>) -> Result<(), LifecycleError> {
    if !has_prep(ps, id) {
        Err(LifecycleError::NotFound)
    } else {
        let p = ps[prep_index(ps, id)];
        if auth_error(p.authorization, presented) is Some {
            Err(auth_error(p.authorization, presented).unwrap())
        } else if batch_time > p.not_after || p.state == LifecycleState::Expired {
            Err(LifecycleError::PreparationExpired)
        } else if p.state != LifecycleState::Signed {
            Err(LifecycleError::InvalidTransition { from: p.state, to: LifecycleState::Submitted })
        } else {
            Ok(())
        }
    }
}

impl PreparationLifecycle {
    /// Advances one preparation along the permitted lifecycle edges only.
    ///
    /// # Errors
    ///
    /// `NotFound` for an unregistered preparation, `AuthorizationRequired` for a
    /// token-bound one, and `InvalidTransition` carrying both states for a disallowed edge.
    pub fn transition(&mut self, preparation_id: [u8; 32], next: LifecycleState, current_sequence: u64) -> (r: Result<(), LifecycleError>)
        requires
            old(self).wf(),
        ensures
            final(self).wf(),
            transition_outcome(old(self).preps(), final(self).preps(), preparation_id@, next, current_sequence, None, r),
    {
        self.transition_inner(preparation_id, next, current_sequence, None)
    }

    /// Advances a token-bound preparation only for its exact owning session generation.
    ///
    /// # Errors
    ///
    /// As [`PreparationLifecycle::transition`], and `AuthorizationMismatch` for another
    /// session generation.
    pub fn transition_authorized(&mut self, preparation_id: [u8; 32], next: LifecycleState, current_sequence: u64, authorization: &PreparationAuthorization) -> (r: Result<(), LifecycleError>)
        requires
            old(self).wf(),
        ensures
            final(self).wf(),
            transition_outcome(old(self).preps(), final(self).preps(), preparation_id@, next, current_sequence, Some(authorization@), r),
    {
        self.transition_inner(preparation_id, next, current_sequence, Some(authorization))
    }

    fn retain_inner(&mut self, preparation_id: [u8; 32], signed_bytes: Vec<u8>, activity_id: [u8; 32], presented: Option<&PreparationAuthorization>) -> (r: Result<(), LifecycleError>)
        requires
            old(self).wf(),
        ensures
            final(self).wf(),
            retain_outcome(old(self).preps(), final(self).preps(), preparation_id@, signed_bytes@, activity_id@, presented_of(presented), r),
    {
        if signed_bytes.len() == 0 {
            return Err(LifecycleError::InvalidSignedBytes);
        }
        let i = match self.position(&preparation_id) {
            Ok(i) => i,
            Err(_) => {
                return Err(LifecycleError::NotFound);
            },
        };
        self.check_authorization(i, presented)?;
        let from = self.records[i].state;
        if from != LifecycleState::Signing {
            return Err(LifecycleError::InvalidTransition { from, to: LifecycleState::Signed });
        }
        let ghost before = self.records@;
        let mut record = self.records.remove(i);
        record.signed_bytes = Some(signed_bytes);
        record.activity_id = Some(activity_id);
        record.state = LifecycleState::Signed;
        self.records.insert(i, record);
        proof {
            lemma_reinsert(before, self.records@, i as int);
        }
        Ok(())
    }

    /// Attaches signed bytes and their activity id to a preparation being signed.
    ///
    /// # Errors
    ///
    /// `InvalidSignedBytes` for empty bytes, `NotFound` for an unregistered preparation,
    /// `AuthorizationRequired` for a token-bound one, and `InvalidTransition` unless the
    /// preparation is being signed.
    pub fn retain_signed_bytes(&mut self, preparation_id: [u8; 32], signed_bytes: Vec<u8>, activity_id: [u8; 32]) -> (r: Result<(), LifecycleError>)
        requires
            old(self).wf(),
        ensures
            final(self).wf(),
            retain_outcome(old(self).preps(), final(self).preps(), preparation_id@, signed_bytes@, activity_id@, None, r),
    {
        self.retain_inner(preparation_id, signed_bytes, activity_id, None)
    }

    /// Retains signed bytes only for the exact session generation that owns the preparation.
    ///
    /// # Errors
    ///
    /// As [`PreparationLifecycle::retain_signed_bytes`], and `AuthorizationMismatch` for
    /// another session generation.
    pub fn retain_signed_bytes_authorized(&mut self, preparation_id: [u8; 32], signed_bytes: Vec<u8>, activity_id: [u8; 32], authorization: &PreparationAuthorization) -> (r: Result<(), LifecycleError>)
        requires
            old(self).wf(),
        ensures
            final(self).wf(),
            retain_outcome(old(self).preps(), final(self).preps(), preparation_id@, signed_bytes@, activity_id@, Some(authorization@), r),
    {
        self.retain_inner(preparation_id, signed_bytes, activity_id, Some(authorization))
    }

    fn admit_inner(&self, preparation_id: [u8; 32], core_batch_time: u64, presented: Option<&PreparationAuthorization>) -> (r: Result<(), LifecycleError>)
        requires
            self.wf(),
        ensures
            r == admit_outcome(self.preps(), preparation_id@, core_batch_time, presented_of(presented)),
    {
        let i = match self.position(&preparation_id) {
            Ok(i) => i,
            Err(_) => {
                return Err(LifecycleError::NotFound);
            },
        };
        self.check_authorization(i, presented)?;
        let record = &self.records[i];
        assert(self.preps()[i as int] == record.view_of());
        if core_batch_time > record.not_after || record.state == LifecycleState::Expired {
            return Err(LifecycleError::PreparationExpired);
        }
        if record.state != LifecycleState::Signed {
            return Err(LifecycleError::InvalidTransition { from: record.state, to: LifecycleState::Submitted });
        }
        Ok(())
    }

    /// Admits a signed preparation for submission at the authoritative core batch time.
    ///
    /// # Errors
    ///
    /// `NotFound` for an unregistered preparation, `AuthorizationRequired` for a
    /// token-bound one, `PreparationExpired` past its bound or once expired, and
    /// `InvalidTransition` unless it is signed.
    pub fn admit_submission(&self, preparation_id: [u8; 32], core_batch_time: u64) -> (r: Result<(), LifecycleError>)
        requires
            self.wf(),
        ensures
            r == admit_outcome(self.preps(), preparation_id@, core_batch_time, None),
    {
        self.admit_inner(preparation_id, core_batch_time, None)
    }

    /// Admits a token-bound preparation only for its exact owning session generation.
    ///
    /// # Errors
    ///
    /// As [`PreparationLifecycle::admit_submission`], and `AuthorizationMismatch` for
    /// another session generation.
    pub fn admit_submission_authorized(&self, preparation_id: [u8; 32], core_batch_time: u64, authorization: &PreparationAuthorization) -> (r: Result<(), LifecycleError>)
        requires
            self.wf(),
        ensures
            r == admit_outcome(self.preps(), preparation_id@, core_batch_time, Some(authorization@)),
    {
        self.admit_inner(preparation_id, core_batch_time, Some(authorization))
    }

    /// The current lifecycle state of one preparation.
    ///
    /// # Errors
    ///
    /// `NotFound` for an unregistered preparation.
    pub fn state(&self, preparation_id: [u8; 32]) -> (r: Result<LifecycleState, LifecycleError>)
        requires
            self.wf(),
        ensures
            !has_prep(self.preps(), preparation_id@) ==> r == Err::<LifecycleState, LifecycleError>(LifecycleError::NotFound),
            has_prep(self.preps(), preparation_id@) ==> r == Ok::<LifecycleState, LifecycleError>(self.preps()[prep_index(self.preps(), preparation_id@)].state),
    {
        match self.position(&preparation_id) {
            Ok(i) => {
                assert(self.preps()[i as int] == self.records[i as int].view_of());
                Ok(self.records[i].state)
            },
            Err(_) => Err(LifecycleError::NotFound),
        }
    }

    /// Whether signed bytes are still retained for one preparation.
    ///
    /// # Errors
    ///
    /// `NotFound` for an unregistered preparation.
    pub fn has_signed_bytes(&self, preparation_id: [u8; 32]) -> (r: Result<bool, LifecycleError>)
        requires
            self.wf(),
        ensures
            !has_prep(self.preps(), preparation_id@) ==> r == Err::<bool, LifecycleError>(LifecycleError::NotFound),
            has_prep(self.preps(), preparation_id@) ==> r == Ok::<bool, LifecycleError>(self.preps()[prep_index(self.preps(), preparation_id@)].signed is Some),
    {
        match self.position(&preparation_id) {
            Ok(i) => {
                assert(self.preps()[i as int] == self.records[i as int].view_of());
                Ok(self.records[i].signed_bytes.is_some())
            },
            Err(_) => Err(LifecycleError::NotFound),
        }
    }

    /// Renders one log line carrying the activity id and never the payload bytes.
    ///
    /// # Errors
    ///
    /// `NotFound` for an unregistered preparation, and `ActivityIdUnavailable` before
    /// signing assigned an activity id.
    pub fn redacted_log(&self, preparation_id: [u8; 32], policy: PayloadRedaction) -> (r: Result<String, LifecycleError>)
        requires
            self.wf(),
        ensures
            !has_prep(self.preps(), preparation_id@) ==> (r matches Err(e) && e == LifecycleError::NotFound),
            has_prep(self.preps(), preparation_id@) ==> {
                let p = self.preps()[prep_index(self.preps(), preparation_id@)];
                &&& p.activity is None ==> (r matches Err(e) && e == LifecycleError::ActivityIdUnavailable)
                &&& p.activity matches Some(a) ==> (r matches Ok(line) && line@ == redacted_line(a, p.payload_hash, policy))
            },
    {
        let i = match self.position(&preparation_id) {
            Ok(i) => i,
            Err(_) => {
                return Err(LifecycleError::NotFound);
            },
        };
        let record = &self.records[i];
        assert(self.preps()[i as int] == record.view_of());
        let activity_id = match record.activity_id {
            Some(a) => a,
            None => {
                return Err(LifecycleError::ActivityIdUnavailable);
            },
        };
        let mut line = String::new();
        line.append("activity_id=");
        push_hex(&mut line, &activity_id);
        line.append(" payload=[redacted]");
        if policy == PayloadRedaction::DigestOnly {
            line.append(" payload_hash=");
            push_hex(&mut line, &record.payload_hash);
        }
        proof {
            let base = "activity_id="@ + hex_text(activity_id@) + " payload=[redacted]"@;
            if policy == PayloadRedaction::DigestOnly {
                assert(line@ =~= base + (" payload_hash="@ + hex_text(record.payload_hash@)));
            } else {
                assert(line@ =~= base + Seq::<char>::empty());
            }
        }
        Ok(line)
    }

    /// Fails every not-yet-submitted preparation owned by an invalidated session
    /// generation, releasing its reservations through `release`, while preserving
    /// submitted and unknown work for receipt resolution.
    ///
    /// # Errors
    ///
    /// The first refusal `release` returns.
    pub fn invalidate_authorizations<F>(&mut self, invalidated: &[PreparationAuthorization], current_sequence: u64, release: &F) -> (r: Result<PreparationInvalidationReport, LifecycleError>)
        where
            F: Fn([u8; 32]) -> Result<bool, LifecycleError>,
        requires
            old(self).wf(),
            forall|id: [u8; 32]| call_requires(*release, (id,)),
        ensures
            final(self).wf(),
            ({
                let inv = invalidated@.map_values(|a: PreparationAuthorization| a@);
                let before = old(self).preps();
                let after = final(self).preps();
                &&& after.len() == before.len()
                &&& forall|i: int| 0 <= i < before.len() ==> (#[trigger] after[i] == before[i] || (selected_by(before[i], inv) && is_pre_submission(before[i].state) && after[i] == cancelled(before[i], current_sequence)))
                &&& r matches Err(e) ==> exists|id: [u8; 32]| call_ensures(*release, (id,), Err::<bool, LifecycleError>(e))
                &&& r matches Ok(report) ==> {
                    &&& forall|i: int| 0 <= i < before.len() ==> #[trigger] after[i] == if selected_by(before[i], inv) && is_pre_submission(before[i].state) { cancelled(before[i], current_sequence) } else { before[i] }
                    &&& report.cancelled_preparations == count_invalidated(before, inv, 0)
                    &&& report.unresolved_preserved == count_invalidated(before, inv, 1)
                    &&& report.terminal_untouched == count_invalidated(before, inv, 2)
                    &&& forall|k: int| 0 <= k < report.released_reservations@.len() ==> call_ensures(*release, ((#[trigger] report.released_reservations@[k]),), Ok::<bool, LifecycleError>(true))
                }
            }),
    {
        let ghost inv = invalidated@.map_values(|a: PreparationAuthorization| a@);
        let ghost before = self.preps();
        let mut report = PreparationInvalidationReport { cancelled_preparations: 0, unresolved_preserved: 0, terminal_untouched: 0, released_reservations: Vec::new() };
        let mut i: usize = 0;
        while i < self.records.len()
            invariant
                self.wf(),
                inv == invalidated@.map_values(|a: PreparationAuthorization| a@),
                before == old(self).preps(),
                forall|id: [u8; 32]| call_requires(*release, (id,)),
                i <= self.records.len(),
                self.preps().len() == before.len(),
                forall|a: int| 0 <= a < i ==> #[trigger] self.preps()[a] == if selected_by(before[a], inv) && is_pre_submission(before[a].state) { cancelled(before[a], current_sequence) } else { before[a] },
                forall|a: int| i <= a < before.len() ==> #[trigger] self.preps()[a] == before[a],
                report.cancelled_preparations == count_invalidated(before.take(i as int), inv, 0),
                report.unresolved_preserved == count_invalidated(before.take(i as int), inv, 1),
                report.terminal_untouched == count_invalidated(before.take(i as int), inv, 2),
                report.cancelled_preparations + report.unresolved_preserved + report.terminal_untouched <= i,
                forall|k: int| 0 <= k < report.released_reservations@.len() ==> call_ensures(*release, ((#[trigger] report.released_reservations@[k]),), Ok::<bool, LifecycleError>(true)),
            decreases self.records.len() - i,
        {
            let ghost pi = before[i as int];
            assert(self.preps()[i as int] == self.records[i as int].view_of());
            proof {
                assert(before.take(i + 1).drop_last() =~= before.take(i as int));
                assert(before.take(i + 1).last() == pi);
            }
            let selected = match &self.records[i].authorization {
                None => false,
                Some(a) => {
                    let mut j: usize = 0;
                    let mut found = false;
                    while j < invalidated.len()
                        invariant
                            j <= invalidated.len(),
                            inv == invalidated@.map_values(|a: PreparationAuthorization| a@),
                            found <==> exists|k: int| 0 <= k < j && (#[trigger] inv[k]) == a@,
                        decreases invalidated.len() - j,
                    {
                        if !found && a.same(&invalidated[j]) {
                            found = true;
                        }
                        proof {
                            assert(inv[j as int] == invalidated@[j as int]@);
                        }
                        j = j + 1;
                    }
                    found
                },
            };
            assert(selected == selected_by(pi, inv));
            let state = self.records[i].state;
            if selected {
                match state {
                    LifecycleState::Prepared | LifecycleState::Signing | LifecycleState::Signed => {
                        release_all(&self.records[i].reservation_ids, release, &mut report.released_reservations)?;
                        let ghost recs = self.records@;
                        let mut record = self.records.remove(i);
                        record.state = LifecycleState::Failed;
                        record.signed_bytes = None;
                        record.terminal_at_sequence = Some(current_sequence);
                        self.records.insert(i, record);
                        proof {
                            lemma_reinsert(recs, self.records@, i as int);
                        }
                        report.cancelled_preparations = report.cancelled_preparations + 1;
                    },
                    LifecycleState::Submitted | LifecycleState::Acknowledged | LifecycleState::Unknown => {
                        report.unresolved_preserved = report.unresolved_preserved + 1;
                    },
                    _ => {
                        report.terminal_untouched = report.terminal_untouched + 1;
                    },
                }
            }
            i = i + 1;
        }
        proof {
            assert(before.take(before.len() as int) =~= before);
        }
        Ok(report)
    }

    /// Expires every not-yet-submitted preparation past its bound at `core_batch_time`,
    /// releasing its reservations through `release`, in identifier order.
    ///
    /// # Errors
    ///
    /// The first refusal `release` returns; preparations expired before it stay expired.
    pub fn expire_elapsed<F>(&mut self, release: &F, core_batch_time: u64) -> (r: Result<ExpirationReport, LifecycleError>)
        where
            F: Fn([u8; 32]) -> Result<bool, LifecycleError>,
        requires
            old(self).wf(),
            forall|id: [u8; 32]| call_requires(*release, (id,)),
        ensures
            final(self).wf(),
            ({
                let before = old(self).preps();
                let after = final(self).preps();
                &&& after.len() == before.len()
                &&& forall|i: int| 0 <= i < before.len() ==> (#[trigger] after[i] == before[i] || (expiry_candidate(before[i], core_batch_time) && after[i] == expired(before[i], core_batch_time)))
                &&& r matches Err(e) ==> exists|id: [u8; 32]| call_ensures(*release, (id,), Err::<bool, LifecycleError>(e))
                &&& r matches Ok(report) ==> {
                    &&& forall|i: int| 0 <= i < before.len() ==> #[trigger] after[i] == if expiry_candidate(before[i], core_batch_time) { expired(before[i], core_batch_time) } else { before[i] }
                    &&& report.expired_preparations@.map_values(|a: [u8; 32]| a@) == candidate_ids(before, core_batch_time)
                    &&& forall|k: int| 0 <= k < report.released_reservations@.len() ==> call_ensures(*release, ((#[trigger] report.released_reservations@[k]),), Ok::<bool, LifecycleError>(true))
                    &&& forall|k: int| 0 <= k < report.released_reservations@.len() ==> expired_reservation(before, core_batch_time, #[trigger] report.released_reservations@[k])
                    &&& forall|a: int, b: int| 0 <= a < b < report.expired_preparations@.len() ==> lex_lt((#[trigger] report.expired_preparations@[a])@, (#[trigger] report.expired_preparations@[b])@)
                }
            }),
    {
        let ghost before = self.preps();
        proof {
            self.lemma_wf();
            lemma_candidate_ids_increasing(before, core_batch_time);
        }
        let mut report = ExpirationReport { expired_preparations: Vec::new(), released_reservations: Vec::new() };
        let mut i: usize = 0;
        while i < self.records.len()
            invariant
                self.wf(),
                before == old(self).preps(),
                forall|id: [u8; 32]| call_requires(*release, (id,)),
                i <= self.records.len(),
                self.preps().len() == before.len(),
                forall|a: int| 0 <= a < i ==> #[trigger] self.preps()[a] == if expiry_candidate(before[a], core_batch_time) { expired(before[a], core_batch_time) } else { before[a] },
                forall|a: int| i <= a < before.len() ==> #[trigger] self.preps()[a] == before[a],
                report.expired_preparations@.map_values(|a: [u8; 32]| a@) == candidate_ids(before.take(i as int), core_batch_time),
                forall|k: int| 0 <= k < report.released_reservations@.len() ==> call_ensures(*release, ((#[trigger] report.released_reservations@[k]),), Ok::<bool, LifecycleError>(true)),
                forall|k: int| 0 <= k < report.released_reservations@.len() ==> expired_reservation(before, core_batch_time, #[trigger] report.released_reservations@[k]),
            decreases self.records.len() - i,
        {
            let ghost pi = before[i as int];
            assert(self.preps()[i as int] == self.records[i as int].view_of());
            proof {
                assert(before.take(i + 1).drop_last() =~= before.take(i as int));
                assert(before.take(i + 1).last() == pi);
            }
            let state = self.records[i].state;
            let candidate = (state == LifecycleState::Prepared || state == LifecycleState::Signing || state == LifecycleState::Signed) && core_batch_time > self.records[i].not_after;
            if candidate {
                let ghost held = report.released_reservations@;
                release_all(&self.records[i].reservation_ids, release, &mut report.released_reservations)?;
                proof {
                    let ids = self.records[i as int].reservation_ids@;
                    assert(ids == pi.reservations);
                    let outcomes = choose|outcomes: Seq<bool>|
                        #![trigger released_of(ids, outcomes)]
                        outcomes.len() == ids.len()
                            && (forall|k: int| 0 <= k < ids.len() ==> call_ensures(*release, ((#[trigger] ids[k]),), Ok::<bool, LifecycleError>(outcomes[k])))
                            && report.released_reservations@ == held + released_of(ids, outcomes);
                    lemma_released_of_within(ids, outcomes);
                    let added = released_of(ids, outcomes);
                    assert(expiry_candidate(pi, core_batch_time));
                    assert forall|k: int| 0 <= k < report.released_reservations@.len() implies expired_reservation(before, core_batch_time, #[trigger] report.released_reservations@[k]) by {
                        if k >= held.len() {
                            assert(report.released_reservations@[k] == added[k - held.len()]);
                            assert(ids.contains(added[k - held.len()]));
                            assert(before[i as int] == pi);
                        } else {
                            assert(report.released_reservations@[k] == held[k]);
                        }
                    }
                }
                let ghost recs = self.records@;
                let id = self.records[i].id;
                let mut record = self.records.remove(i);
                record.state = LifecycleState::Expired;
                record.terminal_at_sequence = Some(core_batch_time);
                self.records.insert(i, record);
                proof {
                    lemma_reinsert(recs, self.records@, i as int);
                }
                let ghost ex = report.expired_preparations@;
                report.expired_preparations.push(id);
                proof {
                    assert(report.expired_preparations@.map_values(|a: [u8; 32]| a@) =~= ex.map_values(|a: [u8; 32]| a@).push(id@));
                    assert(expiry_candidate(pi, core_batch_time));
                    assert(id@ == pi.id);
                }
            } else {
                proof {
                    assert(!expiry_candidate(pi, core_batch_time));
                }
            }
            i = i + 1;
        }
        proof {
            assert(before.take(before.len() as int) =~= before);
            let ex = report.expired_preparations@;
            let c = candidate_ids(before, core_batch_time);
            assert(ex.map_values(|a: [u8; 32]| a@) == c);
            assert forall|a: int, b: int| 0 <= a < b < ex.len() implies lex_lt((#[trigger] ex[a])@, (#[trigger] ex[b])@) by {
                assert(ex.map_values(|x: [u8; 32]| x@)[a] == ex[a]@);
                assert(ex.map_values(|x: [u8; 32]| x@)[b] == ex[b]@);
                assert(lex_lt(c[a], c[b]));
            }
        }
        Ok(report)
    }

    /// Discards terminal signed bytes once retained for `retention_sequences`, while
    /// preserving the signed bytes of every unresolved submission.
    pub fn sweep_retention(&mut self, current_sequence: u64, retention_sequences: u64) -> (r: RetentionReport)
        requires
            old(self).wf(),
        ensures
            final(self).wf(),
            final(self).preps().len() == old(self).preps().len(),
            forall|i: int| 0 <= i < old(self).preps().len() ==> #[trigger] final(self).preps()[i] == swept(old(self).preps()[i], current_sequence, retention_sequences),
            r.discarded_terminal_signed_bytes == count_discards(old(self).preps(), current_sequence, retention_sequences),
            r.preserved_unresolved_signed_bytes == count_preserves(old(self).preps()),
    {
        let ghost before = self.preps();
        let mut report = RetentionReport { discarded_terminal_signed_bytes: 0, preserved_unresolved_signed_bytes: 0 };
        let mut i: usize = 0;
        while i < self.records.len()
            invariant
                self.wf(),
                before == old(self).preps(),
                i <= self.records.len(),
                self.preps().len() == before.len(),
                forall|a: int| 0 <= a < i ==> #[trigger] self.preps()[a] == swept(before[a], current_sequence, retention_sequences),
                forall|a: int| i <= a < before.len() ==> #[trigger] self.preps()[a] == before[a],
                report.discarded_terminal_signed_bytes == count_discards(before.take(i as int), current_sequence, retention_sequences),
                report.preserved_unresolved_signed_bytes == count_preserves(before.take(i as int)),
                report.discarded_terminal_signed_bytes + report.preserved_unresolved_signed_bytes <= i,
            decreases self.records.len() - i,
        {
            let ghost pi = before[i as int];
            assert(self.preps()[i as int] == self.records[i as int].view_of());
            proof {
                assert(before.take(i + 1).drop_last() =~= before.take(i as int));
                assert(before.take(i + 1).last() == pi);
            }
            let state = self.records[i].state;
            let has_bytes = self.records[i].signed_bytes.is_some();
            if (state == LifecycleState::Submitted || state == LifecycleState::Acknowledged || state == LifecycleState::Unknown) && has_bytes {
                report.preserved_unresolved_signed_bytes = report.preserved_unresolved_signed_bytes + 1;
            } else {
                let terminal = state == LifecycleState::Executed || state == LifecycleState::Failed || state == LifecycleState::Expired;
                let due = match self.records[i].terminal_at_sequence {
                    Some(t) => current_sequence >= t.saturating_add(retention_sequences),
                    None => false,
                };
                if terminal && has_bytes && due {
                    let ghost recs = self.records@;
                    let mut record = self.records.remove(i);
                    record.signed_bytes = None;
                    self.records.insert(i, record);
                    proof {
                        lemma_reinsert(recs, self.records@, i as int);
                    }
                    report.discarded_terminal_signed_bytes = report.discarded_terminal_signed_bytes + 1;
                }
            }
            i = i + 1;
        }
        proof {
            assert(before.take(before.len() as int) =~= before);
        }
        report
    }
}

/// The reservations among `ids` whose release reported `true`, in order,
/// where `outcomes[k]` is what releasing `ids[k]` reported.
pub open spec fn released_of(ids: Seq<[u8; 32]>, outcomes: Seq<bool>) -> Seq<[u8; 32]>
    decreases ids.len(),
{
    if ids.len() == 0 {
        Seq::empty()
    } else {
        let n = ids.len() - 1;
        released_of(ids.take(n), outcomes.take(n)) + if outcomes[n] {
            seq![ids[n]]
        } else {
            Seq::empty()
        }
    }
}

/// Releases each reservation through `release`, in order, appending those it released to
/// `released`; stops at the first release that fails and returns its error.
fn release_all<F>(reservations: &Vec<[u8; 32]>, release: &F, released: &mut Vec<[u8; 32]>) -> (r: Result<(), LifecycleError>)
    where
        F: Fn([u8; 32]) -> Result<bool, LifecycleError>,
    requires
        forall|id: [u8; 32]| call_requires(*release, (id,)),
        forall|q: int| 0 <= q < old(released)@.len() ==> call_ensures(*release, ((#[trigger] old(released)@[q]),), Ok::<bool, LifecycleError>(true)),
    ensures
        forall|q: int| 0 <= q < final(released)@.len() ==> call_ensures(*release, ((#[trigger] final(released)@[q]),), Ok::<bool, LifecycleError>(true)),
        r is Ok ==> exists|outcomes: Seq<bool>|
            #![trigger released_of(reservations@, outcomes)]
            outcomes.len() == reservations@.len()
                && (forall|k: int| 0 <= k < reservations@.len() ==> call_ensures(*release, ((#[trigger] reservations@[k]),), Ok::<bool, LifecycleError>(outcomes[k])))
                && final(released)@ == old(released)@ + released_of(reservations@, outcomes),
        r matches Err(e) ==> exists|j: int, outcomes: Seq<bool>|
            #![trigger released_of(reservations@.take(j), outcomes)]
            0 <= j < reservations@.len() && outcomes.len() == j
                && (forall|k: int| 0 <= k < j ==> call_ensures(*release, ((#[trigger] reservations@[k]),), Ok::<bool, LifecycleError>(outcomes[k])))
                && call_ensures(*release, (reservations@[j],), Err::<bool, LifecycleError>(e))
                && final(released)@ == old(released)@ + released_of(reservations@.take(j), outcomes),
{
    let ghost before = released@;
    let ghost mut outcomes: Seq<bool> = Seq::empty();
    proof {
        assert(reservations@.take(0) =~= Seq::<[u8; 32]>::empty());
        assert(released@ =~= before + released_of(reservations@.take(0), outcomes));
    }
    let mut k: usize = 0;
    while k < reservations.len()
        invariant
            k <= reservations.len(),
            forall|id: [u8; 32]| call_requires(*release, (id,)),
            forall|q: int| 0 <= q < released@.len() ==> call_ensures(*release, ((#[trigger] released@[q]),), Ok::<bool, LifecycleError>(true)),
            before == old(released)@,
            outcomes.len() == k,
            forall|q: int| 0 <= q < k ==> call_ensures(*release, ((#[trigger] reservations@[q]),), Ok::<bool, LifecycleError>(outcomes[q])),
            released@ == before + released_of(reservations@.take(k as int), outcomes),
        decreases reservations.len() - k,
    {
        let reservation = reservations[k];
        let outcome = release(reservation);
        match outcome {
            Ok(b) => {
                if b {
                    released.push(reservation);
                }
                proof {
                    let next = outcomes.push(b);
                    let ids = reservations@.take(k + 1);
                    assert(ids.take(k as int) =~= reservations@.take(k as int));
                    assert(next.take(k as int) =~= outcomes);
                    assert(ids[k as int] == reservation);
                    assert(released_of(ids, next) == released_of(reservations@.take(k as int), outcomes) + if b {
                        seq![reservation]
                    } else {
                        Seq::empty()
                    });
                    assert(released@ =~= before + released_of(ids, next));
                    outcomes = next;
                }
            },
            Err(e) => {
                proof {
                    assert(reservations@[k as int] == reservation);
                    assert(call_ensures(*release, (reservations@[k as int],), Err::<bool, LifecycleError>(e)));
                }
                return Err(e);
            },
        }
        k = k + 1;
    }
    proof {
        assert(reservations@.take(k as int) =~= reservations@);
    }
    Ok(())
}

} // verus!
