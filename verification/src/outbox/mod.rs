//! Durable exact-byte submission outbox and its explicit state machine.
//!
//! An outbox record is stored as the magic `LXOB`, the format byte 2, the submission
//! identifier, the state code, the activity identifier, the current receipt evidence, and
//! the length-prefixed list of transitions (state codes, length-prefixed UTF-8 cause,
//! receipt evidence). Receipt evidence is a zero byte, or a one byte and the 32-byte
//! receipt reference.
use vstd::prelude::*;

pub mod codec;
pub mod recover;
pub mod unknown;

pub use codec::{decode_status, encode_status};

use crate::bytes::push_all;
use crate::outbox::codec::{lemma_status_roundtrip, parse_status, status_bytes, status_fits, status_storable};
use crate::sign_verify::VerifiedSubmission;
use crate::store::{
    valid_object_id, with_submission, KeyView, ObjectKind, StorageClass, Store, StoreError,
    StoreView, TenantId, TenantKey,
};
use crate::text::lemma_utf8_length_bound;

verus! {

/// The lifecycle of one submission.
#[derive(Clone, Copy, Debug, PartialEq, Eq, Structural)]
pub enum SubmissionState {
    Prepared,
    Signed,
    Queued,
    Submitted,
    Acknowledged,
    Unknown,
    Executed,
    Failed,
    Expired,
    Superseded,
}

/// A state no transition leaves.
pub open spec fn is_terminal(s: SubmissionState) -> bool {
    s == SubmissionState::Executed || s == SubmissionState::Failed || s == SubmissionState::Expired
        || s == SubmissionState::Superseded
}

/// The stable one-byte code of a state.
pub open spec fn state_code(s: SubmissionState) -> u8 {
    match s {
        SubmissionState::Prepared => 1,
        SubmissionState::Signed => 2,
        SubmissionState::Queued => 3,
        SubmissionState::Submitted => 4,
        SubmissionState::Acknowledged => 5,
        SubmissionState::Unknown => 6,
        SubmissionState::Executed => 7,
        SubmissionState::Failed => 8,
        SubmissionState::Expired => 9,
        SubmissionState::Superseded => 10,
    }
}

/// The state with a one-byte code.
pub open spec fn state_of(code: u8) -> SubmissionState {
    if code == 1 {
        SubmissionState::Prepared
    } else if code == 2 {
        SubmissionState::Signed
    } else if code == 3 {
        SubmissionState::Queued
    } else if code == 4 {
        SubmissionState::Submitted
    } else if code == 5 {
        SubmissionState::Acknowledged
    } else if code == 6 {
        SubmissionState::Unknown
    } else if code == 7 {
        SubmissionState::Executed
    } else if code == 8 {
        SubmissionState::Failed
    } else if code == 9 {
        SubmissionState::Expired
    } else {
        SubmissionState::Superseded
    }
}

/// The moves the state machine allows.
pub open spec fn legal(from: SubmissionState, to: SubmissionState) -> bool {
    match from {
        SubmissionState::Queued => to == SubmissionState::Submitted || to == SubmissionState::Expired
            || to == SubmissionState::Superseded,
        SubmissionState::Submitted => to == SubmissionState::Acknowledged || to
            == SubmissionState::Unknown,
        SubmissionState::Acknowledged => to == SubmissionState::Unknown || to
            == SubmissionState::Executed || to == SubmissionState::Failed,
        SubmissionState::Unknown => to == SubmissionState::Executed || to == SubmissionState::Failed
            || to == SubmissionState::Superseded,
        _ => false,
    }
}

impl SubmissionState {
    /// Whether no transition leaves this state.
    pub fn terminal(self) -> (r: bool)
        ensures
            r == is_terminal(self),
    {
        match self {
            SubmissionState::Executed | SubmissionState::Failed | SubmissionState::Expired
            | SubmissionState::Superseded => true,
            _ => false,
        }
    }

    /// The stable one-byte code.
    pub fn code(self) -> (r: u8)
        ensures
            r == state_code(self),
    {
        match self {
            SubmissionState::Prepared => 1,
            SubmissionState::Signed => 2,
            SubmissionState::Queued => 3,
            SubmissionState::Submitted => 4,
            SubmissionState::Acknowledged => 5,
            SubmissionState::Unknown => 6,
            SubmissionState::Executed => 7,
            SubmissionState::Failed => 8,
            SubmissionState::Expired => 9,
            SubmissionState::Superseded => 10,
        }
    }

    /// Decodes a stable one-byte code.
    pub fn from_code(code: u8) -> (r: Option<SubmissionState>)
        ensures
            r is Some <==> 1 <= code <= 10,
            r matches Some(s) ==> state_code(s) == code && s == state_of(code),
    {
        match code {
            1 => Some(SubmissionState::Prepared),
            2 => Some(SubmissionState::Signed),
            3 => Some(SubmissionState::Queued),
            4 => Some(SubmissionState::Submitted),
            5 => Some(SubmissionState::Acknowledged),
            6 => Some(SubmissionState::Unknown),
            7 => Some(SubmissionState::Executed),
            8 => Some(SubmissionState::Failed),
            9 => Some(SubmissionState::Expired),
            10 => Some(SubmissionState::Superseded),
            _ => None,
        }
    }
}

/// Whether the state machine allows a move.
pub fn legal_transition(from: SubmissionState, to: SubmissionState) -> (r: bool)
    ensures
        r == legal(from, to),
{
    match from {
        SubmissionState::Queued => to == SubmissionState::Submitted || to
            == SubmissionState::Expired || to == SubmissionState::Superseded,
        SubmissionState::Submitted => to == SubmissionState::Acknowledged || to
            == SubmissionState::Unknown,
        SubmissionState::Acknowledged => to == SubmissionState::Unknown || to
            == SubmissionState::Executed || to == SubmissionState::Failed,
        SubmissionState::Unknown => to == SubmissionState::Executed || to == SubmissionState::Failed
            || to == SubmissionState::Superseded,
        _ => false,
    }
}

/// Law: terminal states are final, and every legal move leaves a non-terminal state and
/// moves forward (never back to a state before it in the lifecycle).
pub proof fn lemma_terminal_final(from: SubmissionState, to: SubmissionState)
    ensures
        is_terminal(from) ==> !legal(from, to),
        legal(from, to) ==> !is_terminal(from) && state_code(from) < state_code(to),
        legal(from, to) ==> from != SubmissionState::Prepared && from != SubmissionState::Signed,
{
}

/// Law: an outcome needs the node's answer first. A submitted record moves only to
/// acknowledged or unknown, and a record reaches executed or failed only from acknowledged
/// or unknown, so no submission is settled straight from queued or submitted.
pub proof fn lemma_outcome_needs_answer(from: SubmissionState, to: SubmissionState)
    ensures
        from == SubmissionState::Submitted && legal(from, to) ==> to == SubmissionState::Acknowledged || to
            == SubmissionState::Unknown,
        (to == SubmissionState::Executed || to == SubmissionState::Failed) && legal(from, to) ==> from
            == SubmissionState::Acknowledged || from == SubmissionState::Unknown,
        legal(SubmissionState::Submitted, SubmissionState::Acknowledged),
        legal(SubmissionState::Submitted, SubmissionState::Unknown),
{
}

/// Whether each state of a path is a legal move from the one before it.
pub open spec fn legal_path(path: Seq<SubmissionState>) -> bool {
    forall|i: int| 0 <= i < path.len() - 1 ==> legal(#[trigger] path[i], path[i + 1])
}

/// Law: every sequence of legal moves that starts before the node has answered (queued or
/// submitted) and ends executed or failed passes through acknowledged or unknown.
pub proof fn lemma_settled_paths_pass_an_answer(path: Seq<SubmissionState>)
    requires
        path.len() > 0,
        legal_path(path),
        path[0] == SubmissionState::Queued || path[0] == SubmissionState::Submitted,
        path.last() == SubmissionState::Executed || path.last() == SubmissionState::Failed,
    ensures
        exists|i: int| 0 <= i < path.len() && (#[trigger] path[i] == SubmissionState::Acknowledged || path[i]
            == SubmissionState::Unknown),
{
    let n = path.len() as int;
    assert(n > 1);
    assert(legal(path[n - 2], path[n - 1]));
    lemma_outcome_needs_answer(path[n - 2], path[n - 1]);
    assert(path[n - 2] == SubmissionState::Acknowledged || path[n - 2] == SubmissionState::Unknown);
}

/// Reference to the verified receipt that settled a submission.
#[derive(Clone, Copy, Debug, PartialEq, Eq)]
pub struct ReceiptEvidence {
    receipt_ref: [u8; 32],
}

impl View for ReceiptEvidence {
    type V = Seq<u8>;

    closed spec fn view(&self) -> Seq<u8> {
        self.receipt_ref@
    }
}

impl ReceiptEvidence {
    /// Evidence naming a verified receipt.
    pub fn new(receipt_ref: [u8; 32]) -> (r: Self)
        ensures
            r@ == receipt_ref@,
    {
        ReceiptEvidence { receipt_ref }
    }

    /// The receipt reference.
    pub fn receipt_ref(self) -> (r: [u8; 32])
        ensures
            r@ == self@,
    {
        self.receipt_ref
    }
}

/// The reference of optional evidence.
pub open spec fn evidence_view(e: Option<ReceiptEvidence>) -> Option<Seq<u8>> {
    match e {
        Some(x) => Some(x@),
        None => None,
    }
}

/// One recorded state change with its cause.
#[derive(Debug, PartialEq, Eq)]
pub struct StateTransition {
    pub from: SubmissionState,
    pub to: SubmissionState,
    pub cause: String,
    pub receipt: Option<ReceiptEvidence>,
}

/// The content of a transition.
pub struct TransitionView {
    pub from: SubmissionState,
    pub to: SubmissionState,
    pub cause: Seq<char>,
    pub receipt: Option<Seq<u8>>,
}

impl View for StateTransition {
    type V = TransitionView;

    open spec fn view(&self) -> TransitionView {
        TransitionView {
            from: self.from,
            to: self.to,
            cause: self.cause@,
            receipt: evidence_view(self.receipt),
        }
    }
}

impl StateTransition {
    /// A copy of the transition.
    pub fn duplicate(&self) -> (r: StateTransition)
        ensures
            r@ == self@,
    {
        StateTransition {
            from: self.from,
            to: self.to,
            cause: self.cause.clone(),
            receipt: self.receipt,
        }
    }
}

/// The status of one submission and its full transition history.
#[derive(Debug, PartialEq, Eq)]
pub struct SubmissionStatus {
    pub submission_id: [u8; 32],
    pub state: SubmissionState,
    pub activity_id: [u8; 32],
    pub evidence: Option<ReceiptEvidence>,
    pub transitions: Vec<StateTransition>,
}

/// The content of a status.
pub struct StatusView {
    pub submission_id: Seq<u8>,
    pub state: SubmissionState,
    pub activity_id: Seq<u8>,
    pub evidence: Option<Seq<u8>>,
    pub transitions: Seq<TransitionView>,
}

impl View for SubmissionStatus {
    type V = StatusView;

    open spec fn view(&self) -> StatusView {
        StatusView {
            submission_id: self.submission_id@,
            state: self.state,
            activity_id: self.activity_id@,
            evidence: evidence_view(self.evidence),
            transitions: self.transitions@.map_values(|t: StateTransition| t@),
        }
    }
}

impl SubmissionStatus {
    /// A copy of the status.
    pub fn duplicate(&self) -> (r: SubmissionStatus)
        ensures
            r@ == self@,
    {
        let mut transitions: Vec<StateTransition> = Vec::new();
        let mut i: usize = 0;
        while i < self.transitions.len()
            invariant
                i <= self.transitions.len(),
                transitions@.map_values(|t: StateTransition| t@) =~= self.transitions@.take(
                    i as int,
                ).map_values(|t: StateTransition| t@),
            decreases self.transitions.len() - i,
        {
            let ghost before = transitions@;
            transitions.push(self.transitions[i].duplicate());
            proof {
                assert(self.transitions@.take(i + 1) =~= self.transitions@.take(i as int).push(
                    self.transitions@[i as int],
                ));
                assert(transitions@.map_values(|t: StateTransition| t@) =~= before.map_values(
                    |t: StateTransition| t@,
                ).push(self.transitions@[i as int]@));
            }
            i = i + 1;
        }
        assert(self.transitions@.take(i as int) =~= self.transitions@);
        SubmissionStatus {
            submission_id: self.submission_id,
            state: self.state,
            activity_id: self.activity_id,
            evidence: self.evidence,
            transitions,
        }
    }
}

/// Refusals of outbox operations.
#[derive(Debug)]
pub enum OutboxError {
    Duplicate,
    IdempotencyMismatch,
    NotFound,
    NotQueued,
    EmptyCause,
    Corrupt,
    SuccessWithoutVerifiedReceipt,
    ReceiptMismatch,
    InvalidTransition { from: SubmissionState, to: SubmissionState },
    Store(crate::store::StoreError),
}

/// The verified receipt a transition cites: the activity it settles and its reference.
#[derive(Clone, Copy, Debug)]
pub struct ReceiptBinding {
    pub activity_id: [u8; 32],
    pub receipt_ref: [u8; 32],
}

/// One tracked submission: its tenant, status and exact signed bytes.
pub struct EntryView {
    pub tenant: Seq<char>,
    pub status: StatusView,
    pub bytes: Seq<u8>,
}

/// The cause of the first recorded transition.
pub open spec fn exact_signed_cause() -> Seq<char> {
    "exact signature verified"@
}

/// The cause of the second recorded transition.
pub open spec fn queued_cause() -> Seq<char> {
    "durable outbox record created"@
}

/// The status of a freshly enqueued submission: queued, after signing and queuing.
pub open spec fn queued_status(id: Seq<u8>, activity: Seq<u8>) -> StatusView {
    StatusView {
        submission_id: id,
        state: SubmissionState::Queued,
        activity_id: activity,
        evidence: None,
        transitions: seq![
            TransitionView {
                from: SubmissionState::Prepared,
                to: SubmissionState::Signed,
                cause: exact_signed_cause(),
                receipt: None,
            },
            TransitionView {
                from: SubmissionState::Signed,
                to: SubmissionState::Queued,
                cause: queued_cause(),
                receipt: None,
            },
        ],
    }
}

/// A status after one recorded move to `to`.
pub open spec fn transitioned(s: StatusView, to: SubmissionState, cause: Seq<char>, receipt: Option<Seq<u8>>) -> StatusView {
    StatusView {
        state: to,
        evidence: receipt,
        transitions: s.transitions.push(TransitionView { from: s.state, to, cause, receipt }),
        ..s
    }
}

/// The key of a submission's outbox state.
pub open spec fn outbox_key(tenant: Seq<char>, id: Seq<u8>) -> KeyView {
    KeyView { tenant, kind: ObjectKind::Outbox, object_id: id }
}

/// The key of a submission's signed bytes.
pub open spec fn signed_key(tenant: Seq<char>, id: Seq<u8>) -> KeyView {
    KeyView { tenant, kind: ObjectKind::PreparedActivity, object_id: id }
}

#[derive(Debug)]
struct OutboxRecord {
    tenant: TenantId,
    status: SubmissionStatus,
    signed_canonical_bytes: Vec<u8>,
}

impl OutboxRecord {
    spec fn entry(&self) -> EntryView {
        EntryView { tenant: self.tenant@, status: self.status@, bytes: self.signed_canonical_bytes@ }
    }
}

/// Submissions tracked by identifier, each with its exact signed bytes.
#[derive(Debug)]
pub struct Outbox {
    records: Vec<OutboxRecord>,
}

fn id_bytes(id: &[u8; 32]) -> (r: Vec<u8>)
    ensures
        r@ == id@,
        valid_object_id(r@),
{
    let mut out: Vec<u8> = Vec::new();
    push_all(&mut out, id);
    out
}

impl Outbox {
    /// The tracked submission with identifier `id`.
    pub closed spec fn entry(&self, id: Seq<u8>) -> Option<EntryView> {
        if exists|i: int| 0 <= i < self.records.len() && #[trigger] self.records[i].status.submission_id@ == id {
            let i = choose|i: int| 0 <= i < self.records.len() && #[trigger] self.records[i].status.submission_id@ == id;
            Some(self.records[i].entry())
        } else {
            None
        }
    }

    /// The outbox's invariant: one record per submission identifier.
    pub closed spec fn wf(&self) -> bool {
        forall|i: int, j: int| 0 <= i < j < self.records.len() ==> (#[trigger] self.records[i]).status.submission_id@ != (#[trigger] self.records[j]).status.submission_id@
    }

    proof fn lemma_entry_at(&self, i: int)
        requires
            self.wf(),
            0 <= i < self.records.len(),
        ensures
            self.entry(self.records[i].status.submission_id@) == Some(self.records[i].entry()),
    {
        let id = self.records[i].status.submission_id@;
        let j = choose|j: int| 0 <= j < self.records.len() && #[trigger] self.records[j].status.submission_id@ == id;
        if j != i {
            if j < i {
                assert(self.records[j].status.submission_id@ != self.records[i].status.submission_id@);
            } else {
                assert(self.records[i].status.submission_id@ != self.records[j].status.submission_id@);
            }
        }
    }

    /// A tracked submission's status names it.
    pub proof fn lemma_entry_names(&self, id: Seq<u8>)
        requires
            self.wf(),
        ensures
            self.entry(id) matches Some(e) ==> e.status.submission_id == id,
    {
    }

    /// An empty outbox.
    pub fn new() -> (r: Outbox)
        ensures
            r.wf(),
            forall|id: Seq<u8>| #[trigger] r.entry(id) is None,
            forall|view: StoreView| #[trigger] mirrored(r, view),
    {
        Outbox { records: Vec::new() }
    }

    fn find(&self, id: &[u8; 32]) -> (r: Option<usize>)
        requires
            self.wf(),
        ensures
            r matches Some(i) ==> i < self.records.len() && self.records[i as int].status.submission_id@ == id@ && self.entry(id@) == Some(self.records[i as int].entry()),
            r is None ==> self.entry(id@) is None,
    {
        let mut i: usize = 0;
        while i < self.records.len()
            invariant
                self.wf(),
                i <= self.records.len(),
                forall|j: int| 0 <= j < i ==> (#[trigger] self.records[j]).status.submission_id@ != id@,
            decreases self.records.len() - i,
        {
            if crate::bytes::fixed_equal(&self.records[i].status.submission_id, id) {
                proof {
                    self.lemma_entry_at(i as int);
                }
                return Some(i);
            }
            i = i + 1;
        }
        None
    }

    /// Adds a record for a new identifier, or replaces the record at `at`.
    fn store_record(&mut self, at: Option<usize>, record: OutboxRecord)
        requires
            old(self).wf(),
            at matches Some(i) ==> i < old(self).records.len() && old(self).records[i as int].status.submission_id@ == record.status.submission_id@,
            at is None ==> old(self).entry(record.status.submission_id@) is None,
        ensures
            final(self).wf(),
            final(self).entry(record.status.submission_id@) == Some(record.entry()),
            forall|other: Seq<u8>| other != record.status.submission_id@ ==> #[trigger] final(self).entry(other) == old(self).entry(other),
    {
        let ghost before = *self;
        let ghost id = record.status.submission_id@;
        match at {
            Some(i) => {
                self.records.set(i, record);
                proof {
                    assert forall|a: int, b: int| 0 <= a < b < self.records.len() implies (#[trigger] self.records[a]).status.submission_id@ != (#[trigger] self.records[b]).status.submission_id@ by {
                        assert(before.records[a].status.submission_id@ != before.records[b].status.submission_id@);
                    }
                    self.lemma_entry_at(i as int);
                    assert forall|other: Seq<u8>| other != id implies #[trigger] self.entry(other) == before.entry(other) by {
                        if exists|j: int| 0 <= j < before.records.len() && #[trigger] before.records[j].status.submission_id@ == other {
                            let j = choose|j: int| 0 <= j < before.records.len() && #[trigger] before.records[j].status.submission_id@ == other;
                            before.lemma_entry_at(j);
                            self.lemma_entry_at(j);
                        }
                    }
                }
            },
            None => {
                self.records.push(record);
                proof {
                    let n = before.records.len() as int;
                    assert forall|a: int, b: int| 0 <= a < b < self.records.len() implies (#[trigger] self.records[a]).status.submission_id@ != (#[trigger] self.records[b]).status.submission_id@ by {
                        if b == n {
                            assert(self.records[a] == before.records[a]);
                            if before.records[a].status.submission_id@ == id {
                                assert(before.entry(id) is Some);
                            }
                        } else {
                            assert(before.records[a].status.submission_id@ != before.records[b].status.submission_id@);
                        }
                    }
                    self.lemma_entry_at(n);
                    assert forall|other: Seq<u8>| other != id implies #[trigger] self.entry(other) == before.entry(other) by {
                        if exists|j: int| 0 <= j < before.records.len() && #[trigger] before.records[j].status.submission_id@ == other {
                            let j = choose|j: int| 0 <= j < before.records.len() && #[trigger] before.records[j].status.submission_id@ == other;
                            before.lemma_entry_at(j);
                            self.lemma_entry_at(j);
                        } else if exists|j: int| 0 <= j < self.records.len() && #[trigger] self.records[j].status.submission_id@ == other {
                            let j = choose|j: int| 0 <= j < self.records.len() && #[trigger] self.records[j].status.submission_id@ == other;
                            assert(j < n);
                            assert(self.records[j] == before.records[j]);
                        }
                    }
                }
            },
        }
    }

    /// The tenant of a tracked submission.
    pub fn tenant_of(&self, submission_id: &[u8; 32]) -> (r: Option<TenantId>)
        requires
            self.wf(),
        ensures
            self.entry(submission_id@) is None ==> r is None,
            self.entry(submission_id@) matches Some(e) ==> (r matches Some(t) && t@ == e.tenant),
    {
        match self.find(submission_id) {
            None => None,
            Some(i) => Some(self.records[i].tenant.clone()),
        }
    }

    /// Durably queues exact verified bytes before they can be obtained for transport.
    ///
    /// # Errors
    ///
    /// Returns `Duplicate` for an already-tracked submission identifier and
    /// `IdempotencyMismatch` when the signed idempotency key differs from it.
    pub fn enqueue(&mut self, store: &mut Store, tenant: TenantId, submission_id: [u8; 32], verified: VerifiedSubmission) -> (r: Result<(), OutboxError>)
        requires
            old(self).wf(),
            old(store).wf(),
        ensures
            final(self).wf(),
            final(store).wf(),
            old(self).entry(submission_id@) is Some ==> (r matches Err(e) && e is Duplicate) && *final(self) == *old(self) && final(store).view() == old(store).view(),
            old(self).entry(submission_id@) is None && verified.key_view() != submission_id@ ==> (r matches Err(e) && e is IdempotencyMismatch) && *final(self) == *old(self) && final(store).view() == old(store).view(),
            old(self).entry(submission_id@) is None && verified.key_view() == submission_id@ ==> {
                let status = queued_status(submission_id@, verified.audit_view().activity_id@);
                &&& r is Ok
                &&& final(self).entry(submission_id@) == Some(EntryView { tenant: tenant@, status, bytes: verified.bytes_view() })
                &&& forall|other: Seq<u8>| other != submission_id@ ==> #[trigger] final(self).entry(other) == old(self).entry(other)
                &&& final(store).view() == with_submission(old(store).view(), tenant@, submission_id@, verified.bytes_view(), status_bytes(status))
            },
            mirrored(*old(self), old(store).view()) ==> mirrored(*final(self), final(store).view()),
            keeps_written(*old(self), old(store).view(), *final(self), final(store).view()),
            r is Ok ==> (final(self).entry(submission_id@) matches Some(e) && written(final(store).view(), submission_id@, e)),
    {
        let ghost o0 = *self;
        let ghost v0 = store.view();
        if self.find(&submission_id).is_some() {
            return Err(OutboxError::Duplicate);
        }
        let key = verified.idempotency_key();
        if !crate::bytes::fixed_equal(&key, &submission_id) {
            return Err(OutboxError::IdempotencyMismatch);
        }
        let activity_id = verified.activity_id();
        let signed_canonical_bytes = verified.into_exact_bytes();
        let mut transitions: Vec<StateTransition> = Vec::new();
        transitions.push(StateTransition {
            from: SubmissionState::Prepared,
            to: SubmissionState::Signed,
            cause: "exact signature verified".to_owned(),
            receipt: None,
        });
        transitions.push(StateTransition {
            from: SubmissionState::Signed,
            to: SubmissionState::Queued,
            cause: "durable outbox record created".to_owned(),
            receipt: None,
        });
        let status = SubmissionStatus {
            submission_id,
            state: SubmissionState::Queued,
            activity_id,
            evidence: None,
            transitions,
        };
        proof {
            assert(status@.transitions =~= queued_status(submission_id@, activity_id@).transitions);
            assert(status@ == queued_status(submission_id@, activity_id@));
            reveal_strlit("exact signature verified");
            reveal_strlit("durable outbox record created");
            lemma_utf8_length_bound(exact_signed_cause());
            lemma_utf8_length_bound(queued_cause());
        }
        let encoded = encode_status(&status)?;
        let mut signed_copy: Vec<u8> = Vec::new();
        push_all(&mut signed_copy, signed_canonical_bytes.as_slice());
        match store.record_submission(tenant.clone(), id_bytes(&submission_id), signed_copy, encoded) {
            Ok(()) => {},
            Err(e) => {
                return Err(OutboxError::Store(e));
            },
        }
        let record = OutboxRecord { tenant, status, signed_canonical_bytes };
        self.store_record(None, record);
        proof {
            lemma_enqueue_writes(v0, tenant@, submission_id@, verified.bytes_view(), status@);
            if mirrored(o0, v0) {
                lemma_mirror_step(o0, *self, v0, store.view(), submission_id@);
            }
            lemma_written_step(o0, *self, v0, store.view(), submission_id@);
        }
        Ok(())
    }

    /// Restores one durable record by its tenant-scoped idempotency key.
    ///
    /// # Errors
    ///
    /// Returns `NotFound` when no durable outbox record exists, and `Corrupt` for a missing
    /// signed-bytes record, an undecodable state or a record naming a different submission.
    pub fn restore(&mut self, store: &Store, tenant: TenantId, submission_id: [u8; 32]) -> (r: Result<(), OutboxError>)
        requires
            old(self).wf(),
            store.wf(),
        ensures
            final(self).wf(),
            ({
                let view = store.view();
                let ok = outbox_key(tenant@, submission_id@);
                let sk = signed_key(tenant@, submission_id@);
                if !view.contains_key(ok) {
                    (r matches Err(e) && e is NotFound) && *final(self) == *old(self)
                } else if !view.contains_key(sk) || !(parse_status(view[ok].1) matches Some(s) && s.submission_id == submission_id@) {
                    (r matches Err(e) && e is Corrupt) && *final(self) == *old(self)
                } else {
                    &&& r is Ok
                    &&& final(self).entry(submission_id@) == Some(EntryView { tenant: tenant@, status: parse_status(view[ok].1).unwrap(), bytes: view[sk].1 })
                    &&& forall|other: Seq<u8>| other != submission_id@ ==> #[trigger] final(self).entry(other) == old(self).entry(other)
                }
            }),
            forall|o: Outbox|
                o.wf() && mirrored(o, store.view()) && (#[trigger] o.entry(submission_id@) matches Some(e) && e.tenant == tenant@
                    && status_storable(e.status)) ==> r is Ok && final(self).entry(submission_id@) == o.entry(submission_id@),
            restores(store.view(), tenant@, submission_id@, *final(self), r),
    {
        proof {
            assert forall|e: EntryView|
                #[trigger] written(store.view(), submission_id@, e) && e.tenant == tenant@ && e.status.submission_id == submission_id@
                    && status_storable(e.status) implies ({
                    let ok = outbox_key(tenant@, submission_id@);
                    let sk = signed_key(tenant@, submission_id@);
                    &&& store.view().contains_key(ok)
                    &&& store.view().contains_key(sk)
                    &&& parse_status(store.view()[ok].1) matches Some(s) && s.submission_id == submission_id@
                    &&& (EntryView { tenant: tenant@, status: parse_status(store.view()[ok].1).unwrap(), bytes: store.view()[sk].1 }) == e
                }) by {
                lemma_restore_after_write(store.view(), submission_id@, e);
            }
            assert forall|o: Outbox|
                o.wf() && mirrored(o, store.view()) && (#[trigger] o.entry(submission_id@) matches Some(e) && e.tenant == tenant@
                    && status_storable(e.status)) implies ({
                    let e = o.entry(submission_id@).unwrap();
                    let ok = outbox_key(tenant@, submission_id@);
                    let sk = signed_key(tenant@, submission_id@);
                    &&& store.view().contains_key(ok)
                    &&& store.view().contains_key(sk)
                    &&& parse_status(store.view()[ok].1) matches Some(s) && s.submission_id == submission_id@
                    &&& (EntryView { tenant: tenant@, status: parse_status(store.view()[ok].1).unwrap(), bytes: store.view()[sk].1 }) == e
                }) by {
                lemma_restore_mirrored(o, store.view(), submission_id@);
            }
        }
        let outbox_k = match TenantKey::new(tenant.clone(), ObjectKind::Outbox, id_bytes(&submission_id)) {
            Ok(k) => k,
            Err(e) => {
                return Err(OutboxError::Store(e));
            },
        };
        let signed_k = match TenantKey::new(tenant.clone(), ObjectKind::PreparedActivity, id_bytes(&submission_id)) {
            Ok(k) => k,
            Err(e) => {
                return Err(OutboxError::Store(e));
            },
        };
        let encoded = match store.get(&outbox_k) {
            Some(v) => v,
            None => {
                return Err(OutboxError::NotFound);
            },
        };
        let signed = match store.get(&signed_k) {
            Some(v) => v,
            None => {
                return Err(OutboxError::Corrupt);
            },
        };
        let status = decode_status(encoded.bytes())?;
        if !crate::bytes::fixed_equal(&status.submission_id, &submission_id) {
            return Err(OutboxError::Corrupt);
        }
        let mut bytes: Vec<u8> = Vec::new();
        push_all(&mut bytes, signed.bytes());
        let at = self.find(&submission_id);
        self.store_record(at, OutboxRecord { tenant, status, signed_canonical_bytes: bytes });
        Ok(())
    }

    /// Returns exact stored bytes only while the submission is queued.
    ///
    /// # Errors
    ///
    /// Returns `NotFound` for an untracked submission, and `NotQueued` once it has left
    /// `Queued`.
    pub fn bytes_for_transmission(&self, submission_id: [u8; 32]) -> (r: Result<&[u8], OutboxError>)
        requires
            self.wf(),
        ensures
            self.entry(submission_id@) is None ==> (r matches Err(e) && e is NotFound),
            self.entry(submission_id@) matches Some(e) ==> {
                &&& e.status.state != SubmissionState::Queued ==> (r matches Err(x) && x is NotQueued)
                &&& e.status.state == SubmissionState::Queued ==> (r matches Ok(b) && b@ == e.bytes)
            },
    {
        match self.find(&submission_id) {
            None => Err(OutboxError::NotFound),
            Some(i) => {
                if self.records[i].status.state != SubmissionState::Queued {
                    return Err(OutboxError::NotQueued);
                }
                Ok(self.records[i].signed_canonical_bytes.as_slice())
            },
        }
    }

    /// Returns the exact durable signed activity at any lifecycle state.
    ///
    /// # Errors
    ///
    /// Returns `NotFound` for an untracked submission.
    pub fn exact_signed_bytes(&self, submission_id: [u8; 32]) -> (r: Result<&[u8], OutboxError>)
        requires
            self.wf(),
        ensures
            self.entry(submission_id@) is None ==> (r matches Err(e) && e is NotFound),
            self.entry(submission_id@) matches Some(e) ==> (r matches Ok(b) && b@ == e.bytes),
    {
        match self.find(&submission_id) {
            None => Err(OutboxError::NotFound),
            Some(i) => Ok(self.records[i].signed_canonical_bytes.as_slice()),
        }
    }

    /// The status of a tracked submission.
    pub fn status(&self, submission_id: [u8; 32]) -> (r: Option<&SubmissionStatus>)
        requires
            self.wf(),
        ensures
            self.entry(submission_id@) is None ==> r is None,
            self.entry(submission_id@) matches Some(e) ==> (r matches Some(s) && s@ == e.status),
    {
        match self.find(&submission_id) {
            None => None,
            Some(i) => Some(&self.records[i].status),
        }
    }

    /// Applies one legal state change and durably records it with its cause.
    ///
    /// # Errors
    ///
    /// Returns `EmptyCause` for a blank cause, `NotFound` for an untracked submission,
    /// `InvalidTransition` for a move the state machine forbids,
    /// `SuccessWithoutVerifiedReceipt` for `Executed` without a verified receipt,
    /// `ReceiptMismatch` for a receipt naming another activity, and `Corrupt` when the
    /// updated record exceeds the encoding's lengths.
    pub fn transition(&mut self, store: &mut Store, submission_id: [u8; 32], to: SubmissionState, cause: String, receipt: Option<ReceiptBinding>) -> (r: Result<SubmissionStatus, OutboxError>)
        requires
            old(self).wf(),
            old(store).wf(),
        ensures
            final(self).wf(),
            final(store).wf(),
            ({
                let unchanged = *final(self) == *old(self) && final(store).view() == old(store).view();
                let e = old(self).entry(submission_id@);
                let evidence = match receipt { Some(b) => Some(b.receipt_ref@), None => None };
                if cause@.len() == 0 {
                    unchanged && (r matches Err(x) && x is EmptyCause)
                } else if e is None {
                    unchanged && (r matches Err(x) && x is NotFound)
                } else if !legal(e.unwrap().status.state, to) {
                    unchanged && (r matches Err(OutboxError::InvalidTransition { from, to: t }) && from == e.unwrap().status.state && t == to)
                } else if to == SubmissionState::Executed && receipt is None {
                    unchanged && (r matches Err(x) && x is SuccessWithoutVerifiedReceipt)
                } else if receipt matches Some(b) && b.activity_id@ != e.unwrap().status.activity_id {
                    unchanged && (r matches Err(x) && x is ReceiptMismatch)
                } else if !status_fits(transitioned(e.unwrap().status, to, cause@, evidence)) {
                    unchanged && (r matches Err(x) && x is Corrupt)
                } else {
                    let status = transitioned(e.unwrap().status, to, cause@, evidence);
                    &&& r matches Ok(s) && s@ == status
                    &&& final(self).entry(submission_id@) == Some(EntryView { status, ..e.unwrap() })
                    &&& forall|other: Seq<u8>| other != submission_id@ ==> #[trigger] final(self).entry(other) == old(self).entry(other)
                    &&& final(store).view() == old(store).view().insert(outbox_key(e.unwrap().tenant, submission_id@), (StorageClass::LocalOnly, status_bytes(status)))
                }
            }),
            keeps_all_bytes(*old(self), *final(self)),
            mirrored(*old(self), old(store).view()) ==> mirrored(*final(self), final(store).view()),
            keeps_written(*old(self), old(store).view(), *final(self), final(store).view()),
    {
        let ghost o0 = *self;
        let ghost v0 = store.view();
        if cause.as_str().is_empty() {
            return Err(OutboxError::EmptyCause);
        }
        let i = match self.find(&submission_id) {
            Some(i) => i,
            None => {
                return Err(OutboxError::NotFound);
            },
        };
        let from = self.records[i].status.state;
        if !legal_transition(from, to) {
            return Err(OutboxError::InvalidTransition { from, to });
        }
        if to == SubmissionState::Executed && receipt.is_none() {
            return Err(OutboxError::SuccessWithoutVerifiedReceipt);
        }
        let evidence = match receipt {
            Some(binding) => {
                if !crate::bytes::fixed_equal(&binding.activity_id, &self.records[i].status.activity_id) {
                    return Err(OutboxError::ReceiptMismatch);
                }
                Some(ReceiptEvidence::new(binding.receipt_ref))
            },
            None => None,
        };
        let mut status = self.records[i].status.duplicate();
        let ghost old_status = status@;
        status.state = to;
        status.evidence = evidence;
        status.transitions.push(StateTransition { from, to, cause, receipt: evidence });
        proof {
            assert(status@.transitions =~= old_status.transitions.push(
                TransitionView { from, to, cause: status@.transitions.last().cause, receipt: evidence_view(evidence) },
            ));
        }
        let encoded = encode_status(&status)?;
        let key = match TenantKey::new(self.records[i].tenant.clone(), ObjectKind::Outbox, id_bytes(&submission_id)) {
            Ok(k) => k,
            Err(e) => {
                return Err(OutboxError::Store(e));
            },
        };
        store.put(key, StorageClass::LocalOnly, encoded);
        let result = status.duplicate();
        let tenant = self.records[i].tenant.clone();
        let mut bytes: Vec<u8> = Vec::new();
        push_all(&mut bytes, self.records[i].signed_canonical_bytes.as_slice());
        self.store_record(Some(i), OutboxRecord { tenant, status, signed_canonical_bytes: bytes });
        proof {
            let e = o0.entry(submission_id@).unwrap();
            if written(v0, submission_id@, e) {
                lemma_transition_writes(v0, submission_id@, e, result@);
            }
            if mirrored(o0, v0) {
                assert(written(v0, submission_id@, e));
                lemma_mirror_step(o0, *self, v0, store.view(), submission_id@);
            }
            lemma_written_step(o0, *self, v0, store.view(), submission_id@);
        }
        Ok(result)
    }
}

impl Default for Outbox {
    fn default() -> (r: Outbox)
        ensures
            r.wf(),
            forall|id: Seq<u8>| #[trigger] r.entry(id) is None,
            forall|view: StoreView| #[trigger] mirrored(r, view),
    {
        Outbox::new()
    }
}

/// The store holds a submission's status encoding and exact signed bytes under its keys.
pub open spec fn written(view: StoreView, id: Seq<u8>, e: EntryView) -> bool {
    &&& view.contains_key(outbox_key(e.tenant, id))
    &&& view[outbox_key(e.tenant, id)].1 == status_bytes(e.status)
    &&& view.contains_key(signed_key(e.tenant, id))
    &&& view[signed_key(e.tenant, id)].1 == e.bytes
}

/// Every tracked submission's status encoding and exact signed bytes stand in the store
/// under its keys.
pub open spec fn mirrored(o: Outbox, view: StoreView) -> bool {
    forall|id: Seq<u8>| #[trigger] o.entry(id) matches Some(e) ==> written(view, id, e)
}

/// A submission stays tracked or untracked, and a tracked one keeps its tenant and exact
/// signed bytes.
pub open spec fn keeps_bytes(before: Option<EntryView>, after: Option<EntryView>) -> bool {
    &&& before is Some <==> after is Some
    &&& before matches Some(b) ==> after.unwrap().tenant == b.tenant && after.unwrap().bytes == b.bytes
}

proof fn lemma_mirror_step(before: Outbox, after: Outbox, v0: StoreView, v1: StoreView, id: Seq<u8>)
    requires
        mirrored(before, v0),
        after.entry(id) matches Some(e) && written(v1, id, e),
        forall|x: Seq<u8>| x != id ==> #[trigger] after.entry(x) == before.entry(x),
        forall|k: KeyView| k.object_id != id && #[trigger] v0.contains_key(k) ==> v1.contains_key(k) && v1[k] == v0[k],
    ensures
        mirrored(after, v1),
{
    assert forall|x: Seq<u8>| #[trigger] after.entry(x) is Some implies written(v1, x, after.entry(x).unwrap()) by {
        if x != id {
            assert(after.entry(x) == before.entry(x));
            let e = after.entry(x).unwrap();
            assert(written(v0, x, e));
            assert(v0.contains_key(outbox_key(e.tenant, x)));
            assert(v0.contains_key(signed_key(e.tenant, x)));
        }
    }
}

/// Every submission tracked before is tracked after, with the same tenant and exact signed
/// bytes.
pub open spec fn keeps_all_bytes(before: Outbox, after: Outbox) -> bool {
    forall|x: Seq<u8>| keeps_bytes(before.entry(x), #[trigger] after.entry(x))
}

/// Every submission tracked before, whose status and exact signed bytes stood in the store
/// under its keys, is tracked after, with its status and exact signed bytes in the store.
pub open spec fn keeps_written(o0: Outbox, v0: StoreView, o1: Outbox, v1: StoreView) -> bool {
    forall|x: Seq<u8>|
        (#[trigger] o0.entry(x) matches Some(e) && written(v0, x, e)) ==> (o1.entry(x) matches Some(e1) && written(v1, x, e1))
}

/// Restoring submission `id` of `tenant` from a store that holds its writes for a status
/// that reads back succeeds and tracks exactly that submission.
pub open spec fn restores(view: StoreView, tenant: Seq<char>, id: Seq<u8>, after: Outbox, r: Result<(), OutboxError>) -> bool {
    forall|e: EntryView|
        #[trigger] written(view, id, e) && e.tenant == tenant && e.status.submission_id == id && status_storable(e.status)
            ==> r is Ok && after.entry(id) == Some(e)
}

proof fn lemma_written_step(before: Outbox, after: Outbox, v0: StoreView, v1: StoreView, id: Seq<u8>)
    requires
        forall|x: Seq<u8>| x != id ==> #[trigger] after.entry(x) == before.entry(x),
        forall|k: KeyView| k.object_id != id && #[trigger] v0.contains_key(k) ==> v1.contains_key(k) && v1[k] == v0[k],
        (before.entry(id) matches Some(e) && written(v0, id, e)) ==> (after.entry(id) matches Some(e1) && written(v1, id, e1)),
    ensures
        keeps_written(before, v0, after, v1),
{
    assert forall|x: Seq<u8>| (#[trigger] before.entry(x) matches Some(e) && written(v0, x, e)) implies (after.entry(x) matches Some(e1) && written(v1, x, e1)) by {
        if x != id {
            let e = before.entry(x).unwrap();
            assert(v0.contains_key(outbox_key(e.tenant, x)));
            assert(v0.contains_key(signed_key(e.tenant, x)));
        }
    }
}

/// Law: the exact signed bytes `enqueue` stored for a submission survive any sequence of
/// `transition` calls, successful or not, so that `exact_signed_bytes` gives them back
/// after the last one; the submission also keeps its tenant.
pub proof fn lemma_transitions_keep_bytes(outboxes: Seq<Outbox>, id: Seq<u8>)
    requires
        outboxes.len() > 0,
        outboxes[0].entry(id) is Some,
        forall|i: int| 0 <= i < outboxes.len() - 1 ==> keeps_all_bytes(#[trigger] outboxes[i], outboxes[i + 1]),
    ensures
        outboxes.last().entry(id) matches Some(e) && e.bytes == outboxes[0].entry(id).unwrap().bytes
            && e.tenant == outboxes[0].entry(id).unwrap().tenant,
    decreases outboxes.len(),
{
    if outboxes.len() > 1 {
        let front = outboxes.drop_last();
        assert forall|i: int| 0 <= i < front.len() - 1 implies keeps_all_bytes(#[trigger] front[i], front[i + 1]) by {
            assert(front[i] == outboxes[i] && front[i + 1] == outboxes[i + 1]);
        }
        lemma_transitions_keep_bytes(front, id);
        let n = outboxes.len() as int;
        assert(keeps_all_bytes(outboxes[n - 2], outboxes[n - 1]));
        assert(keeps_bytes(outboxes[n - 2].entry(id), outboxes[n - 1].entry(id)));
    }
}

proof fn lemma_history_written(outboxes: Seq<Outbox>, views: Seq<StoreView>, id: Seq<u8>)
    requires
        outboxes.len() == views.len(),
        outboxes.len() > 0,
        outboxes[0].entry(id) matches Some(e) && written(views[0], id, e),
        forall|i: int| 0 <= i < outboxes.len() - 1 ==> keeps_written(#[trigger] outboxes[i], views[i], outboxes[i + 1], views[i + 1]),
    ensures
        outboxes.last().entry(id) matches Some(e) && written(views.last(), id, e),
    decreases outboxes.len(),
{
    if outboxes.len() > 1 {
        let fo = outboxes.drop_last();
        let fv = views.drop_last();
        assert forall|i: int| 0 <= i < fo.len() - 1 implies keeps_written(#[trigger] fo[i], fv[i], fo[i + 1], fv[i + 1]) by {
            assert(fo[i] == outboxes[i] && fo[i + 1] == outboxes[i + 1]);
            assert(fv[i] == views[i] && fv[i + 1] == views[i + 1]);
        }
        lemma_history_written(fo, fv, id);
        let n = outboxes.len() as int;
        assert(keeps_written(outboxes[n - 2], views[n - 2], outboxes[n - 1], views[n - 1]));
        assert(outboxes[n - 2].entry(id) is Some);
    }
}

/// Law: once `enqueue` has succeeded for a submission, and any sequence of `enqueue` and
/// `transition` calls, successful or not, has followed on the same outbox and store,
/// restoring the submission from that store into any outbox, a fresh one among them,
/// succeeds and gives back the same tenant, status and exact signed bytes as the outbox
/// holds after the last call, as long as that status reads back (at most 1024
/// transitions, each cause at most 1 MiB).
pub proof fn lemma_restore_after_history(outboxes: Seq<Outbox>, views: Seq<StoreView>, id: Seq<u8>)
    requires
        outboxes.len() == views.len(),
        outboxes.len() > 0,
        outboxes[0].entry(id) matches Some(e) && written(views[0], id, e),
        forall|i: int| 0 <= i < outboxes.len() - 1 ==> keeps_written(#[trigger] outboxes[i], views[i], outboxes[i + 1], views[i + 1]),
        outboxes.last().wf(),
        outboxes.last().entry(id) matches Some(e) && status_storable(e.status),
    ensures
        ({
            let e = outboxes.last().entry(id).unwrap();
            forall|after: Outbox, r: Result<(), OutboxError>|
                #[trigger] restores(views.last(), e.tenant, id, after, r) ==> r is Ok && after.entry(id) == Some(e)
        }),
{
    lemma_history_written(outboxes, views, id);
    outboxes.last().lemma_entry_names(id);
    let e = outboxes.last().entry(id).unwrap();
    assert forall|after: Outbox, r: Result<(), OutboxError>| #[trigger] restores(views.last(), e.tenant, id, after, r) implies r is Ok
        && after.entry(id) == Some(e) by {
        assert(written(views.last(), id, e));
    }
}

/// Law: a store that mirrors an outbox restores each of its submissions to the same
/// tenant, status and exact signed bytes, as long as the status reads back (at most 1024
/// transitions, each cause at most 1 MiB). `enqueue` and `transition` keep a store
/// mirroring the outbox, so this holds after any number of them.
pub proof fn lemma_restore_mirrored(o: Outbox, view: StoreView, id: Seq<u8>)
    requires
        o.wf(),
        mirrored(o, view),
        o.entry(id) matches Some(e) && status_storable(e.status),
    ensures
        ({
            let e = o.entry(id).unwrap();
            let ok = outbox_key(e.tenant, id);
            let sk = signed_key(e.tenant, id);
            &&& view.contains_key(ok)
            &&& view.contains_key(sk)
            &&& parse_status(view[ok].1) matches Some(s) && s.submission_id == id
            &&& (EntryView { tenant: e.tenant, status: parse_status(view[ok].1).unwrap(), bytes: view[sk].1 }) == e
        }),
{
    o.lemma_entry_names(id);
    let e = o.entry(id).unwrap();
    assert(written(view, id, e));
    lemma_restore_after_write(view, id, e);
}

/// Law: what `enqueue` writes is the queued submission, under its keys.
pub proof fn lemma_enqueue_writes(view: StoreView, tenant: Seq<char>, id: Seq<u8>, bytes: Seq<u8>, status: StatusView)
    ensures
        written(with_submission(view, tenant, id, bytes, status_bytes(status)), id, EntryView { tenant, status, bytes }),
{
}

/// Law: what `transition` writes for a submission, over a store holding its earlier state,
/// is the submission with its new status and the same exact signed bytes.
pub proof fn lemma_transition_writes(view: StoreView, id: Seq<u8>, e: EntryView, status: StatusView)
    requires
        written(view, id, e),
    ensures
        written(view.insert(outbox_key(e.tenant, id), (StorageClass::LocalOnly, status_bytes(status))), id, EntryView { status, ..e }),
{
    assert(outbox_key(e.tenant, id) != signed_key(e.tenant, id));
}

/// Law: restoring a submission from a store holding what `enqueue` and `transition` wrote
/// for it gives back the same tenant, status and exact signed bytes, as long as the status
/// reads back (at most 1024 transitions, each cause at most 1 MiB).
pub proof fn lemma_restore_after_write(view: StoreView, id: Seq<u8>, e: EntryView)
    requires
        written(view, id, e),
        e.status.submission_id == id,
        status_storable(e.status),
    ensures
        view.contains_key(outbox_key(e.tenant, id)),
        view.contains_key(signed_key(e.tenant, id)),
        parse_status(view[outbox_key(e.tenant, id)].1) matches Some(s) && s.submission_id == id,
        (EntryView {
            tenant: e.tenant,
            status: parse_status(view[outbox_key(e.tenant, id)].1).unwrap(),
            bytes: view[signed_key(e.tenant, id)].1,
        }) == e,
{
    lemma_status_roundtrip(e.status);
}

} // verus!
