//! Durable caller-to-protocol idempotency with conflict detection.
//!
//! A key is bound to the digest of its first request. Repeating the same request returns the
//! original settled result; a different request under the same key is a conflict. Every record
//! held in memory is also persisted in the tenant's durable store, so it survives a restart.
use vstd::prelude::*;

use crate::bytes::{
    fixed_equal, is_zero32, lemma_u32_at_be, lemma_u64_at_be, push_all, push_u32, push_u64,
    read_fixed, read_u32, read_u64, copy_range, text_bytes, u32_at, u32_be, u64_at, u64_be,
};
use crate::digest::{sha256, sha256_digest};
use crate::store::{KeyView, ObjectKind, StorageClass, Store as DurableStore, StoreError, StoreView, TenantId, TenantKey};

verus! {

/// The largest request accepted, in bytes.
pub const MAX_REQUEST_BYTES: usize = 1048576;

/// The largest result retained, in bytes.
pub const MAX_RESULT_BYTES: usize = 1048576;

/// How long records are kept, in daemon and protocol sequences.
#[derive(Clone, Copy, Debug, PartialEq, Eq, Structural)]
pub struct RetentionPolicy {
    pub daemon_sequences: u64,
    pub protocol_sequences: u64,
}

impl RetentionPolicy {
    /// A retention policy; the daemon keeps records at least as long as the protocol does.
    ///
    /// # Errors
    ///
    /// Returns `InvalidRetention` for a zero protocol retention or a daemon retention shorter
    /// than it.
    pub fn new(daemon_sequences: u64, protocol_sequences: u64) -> (r: Result<Self, IdempotencyError>)
        ensures
            r is Ok <==> protocol_sequences != 0 && daemon_sequences >= protocol_sequences,
            r matches Ok(p) ==> p.daemon_sequences == daemon_sequences && p.protocol_sequences
                == protocol_sequences,
            r matches Err(e) ==> e is InvalidRetention,
    {
        if protocol_sequences == 0 || daemon_sequences < protocol_sequences {
            return Err(IdempotencyError::InvalidRetention);
        }
        Ok(RetentionPolicy { daemon_sequences, protocol_sequences })
    }
}

/// A key repeated with a different request.
#[derive(Clone, Copy, Debug, PartialEq, Eq)]
pub struct Conflict {
    pub key: [u8; 32],
    pub original_request_digest: [u8; 32],
    pub repeated_request_digest: [u8; 32],
}

/// The economic result of one protocol operation.
#[derive(Debug, PartialEq, Eq)]
pub struct EconomicResult {
    pub response_bytes: Vec<u8>,
    pub receipt_ref: Option<[u8; 32]>,
}

/// An economic result as plain values.
pub struct ResultView {
    pub response: Seq<u8>,
    pub receipt_ref: Option<Seq<u8>>,
}

impl View for EconomicResult {
    type V = ResultView;

    open spec fn view(&self) -> ResultView {
        ResultView {
            response: self.response_bytes@,
            receipt_ref: match self.receipt_ref {
                Some(r) => Some(r@),
                None => None,
            },
        }
    }
}

impl EconomicResult {
    /// A copy of the result.
    pub fn duplicate(&self) -> (r: Self)
        ensures
            r@ == self@,
    {
        let mut response_bytes: Vec<u8> = Vec::new();
        push_all(&mut response_bytes, self.response_bytes.as_slice());
        EconomicResult { response_bytes, receipt_ref: self.receipt_ref }
    }
}

/// What an execution returned.
#[derive(Debug, PartialEq, Eq)]
pub enum Outcome {
    First(EconomicResult),
    RepeatedOriginal(EconomicResult),
}

/// Exact protocol attempt. The idempotency key and bytes never change between retries.
#[derive(Debug)]
pub struct ProtocolAttempt {
    pub idempotency_key: [u8; 32],
    pub exact_request_bytes: Vec<u8>,
    pub request_digest: [u8; 32],
    pub retry: bool,
}

/// Refusals of idempotent execution.
#[derive(Debug)]
pub enum IdempotencyError {
    InvalidRetention,
    InvalidRequest,
    ResultTooLarge,
    Conflict(Conflict),
    Operation(String),
    Unavailable,
    Corrupt,
    Store(StoreError),
}

/// The domain separator hashed before every request: `LXP/agent/request/v1` and a NUL byte.
pub open spec fn request_domain() -> Seq<u8> {
    text_bytes("LXP/agent/request/v1"@) + seq![0u8]
}

/// The digest binding a request to its key.
pub open spec fn request_digest_of(request: Seq<u8>) -> Seq<u8> {
    sha256(request_domain() + request)
}

/// The digest of a request, under the request domain.
pub fn request_digest(request: &[u8]) -> (r: [u8; 32])
    ensures
        r@ == request_digest_of(request@),
{
    let mut data: Vec<u8> = Vec::new();
    push_all(&mut data, "LXP/agent/request/v1".as_bytes());
    data.push(0u8);
    push_all(&mut data, request);
    assert(data@ =~= request_domain() + request@);
    sha256_digest(data.as_slice())
}

/// Where a record stands.
#[derive(Debug)]
enum RecordState {
    Pending,
    Settled(EconomicResult),
}

/// A record's state as plain values.
pub enum StateView {
    Pending,
    Settled(ResultView),
}

/// A retained record as plain values.
pub struct RecordView {
    pub request_digest: Seq<u8>,
    pub request: Seq<u8>,
    pub created_sequence: u64,
    pub state: StateView,
}

#[derive(Debug)]
struct Record {
    key: [u8; 32],
    request_digest: [u8; 32],
    exact_request_bytes: Vec<u8>,
    created_sequence: u64,
    state: RecordState,
}

spec fn state_view(s: RecordState) -> StateView {
    match s {
        RecordState::Pending => StateView::Pending,
        RecordState::Settled(r) => StateView::Settled(r@),
    }
}

spec fn record_view(r: Record) -> RecordView {
    RecordView {
        request_digest: r.request_digest@,
        request: r.exact_request_bytes@,
        created_sequence: r.created_sequence,
        state: state_view(r.state),
    }
}

/// The four magic bytes `LXID`.
pub open spec fn record_magic() -> Seq<u8> {
    seq![76u8, 88u8, 73u8, 68u8]
}

/// The encoding of a record's state.
pub open spec fn state_bytes(s: StateView) -> Seq<u8> {
    match s {
        StateView::Pending => seq![0u8],
        StateView::Settled(r) => seq![1u8] + u32_be(r.response.len() as u32) + r.response + match r.receipt_ref {
            None => seq![0u8],
            Some(receipt) => seq![1u8] + receipt,
        },
    }
}

/// The durable encoding of the record of a key.
pub open spec fn record_bytes(key: Seq<u8>, r: RecordView) -> Seq<u8> {
    record_magic() + seq![1u8] + key + r.request_digest + u64_be(r.created_sequence) + u32_be(
        r.request.len() as u32,
    ) + r.request + state_bytes(r.state)
}

/// A record that the encoding carries and reading accepts.
pub open spec fn storable(key: Seq<u8>, r: RecordView) -> bool {
    &&& key.len() == 32
    &&& r.request_digest.len() == 32
    &&& r.request.len() <= MAX_REQUEST_BYTES
    &&& r.request_digest == request_digest_of(r.request)
    &&& (r.state matches StateView::Settled(res) ==> (res.response.len() <= MAX_RESULT_BYTES
        && (res.receipt_ref matches Some(receipt) ==> receipt.len() == 32)))
}

/// Reads the state at `at`, up to the end of the bytes.
#[verifier::opaque]
pub open spec fn parse_state(b: Seq<u8>, at: int) -> Option<StateView> {
    if at < 0 || at >= b.len() {
        None
    } else if b[at] == 0 {
        if at + 1 == b.len() {
            Some(StateView::Pending)
        } else {
            None
        }
    } else if b[at] == 1 && at + 5 <= b.len() && u32_at(b, at + 1) <= MAX_RESULT_BYTES && at + 5
        + u32_at(b, at + 1) < b.len() {
        let end = at + 5 + u32_at(b, at + 1);
        let response = b.subrange(at + 5, end);
        if b[end] == 0 && end + 1 == b.len() {
            Some(StateView::Settled(ResultView { response, receipt_ref: None }))
        } else if b[end] == 1 && end + 33 == b.len() {
            Some(StateView::Settled(ResultView { response, receipt_ref: Some(b.subrange(end + 1, end + 33)) }))
        } else {
            None
        }
    } else {
        None
    }
}

/// Reads a whole record: its key and what it holds.
#[verifier::opaque]
pub open spec fn parse_record(b: Seq<u8>) -> Option<(Seq<u8>, RecordView)> {
    if b.len() < 81 || b.subrange(0, 4) != record_magic() || b[4] != 1 || u32_at(b, 77)
        > MAX_REQUEST_BYTES || 81 + u32_at(b, 77) > b.len() {
        None
    } else {
        let request = b.subrange(81, 81 + u32_at(b, 77));
        let digest = b.subrange(37, 69);
        if request_digest_of(request) != digest {
            None
        } else {
            match parse_state(b, 81 + u32_at(b, 77)) {
                None => None,
                Some(state) => Some(
                    (
                        b.subrange(5, 37),
                        RecordView { request_digest: digest, request, created_sequence: u64_at(b, 69), state },
                    ),
                ),
            }
        }
    }
}

/// A storable record reads back from its encoding.
#[verifier::rlimit(40)]
#[verifier::spinoff_prover]
pub proof fn lemma_record_roundtrip(key: Seq<u8>, r: RecordView)
    requires
        storable(key, r),
    ensures
        parse_record(record_bytes(key, r)) == Some((key, r)),
{
    reveal(parse_record);
    reveal(parse_state);
    let b = record_bytes(key, r);
    let head = record_magic() + seq![1u8] + key + r.request_digest;
    let n = r.request.len() as int;
    lemma_u64_at_be(head, r.created_sequence, u32_be(n as u32) + r.request + state_bytes(r.state));
    assert(b =~= head + u64_be(r.created_sequence) + (u32_be(n as u32) + r.request + state_bytes(r.state)));
    lemma_u32_at_be(head + u64_be(r.created_sequence), n as u32, r.request + state_bytes(r.state));
    assert(b =~= (head + u64_be(r.created_sequence)) + u32_be(n as u32) + (r.request + state_bytes(r.state)));
    assert(b.subrange(0, 4) =~= record_magic());
    assert(b.subrange(5, 37) =~= key);
    assert(b.subrange(37, 69) =~= r.request_digest);
    assert(b.subrange(81, 81 + n) =~= r.request);
    let at = 81 + n;
    match r.state {
        StateView::Pending => {},
        StateView::Settled(res) => {
            let m = res.response.len() as int;
            let prefix = b.subrange(0, at + 1);
            let tail = res.response + match res.receipt_ref {
                None => seq![0u8],
                Some(receipt) => seq![1u8] + receipt,
            };
            assert(b =~= prefix + u32_be(m as u32) + tail);
            lemma_u32_at_be(prefix, m as u32, tail);
            assert(b.subrange(at + 5, at + 5 + m) =~= res.response);
            match res.receipt_ref {
                None => {},
                Some(receipt) => {
                    assert(b.subrange(at + 5 + m + 1, at + 5 + m + 33) =~= receipt);
                },
            }
        },
    }
}

fn encode_record(record: &Record) -> (r: Vec<u8>)
    requires
        record.exact_request_bytes@.len() <= MAX_REQUEST_BYTES,
        record.state matches RecordState::Settled(res) ==> res.response_bytes@.len() <= MAX_RESULT_BYTES,
    ensures
        r@ == record_bytes(record.key@, record_view(*record)),
{
    let mut bytes: Vec<u8> = Vec::new();
    bytes.push(76u8);
    bytes.push(88u8);
    bytes.push(73u8);
    bytes.push(68u8);
    bytes.push(1u8);
    push_all(&mut bytes, &record.key);
    push_all(&mut bytes, &record.request_digest);
    push_u64(&mut bytes, record.created_sequence);
    push_u32(&mut bytes, record.exact_request_bytes.len() as u32);
    push_all(&mut bytes, record.exact_request_bytes.as_slice());
    let ghost before = bytes@;
    match &record.state {
        RecordState::Pending => {
            bytes.push(0u8);
        },
        RecordState::Settled(result) => {
            bytes.push(1u8);
            push_u32(&mut bytes, result.response_bytes.len() as u32);
            push_all(&mut bytes, result.response_bytes.as_slice());
            match result.receipt_ref {
                Some(receipt) => {
                    bytes.push(1u8);
                    push_all(&mut bytes, &receipt);
                },
                None => {
                    bytes.push(0u8);
                },
            }
        },
    }
    assert(bytes@ =~= before + state_bytes(state_view(record.state)));
    assert(bytes@ =~= record_bytes(record.key@, record_view(*record)));
    bytes
}

fn decode_state(bytes: &[u8], at: usize) -> (r: Option<RecordState>)
    requires
        at <= bytes@.len(),
    ensures
        match r {
            Some(s) => parse_state(bytes@, at as int) == Some(state_view(s)),
            None => parse_state(bytes@, at as int) is None,
        },
{
    reveal(parse_state);
    if at >= bytes.len() {
        return None;
    }
    if bytes[at] == 0 {
        if at + 1 == bytes.len() {
            return Some(RecordState::Pending);
        }
        return None;
    }
    if bytes[at] != 1 || bytes.len() - at < 5 {
        return None;
    }
    let m = read_u32(bytes, at + 1) as usize;
    if m > MAX_RESULT_BYTES || bytes.len() - (at + 5) <= m {
        return None;
    }
    let end = at + 5 + m;
    let response_bytes = copy_range(bytes, at + 5, m);
    if bytes[end] == 0 && end + 1 == bytes.len() {
        return Some(RecordState::Settled(EconomicResult { response_bytes, receipt_ref: None }));
    }
    if bytes[end] == 1 && bytes.len() - end == 33 {
        let receipt = read_fixed(bytes, end + 1);
        return Some(RecordState::Settled(EconomicResult { response_bytes, receipt_ref: Some(receipt) }));
    }
    None
}

fn decode_record(bytes: &[u8]) -> (r: Option<Record>)
    ensures
        match r {
            Some(rec) => parse_record(bytes@) == Some((rec.key@, record_view(rec)))
                && storable(rec.key@, record_view(rec)),
            None => parse_record(bytes@) is None,
        },
{
    reveal(parse_record);
    if bytes.len() < 81 || bytes[0] != 76 || bytes[1] != 88 || bytes[2] != 73 || bytes[3] != 68
        || bytes[4] != 1 {
        proof {
            if bytes@.len() >= 81 {
                if bytes@.subrange(0, 4) == record_magic() {
                    assert(bytes@[0] == bytes@.subrange(0, 4)[0]);
                    assert(bytes@[1] == bytes@.subrange(0, 4)[1]);
                    assert(bytes@[2] == bytes@.subrange(0, 4)[2]);
                    assert(bytes@[3] == bytes@.subrange(0, 4)[3]);
                }
            }
        }
        return None;
    }
    assert(bytes@.subrange(0, 4) =~= record_magic());
    let n = read_u32(bytes, 77) as usize;
    if n > MAX_REQUEST_BYTES || bytes.len() - 81 < n {
        return None;
    }
    let key = read_fixed(bytes, 5);
    let stored_digest = read_fixed(bytes, 37);
    let created_sequence = read_u64(bytes, 69);
    let exact_request_bytes = copy_range(bytes, 81, n);
    let digest = request_digest(exact_request_bytes.as_slice());
    if !fixed_equal(&digest, &stored_digest) {
        return None;
    }
    match decode_state(bytes, 81 + n) {
        None => None,
        Some(state) => {
            let rec = Record { key, request_digest: stored_digest, exact_request_bytes, created_sequence, state };
            proof {
                reveal(parse_state);
            }
            Some(rec)
        },
    }
}

/// The storage key of an idempotency record.
pub open spec fn record_key(tenant: Seq<char>, key: Seq<u8>) -> KeyView {
    KeyView { tenant, kind: ObjectKind::Idempotency, object_id: key }
}

/// Whether a record has outlived the daemon retention at `current`.
pub open spec fn expired(r: RecordView, current: u64, retention: RetentionPolicy) -> bool {
    current >= if r.created_sequence + retention.daemon_sequences > u64::MAX {
        u64::MAX as int
    } else {
        r.created_sequence + retention.daemon_sequences
    }
}

spec fn records_map(s: Seq<Record>) -> Map<Seq<u8>, RecordView>
    decreases s.len(),
{
    if s.len() == 0 {
        Map::empty()
    } else {
        records_map(s.drop_last()).insert(s.last().key@, record_view(s.last()))
    }
}

spec fn distinct_keys(s: Seq<Record>) -> bool {
    forall|i: int, j: int| #![trigger s[i], s[j]] 0 <= i < j < s.len() ==> s[i].key@ != s[j].key@
}

proof fn lemma_distinct_drop_last(s: Seq<Record>)
    requires
        distinct_keys(s),
        s.len() > 0,
    ensures
        distinct_keys(s.drop_last()),
{
    let rest = s.drop_last();
    assert forall|i: int, j: int| 0 <= i < j < rest.len() implies rest[i].key@ != rest[j].key@ by {
        assert(rest[i] == s[i] && rest[j] == s[j]);
    }
}

proof fn lemma_map_at(s: Seq<Record>, i: int)
    requires
        distinct_keys(s),
        0 <= i < s.len(),
    ensures
        records_map(s).dom().contains(s[i].key@),
        records_map(s)[s[i].key@] == record_view(s[i]),
    decreases s.len(),
{
    if i < s.len() - 1 {
        lemma_distinct_drop_last(s);
        assert(s.drop_last()[i] == s[i]);
        lemma_map_at(s.drop_last(), i);
        assert(s[i].key@ != s[s.len() - 1].key@);
    }
}

proof fn lemma_map_absent(s: Seq<Record>, k: Seq<u8>)
    requires
        forall|i: int| 0 <= i < s.len() ==> (#[trigger] s[i]).key@ != k,
    ensures
        !records_map(s).dom().contains(k),
    decreases s.len(),
{
    if s.len() > 0 {
        let rest = s.drop_last();
        assert forall|i: int| 0 <= i < rest.len() implies (#[trigger] rest[i]).key@ != k by {
            assert(rest[i] == s[i]);
        }
        lemma_map_absent(rest, k);
    }
}

proof fn lemma_map_contains(s: Seq<Record>, k: Seq<u8>)
    requires
        records_map(s).dom().contains(k),
    ensures
        exists|i: int| 0 <= i < s.len() && (#[trigger] s[i]).key@ == k,
{
    if !exists|i: int| 0 <= i < s.len() && (#[trigger] s[i]).key@ == k {
        lemma_map_absent(s, k);
    }
}

proof fn lemma_map_update(s: Seq<Record>, i: int, e: Record)
    requires
        distinct_keys(s),
        0 <= i < s.len(),
        e.key@ == s[i].key@,
    ensures
        records_map(s.update(i, e)) == records_map(s).insert(e.key@, record_view(e)),
        distinct_keys(s.update(i, e)),
    decreases s.len(),
{
    let next = s.update(i, e);
    assert(distinct_keys(next)) by {
        assert forall|a: int, b: int| 0 <= a < b < next.len() implies next[a].key@ != next[b].key@ by {
            assert(s[a].key@ != s[b].key@);
        }
    }
    let rest = s.drop_last();
    if i == s.len() - 1 {
        assert(next.drop_last() =~= rest);
        assert(records_map(next) =~= records_map(s).insert(e.key@, record_view(e)));
    } else {
        lemma_distinct_drop_last(s);
        assert(next.drop_last() =~= rest.update(i, e));
        lemma_map_update(rest, i, e);
        assert(s[s.len() - 1].key@ != e.key@) by {
            assert(s[i].key@ != s[s.len() - 1].key@);
        }
        assert(records_map(next) =~= records_map(s).insert(e.key@, record_view(e)));
    }
}

proof fn lemma_map_len(s: Seq<Record>)
    requires
        distinct_keys(s),
    ensures
        records_map(s).dom().finite(),
        records_map(s).dom().len() == s.len(),
    decreases s.len(),
{
    if s.len() > 0 {
        lemma_distinct_drop_last(s);
        lemma_map_len(s.drop_last());
        let rest = s.drop_last();
        assert forall|i: int| 0 <= i < rest.len() implies (#[trigger] rest[i]).key@ != s.last().key@ by {
            assert(rest[i] == s[i]);
            assert(s[i].key@ != s[s.len() - 1].key@);
        }
        lemma_map_absent(rest, s.last().key@);
    }
}

/// A request refused before any lookup: an all-zero key, or an empty or over-long request.
pub open spec fn invalid_request(key: Seq<u8>, request: Seq<u8>) -> bool {
    key == Seq::new(32, |_i: int| 0u8) || request.len() == 0 || request.len() > MAX_REQUEST_BYTES
}

/// The record an execution that goes ahead works on: the pending record retained for the key,
/// or a new pending record of this request created at `current`.
pub open spec fn pending_record(
    records: Map<Seq<u8>, RecordView>,
    key: Seq<u8>,
    request: Seq<u8>,
    current: u64,
) -> RecordView {
    if records.contains_key(key) {
        records[key]
    } else {
        RecordView {
            request_digest: request_digest_of(request),
            request,
            created_sequence: current,
            state: StateView::Pending,
        }
    }
}

/// A record settled with a result.
pub open spec fn settled_with(r: RecordView, result: ResultView) -> RecordView {
    RecordView {
        request_digest: r.request_digest,
        request: r.request,
        created_sequence: r.created_sequence,
        state: StateView::Settled(result),
    }
}

/// The result an outcome carries.
pub open spec fn outcome_result(o: Outcome) -> ResultView {
    match o {
        Outcome::First(r) => r@,
        Outcome::RepeatedOriginal(r) => r@,
    }
}

/// The attempt handed to the operation: the key, the retained exact request bytes and their
/// digest, and whether this is a retry of a pending record.
pub open spec fn attempt_for(a: ProtocolAttempt, key: Seq<u8>, pending: RecordView, retry: bool) -> bool {
    &&& a.idempotency_key@ == key
    &&& a.exact_request_bytes@ == pending.request
    &&& a.request_digest@ == pending.request_digest
    &&& a.retry == retry
}

/// What an execution that goes ahead returns for the operation's result, and the record it
/// leaves for the key.
pub open spec fn finished(
    r: Result<Outcome, IdempotencyError>,
    result: Result<EconomicResult, String>,
    retry: bool,
    pending: RecordView,
    left: RecordView,
) -> bool {
    match result {
        Err(message) => (r matches Err(IdempotencyError::Operation(m)) && m == message) && left == pending,
        Ok(x) => if x.response_bytes@.len() > MAX_RESULT_BYTES {
            (r matches Err(e) && e is ResultTooLarge) && left == pending
        } else {
            &&& r matches Ok(o)
            &&& outcome_result(o) == x@
            &&& (o is First <==> !retry)
            &&& left == settled_with(pending, x@)
        },
    }
}

/// The records that survive a sweep at `current`.
pub open spec fn surviving(
    records: Map<Seq<u8>, RecordView>,
    current: u64,
    retention: RetentionPolicy,
) -> Map<Seq<u8>, RecordView> {
    Map::new(|k: Seq<u8>| records.contains_key(k) && !expired(records[k], current, retention), |k: Seq<u8>| records[k])
}

/// The keys a sweep at `current` removes.
pub open spec fn doomed(records: Map<Seq<u8>, RecordView>, current: u64, retention: RetentionPolicy) -> Set<Seq<u8>> {
    Set::new(|k: Seq<u8>| records.contains_key(k) && expired(records[k], current, retention))
}

/// A durable store without the records of some idempotency keys of a tenant.
pub open spec fn retired(durable: StoreView, tenant: Seq<char>, keys: Set<Seq<u8>>) -> StoreView {
    Map::new(
        |kv: KeyView| durable.contains_key(kv) && !(kv.tenant == tenant && kv.kind == ObjectKind::Idempotency
            && keys.contains(kv.object_id)),
        |kv: KeyView| durable[kv],
    )
}

/// The storage key of a listed key.
pub open spec fn listed_key(tenant: Seq<char>, keys: Seq<[u8; 32]>, i: int) -> KeyView {
    record_key(tenant, keys[i]@)
}

/// Every listed key present in the durable store holds a record of that same key.
pub open spec fn all_readable(keys: Seq<[u8; 32]>, durable: StoreView, tenant: Seq<char>) -> bool {
    forall|i: int| 0 <= i < keys.len() && durable.contains_key(#[trigger] listed_key(tenant, keys, i)) ==> (
        parse_record(durable[listed_key(tenant, keys, i)].1) matches Some((k, _)) && k == keys[i]@)
}

/// How many listed keys (with repetition) the durable store holds.
pub open spec fn present_count(keys: Seq<[u8; 32]>, durable: StoreView, tenant: Seq<char>) -> nat
    decreases keys.len(),
{
    if keys.len() == 0 {
        0
    } else {
        present_count(keys.drop_last(), durable, tenant) + if durable.contains_key(record_key(tenant, keys.last()@)) {
            1nat
        } else {
            0nat
        }
    }
}

/// The records after loading every listed key the durable store holds.
pub open spec fn restored(
    records: Map<Seq<u8>, RecordView>,
    keys: Seq<[u8; 32]>,
    durable: StoreView,
    tenant: Seq<char>,
) -> Map<Seq<u8>, RecordView>
    decreases keys.len(),
{
    if keys.len() == 0 {
        records
    } else {
        let before = restored(records, keys.drop_last(), durable, tenant);
        let rk = record_key(tenant, keys.last()@);
        if durable.contains_key(rk) {
            before.insert(keys.last()@, parse_record(durable[rk].1).unwrap().1)
        } else {
            before
        }
    }
}

/// Durable records, with the persisted ones kept in step with the store.
pub struct Store {
    tenant: TenantId,
    retention: RetentionPolicy,
    durable: DurableStore,
    records: Vec<Record>,
}

impl Store {
    /// The tenant whose records these are.
    pub closed spec fn tenant_view(&self) -> Seq<char> {
        self.tenant@
    }

    /// The retention policy.
    pub closed spec fn retention_view(&self) -> RetentionPolicy {
        self.retention
    }

    /// The retained records, by idempotency key.
    pub closed spec fn records_view(&self) -> Map<Seq<u8>, RecordView> {
        records_map(self.records@)
    }

    /// The durable store's contents.
    pub closed spec fn durable_view(&self) -> StoreView {
        self.durable.view()
    }

    /// The invariant: a well-formed durable store, at most one record per key, and every
    /// retained record storable and persisted under its key in the tenant's store.
    pub closed spec fn wf(&self) -> bool {
        &&& self.durable.wf()
        &&& distinct_keys(self.records@)
        &&& forall|i: int| 0 <= i < self.records@.len() ==> {
            let rec = #[trigger] self.records@[i];
            &&& storable(rec.key@, record_view(rec))
            &&& self.durable.view().contains_key(record_key(self.tenant@, rec.key@))
            &&& parse_record(self.durable.view()[record_key(self.tenant@, rec.key@)].1)
                == Some((rec.key@, record_view(rec)))
        }
    }

    /// Every retained record is persisted: the stored bytes read back as that record.
    pub proof fn lemma_persisted(&self, key: Seq<u8>)
        requires
            self.wf(),
            self.records_view().dom().contains(key),
        ensures
            self.durable_view().contains_key(record_key(self.tenant_view(), key)),
            parse_record(self.durable_view()[record_key(self.tenant_view(), key)].1) == Some(
                (key, self.records_view()[key]),
            ),
            storable(key, self.records_view()[key]),
    {
        lemma_map_contains(self.records@, key);
        let i = choose|i: int| 0 <= i < self.records@.len() && (#[trigger] self.records@[i]).key@ == key;
        lemma_map_at(self.records@, i);
    }

    /// An idempotency store over the tenant's durable store, with no records loaded.
    pub fn open(durable: DurableStore, tenant: TenantId, retention: RetentionPolicy) -> (r: Self)
        requires
            durable.wf(),
        ensures
            r.wf(),
            r.tenant_view() == tenant@,
            r.retention_view() == retention,
            r.durable_view() == durable.view(),
            r.records_view() == Map::<Seq<u8>, RecordView>::empty(),
    {
        let r = Store { tenant, retention, durable, records: Vec::new() };
        assert(records_map(r.records@) =~= Map::<Seq<u8>, RecordView>::empty());
        r
    }

    /// The durable store, for persisting its image.
    pub fn durable(&self) -> (r: &DurableStore)
        ensures
            r.view() == self.durable_view(),
            self.wf() ==> r.wf(),
    {
        &self.durable
    }

    fn storage_key(&self, key: &[u8; 32]) -> (r: TenantKey)
        ensures
            r@ == record_key(self.tenant@, key@),
    {
        let mut id: Vec<u8> = Vec::new();
        push_all(&mut id, key);
        assert(id@.len() == 32);
        TenantKey::new(self.tenant.clone(), ObjectKind::Idempotency, id).unwrap()
    }

    fn position(&self, key: &[u8; 32]) -> (r: Option<usize>)
        requires
            self.wf(),
        ensures
            match r {
                Some(i) => i < self.records@.len() && self.records@[i as int].key@ == key@,
                None => forall|i: int| 0 <= i < self.records@.len() ==> (#[trigger] self.records@[i]).key@ != key@,
            },
    {
        let mut i: usize = 0;
        while i < self.records.len()
            invariant
                i <= self.records@.len(),
                forall|q: int| 0 <= q < i ==> (#[trigger] self.records@[q]).key@ != key@,
            decreases self.records@.len() - i,
        {
            if fixed_equal(&self.records[i].key, key) {
                return Some(i);
            }
            i = i + 1;
        }
        None
    }
    fn persist(&mut self, record: &Record)
        requires
            old(self).durable.wf(),
            storable(record.key@, record_view(*record)),
        ensures
            final(self).durable.wf(),
            final(self).durable.view() == old(self).durable.view().insert(
                record_key(old(self).tenant@, record.key@),
                (StorageClass::LocalOnly, record_bytes(record.key@, record_view(*record))),
            ),
            final(self).records == old(self).records,
            final(self).tenant == old(self).tenant,
            final(self).retention == old(self).retention,
    {
        let k = self.storage_key(&record.key);
        let bytes = encode_record(record);
        let _ = self.durable.put_local(k, bytes);
    }

    /// Executes at most one operation for one key and retains its original result.
    ///
    /// A new key is first persisted as pending with the exact request bytes; a pending key is
    /// retried with the bytes it was first given; a settled key returns its original result
    /// without calling the operation.
    ///
    /// # Errors
    ///
    /// `InvalidRequest` for an all-zero key or an empty or over-long request, `Conflict` for a
    /// key first used with a different request, `Operation` with the operation's own refusal,
    /// and `ResultTooLarge` for a response over the retained limit; the record then stays
    /// pending.
    pub fn execute<F>(
        &mut self,
        key: [u8; 32],
        request_bytes: &[u8],
        current_sequence: u64,
        operation: F,
    ) -> (r: Result<Outcome, IdempotencyError>) where
        F: FnOnce(ProtocolAttempt) -> Result<EconomicResult, String>,

        requires
            old(self).wf(),
            forall|a: ProtocolAttempt| call_requires(operation, (a,)),
        ensures
            final(self).wf(),
            final(self).tenant_view() == old(self).tenant_view(),
            final(self).retention_view() == old(self).retention_view(),
            ({
                let before = old(self).records_view();
                let k = key@;
                let digest = request_digest_of(request_bytes@);
                if invalid_request(k, request_bytes@) {
                    (r matches Err(e) && e is InvalidRequest) && *final(self) == *old(self)
                } else if before.contains_key(k) && before[k].request_digest != digest {
                    &&& r matches Err(IdempotencyError::Conflict(c))
                    &&& c.key == key
                    &&& c.original_request_digest@ == before[k].request_digest
                    &&& c.repeated_request_digest@ == digest
                    &&& *final(self) == *old(self)
                } else if before.contains_key(k) && before[k].state is Settled {
                    &&& r matches Ok(Outcome::RepeatedOriginal(x))
                    &&& before[k].state == StateView::Settled(x@)
                    &&& *final(self) == *old(self)
                } else {
                    let retry = before.contains_key(k);
                    let pending = pending_record(before, k, request_bytes@, current_sequence);
                    &&& final(self).records_view().dom() == before.dom().insert(k)
                    &&& forall|other: Seq<u8>| other != k && before.contains_key(other) ==> final(self).records_view()[other] == #[trigger] before[other]
                    &&& exists|a: ProtocolAttempt, result: Result<EconomicResult, String>|
                        attempt_for(a, k, pending, retry) && #[trigger] call_ensures(operation, (a,), result)
                        && finished(r, result, retry, pending, final(self).records_view()[k])
                    &&& final(self).durable_view().remove(record_key(old(self).tenant_view(), k))
                        == old(self).durable_view().remove(record_key(old(self).tenant_view(), k))
                }
            }),
    {
        if is_zero32(&key) || request_bytes.len() == 0 || request_bytes.len() > MAX_REQUEST_BYTES {
            return Err(IdempotencyError::InvalidRequest);
        }
        let repeated_digest = request_digest(request_bytes);
        let ghost before = self.records_view();
        let ghost old_records = self.records@;
        let ghost old_durable = self.durable.view();
        let ghost rk = record_key(self.tenant@, key@);
        let ghost pending = pending_record(before, key@, request_bytes@, current_sequence);
        let found = self.position(&key);
        let index: usize;
        let mut stored_bytes: Vec<u8> = Vec::new();
        let retry: bool;
        match found {
            Some(i) => {
                proof {
                    lemma_map_at(self.records@, i as int);
                }
                let record = &self.records[i];
                if !fixed_equal(&record.request_digest, &repeated_digest) {
                    return Err(
                        IdempotencyError::Conflict(
                            Conflict {
                                key,
                                original_request_digest: record.request_digest,
                                repeated_request_digest: repeated_digest,
                            },
                        ),
                    );
                }
                match &record.state {
                    RecordState::Settled(result) => {
                        return Ok(Outcome::RepeatedOriginal(result.duplicate()));
                    },
                    RecordState::Pending => {},
                }
                push_all(&mut stored_bytes, record.exact_request_bytes.as_slice());
                index = i;
                retry = true;
            },
            None => {
                proof {
                    lemma_map_absent(self.records@, key@);
                }
                let mut exact_request_bytes: Vec<u8> = Vec::new();
                push_all(&mut exact_request_bytes, request_bytes);
                let record = Record {
                    key,
                    request_digest: repeated_digest,
                    exact_request_bytes,
                    created_sequence: current_sequence,
                    state: RecordState::Pending,
                };
                self.persist(&record);
                push_all(&mut stored_bytes, request_bytes);
                proof {
                    lemma_record_roundtrip(key@, record_view(record));
                    let next = old_records.push(record);
                    assert(next.drop_last() =~= old_records);
                    assert forall|a: int, b: int| 0 <= a < b < next.len() implies next[a].key@ != next[b].key@ by {
                        if b == old_records.len() {
                            assert(next[a] == old_records[a]);
                        } else {
                            assert(next[a] == old_records[a] && next[b] == old_records[b]);
                        }
                    }
                }
                self.records.push(record);
                index = self.records.len() - 1;
                retry = false;
                proof {
                    assert forall|q: int| 0 <= q < self.records@.len() implies {
                        let rec = #[trigger] self.records@[q];
                        &&& storable(rec.key@, record_view(rec))
                        &&& self.durable.view().contains_key(record_key(self.tenant@, rec.key@))
                        &&& parse_record(self.durable.view()[record_key(self.tenant@, rec.key@)].1)
                            == Some((rec.key@, record_view(rec)))
                    } by {
                        if q < old_records.len() {
                            assert(self.records@[q] == old_records[q]);
                            assert(old_records[q].key@ != key@);
                        }
                    }
                }
            },
        }
        assert(self.wf());
        assert(self.records@[index as int].key@ == key@);
        assert(record_view(self.records@[index as int]) == pending) by {
            lemma_map_at(self.records@, index as int);
        }
        assert(self.records_view() == before.insert(key@, pending)) by {
            if retry {
                lemma_map_at(old_records, index as int);
                assert(self.records@ == old_records);
                assert(self.records_view() =~= before.insert(key@, pending));
            } else {
                assert(self.records@ == old_records.push(self.records@[index as int]));
                assert(self.records@.drop_last() =~= old_records);
            }
        }
        let attempt = ProtocolAttempt {
            idempotency_key: key,
            exact_request_bytes: stored_bytes,
            request_digest: repeated_digest,
            retry,
        };
        let ghost handed = attempt;
        let outcome = operation(attempt);
        let ghost returned = outcome;
        let result = match outcome {
            Ok(x) => x,
            Err(message) => {
                assert(finished(Err(IdempotencyError::Operation(message)), returned, retry, pending, self.records_view()[key@]));
                return Err(IdempotencyError::Operation(message));
            },
        };
        if result.response_bytes.len() > MAX_RESULT_BYTES {
            return Err(IdempotencyError::ResultTooLarge);
        }
        let current = &self.records[index];
        let mut kept_bytes: Vec<u8> = Vec::new();
        push_all(&mut kept_bytes, current.exact_request_bytes.as_slice());
        let settled = Record {
            key,
            request_digest: current.request_digest,
            exact_request_bytes: kept_bytes,
            created_sequence: current.created_sequence,
            state: RecordState::Settled(result.duplicate()),
        };
        let ghost mid_records = self.records@;
        let ghost mid_durable = self.durable.view();
        proof {
            lemma_map_at(mid_records, index as int);
            lemma_record_roundtrip(key@, record_view(settled));
            lemma_map_update(mid_records, index as int, settled);
        }
        self.persist(&settled);
        self.records.set(index, settled);
        proof {
            assert forall|q: int| 0 <= q < self.records@.len() implies {
                let rec = #[trigger] self.records@[q];
                &&& storable(rec.key@, record_view(rec))
                &&& self.durable.view().contains_key(record_key(self.tenant@, rec.key@))
                &&& parse_record(self.durable.view()[record_key(self.tenant@, rec.key@)].1)
                    == Some((rec.key@, record_view(rec)))
            } by {
                if q != index {
                    assert(self.records@[q] == mid_records[q]);
                    assert(mid_records[q].key@ != key@) by {
                        if q < index {
                            assert(mid_records[q].key@ != mid_records[index as int].key@);
                        } else {
                            assert(mid_records[index as int].key@ != mid_records[q].key@);
                        }
                    }
                }
            }
            assert(self.records_view() == before.insert(key@, settled_with(pending, result@)));
            assert(self.durable.view().remove(rk) =~= old_durable.remove(rk));
        }
        if retry {
            Ok(Outcome::RepeatedOriginal(result))
        } else {
            Ok(Outcome::First(result))
        }
    }
    fn record_copy(record: &Record) -> (r: Record)
        ensures
            r.key == record.key,
            record_view(r) == record_view(*record),
    {
        let mut exact_request_bytes: Vec<u8> = Vec::new();
        push_all(&mut exact_request_bytes, record.exact_request_bytes.as_slice());
        let state = match &record.state {
            RecordState::Pending => RecordState::Pending,
            RecordState::Settled(result) => RecordState::Settled(result.duplicate()),
        };
        Record {
            key: record.key,
            request_digest: record.request_digest,
            exact_request_bytes,
            created_sequence: record.created_sequence,
            state,
        }
    }

    fn expired_record(&self, record: &Record, current: u64) -> (r: bool)
        ensures
            r == expired(record_view(*record), current, self.retention),
    {
        current >= record.created_sequence.saturating_add(self.retention.daemon_sequences)
    }

    /// Removes records only after daemon retention, which is never shorter than protocol
    /// retention, from memory and from the durable store; returns how many were removed.
    ///
    /// # Errors
    ///
    /// `Store(Corrupt)` when an expired record's durable copy is marked as core-produced cache,
    /// which is never removed; nothing is removed then.
    pub fn sweep(&mut self, current_sequence: u64) -> (r: Result<usize, IdempotencyError>)
        requires
            old(self).wf(),
        ensures
            final(self).wf(),
            final(self).tenant_view() == old(self).tenant_view(),
            final(self).retention_view() == old(self).retention_view(),
            ({
                let before = old(self).records_view();
                let gone = doomed(before, current_sequence, old(self).retention_view());
                let tenant = old(self).tenant_view();
                &&& (r is Ok <==> forall|k: Seq<u8>| #[trigger] gone.contains(k) ==> old(self).durable_view()[record_key(tenant, k)].0 == StorageClass::LocalOnly)
                &&& (r matches Ok(n) ==> {
                    &&& final(self).records_view() == surviving(before, current_sequence, old(self).retention_view())
                    &&& final(self).durable_view() == retired(old(self).durable_view(), tenant, gone)
                    &&& before.dom().finite()
                    &&& final(self).records_view().dom().finite()
                    &&& n == before.dom().len() - final(self).records_view().dom().len()
                })
                &&& (r matches Err(e) ==> (e matches IdempotencyError::Store(s) && s is Corrupt) && *final(self) == *old(self))
            }),
    {
        let ghost old_recs = self.records@;
        let ghost old_durable = self.durable.view();
        let ghost before = self.records_view();
        let ghost gone = doomed(before, current_sequence, self.retention);
        let ghost tenant = self.tenant@;
        let mut i: usize = 0;
        while i < self.records.len()
            invariant
                i <= self.records@.len(),
                self.wf(),
                *self == *old(self),
                tenant == self.tenant@,
                old_recs == self.records@,
                before == records_map(old_recs),
                gone == doomed(before, current_sequence, self.retention),
                forall|q: int| 0 <= q < i && expired(record_view(#[trigger] self.records@[q]), current_sequence, self.retention)
                    ==> self.durable.view()[record_key(self.tenant@, self.records@[q].key@)].0 == StorageClass::LocalOnly,
            decreases self.records@.len() - i,
        {
            let record = &self.records[i];
            if self.expired_record(record, current_sequence) {
                let k = self.storage_key(&record.key);
                match self.durable.get(&k) {
                    Some(value) => {
                        match value.class() {
                            StorageClass::CoreProducedCache => {
                                proof {
                                    lemma_map_at(self.records@, i as int);
                                    assert(gone.contains(record.key@));
                                    assert(k@ == record_key(tenant, record.key@));
                                    assert(self.durable.view()[k@].0 == StorageClass::CoreProducedCache);
                                    assert(!(old(self).durable_view()[record_key(old(self).tenant_view(), record.key@)].0 == StorageClass::LocalOnly));
                                    assert(doomed(old(self).records_view(), current_sequence, old(self).retention_view()).contains(record.key@));
                                }
                                return Err(IdempotencyError::Store(StoreError::Corrupt("idempotency record held as core cache")));
                            },
                            StorageClass::LocalOnly => {},
                        }
                    },
                    None => {},
                }
            }
            i = i + 1;
        }
        proof {
            assert forall|k: Seq<u8>| #[trigger] gone.contains(k) implies old_durable[record_key(tenant, k)].0 == StorageClass::LocalOnly by {
                lemma_map_contains(old_recs, k);
                let j = choose|j: int| 0 <= j < old_recs.len() && (#[trigger] old_recs[j]).key@ == k;
                lemma_map_at(old_recs, j);
            }
        }
        let mut kept: Vec<Record> = Vec::new();
        let mut removed: usize = 0;
        let mut i: usize = 0;
        while i < self.records.len()
            invariant
                i <= self.records@.len(),
                self.records@ == old_recs,
                self.tenant@ == tenant,
                self.tenant == old(self).tenant,
                self.retention == old(self).retention,
                tenant == old(self).tenant@,
                distinct_keys(old_recs),
                before == records_map(old_recs),
                gone == doomed(before, current_sequence, self.retention),
                self.durable.wf(),
                forall|q: int| 0 <= q < old_recs.len() ==> {
                    let rec = #[trigger] old_recs[q];
                    &&& storable(rec.key@, record_view(rec))
                    &&& old_durable.contains_key(record_key(tenant, rec.key@))
                    &&& parse_record(old_durable[record_key(tenant, rec.key@)].1) == Some((rec.key@, record_view(rec)))
                },
                forall|k: Seq<u8>| #[trigger] gone.contains(k) ==> old_durable[record_key(tenant, k)].0 == StorageClass::LocalOnly,
                self.durable.view() == retired(old_durable, tenant, doomed(records_map(old_recs.take(i as int)), current_sequence, self.retention)),
                records_map(kept@) == surviving(records_map(old_recs.take(i as int)), current_sequence, self.retention),
                distinct_keys(kept@),
                forall|q: int| 0 <= q < kept@.len() ==> exists|j: int| 0 <= j < i && (#[trigger] kept@[q]).key@ == (#[trigger] old_recs[j]).key@
                    && record_view(kept@[q]) == record_view(old_recs[j]),
                removed + kept@.len() == i,
            decreases self.records@.len() - i,
        {
            let record = &self.records[i];
            let ghost prefix = old_recs.take(i as int);
            let ghost next = old_recs.take(i + 1);
            proof {
                assert(next.drop_last() =~= prefix);
                assert(next.last() == old_recs[i as int]);
                assert forall|q: int| 0 <= q < prefix.len() implies (#[trigger] prefix[q]).key@ != record.key@ by {
                    assert(prefix[q] == old_recs[q]);
                    assert(old_recs[q].key@ != old_recs[i as int].key@);
                }
                lemma_map_absent(prefix, record.key@);
            }
            if self.expired_record(record, current_sequence) {
                let k = self.storage_key(&record.key);
                proof {
                    lemma_map_at(old_recs, i as int);
                    assert(gone.contains(record.key@));
                }
                let _ = self.durable.remove_local(&k);
                removed = removed + 1;
                proof {
                    assert(self.durable.view() =~= retired(old_durable, tenant, doomed(records_map(next), current_sequence, self.retention)));
                    assert(surviving(records_map(next), current_sequence, self.retention) =~= surviving(records_map(prefix), current_sequence, self.retention));
                }
            } else {
                let copy = Self::record_copy(record);
                proof {
                    let grown = kept@.push(copy);
                    assert(grown.drop_last() =~= kept@);
                    assert forall|a: int, b: int| 0 <= a < b < grown.len() implies grown[a].key@ != grown[b].key@ by {
                        if b == kept@.len() {
                            assert(grown[a] == kept@[a]);
                            let j = choose|j: int| 0 <= j < i && (#[trigger] kept@[a]).key@ == (#[trigger] old_recs[j]).key@
                                && record_view(kept@[a]) == record_view(old_recs[j]);
                            assert(old_recs[j].key@ != old_recs[i as int].key@);
                        } else {
                            assert(grown[a] == kept@[a] && grown[b] == kept@[b]);
                        }
                    }
                    assert(records_map(grown) =~= surviving(records_map(next), current_sequence, self.retention));
                    assert(doomed(records_map(next), current_sequence, self.retention) =~= doomed(records_map(prefix), current_sequence, self.retention));
                }
                kept.push(copy);
                proof {
                    assert forall|q: int| 0 <= q < kept@.len() implies exists|j: int| 0 <= j < i + 1 && (#[trigger] kept@[q]).key@ == (#[trigger] old_recs[j]).key@
                        && record_view(kept@[q]) == record_view(old_recs[j]) by {
                        if q == kept@.len() - 1 {
                            assert(kept@[q].key@ == old_recs[i as int].key@);
                        }
                    }
                }
            }
            i = i + 1;
        }
        proof {
            assert(old_recs.take(i as int) =~= old_recs);
            lemma_map_len(old_recs);
            lemma_map_len(kept@);
        }
        self.records = kept;
        proof {
            assert forall|q: int| 0 <= q < self.records@.len() implies {
                let rec = #[trigger] self.records@[q];
                &&& storable(rec.key@, record_view(rec))
                &&& self.durable.view().contains_key(record_key(self.tenant@, rec.key@))
                &&& parse_record(self.durable.view()[record_key(self.tenant@, rec.key@)].1)
                    == Some((rec.key@, record_view(rec)))
            } by {
                let rec = self.records@[q];
                let j = choose|j: int| 0 <= j < old_recs.len() && (#[trigger] self.records@[q]).key@ == (#[trigger] old_recs[j]).key@
                    && record_view(self.records@[q]) == record_view(old_recs[j]);
                lemma_map_at(old_recs, j);
                lemma_map_at(self.records@, q);
                assert(!gone.contains(rec.key@));
            }
        }
        Ok(removed)
    }

    /// Restores known keys from durable storage after a restart; returns how many of the
    /// listed keys were found.
    ///
    /// # Errors
    ///
    /// `Corrupt` when a found record does not read back, or reads back under another key;
    /// the keys listed before it stay loaded.
    pub fn restore(&mut self, keys: &[[u8; 32]]) -> (r: Result<usize, IdempotencyError>)
        requires
            old(self).wf(),
        ensures
            final(self).wf(),
            final(self).tenant_view() == old(self).tenant_view(),
            final(self).retention_view() == old(self).retention_view(),
            final(self).durable_view() == old(self).durable_view(),
            r is Ok <==> all_readable(keys@, old(self).durable_view(), old(self).tenant_view()),
            r matches Ok(n) ==> n == present_count(keys@, old(self).durable_view(), old(self).tenant_view())
                && final(self).records_view() == restored(old(self).records_view(), keys@, old(self).durable_view(), old(self).tenant_view()),
            r matches Err(e) ==> e is Corrupt,
    {
        let ghost durable = self.durable.view();
        let ghost tenant = self.tenant@;
        let ghost before = self.records_view();
        let mut count: usize = 0;
        let mut i: usize = 0;
        while i < keys.len()
            invariant
                i <= keys@.len(),
                self.wf(),
                self.durable.view() == durable,
                self.tenant@ == tenant,
                self.tenant == old(self).tenant,
                self.retention == old(self).retention,
                tenant == old(self).tenant@,
                durable == old(self).durable.view(),
                before == old(self).records_view(),
                all_readable(keys@.take(i as int), durable, tenant),
                count == present_count(keys@.take(i as int), durable, tenant),
                self.records_view() == restored(before, keys@.take(i as int), durable, tenant),
                count <= i,
            decreases keys@.len() - i,
        {
            let key = keys[i];
            let ghost prefix = keys@.take(i as int);
            let ghost next = keys@.take(i + 1);
            proof {
                assert(next.drop_last() =~= prefix);
                assert(next.last() == key);
            }
            let k = self.storage_key(&key);
            let found = self.durable.get(&k);
            match found {
                None => {
                    proof {
                        assert forall|q: int| 0 <= q < next.len() && durable.contains_key(#[trigger] listed_key(tenant, next, q)) implies (
                            parse_record(durable[listed_key(tenant, next, q)].1) matches Some((kk, _)) && kk == next[q]@) by {
                            assert(q < prefix.len());
                            assert(listed_key(tenant, next, q) == listed_key(tenant, prefix, q));
                        }
                    }
                },
                Some(value) => {
                    let decoded = decode_record(value.bytes());
                    match decoded {
                        None => {
                            proof {
                                assert(!all_readable(keys@, durable, tenant)) by {
                                    assert(listed_key(tenant, keys@, i as int) == k@);
                                }
                            }
                            return Err(IdempotencyError::Corrupt);
                        },
                        Some(rec) => {
                            if !fixed_equal(&rec.key, &key) {
                                proof {
                                    assert(!all_readable(keys@, durable, tenant)) by {
                                        assert(listed_key(tenant, keys@, i as int) == k@);
                                    }
                                }
                                return Err(IdempotencyError::Corrupt);
                            }
                            let ghost recs = self.records@;
                            match self.position(&key) {
                                Some(at) => {
                                    proof {
                                        lemma_map_update(recs, at as int, rec);
                                    }
                                    self.records.set(at, rec);
                                    proof {
                                        assert forall|q: int| 0 <= q < self.records@.len() implies {
                                            let r2 = #[trigger] self.records@[q];
                                            &&& storable(r2.key@, record_view(r2))
                                            &&& self.durable.view().contains_key(record_key(self.tenant@, r2.key@))
                                            &&& parse_record(self.durable.view()[record_key(self.tenant@, r2.key@)].1)
                                                == Some((r2.key@, record_view(r2)))
                                        } by {
                                            if q != at {
                                                assert(self.records@[q] == recs[q]);
                                            }
                                        }
                                    }
                                },
                                None => {
                                    proof {
                                        lemma_map_absent(recs, key@);
                                        let grown = recs.push(rec);
                                        assert(grown.drop_last() =~= recs);
                                        assert forall|a: int, b: int| 0 <= a < b < grown.len() implies grown[a].key@ != grown[b].key@ by {
                                            if b == recs.len() {
                                                assert(grown[a] == recs[a]);
                                            } else {
                                                assert(grown[a] == recs[a] && grown[b] == recs[b]);
                                            }
                                        }
                                    }
                                    self.records.push(rec);
                                    proof {
                                        assert forall|q: int| 0 <= q < self.records@.len() implies {
                                            let r2 = #[trigger] self.records@[q];
                                            &&& storable(r2.key@, record_view(r2))
                                            &&& self.durable.view().contains_key(record_key(self.tenant@, r2.key@))
                                            &&& parse_record(self.durable.view()[record_key(self.tenant@, r2.key@)].1)
                                                == Some((r2.key@, record_view(r2)))
                                        } by {
                                            if q < recs.len() {
                                                assert(self.records@[q] == recs[q]);
                                            }
                                        }
                                    }
                                },
                            }
                            count = count + 1;
                            proof {
                                assert forall|q: int| 0 <= q < next.len() && durable.contains_key(#[trigger] listed_key(tenant, next, q)) implies (
                                    parse_record(durable[listed_key(tenant, next, q)].1) matches Some((kk, _)) && kk == next[q]@) by {
                                    if q < prefix.len() {
                                        assert(listed_key(tenant, next, q) == listed_key(tenant, prefix, q));
                                    }
                                }
                            }
                        },
                    }
                },
            }
            i = i + 1;
        }
        proof {
            assert(keys@.take(i as int) =~= keys@);
        }
        Ok(count)
    }
}

} // verus!
