//! Per-tenant durable-resource quotas and client-isolated load shedding.
//!
//! A shed decision is recorded durably as a `Configuration` object of the tenant whose
//! identifier is `quota-shed:`, the client identifier, a zero byte and the big-endian
//! observation time; its bytes are the magic `LXQS`, the client length as a big-endian
//! `u16`, the client, the reason code and five big-endian `u64` counters.
use vstd::prelude::*;

use crate::bytes::{
    fixed_equal, compare_bytes, lemma_lex_transitive, Precedence, has_prefix, is_valid_identifier, lemma_lex_asymmetric, lemma_u16_roundtrip, lemma_u64_at_be, lex_lt, push_all, push_u16, push_u64,
    read_u64, starts_with, text_bytes, u16_be, u16_of, u64_at, u64_be, valid_identifier,
};
use crate::limits::admission::Priority;
use crate::store::{
    ids_contain, kind_ids, lemma_listing_counts, strictly_ascending, valid_object_id, KeyView,
    ObjectKind, StorageClass, Store, StoreError, StoreView, TenantId, TenantKey,
};
use crate::text::utf8_text;

verus! {

/// Durable resource categories with independent per-tenant quotas.
#[derive(Clone, Copy, Debug, PartialEq, Eq, Structural, PartialOrd, Ord)]
pub enum Resource {
    Subscription,
    PreparedActivity,
    OutboxEntry,
    AuditRetention,
    StoredReceipt,
}

/// Position of a resource in `Resource::ALL`.
pub open spec fn resource_rank(r: Resource) -> int {
    match r {
        Resource::Subscription => 0,
        Resource::PreparedActivity => 1,
        Resource::OutboxEntry => 2,
        Resource::AuditRetention => 3,
        Resource::StoredReceipt => 4,
    }
}

/// The resource at a position of `Resource::ALL`.
pub open spec fn resource_at(i: int) -> Resource {
    if i <= 0 {
        Resource::Subscription
    } else if i == 1 {
        Resource::PreparedActivity
    } else if i == 2 {
        Resource::OutboxEntry
    } else if i == 3 {
        Resource::AuditRetention
    } else {
        Resource::StoredReceipt
    }
}

/// The object kind a resource is stored as.
pub open spec fn resource_kind(r: Resource) -> ObjectKind {
    match r {
        Resource::Subscription => ObjectKind::Subscription,
        Resource::PreparedActivity => ObjectKind::PreparedActivity,
        Resource::OutboxEntry => ObjectKind::Outbox,
        Resource::AuditRetention => ObjectKind::Audit,
        Resource::StoredReceipt => ObjectKind::Receipt,
    }
}

impl Resource {
    /// Every resource.
    pub const ALL: [Resource; 5] = [
        Resource::Subscription,
        Resource::PreparedActivity,
        Resource::OutboxEntry,
        Resource::AuditRetention,
        Resource::StoredReceipt,
    ];

    /// Position in `Resource::ALL`.
    pub fn index(self) -> (r: usize)
        ensures
            r == resource_rank(self),
    {
        match self {
            Resource::Subscription => 0,
            Resource::PreparedActivity => 1,
            Resource::OutboxEntry => 2,
            Resource::AuditRetention => 3,
            Resource::StoredReceipt => 4,
        }
    }

    /// The resource at a position of `Resource::ALL`.
    pub fn at(i: usize) -> (r: Resource)
        requires
            i < 5,
        ensures
            r == resource_at(i as int),
            resource_rank(r) == i,
    {
        match i {
            0 => Resource::Subscription,
            1 => Resource::PreparedActivity,
            2 => Resource::OutboxEntry,
            3 => Resource::AuditRetention,
            _ => Resource::StoredReceipt,
        }
    }

    /// The object kind this resource is stored as.
    pub fn object_kind(self) -> (r: ObjectKind)
        ensures
            r == resource_kind(self),
    {
        match self {
            Resource::Subscription => ObjectKind::Subscription,
            Resource::PreparedActivity => ObjectKind::PreparedActivity,
            Resource::OutboxEntry => ObjectKind::Outbox,
            Resource::AuditRetention => ObjectKind::Audit,
            Resource::StoredReceipt => ObjectKind::Receipt,
        }
    }
}

/// The limit the last pair naming `r` sets, if any.
pub open spec fn limit_in(pairs: Seq<(Resource, usize)>, r: Resource) -> Option<usize>
    decreases pairs.len(),
{
    if pairs.len() == 0 {
        None
    } else if pairs.last().0 == r {
        Some(pairs.last().1)
    } else {
        limit_in(pairs.drop_last(), r)
    }
}

/// A configuration that names every resource, the last naming of each with a nonzero limit.
pub open spec fn limits_complete(pairs: Seq<(Resource, usize)>) -> bool {
    forall|i: int| 0 <= i < 5 ==> ((#[trigger] limit_in(pairs, resource_at(i))) matches Some(l) && l > 0)
}

/// One tenant's limits, indexed by resource position.
#[derive(Debug)]
pub struct TenantQuota {
    pub tenant: TenantId,
    pub limits: [usize; 5],
}

impl TenantQuota {
    /// Builds a tenant's quota from `(resource, limit)` pairs; a later pair for the same
    /// resource replaces an earlier one.
    ///
    /// # Errors
    ///
    /// Returns `InvalidConfiguration` unless every resource ends with a nonzero limit.
    pub fn new(tenant: TenantId, limits: Vec<(Resource, usize)>) -> (r: Result<Self, QuotaError>)
        ensures
            r is Ok <==> limits_complete(limits@),
            r matches Ok(q) ==> q.tenant@ == tenant@ && forall|i: int|
                0 <= i < 5 ==> Some(#[trigger] q.limits@[i]) == limit_in(limits@, resource_at(i)),
            r matches Err(e) ==> e is InvalidConfiguration,
    {
        let mut table: [usize; 5] = [0usize; 5];
        let mut i: usize = 0;
        while i < limits.len()
            invariant
                i <= limits.len(),
                table@.len() == 5,
                forall|k: int|
                    0 <= k < 5 ==> (#[trigger] table@[k] == 0 && limit_in(
                        limits@.take(i as int),
                        resource_at(k),
                    ) is None) || (limit_in(limits@.take(i as int), resource_at(k)) == Some(
                        table@[k],
                    )),
            decreases limits.len() - i,
        {
            let (resource, limit) = limits[i];
            let ghost prev = table@;
            table[resource.index()] = limit;
            proof {
                let t = limits@.take(i + 1);
                assert(t.drop_last() =~= limits@.take(i as int));
                assert(t.last() == (resource, limit));
                assert forall|k: int| 0 <= k < 5 implies (#[trigger] table@[k] == 0 && limit_in(
                    t,
                    resource_at(k),
                ) is None) || (limit_in(t, resource_at(k)) == Some(table@[k])) by {
                    if resource_at(k) == resource {
                        assert(k == resource_rank(resource));
                    } else {
                        assert(k != resource_rank(resource));
                        assert(table@[k] == prev[k]);
                    }
                }
            }
            i = i + 1;
        }
        assert(limits@.take(limits@.len() as int) =~= limits@);
        let mut k: usize = 0;
        while k < 5
            invariant
                k <= 5,
                table@.len() == 5,
                forall|j: int|
                    0 <= j < 5 ==> (#[trigger] table@[j] == 0 && limit_in(limits@, resource_at(j))
                        is None) || (limit_in(limits@, resource_at(j)) == Some(table@[j])),
                forall|j: int| 0 <= j < k ==> #[trigger] table@[j] > 0,
            decreases 5 - k,
        {
            if table[k] == 0 {
                assert(!(limit_in(limits@, resource_at(k as int)) matches Some(l) && l > 0));
                return Err(QuotaError::InvalidConfiguration);
            }
            k = k + 1;
        }
        assert forall|j: int| 0 <= j < 5 implies ((#[trigger] limit_in(limits@, resource_at(j)))
            matches Some(l) && l > 0) by {
            assert(table@[j] > 0);
        }
        Ok(TenantQuota { tenant, limits: table })
    }
}

/// Thresholds of client-isolated load shedding.
#[derive(Clone, Copy, Debug, PartialEq, Eq, Structural)]
pub struct SheddingPolicy {
    pub window_ms: u64,
    pub maximum_requests: u64,
    pub maximum_retries: u64,
    pub maximum_identical_operations: u64,
    pub shed_for_ms: u64,
}

/// Every threshold of a shedding policy is nonzero.
pub open spec fn policy_valid(p: SheddingPolicy) -> bool {
    p.window_ms > 0 && p.maximum_requests > 0 && p.maximum_retries > 0
        && p.maximum_identical_operations > 0 && p.shed_for_ms > 0
}

impl SheddingPolicy {
    fn validate(self) -> (r: Result<Self, QuotaError>)
        ensures
            r is Ok <==> policy_valid(self),
            r matches Ok(p) ==> p == self,
            r matches Err(e) ==> e is InvalidConfiguration,
    {
        if self.window_ms == 0 || self.maximum_requests == 0 || self.maximum_retries == 0
            || self.maximum_identical_operations == 0 || self.shed_for_ms == 0 {
            Err(QuotaError::InvalidConfiguration)
        } else {
            Ok(self)
        }
    }
}

/// One observed client request.
#[derive(Debug)]
pub struct ClientActivity {
    pub tenant: TenantId,
    pub client_id: String,
    pub operation_digest: [u8; 32],
    pub retry: bool,
    pub observed_at_ms: u64,
}

/// Why a client is shed.
#[derive(Clone, Copy, Debug, PartialEq, Eq, Structural)]
pub enum SheddingReason {
    RetryStorm,
    HotLoop,
    PathologicalClient,
}

/// The stable one-byte code of a shedding reason.
pub open spec fn reason_code(r: SheddingReason) -> u8 {
    match r {
        SheddingReason::RetryStorm => 1,
        SheddingReason::HotLoop => 2,
        SheddingReason::PathologicalClient => 3,
    }
}

/// The shedding reason with a one-byte code.
pub open spec fn reason_of(code: u8) -> SheddingReason {
    if code == 1 {
        SheddingReason::RetryStorm
    } else if code == 2 {
        SheddingReason::HotLoop
    } else {
        SheddingReason::PathologicalClient
    }
}

impl SheddingReason {
    /// The stable one-byte code.
    pub fn code(self) -> (r: u8)
        ensures
            r == reason_code(self),
    {
        match self {
            SheddingReason::RetryStorm => 1,
            SheddingReason::HotLoop => 2,
            SheddingReason::PathologicalClient => 3,
        }
    }
}

/// A durable decision to shed one client of one tenant.
#[derive(Debug)]
pub struct SheddingDecision {
    pub tenant: TenantId,
    pub client_id: String,
    pub reason: SheddingReason,
    pub observed_at_ms: u64,
    pub shed_until_ms: u64,
    pub requests_in_window: u64,
    pub retries_in_window: u64,
    pub identical_operations: u64,
    pub durable_record: Vec<u8>,
}

/// Use of one resource against its limit.
#[derive(Clone, Copy, Debug, PartialEq, Eq, Structural)]
pub struct ResourceUtilization {
    pub resource: Resource,
    pub used: usize,
    pub limit: usize,
    pub remaining: usize,
}

/// A tenant's quota use and its actively shed clients.
#[derive(Debug)]
pub struct QuotaHealth {
    pub tenant: TenantId,
    pub resources: Vec<ResourceUtilization>,
    pub actively_shed_clients: Vec<String>,
}

/// Refusals of quota and shedding operations.
#[derive(Debug)]
pub enum QuotaError {
    InvalidConfiguration,
    InvalidClient,
    UnconfiguredTenant(TenantId),
    Exhausted { tenant: TenantId, resource: Resource, used: usize, limit: usize },
    ClientShed { tenant: TenantId, client_id: String, reason: SheddingReason, retry_after_ms: u64 },
    TimeRegressed,
    Arithmetic,
    CorruptDecision,
    Store(StoreError),
}

/// The contents of a decision record.
pub struct DecisionRecord {
    pub client: Seq<u8>,
    pub reason: u8,
    pub observed_at_ms: u64,
    pub shed_until_ms: u64,
    pub requests: u64,
    pub retries: u64,
    pub identical: u64,
}

/// The four magic bytes `LXQS`.
pub open spec fn shed_magic() -> Seq<u8> {
    seq![76u8, 88u8, 81u8, 83u8]
}

/// The bytes `quota-shed:` that start every decision identifier.
pub open spec fn shed_prefix() -> Seq<u8> {
    seq![113u8, 117u8, 111u8, 116u8, 97u8, 45u8, 115u8, 104u8, 101u8, 100u8, 58u8]
}

/// The identifier prefix of every decision about one client.
pub open spec fn client_prefix(client: Seq<char>) -> Seq<u8> {
    shed_prefix() + text_bytes(client) + seq![0u8]
}

/// The identifier of the decision about `client` observed at `observed_at_ms`.
pub open spec fn decision_object_id(client: Seq<char>, observed_at_ms: u64) -> Seq<u8> {
    client_prefix(client) + u64_be(observed_at_ms)
}

/// The encoding of a decision record.
pub open spec fn record_bytes(r: DecisionRecord) -> Seq<u8> {
    shed_magic() + u16_be(r.client.len() as u16) + r.client + seq![r.reason] + u64_be(
        r.observed_at_ms,
    ) + u64_be(r.shed_until_ms) + u64_be(r.requests) + u64_be(r.retries) + u64_be(r.identical)
}

/// The record a decision is stored as.
pub open spec fn record_of(d: SheddingDecision) -> DecisionRecord {
    DecisionRecord {
        client: text_bytes(d.client_id@),
        reason: reason_code(d.reason),
        observed_at_ms: d.observed_at_ms,
        shed_until_ms: d.shed_until_ms,
        requests: d.requests_in_window,
        retries: d.retries_in_window,
        identical: d.identical_operations,
    }
}

/// Client bytes that decode to a valid client identifier.
pub open spec fn client_bytes_ok(c: Seq<u8>) -> bool {
    vstd::utf8::valid_utf8(c) && valid_identifier(vstd::utf8::decode_utf8(c))
}

/// The framing of a decision record is whole: magic, length and total size agree.
pub open spec fn decision_framed(b: Seq<u8>) -> bool {
    &&& b.len() >= 47
    &&& b.subrange(0, 4) == shed_magic()
    &&& b.len() == 47 + u16_of(b[4], b[5])
}

/// Reads a decision record.
#[verifier::opaque]
pub open spec fn parse_decision(b: Seq<u8>) -> Option<DecisionRecord> {
    if !decision_framed(b) {
        None
    } else {
        let n = u16_of(b[4], b[5]) as int;
        let client = b.subrange(6, 6 + n);
        if !client_bytes_ok(client) || !(1 <= b[6 + n] <= 3) {
            None
        } else {
            Some(
                DecisionRecord {
                    client,
                    reason: b[6 + n],
                    observed_at_ms: u64_at(b, 7 + n),
                    shed_until_ms: u64_at(b, 15 + n),
                    requests: u64_at(b, 23 + n),
                    retries: u64_at(b, 31 + n),
                    identical: u64_at(b, 39 + n),
                },
            )
        }
    }
}

/// A decision decoded for `tenant` from `rec`.
pub open spec fn decision_matches(d: SheddingDecision, tenant: Seq<char>, rec: DecisionRecord) -> bool {
    &&& d.tenant@ == tenant
    &&& text_bytes(d.client_id@) == rec.client
    &&& reason_code(d.reason) == rec.reason
    &&& d.observed_at_ms == rec.observed_at_ms
    &&& d.shed_until_ms == rec.shed_until_ms
    &&& d.requests_in_window == rec.requests
    &&& d.retries_in_window == rec.retries
    &&& d.identical_operations == rec.identical
    &&& d.durable_record@ == decision_object_id(d.client_id@, d.observed_at_ms)
}

/// Builds the identifier of the decision about `client_id` observed at `observed_at_ms`.
fn decision_object_id_bytes(client_id: &str, observed_at_ms: u64) -> (r: Vec<u8>)
    ensures
        r@ == decision_object_id(client_id@, observed_at_ms),
{
    let mut out = shed_prefix_bytes();
    push_all(&mut out, client_id.as_bytes());
    out.push(0u8);
    push_u64(&mut out, observed_at_ms);
    assert(out@ =~= decision_object_id(client_id@, observed_at_ms));
    out
}

/// The bytes `quota-shed:`.
fn shed_prefix_bytes() -> (r: Vec<u8>)
    ensures
        r@ == shed_prefix(),
{
    let r = vec![113u8, 117u8, 111u8, 116u8, 97u8, 45u8, 115u8, 104u8, 101u8, 100u8, 58u8];
    assert(r@ =~= shed_prefix());
    r
}

/// Encodes a decision for durable storage.
///
/// # Errors
///
/// Returns `InvalidClient` when the client identifier is longer than a `u16` can count.
fn encode_decision(decision: &SheddingDecision) -> (r: Result<Vec<u8>, QuotaError>)
    ensures
        r is Ok <==> text_bytes(decision.client_id@).len() <= u16::MAX,
        r matches Ok(b) ==> b@ == record_bytes(record_of(*decision)),
        r matches Err(e) ==> e is InvalidClient,
{
    let client = decision.client_id.as_str().as_bytes();
    if client.len() > 65535usize {
        return Err(QuotaError::InvalidClient);
    }
    let mut bytes: Vec<u8> = vec![76u8, 88u8, 81u8, 83u8];
    push_u16(&mut bytes, client.len() as u16);
    push_all(&mut bytes, client);
    bytes.push(decision.reason.code());
    push_u64(&mut bytes, decision.observed_at_ms);
    push_u64(&mut bytes, decision.shed_until_ms);
    push_u64(&mut bytes, decision.requests_in_window);
    push_u64(&mut bytes, decision.retries_in_window);
    push_u64(&mut bytes, decision.identical_operations);
    assert(bytes@ =~= record_bytes(record_of(*decision)));
    Ok(bytes)
}

/// Decodes a stored decision of `tenant`.
///
/// # Errors
///
/// Returns `InvalidClient` for a well-framed record whose client identifier is invalid
/// (empty, over 255 bytes, or holding a NUL byte), and `CorruptDecision` otherwise.
fn decode_decision(tenant: TenantId, bytes: &[u8]) -> (r: Result<SheddingDecision, QuotaError>)
    ensures
        r is Ok <==> parse_decision(bytes@) is Some,
        r matches Ok(d) ==> decision_matches(d, tenant@, parse_decision(bytes@).unwrap()),
        r matches Err(e) ==> (e is InvalidClient <==> decision_framed(bytes@)
            && vstd::utf8::valid_utf8(bytes@.subrange(6, 6 + u16_of(bytes@[4], bytes@[5])))
            && !valid_identifier(
            vstd::utf8::decode_utf8(bytes@.subrange(6, 6 + u16_of(bytes@[4], bytes@[5]))),
        )),
        r matches Err(e) ==> e is InvalidClient || e is CorruptDecision,
{
    proof {
        reveal(parse_decision);
    }
    if bytes.len() < 47 || bytes[0] != 76u8 || bytes[1] != 88u8 || bytes[2] != 81u8 || bytes[3]
        != 83u8 {
        proof {
            if bytes.len() >= 47 {
                assert(bytes@.subrange(0, 4) != shed_magic()) by {
                    assert(bytes@.subrange(0, 4)[0] == bytes@[0]);
                    assert(bytes@.subrange(0, 4)[1] == bytes@[1]);
                    assert(bytes@.subrange(0, 4)[2] == bytes@[2]);
                    assert(bytes@.subrange(0, 4)[3] == bytes@[3]);
                }
            }
        }
        return Err(QuotaError::CorruptDecision);
    }
    assert(bytes@.subrange(0, 4) =~= shed_magic());
    let client_length = (((bytes[4] as u16) << 8u16) | (bytes[5] as u16)) as usize;
    assert(client_length == u16_of(bytes@[4], bytes@[5]));
    if bytes.len() != 47 + client_length {
        return Err(QuotaError::CorruptDecision);
    }
    let mut client_bytes: Vec<u8> = Vec::new();
    let mut i: usize = 0;
    while i < client_length
        invariant
            i <= client_length,
            6 + client_length <= bytes.len(),
            client_bytes@ =~= bytes@.subrange(6, 6 + i),
        decreases client_length - i,
    {
        client_bytes.push(bytes[6 + i]);
        i = i + 1;
    }
    let client_id = match utf8_text(client_bytes.as_slice()) {
        Some(text) => text,
        None => {
            return Err(QuotaError::CorruptDecision);
        },
    };
    proof {
        vstd::utf8::encode_utf8_decode_utf8(client_id@);
    }
    if !is_valid_identifier(client_id.as_str()) {
        return Err(QuotaError::InvalidClient);
    }
    let reason = match bytes[6 + client_length] {
        1 => SheddingReason::RetryStorm,
        2 => SheddingReason::HotLoop,
        3 => SheddingReason::PathologicalClient,
        _ => {
            return Err(QuotaError::CorruptDecision);
        },
    };
    let offset = 7 + client_length;
    let observed_at_ms = read_u64(bytes, offset);
    let shed_until_ms = read_u64(bytes, offset + 8);
    let requests_in_window = read_u64(bytes, offset + 16);
    let retries_in_window = read_u64(bytes, offset + 24);
    let identical_operations = read_u64(bytes, offset + 32);
    let durable_record = decision_object_id_bytes(client_id.as_str(), observed_at_ms);
    Ok(
        SheddingDecision {
            tenant,
            client_id,
            reason,
            observed_at_ms,
            shed_until_ms,
            requests_in_window,
            retries_in_window,
            identical_operations,
            durable_record,
        },
    )
}

/// The fields of an encoded decision record sit where the reader looks for them.
proof fn lemma_record_layout(rec: DecisionRecord)
    requires
        rec.client.len() <= 255,
    ensures
        ({
            let b = record_bytes(rec);
            let n = rec.client.len() as int;
            &&& b.len() == 47 + n
            &&& u16_of(b[4], b[5]) == n
            &&& b.subrange(0, 4) == shed_magic()
            &&& b.subrange(6, 6 + n) == rec.client
            &&& b[6 + n] == rec.reason
            &&& u64_at(b, 7 + n) == rec.observed_at_ms
            &&& u64_at(b, 15 + n) == rec.shed_until_ms
            &&& u64_at(b, 23 + n) == rec.requests
            &&& u64_at(b, 31 + n) == rec.retries
            &&& u64_at(b, 39 + n) == rec.identical
        }),
{
    let n: int = rec.client.len() as int;
    let b = record_bytes(rec);
    let len16 = n as u16;
    lemma_u16_roundtrip(len16, 0, 0);
    assert(b[4] == (len16 >> 8u16) as u8);
    assert(b[5] == len16 as u8);
    assert(b.subrange(0, 4) =~= shed_magic());
    assert(b.subrange(6, 6 + n) =~= rec.client);
    let head = shed_magic() + u16_be(len16) + rec.client + seq![rec.reason];
    assert(head.len() == 7 + n);
    let v1 = u64_be(rec.observed_at_ms);
    let v2 = u64_be(rec.shed_until_ms);
    let v3 = u64_be(rec.requests);
    let v4 = u64_be(rec.retries);
    let v5 = u64_be(rec.identical);
    assert(b =~= head + v1 + (v2 + v3 + v4 + v5));
    lemma_u64_at_be(head, rec.observed_at_ms, v2 + v3 + v4 + v5);
    assert(b =~= (head + v1) + v2 + (v3 + v4 + v5));
    lemma_u64_at_be(head + v1, rec.shed_until_ms, v3 + v4 + v5);
    assert(b =~= (head + v1 + v2) + v3 + (v4 + v5));
    lemma_u64_at_be(head + v1 + v2, rec.requests, v4 + v5);
    assert(b =~= (head + v1 + v2 + v3) + v4 + v5);
    lemma_u64_at_be(head + v1 + v2 + v3, rec.retries, v5);
    assert(b =~= (head + v1 + v2 + v3 + v4) + v5 + Seq::<u8>::empty());
    lemma_u64_at_be(head + v1 + v2 + v3 + v4, rec.identical, Seq::<u8>::empty());
}

/// Law: a decision record reads back as itself.
pub proof fn lemma_decision_roundtrip(rec: DecisionRecord)
    requires
        client_bytes_ok(rec.client),
        1 <= rec.reason <= 3,
    ensures
        parse_decision(record_bytes(rec)) == Some(rec),
{
    assert(rec.client.len() <= 255) by {
        vstd::utf8::decode_utf8_encode_utf8(rec.client);
    }
    lemma_record_layout(rec);
    reveal(parse_decision);
}

/// The key of a tenant's `Configuration` object with identifier `id`.
pub open spec fn config_key(tenant: Seq<char>, id: Seq<u8>) -> KeyView {
    KeyView { tenant, kind: ObjectKind::Configuration, object_id: id }
}

/// A stored decision identifier under `prefix`.
pub open spec fn is_candidate(view: StoreView, tenant: Seq<char>, prefix: Seq<u8>, id: Seq<u8>) -> bool {
    view.contains_key(config_key(tenant, id)) && has_prefix(id, prefix)
}

/// The decision record stored under `id`, if it reads.
pub open spec fn stored_record(view: StoreView, tenant: Seq<char>, id: Seq<u8>) -> Option<DecisionRecord> {
    parse_decision(view[config_key(tenant, id)].1)
}

/// Every stored decision under `prefix` reads.
pub open spec fn all_decode(view: StoreView, tenant: Seq<char>, prefix: Seq<u8>) -> bool {
    forall|id: Seq<u8>| #[trigger] is_candidate(view, tenant, prefix, id) ==> stored_record(view, tenant, id) is Some
}

/// Whether the decision under `id` ranks no lower than the one under `other`: a later
/// observation wins, and of equal observations the smaller identifier.
pub open spec fn ranks_over(view: StoreView, tenant: Seq<char>, id: Seq<u8>, other: Seq<u8>) -> bool {
    let a = stored_record(view, tenant, id).unwrap().observed_at_ms;
    let b = stored_record(view, tenant, other).unwrap().observed_at_ms;
    b < a || (b == a && (other == id || lex_lt(id, other)))
}

/// `id` holds the latest decision under `prefix`.
pub open spec fn is_latest(view: StoreView, tenant: Seq<char>, prefix: Seq<u8>, id: Seq<u8>) -> bool {
    &&& is_candidate(view, tenant, prefix, id)
    &&& forall|other: Seq<u8>| #[trigger] is_candidate(view, tenant, prefix, other) ==> ranks_over(view, tenant, id, other)
}

/// What the stored decisions say about one client at time `now`.
pub enum ShedOutcome {
    /// A stored decision does not read.
    Corrupt,
    /// The latest decision was observed after `now`.
    Regressed,
    /// The latest decision still sheds the client.
    Active(DecisionRecord),
    /// No decision sheds the client.
    Clear,
}

/// The shedding state of `client` of `tenant` at `now`, from the store's decisions.
pub open spec fn shed_outcome(view: StoreView, tenant: Seq<char>, client: Seq<char>, now: u64) -> ShedOutcome {
    let prefix = client_prefix(client);
    if !all_decode(view, tenant, prefix) {
        ShedOutcome::Corrupt
    } else if exists|id: Seq<u8>| is_latest(view, tenant, prefix, id) {
        let id = choose|id: Seq<u8>| is_latest(view, tenant, prefix, id);
        let rec = stored_record(view, tenant, id).unwrap();
        if now < rec.observed_at_ms {
            ShedOutcome::Regressed
        } else if now < rec.shed_until_ms {
            ShedOutcome::Active(rec)
        } else {
            ShedOutcome::Clear
        }
    } else {
        ShedOutcome::Clear
    }
}

/// At most one identifier holds the latest decision.
pub proof fn lemma_latest_unique(view: StoreView, tenant: Seq<char>, prefix: Seq<u8>, a: Seq<u8>, b: Seq<u8>)
    requires
        is_latest(view, tenant, prefix, a),
        is_latest(view, tenant, prefix, b),
    ensures
        a == b,
{
    assert(ranks_over(view, tenant, a, b));
    assert(ranks_over(view, tenant, b, a));
    lemma_lex_asymmetric(a, b);
}

/// The window of one client.
pub struct WindowState {
    pub start_ms: u64,
    pub last_observed_ms: u64,
    pub requests: u64,
    pub retries: u64,
    pub last_operation: Seq<u8>,
    pub identical_operations: u64,
}

/// A window opened at `now`.
pub open spec fn fresh_window(now: u64, digest: Seq<u8>) -> WindowState {
    WindowState {
        start_ms: now,
        last_observed_ms: now,
        requests: 0,
        retries: 0,
        last_operation: digest,
        identical_operations: 0,
    }
}

/// The window an observation counts into: the client's current one, or a fresh one when
/// there is none or the current one has lasted a whole policy window.
pub open spec fn base_window(prev: Option<WindowState>, policy: SheddingPolicy, now: u64, digest: Seq<u8>) -> WindowState {
    let w = match prev {
        Some(w) => w,
        None => fresh_window(now, digest),
    };
    if now >= w.start_ms && now - w.start_ms >= policy.window_ms {
        fresh_window(now, digest)
    } else {
        w
    }
}

/// Counts one observation into a window: the resulting window, and whether every counter
/// stayed in range (counting stops at the first counter that would overflow).
pub open spec fn counted(w: WindowState, now: u64, digest: Seq<u8>, retry: bool) -> (WindowState, bool) {
    let w1 = WindowState { last_observed_ms: now, ..w };
    if w1.requests == u64::MAX {
        (w1, false)
    } else {
        let w2 = WindowState { requests: (w1.requests + 1) as u64, ..w1 };
        if retry && w2.retries == u64::MAX {
            (w2, false)
        } else {
            let w3 = if retry {
                WindowState { retries: (w2.retries + 1) as u64, ..w2 }
            } else {
                w2
            };
            if w3.last_operation == digest {
                if w3.identical_operations == u64::MAX {
                    (w3, false)
                } else {
                    (WindowState { identical_operations: (w3.identical_operations + 1) as u64, ..w3 }, true)
                }
            } else {
                (WindowState { last_operation: digest, identical_operations: 1, ..w3 }, true)
            }
        }
    }
}

/// Law: a client's window lasts `window_ms` from the observation that opened it, however
/// steadily the client is observed. An observation at `now` counts into the current window
/// only while that window opened less than `window_ms` before; once it has lasted that
/// long, or when there is none, the observation opens a fresh window holding just itself:
/// one request, one retry if it is a retry, one identical operation.
pub proof fn lemma_window_lasts_its_length(
    prev: Option<WindowState>,
    policy: SheddingPolicy,
    now: u64,
    digest: Seq<u8>,
    retry: bool,
)
    requires
        prev matches Some(pw) ==> pw.start_ms <= now,
    ensures
        ({
            let (w, ok) = counted(base_window(prev, policy, now, digest), now, digest, retry);
            &&& w.start_ms <= now
            &&& w.start_ms == now || now - w.start_ms < policy.window_ms
            &&& w.last_observed_ms == now
            &&& (prev is None || (prev matches Some(pw) && now - pw.start_ms >= policy.window_ms)) ==> {
                &&& ok
                &&& w.start_ms == now
                &&& w.requests == 1
                &&& w.retries == (if retry { 1u64 } else { 0u64 })
                &&& w.identical_operations == 1
            }
            &&& (prev is Some && now - prev->Some_0.start_ms < policy.window_ms) ==> {
                &&& w.start_ms == prev->Some_0.start_ms
                &&& ok ==> w.requests == prev->Some_0.requests + 1 && w.retries == prev->Some_0.retries + (if retry {
                    1int
                } else {
                    0int
                })
            }
        }),
{
}

/// Why a window sheds its client: retry storms first, then hot loops, then plain volume.
pub open spec fn shed_reason(w: WindowState, policy: SheddingPolicy) -> Option<SheddingReason> {
    if w.retries > policy.maximum_retries {
        Some(SheddingReason::RetryStorm)
    } else if w.identical_operations > policy.maximum_identical_operations {
        Some(SheddingReason::HotLoop)
    } else if w.requests > policy.maximum_requests {
        Some(SheddingReason::PathologicalClient)
    } else {
        None
    }
}

#[derive(Clone, Copy, Debug)]
struct ClientWindow {
    start_ms: u64,
    last_observed_ms: u64,
    requests: u64,
    retries: u64,
    last_operation: [u8; 32],
    identical_operations: u64,
}

impl ClientWindow {
    spec fn state(self) -> WindowState {
        WindowState {
            start_ms: self.start_ms,
            last_observed_ms: self.last_observed_ms,
            requests: self.requests,
            retries: self.retries,
            last_operation: self.last_operation@,
            identical_operations: self.identical_operations,
        }
    }
}

#[derive(Debug)]
struct WindowKey {
    tenant: TenantId,
    client: String,
}

/// Per-tenant durable-resource quotas and client-isolated load shedding.
#[derive(Debug)]
pub struct Quota {
    tenants: Vec<TenantQuota>,
    shedding: SheddingPolicy,
    window_keys: Vec<WindowKey>,
    windows: Vec<ClientWindow>,
}

impl Quota {
    /// The limits configured for a tenant, by resource position.
    pub closed spec fn limits_of(&self, tenant: Seq<char>) -> Option<Seq<usize>> {
        if exists|i: int| 0 <= i < self.tenants.len() && #[trigger] self.tenants[i].tenant@ == tenant {
            let i = choose|i: int| 0 <= i < self.tenants.len() && #[trigger] self.tenants[i].tenant@ == tenant;
            Some(self.tenants[i].limits@)
        } else {
            None
        }
    }

    /// The shedding policy.
    pub closed spec fn policy(&self) -> SheddingPolicy {
        self.shedding
    }

    /// The current window of a client, if it has one.
    pub closed spec fn window_of(&self, tenant: Seq<char>, client: Seq<char>) -> Option<WindowState> {
        if exists|i: int| 0 <= i < self.window_keys.len() && #[trigger] self.window_keys[i].tenant@ == tenant && self.window_keys[i].client@ == client {
            let i = choose|i: int| 0 <= i < self.window_keys.len() && #[trigger] self.window_keys[i].tenant@ == tenant && self.window_keys[i].client@ == client;
            Some(self.windows[i].state())
        } else {
            None
        }
    }

    /// The quota's invariant: one configuration per tenant, one window per client, and
    /// a valid policy.
    pub closed spec fn wf(&self) -> bool {
        &&& forall|i: int, j: int| 0 <= i < j < self.tenants.len() ==> (#[trigger] self.tenants[i]).tenant@ != (#[trigger] self.tenants[j]).tenant@
        &&& self.window_keys.len() == self.windows.len()
        &&& forall|i: int, j: int| 0 <= i < j < self.window_keys.len() ==> !((#[trigger] self.window_keys[i]).tenant@ == (#[trigger] self.window_keys[j]).tenant@ && self.window_keys[i].client@ == self.window_keys[j].client@)
        &&& policy_valid(self.shedding)
    }

    /// Builds quotas for distinct tenants.
    ///
    /// # Errors
    ///
    /// Returns `InvalidConfiguration` for no tenant, a repeated tenant, or a policy with a
    /// zero threshold.
    pub fn new(tenants: Vec<TenantQuota>, shedding: SheddingPolicy) -> (r: Result<Self, QuotaError>)
        ensures
            r is Ok <==> (tenants@.len() > 0 && policy_valid(shedding) && forall|i: int, j: int|
                0 <= i < j < tenants@.len() ==> (#[trigger] tenants@[i]).tenant@ != (#[trigger] tenants@[j]).tenant@),
            r matches Ok(q) ==> q.wf() && q.policy() == shedding && (forall|t: Seq<char>, c: Seq<char>| #[trigger] q.window_of(t, c) is None)
                && (forall|i: int| 0 <= i < tenants@.len() ==> q.limits_of(#[trigger] tenants@[i].tenant@) == Some(tenants@[i].limits@))
                && (forall|t: Seq<char>| (forall|i: int| 0 <= i < tenants@.len() ==> #[trigger] tenants@[i].tenant@ != t) ==> q.limits_of(t) is None),
            r matches Err(e) ==> e is InvalidConfiguration,
    {
        let mut i: usize = 1;
        while i < tenants.len()
            invariant
                1 <= i || tenants.len() == 0,
                i <= tenants.len() || tenants.len() == 0,
                forall|a: int, b: int| 0 <= a < b < i && b < tenants@.len() ==> (#[trigger] tenants@[a]).tenant@ != (#[trigger] tenants@[b]).tenant@,
            decreases tenants.len() - i,
        {
            let mut j: usize = 0;
            while j < i
                invariant
                    j <= i,
                    i < tenants.len(),
                    forall|a: int, b: int| 0 <= a < b < i ==> (#[trigger] tenants@[a]).tenant@ != (#[trigger] tenants@[b]).tenant@,
                    forall|a: int| 0 <= a < j ==> (#[trigger] tenants@[a]).tenant@ != tenants@[i as int].tenant@,
                decreases i - j,
            {
                if tenants[j].tenant.same(&tenants[i].tenant) {
                    return Err(QuotaError::InvalidConfiguration);
                }
                j = j + 1;
            }
            i = i + 1;
        }
        if tenants.len() == 0 {
            return Err(QuotaError::InvalidConfiguration);
        }
        let shedding = shedding.validate()?;
        let q = Quota { tenants, shedding, window_keys: Vec::new(), windows: Vec::new() };
        proof {
            assert forall|k: int| 0 <= k < q.tenants.len() implies q.limits_of(#[trigger] q.tenants@[k].tenant@) == Some(q.tenants@[k].limits@) by {
                let t = q.tenants@[k].tenant@;
                let c = choose|c: int| 0 <= c < q.tenants.len() && #[trigger] q.tenants[c].tenant@ == t;
                if c != k {
                    if c < k {
                        assert(q.tenants@[c].tenant@ != q.tenants@[k].tenant@);
                    } else {
                        assert(q.tenants@[k].tenant@ != q.tenants@[c].tenant@);
                    }
                }
            }
        }
        Ok(q)
    }

    /// The configuration of a tenant.
    fn configuration(&self, tenant: &TenantId) -> (r: Result<&TenantQuota, QuotaError>)
        requires
            self.wf(),
        ensures
            r is Ok <==> self.limits_of(tenant@) is Some,
            r matches Ok(q) ==> Some(q.limits@) == self.limits_of(tenant@),
            r matches Err(e) ==> (e matches QuotaError::UnconfiguredTenant(t) && t@ == tenant@),
    {
        let mut i: usize = 0;
        while i < self.tenants.len()
            invariant
                self.wf(),
                i <= self.tenants.len(),
                forall|a: int| 0 <= a < i ==> (#[trigger] self.tenants@[a]).tenant@ != tenant@,
            decreases self.tenants.len() - i,
        {
            if self.tenants[i].tenant.same(tenant) {
                proof {
                    let c = choose|c: int| 0 <= c < self.tenants.len() && #[trigger] self.tenants[c].tenant@ == tenant@;
                    if c != i {
                        if c < i {
                            assert(self.tenants@[c].tenant@ != self.tenants@[i as int].tenant@);
                        } else {
                            assert(self.tenants@[i as int].tenant@ != self.tenants@[c].tenant@);
                        }
                    }
                }
                return Ok(&self.tenants[i]);
            }
            i = i + 1;
        }
        Err(QuotaError::UnconfiguredTenant(tenant.clone()))
    }
}

/// Checks a client identifier: non-empty, at most 255 bytes, no NUL byte.
fn validate_client(client_id: &str) -> (r: Result<(), QuotaError>)
    ensures
        r is Ok <==> valid_identifier(client_id@),
        r matches Err(e) ==> e is InvalidClient,
{
    if is_valid_identifier(client_id) {
        Ok(())
    } else {
        Err(QuotaError::InvalidClient)
    }
}

/// Builds the identifier prefix of every decision about `client_id`.
fn client_prefix_bytes(client_id: &str) -> (r: Vec<u8>)
    ensures
        r@ == client_prefix(client_id@),
{
    let mut out = shed_prefix_bytes();
    push_all(&mut out, client_id.as_bytes());
    out.push(0u8);
    assert(out@ =~= client_prefix(client_id@));
    out
}

/// Reads the decision stored under a listed identifier.
fn read_decision(store: &Store, tenant: &TenantId, id: &Vec<u8>) -> (r: Result<SheddingDecision, QuotaError>)
    requires
        store.wf(),
        store.view().contains_key(config_key(tenant@, id@)),
    ensures
        r is Ok <==> stored_record(store.view(), tenant@, id@) is Some,
        r matches Ok(d) ==> decision_matches(d, tenant@, stored_record(store.view(), tenant@, id@).unwrap()),
        r matches Err(e) ==> e is InvalidClient || e is CorruptDecision,
{
    proof {
        store.lemma_view_key_valid(config_key(tenant@, id@));
    }
    let mut copy: Vec<u8> = Vec::new();
    push_all(&mut copy, id.as_slice());
    let key = match TenantKey::new(tenant.clone(), ObjectKind::Configuration, copy) {
        Ok(key) => key,
        Err(_) => {
            return Err(QuotaError::CorruptDecision);
        },
    };
    assert(key@ == config_key(tenant@, id@));
    match store.get(&key) {
        Some(value) => decode_decision(tenant.clone(), value.bytes()),
        None => Err(QuotaError::CorruptDecision),
    }
}

/// The latest decision still shedding `client_id` of `tenant` at `now`.
///
/// # Errors
///
/// Returns `CorruptDecision` or `InvalidClient` when a stored decision about the client
/// does not read, and `TimeRegressed` when the latest one was observed after `now`.
#[verifier::rlimit(40)]
fn active_decision(store: &Store, tenant: &TenantId, client_id: &str, observed_at_ms: u64) -> (r: Result<Option<SheddingDecision>, QuotaError>)
    requires
        store.wf(),
    ensures
        ({
            let outcome = shed_outcome(store.view(), tenant@, client_id@, observed_at_ms);
            &&& outcome is Corrupt ==> (r matches Err(e) && (e is CorruptDecision || e is InvalidClient))
            &&& outcome is Regressed ==> (r matches Err(e) && e is TimeRegressed)
            &&& outcome is Clear ==> (r matches Ok(o) && o is None)
            &&& outcome matches ShedOutcome::Active(rec) ==> (r matches Ok(Some(d)) && decision_matches(d, tenant@, rec))
        }),
{
    let ghost view = store.view();
    let ghost t = tenant@;
    let ids = store.list_object_ids(tenant, ObjectKind::Configuration);
    let prefix = client_prefix_bytes(client_id);
    let ghost p = prefix@;
    let mut latest: Option<SheddingDecision> = None;
    let ghost mut latest_id: Seq<u8> = Seq::empty();
    let mut i: usize = 0;
    while i < ids.len()
        invariant
            store.wf(),
            view == store.view(),
            t == tenant@,
            p == prefix@,
            p == client_prefix(client_id@),
            i <= ids.len(),
            strictly_ascending(ids@),
            forall|id: Seq<u8>| #[trigger] ids_contain(ids@, id) <==> view.contains_key(config_key(t, id)),
            forall|a: int| 0 <= a < i && #[trigger] is_candidate(view, t, p, ids@[a]@) ==> stored_record(view, t, ids@[a]@) is Some,
            latest is None <==> forall|a: int| 0 <= a < i ==> !(#[trigger] is_candidate(view, t, p, ids@[a]@)),
            latest matches Some(d) ==> {
                &&& is_candidate(view, t, p, latest_id)
                &&& stored_record(view, t, latest_id) is Some
                &&& decision_matches(d, t, stored_record(view, t, latest_id).unwrap())
                &&& exists|a: int| 0 <= a < i && ids@[a]@ == latest_id
                &&& forall|a: int| 0 <= a < i && #[trigger] is_candidate(view, t, p, ids@[a]@) ==> ranks_over(view, t, latest_id, ids@[a]@)
            },
        decreases ids.len() - i,
    {
        let id = &ids[i];
        proof {
            assert(ids_contain(ids@, id@));
        }
        if starts_with(id.as_slice(), prefix.as_slice()) {
            let decision = match read_decision(store, tenant, id) {
                Ok(d) => d,
                Err(e) => {
                    proof {
                        assert(is_candidate(view, t, p, id@));
                        assert(!all_decode(view, t, p));
                    }
                    return Err(e);
                },
            };
            let replace = match &latest {
                None => true,
                Some(current) => decision.observed_at_ms > current.observed_at_ms,
            };
            if replace {
                proof {
                    assert forall|a: int| 0 <= a < i + 1 && #[trigger] is_candidate(view, t, p, ids@[a]@) implies ranks_over(view, t, id@, ids@[a]@) by {
                        if a < i {
                            assert(lex_lt(ids@[a]@, ids@[i as int]@));
                        }
                    }
                    latest_id = id@;
                    assert(is_candidate(view, t, p, ids@[i as int]@));
                }
                latest = Some(decision);
            } else {
                proof {
                    assert forall|a: int| 0 <= a < i + 1 && #[trigger] is_candidate(view, t, p, ids@[a]@) implies ranks_over(view, t, latest_id, ids@[a]@) by {
                        if a == i {
                            let c = choose|c: int| 0 <= c < i && ids@[c]@ == latest_id;
                            assert(lex_lt(ids@[c]@, ids@[i as int]@));
                        }
                    }
                    assert(is_candidate(view, t, p, ids@[i as int]@));
                }
            }
        } else {
            proof {
                assert(!is_candidate(view, t, p, ids@[i as int]@));
            }
        }
        i = i + 1;
    }
    proof {
        assert forall|id: Seq<u8>| #[trigger] is_candidate(view, t, p, id) implies stored_record(view, t, id) is Some by {
            assert(ids_contain(ids@, id));
            let a = choose|a: int| 0 <= a < ids@.len() && #[trigger] ids@[a]@ == id;
            assert(is_candidate(view, t, p, ids@[a]@));
        }
    }
    match latest {
        None => {
            proof {
                assert forall|id: Seq<u8>| !is_latest(view, t, p, id) by {
                    if is_candidate(view, t, p, id) {
                        assert(ids_contain(ids@, id));
                        let a = choose|a: int| 0 <= a < ids@.len() && #[trigger] ids@[a]@ == id;
                        assert(is_candidate(view, t, p, ids@[a]@));
                    }
                }
            }
            Ok(None)
        },
        Some(decision) => {
            proof {
                assert forall|other: Seq<u8>| #[trigger] is_candidate(view, t, p, other) implies ranks_over(view, t, latest_id, other) by {
                    assert(ids_contain(ids@, other));
                    let a = choose|a: int| 0 <= a < ids@.len() && #[trigger] ids@[a]@ == other;
                    assert(is_candidate(view, t, p, ids@[a]@));
                }
                assert(is_latest(view, t, p, latest_id));
                let chosen = choose|id: Seq<u8>| is_latest(view, t, p, id);
                lemma_latest_unique(view, t, p, chosen, latest_id);
            }
            if observed_at_ms < decision.observed_at_ms {
                return Err(QuotaError::TimeRegressed);
            }
            if observed_at_ms < decision.shed_until_ms {
                Ok(Some(decision))
            } else {
                Ok(None)
            }
        },
    }
}

/// The outcome of admitting one piece of work.
pub enum AdmitOutcome {
    Unconfigured,
    InvalidClient,
    Allowed,
    Corrupt,
    Regressed,
    Shed(DecisionRecord),
}

/// Admission of work: submission and receipt resolution always pass for a configured
/// tenant and a valid client; other work is refused while a decision sheds the client.
pub open spec fn admit_outcome(
    limits: Option<Seq<usize>>,
    view: StoreView,
    tenant: Seq<char>,
    client: Seq<char>,
    priority: Priority,
    now: u64,
) -> AdmitOutcome {
    if limits is None {
        AdmitOutcome::Unconfigured
    } else if !valid_identifier(client) {
        AdmitOutcome::InvalidClient
    } else if priority == Priority::Submission || priority == Priority::ReceiptResolution {
        AdmitOutcome::Allowed
    } else {
        match shed_outcome(view, tenant, client, now) {
            ShedOutcome::Corrupt => AdmitOutcome::Corrupt,
            ShedOutcome::Regressed => AdmitOutcome::Regressed,
            ShedOutcome::Clear => AdmitOutcome::Allowed,
            ShedOutcome::Active(rec) => AdmitOutcome::Shed(rec),
        }
    }
}

/// The result an admission outcome is reported as.
pub open spec fn admit_reported(outcome: AdmitOutcome, tenant: Seq<char>, client: Seq<char>, now: u64, r: Result<(), QuotaError>) -> bool {
    match outcome {
        AdmitOutcome::Unconfigured => r matches Err(QuotaError::UnconfiguredTenant(x)) && x@ == tenant,
        AdmitOutcome::InvalidClient => r matches Err(e) && e is InvalidClient,
        AdmitOutcome::Allowed => r is Ok,
        AdmitOutcome::Corrupt => r matches Err(e) && (e is CorruptDecision || e is InvalidClient),
        AdmitOutcome::Regressed => r matches Err(e) && e is TimeRegressed,
        AdmitOutcome::Shed(rec) => r matches Err(QuotaError::ClientShed { tenant: x, client_id: c, reason, retry_after_ms })
            && x@ == tenant && c@ == client && reason_code(reason) == rec.reason
            && retry_after_ms == rec.shed_until_ms - now,
    }
}

/// Everything but one client's window is unchanged.
pub open spec fn only_window_changed(before: &Quota, after: &Quota, tenant: Seq<char>, client: Seq<char>) -> bool {
    &&& after.policy() == before.policy()
    &&& forall|t: Seq<char>| #[trigger] after.limits_of(t) == before.limits_of(t)
    &&& forall|t: Seq<char>, c: Seq<char>| !(t == tenant && c == client) ==> #[trigger] after.window_of(t, c) == before.window_of(t, c)
}

/// Nothing observable changed.
pub open spec fn quota_unchanged(before: &Quota, after: &Quota) -> bool {
    &&& after.policy() == before.policy()
    &&& forall|t: Seq<char>| #[trigger] after.limits_of(t) == before.limits_of(t)
    &&& forall|t: Seq<char>, c: Seq<char>| #[trigger] after.window_of(t, c) == before.window_of(t, c)
}

/// Client identifiers in strictly increasing byte order.
pub open spec fn clients_sorted(list: Seq<String>) -> bool {
    forall|a: int, b: int| 0 <= a < b < list.len() ==> lex_lt(text_bytes((#[trigger] list[a])@), text_bytes((#[trigger] list[b])@))
}

/// Whether a list of clients holds `c`.
pub open spec fn clients_contain(list: Seq<String>, c: Seq<char>) -> bool {
    exists|a: int| 0 <= a < list.len() && (#[trigger] list[a])@ == c
}

/// A client that a stored decision of `tenant` still sheds at `now`.
pub open spec fn actively_shed(view: StoreView, tenant: Seq<char>, now: u64, c: Seq<char>) -> bool {
    exists|id: Seq<u8>| #[trigger] is_candidate(view, tenant, shed_prefix(), id) && {
        let rec = stored_record(view, tenant, id).unwrap();
        vstd::utf8::decode_utf8(rec.client) == c && now < rec.shed_until_ms
    }
}

/// Where `client` sits in a sorted list: `Ok` at its entry, or `Err` at its insertion point.
fn client_position(list: &Vec<String>, client: &String) -> (r: Result<usize, usize>)
    requires
        clients_sorted(list@),
    ensures
        r matches Ok(p) ==> p < list@.len() && list@[p as int]@ == client@,
        r matches Err(p) ==> p <= list@.len() && (forall|a: int| 0 <= a < p ==> lex_lt(text_bytes((#[trigger] list@[a])@), text_bytes(client@)))
            && (p < list@.len() ==> lex_lt(text_bytes(client@), text_bytes(list@[p as int]@))),
{
    let mut p: usize = 0;
    while p < list.len()
        invariant
            p <= list.len(),
            forall|a: int| 0 <= a < p ==> lex_lt(text_bytes((#[trigger] list@[a])@), text_bytes(client@)),
        decreases list.len() - p,
    {
        match compare_bytes(list[p].as_str().as_bytes(), client.as_str().as_bytes()) {
            Precedence::Before => {},
            Precedence::Same => {
                proof {
                    crate::store::lemma_text_bytes_injective(list@[p as int]@, client@);
                }
                return Ok(p);
            },
            Precedence::After => {
                return Err(p);
            },
        }
        p = p + 1;
    }
    Err(p)
}

/// Adds a client to a sorted list of distinct clients.
fn insert_client(list: &mut Vec<String>, client: String)
    requires
        clients_sorted(old(list)@),
    ensures
        clients_sorted(final(list)@),
        forall|c: Seq<char>| #[trigger] clients_contain(final(list)@, c) <==> (clients_contain(old(list)@, c) || c == client@),
{
    let p = match client_position(list, &client) {
        Ok(found) => {
            proof {
                assert forall|c: Seq<char>| #[trigger] clients_contain(list@, c) <==> (clients_contain(list@, c) || c == client@) by {
                    if c == client@ {
                        assert(list@[found as int]@ == c);
                    }
                }
            }
            return;
        },
        Err(p) => p,
    };
    let ghost before = list@;
    list.insert(p, client);
    proof {
        assert forall|a: int, b: int| 0 <= a < b < list@.len() implies lex_lt(text_bytes((#[trigger] list@[a])@), text_bytes((#[trigger] list@[b])@)) by {
            if b < p {
                assert(list@[a] == before[a] && list@[b] == before[b]);
            } else if b == p {
                assert(list@[a] == before[a]);
            } else if a == p {
                assert(list@[b] == before[b - 1]);
                if b - 1 > p {
                    assert(lex_lt(text_bytes(before[p as int]@), text_bytes(before[b - 1]@)));
                    lemma_lex_transitive(text_bytes(client@), text_bytes(before[p as int]@), text_bytes(before[b - 1]@));
                }
            } else if a < p {
                assert(list@[a] == before[a] && list@[b] == before[b - 1]);
            } else {
                assert(list@[a] == before[a - 1] && list@[b] == before[b - 1]);
            }
        }
        assert forall|c: Seq<char>| #[trigger] clients_contain(list@, c) <==> (clients_contain(before, c) || c == client@) by {
            if clients_contain(before, c) {
                let a = choose|a: int| 0 <= a < before.len() && (#[trigger] before[a])@ == c;
                if a < p {
                    assert(list@[a] == before[a]);
                } else {
                    assert(list@[a + 1] == before[a]);
                }
            }
            if c == client@ {
                assert(list@[p as int]@ == c);
            }
            if clients_contain(list@, c) {
                let a = choose|a: int| 0 <= a < list@.len() && (#[trigger] list@[a])@ == c;
                if a < p {
                    assert(list@[a] == before[a]);
                } else if a > p {
                    assert(list@[a] == before[a - 1]);
                }
            }
        }
    }
}

impl Quota {
    /// Preserves submission and receipt-resolution capacity while shedding only
    /// non-critical work belonging to an actively shed client.
    ///
    /// # Errors
    ///
    /// `UnconfiguredTenant`, `InvalidClient`, `ClientShed` for shed work, and the errors of
    /// reading the client's stored decisions.
    pub fn admit_work(&self, store: &Store, tenant: &TenantId, client_id: &str, priority: Priority, observed_at_ms: u64) -> (r: Result<(), QuotaError>)
        requires
            self.wf(),
            store.wf(),
        ensures
            admit_reported(admit_outcome(self.limits_of(tenant@), store.view(), tenant@, client_id@, priority, observed_at_ms), tenant@, client_id@, observed_at_ms, r),
    {
        self.configuration(tenant)?;
        validate_client(client_id)?;
        match priority {
            Priority::Submission | Priority::ReceiptResolution => {
                return Ok(());
            },
            _ => {},
        }
        match active_decision(store, tenant, client_id, observed_at_ms)? {
            Some(decision) => Err(QuotaError::ClientShed {
                tenant: tenant.clone(),
                client_id: client_id.to_owned(),
                reason: decision.reason,
                retry_after_ms: decision.shed_until_ms - observed_at_ms,
            }),
            None => Ok(()),
        }
    }

    /// Creates one real durable resource only after checking its tenant quota.
    ///
    /// # Errors
    ///
    /// The refusals of [`Quota::admit_work`] for interactive work, `Store` for an invalid
    /// object identifier, and `Exhausted` when a new object would exceed the limit.
    pub fn create_resource(
        &self,
        store: &mut Store,
        tenant: &TenantId,
        client_id: &str,
        resource: Resource,
        object_id: Vec<u8>,
        bytes: Vec<u8>,
        observed_at_ms: u64,
    ) -> (r: Result<(), QuotaError>)
        requires
            self.wf(),
            old(store).wf(),
        ensures
            final(store).wf(),
            ({
                let outcome = admit_outcome(self.limits_of(tenant@), old(store).view(), tenant@, client_id@, Priority::InteractiveRead, observed_at_ms);
                let key = KeyView { tenant: tenant@, kind: resource_kind(resource), object_id: object_id@ };
                let used = kind_ids(old(store).view(), tenant@, resource_kind(resource)).len();
                let limit = self.limits_of(tenant@).unwrap()[resource_rank(resource)];
                let class = if resource == Resource::StoredReceipt { StorageClass::CoreProducedCache } else { StorageClass::LocalOnly };
                if !(outcome is Allowed) {
                    &&& admit_reported(outcome, tenant@, client_id@, observed_at_ms, r)
                    &&& final(store).view() == old(store).view()
                } else if !valid_object_id(object_id@) {
                    &&& r matches Err(QuotaError::Store(e)) && e is InvalidObjectId
                    &&& final(store).view() == old(store).view()
                } else if !old(store).view().contains_key(key) && used >= limit {
                    &&& r matches Err(QuotaError::Exhausted { tenant: x, resource: res, used: u, limit: l }) && x@ == tenant@ && res == resource && u == used && l == limit
                    &&& final(store).view() == old(store).view()
                } else {
                    &&& r is Ok
                    &&& final(store).view() == old(store).view().insert(key, (class, bytes@))
                }
            }),
    {
        self.admit_work(store, tenant, client_id, Priority::InteractiveRead, observed_at_ms)?;
        let configuration = self.configuration(tenant)?;
        let kind = resource.object_kind();
        let key = match TenantKey::new(tenant.clone(), kind, object_id) {
            Ok(key) => key,
            Err(e) => {
                return Err(QuotaError::Store(e));
            },
        };
        let ids = store.list_object_ids(tenant, kind);
        proof {
            lemma_listing_counts(ids@, store.view(), tenant@, kind);
        }
        let used = ids.len();
        let limit = configuration.limits[resource.index()];
        if store.get(&key).is_none() && used >= limit {
            return Err(QuotaError::Exhausted { tenant: tenant.clone(), resource, used, limit });
        }
        match resource {
            Resource::StoredReceipt => {
                store.put(key, StorageClass::CoreProducedCache, bytes);
            },
            _ => {
                store.put(key, StorageClass::LocalOnly, bytes);
            },
        }
        Ok(())
    }

    /// Reports a tenant's use of every resource and the clients its stored decisions still
    /// shed at `observed_at_ms`.
    ///
    /// # Errors
    ///
    /// `UnconfiguredTenant`, and `CorruptDecision` or `InvalidClient` when a stored
    /// decision does not read.
    pub fn health(&self, store: &Store, tenant: &TenantId, observed_at_ms: u64) -> (r: Result<QuotaHealth, QuotaError>)
        requires
            self.wf(),
            store.wf(),
        ensures
            self.limits_of(tenant@) is None ==> (r matches Err(QuotaError::UnconfiguredTenant(x)) && x@ == tenant@),
            self.limits_of(tenant@) is Some ==> {
                &&& r is Ok <==> all_decode(store.view(), tenant@, shed_prefix())
                &&& r matches Err(e) ==> (e is CorruptDecision || e is InvalidClient)
                &&& r matches Ok(h) ==> {
                    &&& h.tenant@ == tenant@
                    &&& h.resources@.len() == 5
                    &&& forall|i: int| 0 <= i < 5 ==> {
                        let u = #[trigger] h.resources@[i];
                        let limit = self.limits_of(tenant@).unwrap()[i];
                        &&& u.resource == resource_at(i)
                        &&& u.used == kind_ids(store.view(), tenant@, resource_kind(resource_at(i))).len()
                        &&& u.limit == limit
                        &&& u.remaining == if u.used <= limit { limit - u.used } else { 0 }
                    }
                    &&& clients_sorted(h.actively_shed_clients@)
                    &&& forall|c: Seq<char>| #[trigger] clients_contain(h.actively_shed_clients@, c) <==> actively_shed(store.view(), tenant@, observed_at_ms, c)
                }
            },
    {
        let configuration = self.configuration(tenant)?;
        let ghost limits = configuration.limits@;
        let mut resources: Vec<ResourceUtilization> = Vec::new();
        let mut k: usize = 0;
        while k < 5
            invariant
                k <= 5,
                store.wf(),
                limits == configuration.limits@,
                limits.len() == 5,
                resources@.len() == k,
                forall|i: int| 0 <= i < k ==> {
                    let u = #[trigger] resources@[i];
                    &&& u.resource == resource_at(i)
                    &&& u.used == kind_ids(store.view(), tenant@, resource_kind(resource_at(i))).len()
                    &&& u.limit == limits[i]
                    &&& u.remaining == if u.used <= limits[i] { limits[i] - u.used } else { 0 }
                },
            decreases 5 - k,
        {
            let resource = Resource::at(k);
            let ids = store.list_object_ids(tenant, resource.object_kind());
            proof {
                lemma_listing_counts(ids@, store.view(), tenant@, resource_kind(resource));
            }
            let used = ids.len();
            let limit = configuration.limits[k];
            let remaining = if used <= limit { limit - used } else { 0 };
            resources.push(ResourceUtilization { resource, used, limit, remaining });
            k = k + 1;
        }
        let ghost view = store.view();
        let ghost t = tenant@;
        let ids = store.list_object_ids(tenant, ObjectKind::Configuration);
        let prefix = shed_prefix_bytes();
        let mut clients: Vec<String> = Vec::new();
        let mut i: usize = 0;
        while i < ids.len()
            invariant
                store.wf(),
                self.wf(),
                self.limits_of(tenant@) is Some,
                view == store.view(),
                t == tenant@,
                prefix@ == shed_prefix(),
                i <= ids.len(),
                strictly_ascending(ids@),
                forall|id: Seq<u8>| #[trigger] ids_contain(ids@, id) <==> view.contains_key(config_key(t, id)),
                forall|a: int| 0 <= a < i && #[trigger] is_candidate(view, t, shed_prefix(), ids@[a]@) ==> stored_record(view, t, ids@[a]@) is Some,
                clients_sorted(clients@),
                forall|c: Seq<char>| #[trigger] clients_contain(clients@, c) <==> exists|a: int| 0 <= a < i && #[trigger] is_candidate(view, t, shed_prefix(), ids@[a]@) && {
                    let rec = stored_record(view, t, ids@[a]@).unwrap();
                    vstd::utf8::decode_utf8(rec.client) == c && observed_at_ms < rec.shed_until_ms
                },
            decreases ids.len() - i,
        {
            let id = &ids[i];
            proof {
                assert(ids_contain(ids@, id@));
            }
            if starts_with(id.as_slice(), prefix.as_slice()) {
                let decision = match read_decision(store, tenant, id) {
                    Ok(d) => d,
                    Err(e) => {
                        proof {
                            assert(is_candidate(view, t, shed_prefix(), id@));
                        }
                        return Err(e);
                    },
                };
                proof {
                    vstd::utf8::encode_utf8_decode_utf8(decision.client_id@);
                }
                let ghost before = clients@;
                if observed_at_ms < decision.shed_until_ms {
                    insert_client(&mut clients, decision.client_id);
                }
                proof {
                    assert forall|c: Seq<char>| #[trigger] clients_contain(clients@, c) <==> exists|a: int| 0 <= a < i + 1 && #[trigger] is_candidate(view, t, shed_prefix(), ids@[a]@) && {
                        let rec = stored_record(view, t, ids@[a]@).unwrap();
                        vstd::utf8::decode_utf8(rec.client) == c && observed_at_ms < rec.shed_until_ms
                    } by {
                        assert(is_candidate(view, t, shed_prefix(), ids@[i as int]@));
                    }
                }
            } else {
                proof {
                    assert(!is_candidate(view, t, shed_prefix(), ids@[i as int]@));
                }
            }
            i = i + 1;
        }
        proof {
            assert forall|id: Seq<u8>| #[trigger] is_candidate(view, t, shed_prefix(), id) implies stored_record(view, t, id) is Some by {
                assert(ids_contain(ids@, id));
                let a = choose|a: int| 0 <= a < ids@.len() && #[trigger] ids@[a]@ == id;
                assert(is_candidate(view, t, shed_prefix(), ids@[a]@));
            }
            assert forall|c: Seq<char>| #[trigger] clients_contain(clients@, c) <==> actively_shed(view, t, observed_at_ms, c) by {
                if actively_shed(view, t, observed_at_ms, c) {
                    let id = choose|id: Seq<u8>| #[trigger] is_candidate(view, t, shed_prefix(), id) && {
                        let rec = stored_record(view, t, id).unwrap();
                        vstd::utf8::decode_utf8(rec.client) == c && observed_at_ms < rec.shed_until_ms
                    };
                    assert(ids_contain(ids@, id));
                    let a = choose|a: int| 0 <= a < ids@.len() && #[trigger] ids@[a]@ == id;
                    assert(is_candidate(view, t, shed_prefix(), ids@[a]@));
                }
            }
        }
        Ok(QuotaHealth { tenant: tenant.clone(), resources, actively_shed_clients: clients })
    }
}

impl Quota {
    proof fn lemma_window_at(&self, i: int)
        requires
            self.wf(),
            0 <= i < self.window_keys.len(),
        ensures
            self.window_of(self.window_keys[i].tenant@, self.window_keys[i].client@) == Some(self.windows[i].state()),
    {
        let t = self.window_keys[i].tenant@;
        let c = self.window_keys[i].client@;
        let j = choose|j: int| 0 <= j < self.window_keys.len() && #[trigger] self.window_keys[j].tenant@ == t && self.window_keys[j].client@ == c;
        if j != i {
            if j < i {
                assert(!(self.window_keys[j].tenant@ == self.window_keys[i].tenant@ && self.window_keys[j].client@ == self.window_keys[i].client@));
            } else {
                assert(!(self.window_keys[i].tenant@ == self.window_keys[j].tenant@ && self.window_keys[i].client@ == self.window_keys[j].client@));
            }
        }
    }

    /// The position of a client's window.
    fn window_index(&self, tenant: &TenantId, client: &String) -> (r: Option<usize>)
        requires
            self.wf(),
        ensures
            r matches Some(i) ==> i < self.window_keys.len() && self.window_keys[i as int].tenant@ == tenant@ && self.window_keys[i as int].client@ == client@,
            r is None ==> forall|j: int| 0 <= j < self.window_keys.len() ==> !(#[trigger] self.window_keys[j].tenant@ == tenant@ && self.window_keys[j].client@ == client@),
    {
        let mut i: usize = 0;
        while i < self.window_keys.len()
            invariant
                i <= self.window_keys.len(),
                forall|j: int| 0 <= j < i ==> !(#[trigger] self.window_keys[j].tenant@ == tenant@ && self.window_keys[j].client@ == client@),
            decreases self.window_keys.len() - i,
        {
            if self.window_keys[i].tenant.same(tenant) && self.window_keys[i].client == *client {
                return Some(i);
            }
            i = i + 1;
        }
        None
    }

    /// Updates exact per-client observations and records a newly detected shed durably.
    ///
    /// # Errors
    ///
    /// `UnconfiguredTenant`, `InvalidClient`, the errors of reading the client's stored
    /// decisions, `TimeRegressed` for an observation older than the client's last one,
    /// and `Arithmetic` when a counter or the shed deadline overflows.
    #[verifier::rlimit(60)]
    pub fn observe_activity(&mut self, store: &mut Store, activity: ClientActivity) -> (r: Result<Option<SheddingDecision>, QuotaError>)
        requires
            old(self).wf(),
            old(store).wf(),
        ensures
            final(self).wf(),
            final(store).wf(),
            ({
                let t = activity.tenant@;
                let c = activity.client_id@;
                let now = activity.observed_at_ms;
                let digest = activity.operation_digest@;
                let policy = old(self).policy();
                let prev = old(self).window_of(t, c);
                let stepped = counted(base_window(prev, policy, now, digest), now, digest, activity.retry);
                let w = stepped.0;
                let unchanged = quota_unchanged(old(self), final(self)) && final(store).view() == old(store).view();
                if old(self).limits_of(t) is None {
                    unchanged && (r matches Err(QuotaError::UnconfiguredTenant(x)) && x@ == t)
                } else if !valid_identifier(c) {
                    unchanged && (r matches Err(e) && e is InvalidClient)
                } else if !(shed_outcome(old(store).view(), t, c, now) is Clear) {
                    unchanged && match shed_outcome(old(store).view(), t, c, now) {
                        ShedOutcome::Corrupt => r matches Err(e) && (e is CorruptDecision || e is InvalidClient),
                        ShedOutcome::Regressed => r matches Err(e) && e is TimeRegressed,
                        ShedOutcome::Active(rec) => r matches Ok(Some(d)) && decision_matches(d, t, rec),
                        ShedOutcome::Clear => true,
                    }
                } else if prev matches Some(pw) && now < pw.last_observed_ms {
                    unchanged && (r matches Err(e) && e is TimeRegressed)
                } else {
                    &&& only_window_changed(old(self), final(self), t, c)
                    &&& final(self).window_of(t, c) == Some(w)
                    &&& if !stepped.1 {
                        (r matches Err(e) && e is Arithmetic) && final(store).view() == old(store).view()
                    } else {
                        match shed_reason(w, policy) {
                            None => r matches Ok(o) && o is None && final(store).view() == old(store).view(),
                            Some(reason) => if now + policy.shed_for_ms > u64::MAX {
                                (r matches Err(e) && e is Arithmetic) && final(store).view() == old(store).view()
                            } else {
                                &&& r matches Ok(Some(d))
                                &&& r matches Ok(Some(d)) ==> {
                                    &&& d.tenant@ == t
                                    &&& d.client_id@ == c
                                    &&& d.reason == reason
                                    &&& d.observed_at_ms == now
                                    &&& d.shed_until_ms == now + policy.shed_for_ms
                                    &&& d.requests_in_window == w.requests
                                    &&& d.retries_in_window == w.retries
                                    &&& d.identical_operations == w.identical_operations
                                    &&& d.durable_record@ == decision_object_id(c, now)
                                    &&& final(store).view() == old(store).view().insert(
                                        config_key(t, decision_object_id(c, now)),
                                        (StorageClass::LocalOnly, record_bytes(record_of(d))),
                                    )
                                }
                            },
                        }
                    }
                }
            }),
    {
        let now = activity.observed_at_ms;
        self.configuration(&activity.tenant)?;
        validate_client(activity.client_id.as_str())?;
        match active_decision(store, &activity.tenant, activity.client_id.as_str(), now)? {
            Some(active) => {
                return Ok(Some(active));
            },
            None => {},
        }
        let ghost t = activity.tenant@;
        let ghost c = activity.client_id@;
        let ghost before = *self;
        let fresh = ClientWindow {
            start_ms: now,
            last_observed_ms: now,
            requests: 0,
            retries: 0,
            last_operation: activity.operation_digest,
            identical_operations: 0,
        };
        let idx = match self.window_index(&activity.tenant, &activity.client_id) {
            Some(i) => {
                proof {
                    self.lemma_window_at(i as int);
                }
                i
            },
            None => {
                proof {
                    assert(self.window_of(t, c) is None);
                }
                self.window_keys.push(WindowKey { tenant: activity.tenant.clone(), client: activity.client_id.clone() });
                self.windows.push(fresh);
                proof {
                    assert forall|a: int, b: int| 0 <= a < b < self.window_keys.len() implies !((#[trigger] self.window_keys[a]).tenant@ == (#[trigger] self.window_keys[b]).tenant@ && self.window_keys[a].client@ == self.window_keys[b].client@) by {
                        if b == self.window_keys.len() - 1 {
                            assert(self.window_keys[a] == before.window_keys[a]);
                        } else {
                            assert(self.window_keys[a] == before.window_keys[a]);
                            assert(self.window_keys[b] == before.window_keys[b]);
                        }
                    }
                    self.lemma_window_at(self.window_keys.len() - 1);
                    self.lemma_push_frame(before, t, c);
                }
                self.windows.len() - 1
            },
        };
        let ghost mid = *self;
        let mut window = self.windows[idx];
        if now < window.last_observed_ms {
            return Err(QuotaError::TimeRegressed);
        }
        if now >= window.start_ms && now - window.start_ms >= self.shedding.window_ms {
            window = fresh;
        }
        let (window, in_range) = count_observation(window, now, &activity.operation_digest, activity.retry);
        self.windows.set(idx, window);
        proof {
            self.lemma_window_at(idx as int);
            self.lemma_set_frame(mid, idx as int);
        }
        if !in_range {
            return Err(QuotaError::Arithmetic);
        }
        let reason = if window.retries > self.shedding.maximum_retries {
            SheddingReason::RetryStorm
        } else if window.identical_operations > self.shedding.maximum_identical_operations {
            SheddingReason::HotLoop
        } else if window.requests > self.shedding.maximum_requests {
            SheddingReason::PathologicalClient
        } else {
            return Ok(None);
        };
        let shed_until_ms = match now.checked_add(self.shedding.shed_for_ms) {
            Some(v) => v,
            None => {
                return Err(QuotaError::Arithmetic);
            },
        };
        let durable_record = decision_object_id_bytes(activity.client_id.as_str(), now);
        let mut record_id: Vec<u8> = Vec::new();
        push_all(&mut record_id, durable_record.as_slice());
        let decision = SheddingDecision {
            tenant: activity.tenant.clone(),
            client_id: activity.client_id,
            reason,
            observed_at_ms: now,
            shed_until_ms,
            requests_in_window: window.requests,
            retries_in_window: window.retries,
            identical_operations: window.identical_operations,
            durable_record,
        };
        proof {
            vstd::utf8::encode_utf8_decode_utf8(c);
        }
        let bytes = encode_decision(&decision)?;
        let key = match TenantKey::new(activity.tenant, ObjectKind::Configuration, record_id) {
            Ok(key) => key,
            Err(e) => {
                return Err(QuotaError::Store(e));
            },
        };
        store.put(key, StorageClass::LocalOnly, bytes);
        Ok(Some(decision))
    }

    /// Adding a window for a new client changes no other client's window.
    proof fn lemma_push_frame(&self, before: Quota, t: Seq<char>, c: Seq<char>)
        requires
            before.wf(),
            self.wf(),
            self.tenants == before.tenants,
            self.shedding == before.shedding,
            self.window_keys@ == before.window_keys@.push(self.window_keys@.last()),
            self.windows@ == before.windows@.push(self.windows@.last()),
            self.window_keys@.last().tenant@ == t,
            self.window_keys@.last().client@ == c,
        ensures
            forall|t2: Seq<char>, c2: Seq<char>| !(t2 == t && c2 == c) ==> #[trigger] self.window_of(t2, c2) == before.window_of(t2, c2),
            forall|t2: Seq<char>| #[trigger] self.limits_of(t2) == before.limits_of(t2),
    {
        assert forall|t2: Seq<char>, c2: Seq<char>| !(t2 == t && c2 == c) implies #[trigger] self.window_of(t2, c2) == before.window_of(t2, c2) by {
            if exists|i: int| 0 <= i < before.window_keys.len() && #[trigger] before.window_keys[i].tenant@ == t2 && before.window_keys[i].client@ == c2 {
                let i = choose|i: int| 0 <= i < before.window_keys.len() && #[trigger] before.window_keys[i].tenant@ == t2 && before.window_keys[i].client@ == c2;
                before.lemma_window_at(i);
                assert(self.window_keys[i] == before.window_keys[i]);
                assert(self.windows[i] == before.windows[i]);
                self.lemma_window_at(i);
            } else {
                if exists|i: int| 0 <= i < self.window_keys.len() && #[trigger] self.window_keys[i].tenant@ == t2 && self.window_keys[i].client@ == c2 {
                    let i = choose|i: int| 0 <= i < self.window_keys.len() && #[trigger] self.window_keys[i].tenant@ == t2 && self.window_keys[i].client@ == c2;
                    assert(i < before.window_keys.len());
                    assert(self.window_keys[i] == before.window_keys[i]);
                }
            }
        }
    }

    /// Replacing the window at `i` changes no other client's window.
    proof fn lemma_set_frame(&self, before: Quota, i: int)
        requires
            before.wf(),
            self.wf(),
            0 <= i < before.window_keys.len(),
            self.tenants == before.tenants,
            self.shedding == before.shedding,
            self.window_keys == before.window_keys,
            self.windows@ == before.windows@.update(i, self.windows@[i]),
        ensures
            forall|t2: Seq<char>, c2: Seq<char>| !(t2 == before.window_keys[i].tenant@ && c2 == before.window_keys[i].client@) ==> #[trigger] self.window_of(t2, c2) == before.window_of(t2, c2),
            forall|t2: Seq<char>| #[trigger] self.limits_of(t2) == before.limits_of(t2),
    {
        assert forall|t2: Seq<char>, c2: Seq<char>| !(t2 == before.window_keys[i].tenant@ && c2 == before.window_keys[i].client@) implies #[trigger] self.window_of(t2, c2) == before.window_of(t2, c2) by {
            if exists|j: int| 0 <= j < before.window_keys.len() && #[trigger] before.window_keys[j].tenant@ == t2 && before.window_keys[j].client@ == c2 {
                let j = choose|j: int| 0 <= j < before.window_keys.len() && #[trigger] before.window_keys[j].tenant@ == t2 && before.window_keys[j].client@ == c2;
                before.lemma_window_at(j);
                assert(self.windows[j] == before.windows[j]);
                self.lemma_window_at(j);
            }
        }
    }
}

/// Counts one observation into a client window.
fn count_observation(w: ClientWindow, now: u64, digest: &[u8; 32], retry: bool) -> (r: (ClientWindow, bool))
    ensures
        (r.0.state(), r.1) == counted(w.state(), now, digest@, retry),
{
    let mut w = w;
    w.last_observed_ms = now;
    if w.requests == u64::MAX {
        return (w, false);
    }
    w.requests = w.requests + 1;
    if retry {
        if w.retries == u64::MAX {
            return (w, false);
        }
        w.retries = w.retries + 1;
    }
    if fixed_equal(&w.last_operation, digest) {
        if w.identical_operations == u64::MAX {
            return (w, false);
        }
        w.identical_operations = w.identical_operations + 1;
    } else {
        w.last_operation = *digest;
        w.identical_operations = 1;
    }
    (w, true)
}

} // verus!
