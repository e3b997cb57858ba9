//! Receipt-only resolution for submissions whose transport outcome is unknown.
//!
//! Resolution alternates between decisions, made here, and boundary work done by the
//! caller: [`begin_resolution`] decides whether a lookup is due and records the attempt;
//! the caller looks the receipt up by idempotency key and verifies it; [`apply_lookup`]
//! settles the submission from a verified receipt or asks for an exact-byte resend; and
//! [`finish_resend`] reports the resend's observation.
//!
//! The attempt record is stored as a `Configuration` object `unknown-resolution:` followed
//! by the submission identifier: the magic `LXUR`, the first observation time, the attempt
//! count and the next attempt time, big-endian.
use vstd::prelude::*;

use crate::bytes::{push_all, push_u32, push_u64, read_u32, read_u64, u32_at, u32_be, u64_at, u64_be, lemma_u32_at_be, lemma_u64_at_be};
use crate::digest::{sha256, sha256_digest};
use crate::outbox::codec::{status_bytes, status_fits};
use crate::outbox::{
    outbox_key, transitioned, EntryView, Outbox, OutboxError, ReceiptBinding,
    SubmissionState,
};
use crate::store::{
    KeyView, ObjectKind, StorageClass, Store, StoreError, TenantId, TenantKey,
};

verus! {

/// The first delay between lookups, in milliseconds.
pub const INITIAL_BACKOFF_MS: u64 = 1000;

/// The longest delay between lookups, in milliseconds.
pub const MAX_BACKOFF_MS: u64 = 60000;

/// Caller-clocked age and retry state for one unresolved submission.
#[derive(Clone, Copy, Debug, PartialEq, Eq, Structural)]
pub struct UnknownAge {
    pub first_observed_at_ms: u64,
    pub age_ms: u64,
    pub attempt_count: u32,
    pub next_attempt_at_ms: u64,
}

/// A stable failure classification for receipt lookup and exact-byte resend.
#[derive(Clone, Copy, Debug, PartialEq, Eq, Structural)]
pub enum UnknownBoundaryError {
    Unavailable,
    InvalidResponse,
}

/// What one resolution pass observed.
#[derive(Clone, Copy, Debug, PartialEq, Eq, Structural)]
pub enum ResolutionObservation {
    Backoff,
    ReceiptMissing,
    LookupUnavailable,
    UnverifiedReceipt,
    ExecutedReceipt,
    FailedReceipt,
}

/// Whether an exact-byte resend happened.
#[derive(Clone, Copy, Debug, PartialEq, Eq, Structural)]
pub enum ResendObservation {
    NotWarranted,
    Sent,
    Indeterminate,
}

/// Operator-visible result of one resolution pass.
#[derive(Clone, Copy, Debug, PartialEq, Eq, Structural)]
pub struct UnknownResolution {
    pub state: SubmissionState,
    pub age: UnknownAge,
    pub observation: ResolutionObservation,
    pub resend: ResendObservation,
}

/// Refusals of unknown-state resolution.
#[derive(Debug)]
pub enum UnknownResolutionError {
    Outbox(OutboxError),
    Store(StoreError),
    NotUnknown,
    TimeRegressed,
    Arithmetic,
    Corrupt,
}

/// What the first step decided.
#[derive(Debug)]
pub enum ResolutionStep {
    /// No lookup is due; the pass is over.
    Finished(UnknownResolution),
    /// A lookup is due; the attempt is recorded with this age.
    Lookup(UnknownAge),
}

/// What the caller's receipt lookup by idempotency key found.
#[derive(Clone, Copy, Debug)]
pub enum LookupReply {
    /// The node could not be reached or did not answer usably.
    Unavailable,
    /// The node holds no receipt for the key.
    Missing,
    /// A receipt came back but did not verify.
    Unverified,
    /// A receipt verified against the evidence authority.
    Verified { activity_id: [u8; 32], receipt_ref: [u8; 32], result_code: i32 },
}

/// What the second step decided.
#[derive(Debug)]
pub enum ResolutionNext {
    /// The pass is over.
    Finished(UnknownResolution),
    /// No receipt exists: resend these exact signed bytes under the original key.
    Resend(Vec<u8>),
}

/// The delay before lookup attempt `attempt`, without jitter: doubling from one second,
/// at most one minute.
pub open spec fn backoff_base(attempt: u32) -> u64 {
    if attempt <= 1 {
        1000
    } else if attempt == 2 {
        2000
    } else if attempt == 3 {
        4000
    } else if attempt == 4 {
        8000
    } else if attempt == 5 {
        16000
    } else if attempt == 6 {
        32000
    } else {
        60000
    }
}

/// The delay before lookup attempt `attempt`, with jitter of up to a quarter of the base
/// taken from the first eight digest bytes, capped at one minute.
pub open spec fn backoff_delay(attempt: u32, digest: Seq<u8>) -> u64 {
    let base = backoff_base(attempt);
    let jitter = u64_at(digest, 0) as int % (base / 4 + 1);
    if base + jitter <= MAX_BACKOFF_MS {
        (base + jitter) as u64
    } else {
        MAX_BACKOFF_MS
    }
}

/// The digest jitter is drawn from: SHA-256 of the submission identifier and the attempt.
pub open spec fn jitter_digest(id: Seq<u8>, attempt: u32) -> Seq<u8> {
    sha256(id + u32_be(attempt))
}

/// The delay before attempt `attempt` given the jitter digest.
pub fn backoff_from_digest(attempt: u32, digest: [u8; 32]) -> (r: u64)
    ensures
        r == backoff_delay(attempt, digest@),
        INITIAL_BACKOFF_MS <= r <= MAX_BACKOFF_MS,
{
    let base: u64 = if attempt <= 1 {
        1000
    } else if attempt == 2 {
        2000
    } else if attempt == 3 {
        4000
    } else if attempt == 4 {
        8000
    } else if attempt == 5 {
        16000
    } else if attempt == 6 {
        32000
    } else {
        60000
    };
    let jitter = read_u64(&digest, 0) % (base / 4 + 1);
    if base + jitter <= MAX_BACKOFF_MS {
        base + jitter
    } else {
        MAX_BACKOFF_MS
    }
}

fn backoff_ms(submission_id: &[u8; 32], attempt_count: u32) -> (r: u64)
    ensures
        r == backoff_delay(attempt_count, jitter_digest(submission_id@, attempt_count)),
{
    let mut input: Vec<u8> = Vec::new();
    push_all(&mut input, submission_id);
    push_u32(&mut input, attempt_count);
    let digest = sha256_digest(input.as_slice());
    backoff_from_digest(attempt_count, digest)
}

/// The identifier of a submission's attempt record: `unknown-resolution:` and the id.
pub open spec fn state_id(id: Seq<u8>) -> Seq<u8> {
    seq![117u8, 110u8, 107u8, 110u8, 111u8, 119u8, 110u8, 45u8, 114u8, 101u8, 115u8, 111u8,
        108u8, 117u8, 116u8, 105u8, 111u8, 110u8, 58u8] + id
}

/// The key of a submission's attempt record.
pub open spec fn state_key(tenant: Seq<char>, id: Seq<u8>) -> KeyView {
    KeyView { tenant, kind: ObjectKind::Configuration, object_id: state_id(id) }
}

/// The four magic bytes `LXUR`.
pub open spec fn age_magic() -> Seq<u8> {
    seq![76u8, 88u8, 85u8, 82u8]
}

/// The encoding of an attempt record.
pub open spec fn age_bytes(first: u64, attempts: u32, next: u64) -> Seq<u8> {
    age_magic() + u64_be(first) + u32_be(attempts) + u64_be(next)
}

/// Reads an attempt record: first observation, attempt count, next attempt.
pub open spec fn parse_age(b: Seq<u8>) -> Option<(u64, u32, u64)> {
    if b.len() != 24 || b.subrange(0, 4) != age_magic() {
        None
    } else {
        Some((u64_at(b, 4), u32_at(b, 12), u64_at(b, 16)))
    }
}

/// Law: an attempt record reads back as itself.
pub proof fn lemma_age_roundtrip(first: u64, attempts: u32, next: u64)
    ensures
        parse_age(age_bytes(first, attempts, next)) == Some((first, attempts, next)),
{
    let b = age_bytes(first, attempts, next);
    assert(b.subrange(0, 4) =~= age_magic());
    assert(b =~= age_magic() + u64_be(first) + (u32_be(attempts) + u64_be(next)));
    lemma_u64_at_be(age_magic(), first, u32_be(attempts) + u64_be(next));
    assert(b =~= (age_magic() + u64_be(first)) + u32_be(attempts) + u64_be(next));
    lemma_u32_at_be(age_magic() + u64_be(first), attempts, u64_be(next));
    assert(b =~= (age_magic() + u64_be(first) + u32_be(attempts)) + u64_be(next) + Seq::<u8>::empty());
    lemma_u64_at_be(age_magic() + u64_be(first) + u32_be(attempts), next, Seq::<u8>::empty());
}

fn state_id_bytes(id: &[u8; 32]) -> (r: Vec<u8>)
    ensures
        r@ == state_id(id@),
{
    let mut out: Vec<u8> = vec![117u8, 110u8, 107u8, 110u8, 111u8, 119u8, 110u8, 45u8, 114u8,
        101u8, 115u8, 111u8, 108u8, 117u8, 116u8, 105u8, 111u8, 110u8, 58u8];
    push_all(&mut out, id);
    assert(out@ =~= state_id(id@));
    out
}

fn state_tenant_key(tenant: &TenantId, id: &[u8; 32]) -> (r: TenantKey)
    ensures
        r@ == state_key(tenant@, id@),
{
    match TenantKey::new(tenant.clone(), ObjectKind::Configuration, state_id_bytes(id)) {
        Ok(k) => k,
        Err(_) => {
            proof {
                assert(false);
            }
            TenantKey::new(tenant.clone(), ObjectKind::Configuration, state_id_bytes(id)).unwrap()
        },
    }
}

fn encode_age(first: u64, attempts: u32, next: u64) -> (r: Vec<u8>)
    ensures
        r@ == age_bytes(first, attempts, next),
{
    let mut out: Vec<u8> = vec![76u8, 88u8, 85u8, 82u8];
    push_u64(&mut out, first);
    push_u32(&mut out, attempts);
    push_u64(&mut out, next);
    assert(out@ =~= age_bytes(first, attempts, next));
    out
}

fn decode_age(bytes: &[u8]) -> (r: Option<(u64, u32, u64)>)
    ensures
        r == parse_age(bytes@),
{
    if bytes.len() != 24 || bytes[0] != 76u8 || bytes[1] != 88u8 || bytes[2] != 85u8 || bytes[3] != 82u8 {
        proof {
            if bytes.len() == 24 {
                assert(bytes@.subrange(0, 4) != age_magic()) by {
                    assert(bytes@.subrange(0, 4)[0] == bytes@[0]);
                    assert(bytes@.subrange(0, 4)[1] == bytes@[1]);
                    assert(bytes@.subrange(0, 4)[2] == bytes@[2]);
                    assert(bytes@.subrange(0, 4)[3] == bytes@[3]);
                }
            }
        }
        return None;
    }
    assert(bytes@.subrange(0, 4) =~= age_magic());
    Some((read_u64(bytes, 4), read_u32(bytes, 12), read_u64(bytes, 16)))
}

/// The attempt record a pass starts from: the stored one, or a fresh one at `now`.
pub open spec fn start_age(stored: Option<Seq<u8>>, now: u64) -> Option<(u64, u32, u64)> {
    match stored {
        None => Some((now, 0, now)),
        Some(b) => parse_age(b),
    }
}

/// First step of a resolution pass at `observed_at_ms`: refuses submissions that are not
/// unknown, waits out the backoff, and otherwise records the next attempt.
///
/// # Errors
///
/// `Outbox(NotFound)` for an untracked submission, `NotUnknown` in any other state,
/// `Corrupt` for an unreadable attempt record, `TimeRegressed` for a time before the first
/// observation, and `Arithmetic` when the attempt count or the next attempt time overflows.
pub fn begin_resolution(outbox: &Outbox, store: &mut Store, submission_id: [u8; 32], observed_at_ms: u64) -> (r: Result<ResolutionStep, UnknownResolutionError>)
    requires
        outbox.wf(),
        old(store).wf(),
    ensures
        final(store).wf(),
        ({
            let now = observed_at_ms;
            let id = submission_id@;
            let e = outbox.entry(id);
            let view = old(store).view();
            let k = state_key(e.unwrap().tenant, id);
            let stored = if view.contains_key(k) { Some(view[k].1) } else { None };
            let start = start_age(stored, now);
            let (first, attempts, next) = start.unwrap();
            let age = UnknownAge { first_observed_at_ms: first, age_ms: (now - first) as u64, attempt_count: attempts, next_attempt_at_ms: next };
            let delay = backoff_delay((attempts + 1) as u32, jitter_digest(id, (attempts + 1) as u32));
            if e is None {
                (r matches Err(UnknownResolutionError::Outbox(x)) && x is NotFound) && final(store).view() == view
            } else if e.unwrap().status.state != SubmissionState::Unknown {
                (r matches Err(x) && x is NotUnknown) && final(store).view() == view
            } else if start is None {
                (r matches Err(x) && x is Corrupt) && final(store).view() == view
            } else if now < first {
                (r matches Err(x) && x is TimeRegressed) && final(store).view() == view
            } else if now < next {
                r == Ok::<ResolutionStep, UnknownResolutionError>(ResolutionStep::Finished(UnknownResolution {
                    state: SubmissionState::Unknown,
                    age,
                    observation: ResolutionObservation::Backoff,
                    resend: ResendObservation::NotWarranted,
                })) && final(store).view() == view
            } else if attempts == u32::MAX || now + delay > u64::MAX {
                (r matches Err(x) && x is Arithmetic) && final(store).view() == view
            } else {
                &&& r == Ok::<ResolutionStep, UnknownResolutionError>(ResolutionStep::Lookup(UnknownAge {
                    attempt_count: (attempts + 1) as u32,
                    next_attempt_at_ms: (now + delay) as u64,
                    ..age
                }))
                &&& final(store).view() == view.insert(k, (StorageClass::LocalOnly, age_bytes(first, (attempts + 1) as u32, (now + delay) as u64)))
            }
        }),
{
    let tenant = match outbox.tenant_of(&submission_id) {
        Some(t) => t,
        None => {
            return Err(UnknownResolutionError::Outbox(OutboxError::NotFound));
        },
    };
    let state = match outbox.status(submission_id) {
        Some(s) => s.state,
        None => {
            return Err(UnknownResolutionError::Outbox(OutboxError::NotFound));
        },
    };
    if state != SubmissionState::Unknown {
        return Err(UnknownResolutionError::NotUnknown);
    }
    let key = state_tenant_key(&tenant, &submission_id);
    let start = match store.get(&key) {
        Some(value) => decode_age(value.bytes()),
        None => Some((observed_at_ms, 0u32, observed_at_ms)),
    };
    let (first, attempts, next) = match start {
        Some(p) => p,
        None => {
            return Err(UnknownResolutionError::Corrupt);
        },
    };
    if observed_at_ms < first {
        return Err(UnknownResolutionError::TimeRegressed);
    }
    let age_ms = observed_at_ms - first;
    if observed_at_ms < next {
        return Ok(ResolutionStep::Finished(UnknownResolution {
            state: SubmissionState::Unknown,
            age: UnknownAge { first_observed_at_ms: first, age_ms, attempt_count: attempts, next_attempt_at_ms: next },
            observation: ResolutionObservation::Backoff,
            resend: ResendObservation::NotWarranted,
        }));
    }
    if attempts == u32::MAX {
        return Err(UnknownResolutionError::Arithmetic);
    }
    let attempt_count = attempts + 1;
    let delay = backoff_ms(&submission_id, attempt_count);
    let next_attempt_at_ms = match observed_at_ms.checked_add(delay) {
        Some(v) => v,
        None => {
            return Err(UnknownResolutionError::Arithmetic);
        },
    };
    store.put(key, StorageClass::LocalOnly, encode_age(first, attempt_count, next_attempt_at_ms));
    Ok(ResolutionStep::Lookup(UnknownAge { first_observed_at_ms: first, age_ms, attempt_count, next_attempt_at_ms }))
}

/// The cause recorded for a successful verified receipt.
pub open spec fn executed_cause() -> Seq<char> {
    "verified receipt found by idempotency key"@
}

/// The cause recorded for a failure receipt.
pub open spec fn failed_cause() -> Seq<char> {
    "verified failure receipt found by idempotency key"@
}

/// Second step of a resolution pass: settles the submission from a verified receipt for
/// its activity, or asks for an exact-byte resend when no receipt exists.
///
/// # Errors
///
/// `Outbox(NotFound)` for an untracked submission, `NotUnknown` in any other state, and
/// `Outbox` when recording the settlement is refused.
pub fn apply_lookup(outbox: &mut Outbox, store: &mut Store, submission_id: [u8; 32], age: UnknownAge, reply: LookupReply) -> (r: Result<ResolutionNext, UnknownResolutionError>)
    requires
        old(outbox).wf(),
        old(store).wf(),
    ensures
        final(outbox).wf(),
        final(store).wf(),
        ({
            let id = submission_id@;
            let e = old(outbox).entry(id);
            let unchanged = *final(outbox) == *old(outbox) && final(store).view() == old(store).view();
            if e is None {
                unchanged && (r matches Err(UnknownResolutionError::Outbox(x)) && x is NotFound)
            } else if e.unwrap().status.state != SubmissionState::Unknown {
                unchanged && (r matches Err(x) && x is NotUnknown)
            } else {
                match reply {
                    LookupReply::Unavailable => unchanged && r == Ok::<ResolutionNext, UnknownResolutionError>(finished(age, ResolutionObservation::LookupUnavailable)),
                    LookupReply::Unverified => unchanged && r == Ok::<ResolutionNext, UnknownResolutionError>(finished(age, ResolutionObservation::UnverifiedReceipt)),
                    LookupReply::Missing => unchanged && (r matches Ok(ResolutionNext::Resend(b)) && b@ == e.unwrap().bytes),
                    LookupReply::Verified { activity_id, receipt_ref, result_code } => {
                        if activity_id@ != e.unwrap().status.activity_id {
                            unchanged && r == Ok::<ResolutionNext, UnknownResolutionError>(finished(age, ResolutionObservation::UnverifiedReceipt))
                        } else {
                            let to = if result_code == 0 { SubmissionState::Executed } else { SubmissionState::Failed };
                            let cause = if result_code == 0 { executed_cause() } else { failed_cause() };
                            let status = transitioned(e.unwrap().status, to, cause, Some(receipt_ref@));
                            let after = old(store).view().insert(outbox_key(e.unwrap().tenant, id), (StorageClass::LocalOnly, status_bytes(status)));
                            let sk = state_key(e.unwrap().tenant, id);
                            if !status_fits(status) {
                                unchanged && (r matches Err(UnknownResolutionError::Outbox(x)) && x is Corrupt)
                            } else {
                                &&& final(outbox).entry(id) == Some(EntryView { status, ..e.unwrap() })
                                &&& forall|other: Seq<u8>| other != id ==> #[trigger] final(outbox).entry(other) == old(outbox).entry(other)
                                &&& if after.contains_key(sk) && after[sk].0 == StorageClass::CoreProducedCache {
                                    (r matches Err(UnknownResolutionError::Store(x)) && x is Corrupt) && final(store).view() == after
                                } else {
                                    &&& r == Ok::<ResolutionNext, UnknownResolutionError>(ResolutionNext::Finished(UnknownResolution {
                                        state: to,
                                        age,
                                        observation: if result_code == 0 { ResolutionObservation::ExecutedReceipt } else { ResolutionObservation::FailedReceipt },
                                        resend: ResendObservation::NotWarranted,
                                    }))
                                    &&& final(store).view() == after.remove(sk)
                                }
                            }
                        }
                    },
                }
            }
        }),
{
    let tenant = match outbox.tenant_of(&submission_id) {
        Some(t) => t,
        None => {
            return Err(UnknownResolutionError::Outbox(OutboxError::NotFound));
        },
    };
    let (state, activity) = match outbox.status(submission_id) {
        Some(s) => (s.state, s.activity_id),
        None => {
            return Err(UnknownResolutionError::Outbox(OutboxError::NotFound));
        },
    };
    if state != SubmissionState::Unknown {
        return Err(UnknownResolutionError::NotUnknown);
    }
    match reply {
        LookupReply::Unavailable => Ok(finish_pass(age, ResolutionObservation::LookupUnavailable)),
        LookupReply::Unverified => Ok(finish_pass(age, ResolutionObservation::UnverifiedReceipt)),
        LookupReply::Missing => {
            let bytes = match outbox.exact_signed_bytes(submission_id) {
                Ok(b) => b,
                Err(e) => {
                    return Err(UnknownResolutionError::Outbox(e));
                },
            };
            let mut copy: Vec<u8> = Vec::new();
            push_all(&mut copy, bytes);
            Ok(ResolutionNext::Resend(copy))
        },
        LookupReply::Verified { activity_id, receipt_ref, result_code } => {
            if !crate::bytes::fixed_equal(&activity_id, &activity) {
                return Ok(finish_pass(age, ResolutionObservation::UnverifiedReceipt));
            }
            let (to, observation, cause) = if result_code == 0 {
                (SubmissionState::Executed, ResolutionObservation::ExecutedReceipt, "verified receipt found by idempotency key".to_owned())
            } else {
                (SubmissionState::Failed, ResolutionObservation::FailedReceipt, "verified failure receipt found by idempotency key".to_owned())
            };
            proof {
                reveal_strlit("verified receipt found by idempotency key");
                reveal_strlit("verified failure receipt found by idempotency key");
            }
            match outbox.transition(store, submission_id, to, cause, Some(ReceiptBinding { activity_id, receipt_ref })) {
                Ok(_) => {},
                Err(e) => {
                    return Err(UnknownResolutionError::Outbox(e));
                },
            }
            let key = state_tenant_key(&tenant, &submission_id);
            match store.remove_local(&key) {
                Ok(_) => {},
                Err(e) => {
                    return Err(UnknownResolutionError::Store(e));
                },
            }
            Ok(ResolutionNext::Finished(UnknownResolution { state: to, age, observation, resend: ResendObservation::NotWarranted }))
        },
    }
}

/// A finished pass that left the submission unknown, with no resend.
pub open spec fn finished(age: UnknownAge, observation: ResolutionObservation) -> ResolutionNext {
    ResolutionNext::Finished(UnknownResolution { state: SubmissionState::Unknown, age, observation, resend: ResendObservation::NotWarranted })
}

fn finish_pass(age: UnknownAge, observation: ResolutionObservation) -> (r: ResolutionNext)
    ensures
        r == finished(age, observation),
{
    ResolutionNext::Finished(UnknownResolution { state: SubmissionState::Unknown, age, observation, resend: ResendObservation::NotWarranted })
}

/// Last step of a resolution pass: reports whether the exact-byte resend went out.
pub fn finish_resend(age: UnknownAge, sent: bool) -> (r: UnknownResolution)
    ensures
        r == (UnknownResolution {
            state: SubmissionState::Unknown,
            age,
            observation: ResolutionObservation::ReceiptMissing,
            resend: if sent { ResendObservation::Sent } else { ResendObservation::Indeterminate },
        }),
{
    UnknownResolution {
        state: SubmissionState::Unknown,
        age,
        observation: ResolutionObservation::ReceiptMissing,
        resend: if sent { ResendObservation::Sent } else { ResendObservation::Indeterminate },
    }
}

} // verus!
