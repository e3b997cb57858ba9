//! Preparing and submitting an activity from the Human plane: the digests a request body
//! is authenticated by, and the outbox steps of an external submission.
use vstd::prelude::*;

use crate::bytes::{fixed_equal, push_all, push_u128, push_u32, push_u64, text_bytes, u128_be, u32_be, u64_be};
use crate::digest::{sha256, sha256_digest};
use crate::managed_agent::HumanOperationError;
use crate::outbox::{
    legal, queued_status, state_code, transitioned, EntryView, Outbox, StatusView,
    SubmissionState, SubmissionStatus,
};
use crate::outbox::codec::status_fits;
use crate::owner::{hashed_bytes, push_text};
use crate::sign_verify::VerifiedSubmission;
use crate::store::{with_submission, Store, TenantId};
use crate::text::{hex_text, push_hex};

verus! {

/// A request to prepare an activity for the owner to sign.
#[derive(Debug)]
pub struct PrepareRequest {
    pub activity_type: u32,
    pub actor: String,
    pub authority: String,
    pub account_sequence: u64,
    pub not_before: u64,
    pub not_after: u64,
    pub idempotency_key: String,
    pub fee_limit: u128,
    pub payload_hash: [u8; 32],
    pub payload: Vec<u8>,
}

/// The domain tag of preparation digests: `layerx-human-journey-prepare/v1`.
pub open spec fn prepare_tag() -> Seq<u8> {
    seq![108u8, 97u8, 121u8, 101u8, 114u8, 120u8, 45u8, 104u8, 117u8, 109u8, 97u8, 110u8, 45u8, 106u8, 111u8, 117u8, 114u8, 110u8, 101u8, 121u8, 45u8, 112u8, 114u8, 101u8, 112u8, 97u8, 114u8, 101u8, 47u8, 118u8, 49u8]
}

/// The bytes a preparation digest covers: the tag, the activity type, the actor and
/// authority after their lengths, the account sequence, the time bounds, the idempotency
/// key after its length, the fee limit, the declared payload hash and the SHA-256 of the
/// payload.
pub open spec fn prepare_preimage(r: PrepareRequest) -> Seq<u8> {
    prepare_tag() + u32_be(r.activity_type) + hashed_bytes(text_bytes(r.actor@))
        + hashed_bytes(text_bytes(r.authority@)) + u64_be(r.account_sequence) + u64_be(r.not_before)
        + u64_be(r.not_after) + hashed_bytes(text_bytes(r.idempotency_key@)) + u128_be(r.fee_limit)
        + r.payload_hash@ + sha256(r.payload@)
}

/// The digest a preparation request body is authenticated by.
pub fn prepare_digest(request: &PrepareRequest) -> (r: [u8; 32])
    ensures
        r@ == sha256(prepare_preimage(*request)),
{
    let tag: [u8; 31] = [108, 97, 121, 101, 114, 120, 45, 104, 117, 109, 97, 110, 45, 106, 111, 117, 114, 110, 101, 121, 45, 112, 114, 101, 112, 97, 114, 101, 47, 118, 49];
    let payload_digest = sha256_digest(request.payload.as_slice());
    let mut out: Vec<u8> = Vec::new();
    push_all(&mut out, &tag);
    push_u32(&mut out, request.activity_type);
    push_text(&mut out, request.actor.as_str());
    push_text(&mut out, request.authority.as_str());
    push_u64(&mut out, request.account_sequence);
    push_u64(&mut out, request.not_before);
    push_u64(&mut out, request.not_after);
    push_text(&mut out, request.idempotency_key.as_str());
    push_u128(&mut out, request.fee_limit);
    push_all(&mut out, &request.payload_hash);
    push_all(&mut out, &payload_digest);
    assert(tag@ =~= prepare_tag());
    assert(out@ =~= prepare_preimage(*request));
    sha256_digest(out.as_slice())
}

/// Whether a preparation request body is the one its envelope's digest names.
pub fn prepare_authentic(request: &PrepareRequest, body_digest: [u8; 32]) -> (r: bool)
    ensures
        r == (sha256(prepare_preimage(*request)) == body_digest@),
{
    let d = prepare_digest(request);
    fixed_equal(&d, &body_digest)
}

/// A request to submit a prepared activity with the owner's signature.
#[derive(Debug)]
pub struct SubmitRequest {
    pub preparation_ref: String,
    pub signature: Vec<u8>,
    pub signer_public_key: [u8; 32],
    pub approval_release_ref: Option<[u8; 32]>,
}

/// The domain tag of submission digests: `layerx-human-journey-submit/v1`.
pub open spec fn submit_tag() -> Seq<u8> {
    seq![108u8, 97u8, 121u8, 101u8, 114u8, 120u8, 45u8, 104u8, 117u8, 109u8, 97u8, 110u8, 45u8, 106u8, 111u8, 117u8, 114u8, 110u8, 101u8, 121u8, 45u8, 115u8, 117u8, 98u8, 109u8, 105u8, 116u8, 47u8, 118u8, 49u8]
}

/// The bytes a submission digest covers: the tag, the preparation reference after its
/// length, the SHA-256 of the signature, the signer's key, and the approval release
/// reference after a byte saying whether there is one.
pub open spec fn submit_preimage(r: SubmitRequest) -> Seq<u8> {
    submit_tag() + hashed_bytes(text_bytes(r.preparation_ref@)) + sha256(r.signature@)
        + r.signer_public_key@ + match r.approval_release_ref {
            Some(reference) => seq![1u8] + reference@,
            None => seq![0u8],
        }
}

/// The digest a submission request body is authenticated by.
pub fn submit_digest(request: &SubmitRequest) -> (r: [u8; 32])
    ensures
        r@ == sha256(submit_preimage(*request)),
{
    let tag: [u8; 30] = [108, 97, 121, 101, 114, 120, 45, 104, 117, 109, 97, 110, 45, 106, 111, 117, 114, 110, 101, 121, 45, 115, 117, 98, 109, 105, 116, 47, 118, 49];
    let signature_digest = sha256_digest(request.signature.as_slice());
    let mut out: Vec<u8> = Vec::new();
    push_all(&mut out, &tag);
    push_text(&mut out, request.preparation_ref.as_str());
    push_all(&mut out, &signature_digest);
    push_all(&mut out, &request.signer_public_key);
    match request.approval_release_ref {
        Some(reference) => {
            out.push(1);
            push_all(&mut out, &reference);
        },
        None => {
            out.push(0);
        },
    }
    assert(tag@ =~= submit_tag());
    assert(out@ =~= submit_preimage(*request));
    sha256_digest(out.as_slice())
}

/// Whether a submission request body is the one its envelope's digest names.
pub fn submit_authentic(request: &SubmitRequest, body_digest: [u8; 32]) -> (r: bool)
    ensures
        r == (sha256(submit_preimage(*request)) == body_digest@),
{
    let d = submit_digest(request);
    fixed_equal(&d, &body_digest)
}

/// What the node answered a submission with.
#[derive(Clone, Copy, Debug, PartialEq, Eq, Structural)]
pub enum NodeSubmitOutcome {
    Acknowledged,
    Unknown,
    /// The node's submission boundary could not be reached.
    Unavailable,
}

/// The state a submission moves to on the node's answer.
pub open spec fn submitted_state(o: NodeSubmitOutcome) -> SubmissionState {
    match o {
        NodeSubmitOutcome::Acknowledged => SubmissionState::Acknowledged,
        _ => SubmissionState::Unknown,
    }
}

/// The cause recorded with that move.
pub open spec fn submitted_cause(o: NodeSubmitOutcome) -> Seq<char> {
    match o {
        NodeSubmitOutcome::Acknowledged => "core admission acknowledged"@,
        NodeSubmitOutcome::Unknown => "submission outcome indeterminate"@,
        NodeSubmitOutcome::Unavailable => "node submission boundary unavailable after durable dispatch"@,
    }
}

/// The state a submission moves to on the node's answer: acknowledged, or unknown when the
/// node's answer is indeterminate or it could not be reached.
pub fn state_after_submit(outcome: NodeSubmitOutcome) -> (r: SubmissionState)
    ensures
        r == submitted_state(outcome),
{
    match outcome {
        NodeSubmitOutcome::Acknowledged => SubmissionState::Acknowledged,
        _ => SubmissionState::Unknown,
    }
}

/// The cause recorded when a submission moves on the node's answer.
pub fn cause_after_submit(outcome: NodeSubmitOutcome) -> (r: String)
    ensures
        r@ == submitted_cause(outcome),
{
    match outcome {
        NodeSubmitOutcome::Acknowledged => "core admission acknowledged".to_string(),
        NodeSubmitOutcome::Unknown => "submission outcome indeterminate".to_string(),
        NodeSubmitOutcome::Unavailable => "node submission boundary unavailable after durable dispatch".to_string(),
    }
}

/// The cause recorded when transmission starts.
pub open spec fn transmission_cause() -> Seq<char> {
    "transmission started"@
}


/// The most bytes a response text holds.
pub const MAX_RESPONSE: usize = 1048576;

/// A response text: its UTF-8 length as a big-endian `u32`, then the bytes; only for a text
/// of 1 to `MAX_RESPONSE` bytes.
pub open spec fn response_text(t: Seq<char>) -> Option<Seq<u8>> {
    let b = text_bytes(t);
    if 1 <= b.len() <= MAX_RESPONSE {
        Some(u32_be(b.len() as u32) + b)
    } else {
        None
    }
}

pub(crate) fn push_response_text(out: &mut Vec<u8>, t: &str) -> (r: bool)
    ensures
        r == response_text(t@) is Some,
        r ==> final(out)@ == old(out)@ + response_text(t@).unwrap(),
{
    let b = t.as_bytes();
    if b.len() == 0 || b.len() > MAX_RESPONSE {
        return false;
    }
    push_u32(out, b.len() as u32);
    push_all(out, b);
    assert(final(out)@ =~= old(out)@ + response_text(t@).unwrap());
    true
}

/// What the daemon answers of a submission's status: the activity, the submission in hex,
/// the state's code, the receipt reference in hex once executed, then four zero bytes (no
/// verification, evidence, time or receipt yet). An executed status without its receipt
/// cannot be described.
pub open spec fn observation_bytes(s: StatusView) -> Option<Seq<u8>> {
    match response_text(hex_text(s.submission_id)) {
        None => None,
        Some(id) => {
            let head = s.activity_id + id + seq![state_code(s.state)];
            let tail = seq![0u8, 0u8, 0u8, 0u8];
            if s.state == SubmissionState::Executed {
                match s.evidence {
                    None => None,
                    Some(receipt) => match response_text(hex_text(receipt)) {
                        None => None,
                        Some(rt) => Some(head + rt + tail),
                    },
                }
            } else {
                Some(head + tail)
            }
        },
    }
}

/// Describes a submission's status.
///
/// # Errors
///
/// `Refused` when [`observation_bytes`] has no description.
pub fn submission_observation(status: &SubmissionStatus) -> (r: Result<Vec<u8>, HumanOperationError>)
    ensures
        match observation_bytes(status@) {
            Some(b) => r matches Ok(v) && v@ == b,
            None => r == Err::<Vec<u8>, HumanOperationError>(HumanOperationError::Refused),
        },
{
    let mut out: Vec<u8> = Vec::new();
    push_all(&mut out, &status.activity_id);
    let mut id = String::new();
    push_hex(&mut id, &status.submission_id);
    if !push_response_text(&mut out, id.as_str()) {
        return Err(HumanOperationError::Refused);
    }
    out.push(status.state.code());
    let ghost head = out@;
    if status.state == SubmissionState::Executed {
        match status.evidence {
            None => {
                return Err(HumanOperationError::Refused);
            },
            Some(e) => {
                let mut reference = String::new();
                push_hex(&mut reference, &e.receipt_ref());
                if !push_response_text(&mut out, reference.as_str()) {
                    return Err(HumanOperationError::Refused);
                }
            },
        }
    }
    out.push(0);
    out.push(0);
    out.push(0);
    out.push(0);
    assert(out@ =~= observation_bytes(status@).unwrap());
    Ok(out)
}

/// Starts an external submission of verified bytes: enqueues them, records that
/// transmission started, and takes the bytes for transmission. Since the outbox hands out
/// bytes for transmission only while a submission is queued, and it has just left that
/// state, this step always ends `Unavailable`, with the submission enqueued and moved to
/// Submitted when those steps succeed.
///
/// # Errors
///
/// `Unavailable`: every failure of the outbox is reported so.
pub fn submit_dispatch(
    outbox: &mut Outbox,
    store: &mut Store,
    tenant: TenantId,
    submission_id: [u8; 32],
    verified: VerifiedSubmission,
) -> (r: Result<Vec<u8>, HumanOperationError>)
    requires
        old(outbox).wf(),
        old(store).wf(),
    ensures
        final(outbox).wf(),
        final(store).wf(),
        r == Err::<Vec<u8>, HumanOperationError>(HumanOperationError::Unavailable),
        old(outbox).entry(submission_id@) is Some || verified.key_view() != submission_id@ ==> *final(outbox)
            == *old(outbox) && final(store).view() == old(store).view(),
        old(outbox).entry(submission_id@) is None && verified.key_view() == submission_id@ ==> {
            let q = queued_status(submission_id@, verified.audit_view().activity_id@);
            let s = transitioned(q, SubmissionState::Submitted, transmission_cause(), None);
            let stored = with_submission(
                old(store).view(),
                tenant@,
                submission_id@,
                verified.bytes_view(),
                crate::outbox::codec::status_bytes(q),
            );
            if status_fits(s) {
                &&& final(outbox).entry(submission_id@) == Some(EntryView { tenant: tenant@, status: s, bytes: verified.bytes_view() })
                &&& final(store).view() == stored.insert(
                    crate::outbox::outbox_key(tenant@, submission_id@),
                    (crate::store::StorageClass::LocalOnly, crate::outbox::codec::status_bytes(s)),
                )
            } else {
                &&& final(outbox).entry(submission_id@) == Some(EntryView { tenant: tenant@, status: q, bytes: verified.bytes_view() })
                &&& final(store).view() == stored
            }
        },
{
    match outbox.enqueue(store, tenant, submission_id, verified) {
        Ok(()) => {},
        Err(_) => {
            return Err(HumanOperationError::Unavailable);
        },
    }
    let cause = "transmission started".to_string();
    proof {
        reveal_strlit("transmission started");
    }
    match outbox.transition(store, submission_id, SubmissionState::Submitted, cause, None) {
        Ok(_) => {},
        Err(_) => {
            return Err(HumanOperationError::Unavailable);
        },
    }
    match outbox.bytes_for_transmission(submission_id) {
        Ok(b) => {
            let mut bytes: Vec<u8> = Vec::new();
            push_all(&mut bytes, b);
            Ok(bytes)
        },
        Err(_) => Err(HumanOperationError::Unavailable),
    }
}

/// Records the node's answer to a submission: moves it to the state
/// [`state_after_submit`] gives, with its cause, and describes the resulting status.
///
/// # Errors
///
/// `Unavailable` when the outbox refuses the move; `Refused` when the status cannot be
/// described.
pub fn submit_record_outcome(outbox: &mut Outbox, store: &mut Store, submission_id: [u8; 32], outcome: NodeSubmitOutcome) -> (r: Result<Vec<u8>, HumanOperationError>)
    requires
        old(outbox).wf(),
        old(store).wf(),
    ensures
        final(outbox).wf(),
        final(store).wf(),
        ({
            let e = old(outbox).entry(submission_id@);
            let to = submitted_state(outcome);
            if e is None || !legal(e.unwrap().status.state, to) || !status_fits(
                transitioned(e.unwrap().status, to, submitted_cause(outcome), None),
            ) {
                r == Err::<Vec<u8>, HumanOperationError>(HumanOperationError::Unavailable) && *final(outbox) == *old(outbox)
                    && final(store).view() == old(store).view()
            } else {
                let s = transitioned(e.unwrap().status, to, submitted_cause(outcome), None);
                &&& final(outbox).entry(submission_id@) == Some(EntryView { status: s, ..e.unwrap() })
                &&& final(store).view() == old(store).view().insert(
                    crate::outbox::outbox_key(e.unwrap().tenant, submission_id@),
                    (crate::store::StorageClass::LocalOnly, crate::outbox::codec::status_bytes(s)),
                )
                &&& match observation_bytes(s) {
                    Some(b) => r matches Ok(v) && v@ == b,
                    None => r == Err::<Vec<u8>, HumanOperationError>(HumanOperationError::Refused),
                }
            }
        }),
{
    let to = state_after_submit(outcome);
    let cause = cause_after_submit(outcome);
    proof {
        reveal_strlit("core admission acknowledged");
        reveal_strlit("submission outcome indeterminate");
        reveal_strlit("node submission boundary unavailable after durable dispatch");
    }
    let status = match outbox.transition(store, submission_id, to, cause, None) {
        Ok(s) => s,
        Err(_) => {
            return Err(HumanOperationError::Unavailable);
        },
    };
    submission_observation(&status)
}

} // verus!
