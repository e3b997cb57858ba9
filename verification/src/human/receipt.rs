//! The decisions of a receipt lookup by idempotency key: the lookup's correlation, whether
//! the receipt the store serves agrees with the verified receipt, whether proof evidence
//! augments it, and the answer.
use vstd::prelude::*;

use crate::bytes::{push_all, push_u32, read_u64, u32_be, u64_at};
use crate::human::journey::MAX_RESPONSE;
use crate::managed_agent::HumanOperationError;
use crate::outbox::Outbox;

verus! {

/// The correlation a receipt lookup by idempotency key is sent with: the key's first eight
/// bytes, big-endian.
pub open spec fn lookup_correlation(key: Seq<u8>) -> u64 {
    u64_at(key, 0)
}

/// The correlation of a receipt lookup by idempotency key.
pub fn receipt_lookup_correlation(idempotency_key: &[u8; 32]) -> (r: u64)
    ensures
        r == lookup_correlation(idempotency_key@),
{
    read_u64(idempotency_key, 0)
}

/// What the receipt store serves for a submission: the exact receipt bytes and the metadata
/// recorded with them.
#[derive(Debug)]
pub struct ServedMetadata {
    pub canonical_bytes: Vec<u8>,
    pub idempotency_key: [u8; 32],
    pub activity_id: [u8; 32],
    pub global_sequence: u64,
    pub result_code: i32,
    /// The verification level's wire rank.
    pub verification_rank: u8,
}

/// The protocol section of a verified receipt.
#[derive(Clone, Copy, Debug, PartialEq, Eq)]
pub struct ReceiptProtocol {
    pub activity_id: [u8; 32],
    pub global_sequence: u64,
    pub result_code: i32,
}

/// Whether what the store serves agrees with the receipt the node verified: the same
/// bytes, the requested key and activity, the receipt's activity, sequence and result, and
/// at least the receipt's verification level.
pub open spec fn served_consistent(
    served: ServedMetadata,
    receipt: Seq<u8>,
    receipt_rank: u8,
    protocol: ReceiptProtocol,
    key: Seq<u8>,
    expected_activity: Seq<u8>,
) -> bool {
    &&& served.canonical_bytes@ == receipt
    &&& served.idempotency_key@ == key
    &&& served.activity_id@ == expected_activity
    &&& served.activity_id@ == protocol.activity_id@
    &&& served.global_sequence == protocol.global_sequence
    &&& served.result_code == protocol.result_code
    &&& served.verification_rank >= receipt_rank
}

/// Whether what the store serves agrees with the receipt the node verified.
pub fn served_receipt_consistent(
    served: &ServedMetadata,
    receipt: &[u8],
    receipt_rank: u8,
    protocol: &ReceiptProtocol,
    idempotency_key: &[u8; 32],
    expected_activity: &[u8; 32],
) -> (r: bool)
    ensures
        r == served_consistent(*served, receipt@, receipt_rank, *protocol, idempotency_key@, expected_activity@),
{
    crate::bytes::bytes_equal(served.canonical_bytes.as_slice(), receipt) && crate::bytes::fixed_equal(
        &served.idempotency_key,
        idempotency_key,
    ) && crate::bytes::fixed_equal(&served.activity_id, expected_activity) && crate::bytes::fixed_equal(
        &served.activity_id,
        &protocol.activity_id,
    ) && served.global_sequence == protocol.global_sequence && served.result_code == protocol.result_code
        && served.verification_rank >= receipt_rank
}

/// What the node answered for one proof bundle: its canonical bytes, a failure that only
/// means the evidence is not available yet, or any other failure.
#[derive(Debug)]
pub enum EvidenceAnswer {
    Bundle(Vec<u8>),
    Unavailable,
    Failed,
}

/// What to do with the two proof bundles of a receipt: augment the stored receipt with
/// them (`Ok(true)`), serve it as it is (`Ok(false)`), or refuse.
pub open spec fn evidence_decision(
    activity: EvidenceAnswer,
    receipt_evidence: EvidenceAnswer,
    signed: Option<Seq<u8>>,
    receipt: Seq<u8>,
) -> Result<bool, HumanOperationError> {
    match (activity, receipt_evidence) {
        (EvidenceAnswer::Bundle(a), EvidenceAnswer::Bundle(r)) => match signed {
            None => Err(HumanOperationError::Refused),
            Some(s) => if a@ == s && r@ == receipt {
                Ok(true)
            } else {
                Err(HumanOperationError::Refused)
            },
        },
        (EvidenceAnswer::Unavailable, _) | (_, EvidenceAnswer::Unavailable) => Ok(false),
        _ => Err(HumanOperationError::Refused),
    }
}

/// The exact signed bytes the outbox holds for a submission, if it tracks it.
pub open spec fn signed_view(outbox: Outbox, key: Seq<u8>) -> Option<Seq<u8>> {
    match outbox.entry(key) {
        Some(e) => Some(e.bytes),
        None => None,
    }
}

/// Decides what the two proof bundles of a receipt do: both present, they augment the
/// stored receipt when the activity bundle is the exact signed activity the outbox holds
/// and the receipt bundle is the verified receipt; a bundle not available yet leaves the
/// receipt as it is.
///
/// # Errors
///
/// `Refused` for bundles that disagree, a submission the outbox does not track, or a
/// failure other than unavailability.
pub fn evidence_step(
    activity: &EvidenceAnswer,
    receipt_evidence: &EvidenceAnswer,
    outbox: &Outbox,
    idempotency_key: [u8; 32],
    receipt: &[u8],
) -> (r: Result<bool, HumanOperationError>)
    requires
        outbox.wf(),
    ensures
        r == evidence_decision(*activity, *receipt_evidence, signed_view(*outbox, idempotency_key@), receipt@),
{
    match (activity, receipt_evidence) {
        (EvidenceAnswer::Bundle(a), EvidenceAnswer::Bundle(rb)) => {
            let signed = match outbox.exact_signed_bytes(idempotency_key) {
                Ok(s) => s,
                Err(_) => {
                    return Err(HumanOperationError::Refused);
                },
            };
            if crate::bytes::bytes_equal(a.as_slice(), signed) && crate::bytes::bytes_equal(rb.as_slice(), receipt) {
                Ok(true)
            } else {
                Err(HumanOperationError::Refused)
            }
        },
        (EvidenceAnswer::Unavailable, _) => Ok(false),
        (_, EvidenceAnswer::Unavailable) => Ok(false),
        _ => Err(HumanOperationError::Refused),
    }
}

/// The commitments of the batch that authorized a receipt.
#[derive(Clone, Copy, Debug, PartialEq, Eq)]
pub struct BatchAuthority {
    pub batch_id: [u8; 32],
    pub asset: [u8; 32],
    pub previous_state_root: [u8; 32],
    pub resulting_state_root: [u8; 32],
    pub sequencer_public_key: [u8; 32],
}

/// The answer to a receipt lookup: `0` when the node has no receipt; else `1`, the receipt
/// after its length as a big-endian `u32`, the authorizing batch's identifier, asset,
/// previous and resulting state roots and sequencer key, and the verification rank served.
/// `None` for a receipt that is empty or longer than `MAX_RESPONSE`.
pub open spec fn receipt_answer(found: Option<(Seq<u8>, BatchAuthority, u8)>) -> Option<Seq<u8>> {
    match found {
        None => Some(seq![0u8]),
        Some((receipt, a, rank)) => if receipt.len() == 0 || receipt.len() > MAX_RESPONSE {
            None
        } else {
            Some(seq![1u8] + u32_be(receipt.len() as u32) + receipt + a.batch_id@ + a.asset@ + a.previous_state_root@
                + a.resulting_state_root@ + a.sequencer_public_key@ + seq![rank])
        },
    }
}

/// Answers a receipt lookup: absent, or the verified receipt with its authorizing batch
/// and the verification rank the store serves.
///
/// # Errors
///
/// `Refused` where `receipt_answer` has no answer.
pub fn receipt_lookup_response(found: Option<(&[u8], &BatchAuthority, u8)>) -> (r: Result<Vec<u8>, HumanOperationError>)
    ensures
        match receipt_answer(
            match found {
                None => None,
                Some((b, a, rank)) => Some((b@, *a, rank)),
            },
        ) {
            Some(b) => r matches Ok(v) && v@ == b,
            None => r == Err::<Vec<u8>, HumanOperationError>(HumanOperationError::Refused),
        },
{
    let mut out: Vec<u8> = Vec::new();
    match found {
        None => {
            out.push(0);
            assert(out@ =~= seq![0u8]);
            Ok(out)
        },
        Some((receipt, a, rank)) => {
            if receipt.len() == 0 || receipt.len() > MAX_RESPONSE {
                return Err(HumanOperationError::Refused);
            }
            out.push(1);
            push_u32(&mut out, receipt.len() as u32);
            push_all(&mut out, receipt);
            push_all(&mut out, &a.batch_id);
            push_all(&mut out, &a.asset);
            push_all(&mut out, &a.previous_state_root);
            push_all(&mut out, &a.resulting_state_root);
            push_all(&mut out, &a.sequencer_public_key);
            out.push(rank);
            Ok(out)
        },
    }
}

} // verus!
