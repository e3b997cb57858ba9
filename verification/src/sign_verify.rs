//! Signed submission bytes admitted only after exact signature verification.
use vstd::prelude::*;

use crate::bytes::push_all;

verus! {

/// What an exact-byte verification bound: the activity and the length of its signed bytes.
#[derive(Clone, Copy, Debug, PartialEq, Eq)]
pub struct SubmissionBindingAudit {
    pub activity_id: [u8; 32],
    pub signed_byte_length: usize,
}

/// Bytes admitted to submission only after exact signature verification.
#[derive(Debug)]
pub struct VerifiedSubmission {
    signed_canonical_bytes: Vec<u8>,
    idempotency_key: [u8; 32],
    pub audit: SubmissionBindingAudit,
}

impl VerifiedSubmission {
    /// Records the outcome of a successful exact-byte verification: the signed canonical
    /// bytes, the idempotency key they were signed under and the activity they encode.
    pub fn new(signed_canonical_bytes: Vec<u8>, idempotency_key: [u8; 32], activity_id: [u8; 32]) -> (r: Self)
        ensures
            r.bytes_view() == signed_canonical_bytes@,
            r.key_view() == idempotency_key@,
            r.audit_view().activity_id == activity_id,
            r.audit_view().signed_byte_length == signed_canonical_bytes@.len(),
    {
        let signed_byte_length = signed_canonical_bytes.len();
        VerifiedSubmission {
            signed_canonical_bytes,
            idempotency_key,
            audit: SubmissionBindingAudit { activity_id, signed_byte_length },
        }
    }

    /// The exact signed bytes.
    pub closed spec fn bytes_view(&self) -> Seq<u8> {
        self.signed_canonical_bytes@
    }

    /// The verification audit.
    pub closed spec fn audit_view(&self) -> SubmissionBindingAudit {
        self.audit
    }

    /// The idempotency key the bytes were signed under.
    pub closed spec fn key_view(&self) -> Seq<u8> {
        self.idempotency_key@
    }

    /// The exact signed bytes.
    pub fn exact_bytes(&self) -> (r: &[u8])
        ensures
            r@ == self.bytes_view(),
    {
        self.signed_canonical_bytes.as_slice()
    }

    /// Gives up the exact signed bytes.
    pub fn into_exact_bytes(self) -> (r: Vec<u8>)
        ensures
            r@ == self.bytes_view(),
    {
        self.signed_canonical_bytes
    }

    /// The idempotency key the bytes were signed under.
    pub fn idempotency_key(&self) -> (r: [u8; 32])
        ensures
            r@ == self.key_view(),
    {
        self.idempotency_key
    }

    /// The activity the bytes encode.
    pub fn activity_id(&self) -> (r: [u8; 32])
        ensures
            r == self.audit_view().activity_id,
    {
        self.audit.activity_id
    }

    /// A copy of the verified submission.
    pub fn duplicate(&self) -> (r: Self)
        ensures
            r.bytes_view() == self.bytes_view(),
            r.key_view() == self.key_view(),
            r.audit_view() == self.audit_view(),
    {
        let mut bytes: Vec<u8> = Vec::new();
        push_all(&mut bytes, self.signed_canonical_bytes.as_slice());
        VerifiedSubmission {
            signed_canonical_bytes: bytes,
            idempotency_key: self.idempotency_key,
            audit: self.audit,
        }
    }
}

} // verus!
