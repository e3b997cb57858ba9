//! Preparation of activities: the lifecycle from preparation to submission or expiry.
use vstd::prelude::*;

pub mod expiry;

pub use expiry::{
    ExpirationReport, LifecycleError, LifecycleState, PayloadRedaction, PreparationLifecycle,
    RetentionReport,
};

use crate::prepare::expiry::{
    count_discards, count_preserves, expired, expired_reservation, expiry_candidate, candidate_ids, swept,
};
use crate::bytes::lex_lt;

verus! {

/// Domain-separated digest of the validated structured disclosure.
#[derive(Clone, Copy, Debug, PartialEq, Eq)]
pub struct DisclosureDigest(pub [u8; 32]);

/// What the audit log records of one preparation.
#[derive(Clone, Copy, Debug, PartialEq, Eq)]
pub struct PreparationAuditEntry {
    pub idempotency_key: [u8; 32],
    pub observed_head_sequence: u64,
    pub disclosure_digest: DisclosureDigest,
}

/// Expires elapsed preparations at the authoritative core batch time and releases their
/// reservations through `release`.
///
/// # Errors
///
/// The first refusal `release` returns.
pub fn expire<F>(lifecycle: &mut PreparationLifecycle, release: &F, core_batch_time: u64) -> (r: Result<ExpirationReport, LifecycleError>)
    where
        F: Fn([u8; 32]) -> Result<bool, LifecycleError>,
    requires
        old(lifecycle).wf(),
        forall|id: [u8; 32]| call_requires(*release, (id,)),
    ensures
        final(lifecycle).wf(),
        ({
            let before = old(lifecycle).preps();
            let after = final(lifecycle).preps();
            &&& after.len() == before.len()
            &&& forall|i: int| 0 <= i < before.len() ==> (#[trigger] after[i] == before[i] || (expiry_candidate(before[i], core_batch_time) && after[i] == expired(before[i], core_batch_time)))
            &&& r matches Err(e) ==> exists|id: [u8; 32]| call_ensures(*release, (id,), Err::<bool, LifecycleError>(e))
            &&& r matches Ok(report) ==> {
                &&& forall|i: int| 0 <= i < before.len() ==> #[trigger] after[i] == if expiry_candidate(before[i], core_batch_time) { expired(before[i], core_batch_time) } else { before[i] }
                &&& report.expired_preparations@.map_values(|a: [u8; 32]| a@) == candidate_ids(before, core_batch_time)
                &&& forall|k: int| 0 <= k < report.released_reservations@.len() ==> call_ensures(*release, ((#[trigger] report.released_reservations@[k]),), Ok::<bool, LifecycleError>(true))
                &&& forall|k: int| 0 <= k < report.released_reservations@.len() ==> expired_reservation(before, core_batch_time, #[trigger] report.released_reservations@[k])
                &&& forall|a: int, b: int| 0 <= a < b < report.expired_preparations@.len() ==> lex_lt((#[trigger] report.expired_preparations@[a])@, (#[trigger] report.expired_preparations@[b])@)
            }
        }),
{
    lifecycle.expire_elapsed(release, core_batch_time)
}

/// Discards terminal signed bytes while preserving every unresolved submission.
pub fn retention_sweep(lifecycle: &mut PreparationLifecycle, current_sequence: u64, retention_sequences: u64) -> (r: RetentionReport)
    requires
        old(lifecycle).wf(),
    ensures
        final(lifecycle).wf(),
        final(lifecycle).preps().len() == old(lifecycle).preps().len(),
        forall|i: int| 0 <= i < old(lifecycle).preps().len() ==> #[trigger] final(lifecycle).preps()[i] == swept(old(lifecycle).preps()[i], current_sequence, retention_sequences),
        r.discarded_terminal_signed_bytes == count_discards(old(lifecycle).preps(), current_sequence, retention_sequences),
        r.preserved_unresolved_signed_bytes == count_preserves(old(lifecycle).preps()),
{
    lifecycle.sweep_retention(current_sequence, retention_sequences)
}

} // verus!
