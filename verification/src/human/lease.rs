//! Mapping a wall-clock lease window onto core sequences through an authority's clock
//! attestation.
use vstd::prelude::*;

use crate::bytes::{push_all, push_u32, push_u64, u32_be, u64_be};
use crate::human::journey::MAX_RESPONSE;
use crate::managed_agent::HumanOperationError;

verus! {

/// Authenticated authority observation relating wall clock to the core clock. Both anchors
/// are required so that the mapping never assumes seconds equal blocks.
#[derive(Clone, Debug, PartialEq, Eq)]
pub struct CoreLeaseAttestation {
    pub lower_unix_ms: u64,
    pub lower_sequence: u64,
    pub upper_unix_ms: u64,
    pub upper_sequence: u64,
    pub observed_head_sequence: u64,
    pub canonical_bytes: Vec<u8>,
}

/// Whether the attestation's anchors can map the window `not_before` to `not_after`: both
/// spans positive, the attestation non-empty, the lower sequence positive with the observed
/// head between the two sequences, and the window non-empty within the two instants.
pub open spec fn lease_window_ok(a: CoreLeaseAttestation, not_before: u64, not_after: u64) -> bool {
    &&& a.lower_unix_ms < a.upper_unix_ms
    &&& a.lower_sequence < a.upper_sequence
    &&& a.canonical_bytes@.len() > 0
    &&& a.lower_sequence != 0
    &&& a.lower_sequence <= a.observed_head_sequence <= a.upper_sequence
    &&& a.lower_unix_ms <= not_before < not_after <= a.upper_unix_ms
}

/// The sequence window a wall-clock window maps to: the first sequence rounds the start
/// down and the last rounds the end up, each from the lower anchor at the attested rate.
/// `None` where the anchors cannot map the window, where an intermediate product, sum or
/// result exceeds 64 bits, or where the last sequence is not past both the observed head
/// and the first sequence.
pub open spec fn lease_map(a: CoreLeaseAttestation, not_before: u64, not_after: u64) -> Option<(u64, u64)> {
    if !lease_window_ok(a, not_before, not_after) {
        None
    } else {
        let wall = a.upper_unix_ms - a.lower_unix_ms;
        let span = a.upper_sequence - a.lower_sequence;
        let low = (not_before - a.lower_unix_ms) * span;
        let high = (not_after - a.lower_unix_ms) * span;
        if low > u64::MAX || high > u64::MAX || high + (wall - 1) > u64::MAX {
            None
        } else {
            let first = a.lower_sequence + low / wall;
            let last = a.lower_sequence + (high + (wall - 1)) / wall;
            if first > u64::MAX || last > u64::MAX || last <= a.observed_head_sequence || last <= first {
                None
            } else {
                Some((first as u64, last as u64))
            }
        }
    }
}

impl CoreLeaseAttestation {
    /// Maps the wall-clock window `not_before` to `not_after` (milliseconds) to the sequences
    /// of its first and last core blocks.
    ///
    /// # Errors
    ///
    /// `Refused` where `lease_map` has no window.
    pub fn map(&self, not_before: u64, not_after: u64) -> (r: Result<(u64, u64), HumanOperationError>)
        ensures
            match lease_map(*self, not_before, not_after) {
                Some(w) => r == Ok::<(u64, u64), HumanOperationError>(w),
                None => r == Err::<(u64, u64), HumanOperationError>(HumanOperationError::Refused),
            },
    {
        let wall_span = match self.upper_unix_ms.checked_sub(self.lower_unix_ms) {
            Some(v) => v,
            None => {
                return Err(HumanOperationError::Refused);
            },
        };
        let sequence_span = match self.upper_sequence.checked_sub(self.lower_sequence) {
            Some(v) => v,
            None => {
                return Err(HumanOperationError::Refused);
            },
        };
        if wall_span == 0 || sequence_span == 0 || self.canonical_bytes.len() == 0 || self.lower_sequence == 0
            || self.observed_head_sequence < self.lower_sequence || self.observed_head_sequence > self.upper_sequence
            || not_before < self.lower_unix_ms || not_after <= not_before || not_after > self.upper_unix_ms
        {
            return Err(HumanOperationError::Refused);
        }
        let lower_delta = not_before - self.lower_unix_ms;
        let upper_delta = not_after - self.lower_unix_ms;
        let lower_product = match lower_delta.checked_mul(sequence_span) {
            Some(v) => v,
            None => {
                return Err(HumanOperationError::Refused);
            },
        };
        let upper_product = match upper_delta.checked_mul(sequence_span) {
            Some(v) => v,
            None => {
                return Err(HumanOperationError::Refused);
            },
        };
        let rounded = match upper_product.checked_add(wall_span - 1) {
            Some(v) => v,
            None => {
                return Err(HumanOperationError::Refused);
            },
        };
        let first = match self.lower_sequence.checked_add(lower_product / wall_span) {
            Some(v) => v,
            None => {
                return Err(HumanOperationError::Refused);
            },
        };
        let last = match self.lower_sequence.checked_add(rounded / wall_span) {
            Some(v) => v,
            None => {
                return Err(HumanOperationError::Refused);
            },
        };
        if last <= self.observed_head_sequence || last <= first {
            return Err(HumanOperationError::Refused);
        }
        Ok((first, last))
    }
}

/// The answer to a lease mapping: the first and last sequences and the observed head, each
/// as a big-endian `u64`, then the attestation after its length as a big-endian `u32`;
/// `None` where the window does not map or the attestation exceeds `MAX_RESPONSE` bytes.
pub open spec fn lease_response(a: CoreLeaseAttestation, not_before: u64, not_after: u64) -> Option<Seq<u8>> {
    match lease_map(a, not_before, not_after) {
        None => None,
        Some((first, last)) => if a.canonical_bytes@.len() > MAX_RESPONSE {
            None
        } else {
            Some(u64_be(first) + u64_be(last) + u64_be(a.observed_head_sequence) + u32_be(
                a.canonical_bytes@.len() as u32,
            ) + a.canonical_bytes@)
        },
    }
}

/// Maps a wall-clock lease window through the authority's clock attestation and answers
/// with the sequence window, the observed head and the attestation.
///
/// # Errors
///
/// `Refused` where `lease_response` has no answer.
pub fn lease_map_response(attestation: &CoreLeaseAttestation, not_before: u64, not_after: u64) -> (r: Result<Vec<u8>, HumanOperationError>)
    ensures
        match lease_response(*attestation, not_before, not_after) {
            Some(b) => r matches Ok(v) && v@ == b,
            None => r == Err::<Vec<u8>, HumanOperationError>(HumanOperationError::Refused),
        },
{
    let (first, last) = match attestation.map(not_before, not_after) {
        Ok(w) => w,
        Err(e) => {
            return Err(e);
        },
    };
    if attestation.canonical_bytes.len() > MAX_RESPONSE {
        return Err(HumanOperationError::Refused);
    }
    let mut out: Vec<u8> = Vec::new();
    push_u64(&mut out, first);
    push_u64(&mut out, last);
    push_u64(&mut out, attestation.observed_head_sequence);
    push_u32(&mut out, attestation.canonical_bytes.len() as u32);
    push_all(&mut out, attestation.canonical_bytes.as_slice());
    Ok(out)
}

} // verus!
