//! What the authority reports of an agent's budget and key-rotation policy, and the
//! observations the daemon records of them.
use vstd::prelude::*;

use crate::bytes::{is_zero32, lemma_u128_split, lemma_u64_at_be, push_all, push_u128, push_u64, u128_at, u128_be, u64_be};
use crate::human::journey::{push_response_text, response_text};
use crate::managed_agent::fields::{fields_bytes, fields_fit, lemma_fields_read, text_field, text_fits, FieldView};
use crate::managed_agent::observations::{
    budget_observation_ok, key_policy_kinds, key_policy_ok, observation_key_view, record_observation,
};
use crate::managed_agent::{zero32, HumanOperationError};
use crate::store::{StorageClass, Store, StoreView, TenantId};

verus! {

/// The authority's report of a budget's state.
#[derive(Clone, Copy, Debug, PartialEq, Eq)]
pub struct CoreBudgetState {
    pub revocation_sequence: u64,
    pub observed_head_sequence: u64,
    pub verification: u8,
    pub evidence_digest: [u8; 32],
    pub receipt_digest: [u8; 32],
    pub checkpoint_digest: [u8; 32],
    pub age_sequences: u64,
    pub maximum_age_sequences: u64,
    pub remaining: u128,
    pub asset: [u8; 32],
}

/// The authority's report of an agent's key-rotation policy.
#[derive(Clone, Copy, Debug, PartialEq, Eq)]
pub struct CoreKeyPolicy {
    pub policy_revision: u64,
    pub required_delay_seconds: u64,
    pub maximum_delay_seconds: u64,
    pub effective_sequence: u64,
    pub observed_head_sequence: u64,
    pub verification: u8,
    pub evidence_digest: [u8; 32],
    pub checkpoint_digest: [u8; 32],
    pub age_sequences: u64,
    pub maximum_age_sequences: u64,
}

/// Whether a budget report can be relied on: revoked at a positive sequence no later than
/// the observed head, at a finalised verification level (4 or 5), with non-zero evidence,
/// receipt, checkpoint and asset, and fresh within a positive bound.
pub open spec fn budget_state_ok(s: CoreBudgetState) -> bool {
    &&& s.revocation_sequence != 0
    &&& s.observed_head_sequence >= s.revocation_sequence
    &&& 4 <= s.verification <= 5
    &&& s.evidence_digest@ != zero32()
    &&& s.receipt_digest@ != zero32()
    &&& s.checkpoint_digest@ != zero32()
    &&& s.maximum_age_sequences != 0
    &&& s.age_sequences <= s.maximum_age_sequences
    &&& s.asset@ != zero32()
}

/// Whether a budget report can be relied on.
pub fn budget_state_acceptable(s: &CoreBudgetState) -> (r: bool)
    ensures
        r == budget_state_ok(*s),
{
    s.revocation_sequence != 0 && s.observed_head_sequence >= s.revocation_sequence && 4 <= s.verification
        && s.verification <= 5 && !is_zero32(&s.evidence_digest) && !is_zero32(&s.receipt_digest)
        && !is_zero32(&s.checkpoint_digest) && s.maximum_age_sequences != 0 && s.age_sequences
        <= s.maximum_age_sequences && !is_zero32(&s.asset)
}

/// Whether a key-policy report can be relied on: a positive revision, a positive required
/// delay within the maximum, in effect from a positive sequence no later than the observed
/// head, at a finalised verification level (4 or 5), with non-zero evidence and checkpoint,
/// and fresh within a positive bound.
pub open spec fn key_policy_state_ok(s: CoreKeyPolicy) -> bool {
    &&& s.policy_revision != 0
    &&& s.required_delay_seconds != 0
    &&& s.maximum_delay_seconds >= s.required_delay_seconds
    &&& s.effective_sequence != 0
    &&& s.observed_head_sequence >= s.effective_sequence
    &&& 4 <= s.verification <= 5
    &&& s.evidence_digest@ != zero32()
    &&& s.checkpoint_digest@ != zero32()
    &&& s.maximum_age_sequences != 0
    &&& s.age_sequences <= s.maximum_age_sequences
}

/// Whether a key-policy report can be relied on.
pub fn key_policy_acceptable(s: &CoreKeyPolicy) -> (r: bool)
    ensures
        r == key_policy_state_ok(*s),
{
    s.policy_revision != 0 && s.required_delay_seconds != 0 && s.maximum_delay_seconds >= s.required_delay_seconds
        && s.effective_sequence != 0 && s.observed_head_sequence >= s.effective_sequence && 4 <= s.verification
        && s.verification <= 5 && !is_zero32(&s.evidence_digest) && !is_zero32(&s.checkpoint_digest)
        && s.maximum_age_sequences != 0 && s.age_sequences <= s.maximum_age_sequences
}

/// The answer to a budget-state request, which is also the observation recorded: the
/// budget, the revocation sequence and observed head, the verification level, the evidence,
/// receipt and checkpoint digests, the age and its bound, the remaining amount and the
/// asset, each number big-endian.
pub open spec fn budget_state_bytes(budget_id: Seq<u8>, s: CoreBudgetState) -> Seq<u8> {
    budget_id + u64_be(s.revocation_sequence) + u64_be(s.observed_head_sequence) + seq![s.verification]
        + s.evidence_digest@ + s.receipt_digest@ + s.checkpoint_digest@ + u64_be(s.age_sequences)
        + u64_be(s.maximum_age_sequences) + u128_be(s.remaining) + s.asset@
}

/// The answer to a key-policy request, which is also the observation recorded: the DID as
/// a response text, whether it is a recovery, the revision, the required and maximum
/// delays, the effective sequence and observed head, the verification level, the evidence
/// and checkpoint digests, and the age and its bound, each number big-endian; `None` for a
/// DID that is empty or longer than a response text.
pub open spec fn key_policy_bytes(did: Seq<char>, recovery: bool, s: CoreKeyPolicy) -> Option<Seq<u8>> {
    match response_text(did) {
        None => None,
        Some(t) => Some(
            t + seq![if recovery { 1u8 } else { 0u8 }] + u64_be(s.policy_revision) + u64_be(s.required_delay_seconds)
                + u64_be(s.maximum_delay_seconds) + u64_be(s.effective_sequence) + u64_be(
                s.observed_head_sequence,
            ) + seq![s.verification] + s.evidence_digest@ + s.checkpoint_digest@ + u64_be(s.age_sequences)
                + u64_be(s.maximum_age_sequences),
        ),
    }
}

/// What recording observation `bytes` of `class` under `digest` does to a store and
/// answers: refused for an all-zero digest, kept as it is when the same observation is
/// recorded, refused when a different one is, and added otherwise.
pub open spec fn recorded(before: StoreView, after: StoreView, tenant: Seq<char>, class: u8, digest: Seq<u8>, bytes: Seq<u8>, r: Result<Vec<u8>, HumanOperationError>) -> bool {
    let k = observation_key_view(tenant, class, digest);
    if digest == zero32() {
        r == Err::<Vec<u8>, HumanOperationError>(HumanOperationError::Refused) && after == before
    } else if before.contains_key(k) {
        &&& after == before
        &&& before[k] == (StorageClass::LocalOnly, bytes) ==> (r matches Ok(b) && b@ == bytes)
        &&& before[k] != (StorageClass::LocalOnly, bytes) ==> r == Err::<Vec<u8>, HumanOperationError>(HumanOperationError::Refused)
    } else {
        &&& r matches Ok(b) && b@ == bytes
        &&& after == before.insert(k, (StorageClass::LocalOnly, bytes))
    }
}

/// Answers a budget-state request with the authority's report and records it as the
/// budget observation under its evidence digest.
///
/// # Errors
///
/// `Refused` for an all-zero budget, or when recording refuses (see `recorded`).
pub fn agent_budget_state(store: &mut Store, tenant: &TenantId, active_budget_id: [u8; 32], state: CoreBudgetState) -> (r: Result<Vec<u8>, HumanOperationError>)
    requires
        old(store).wf(),
    ensures
        final(store).wf(),
        active_budget_id@ == zero32() ==> r == Err::<Vec<u8>, HumanOperationError>(HumanOperationError::Refused)
            && final(store).view() == old(store).view(),
        active_budget_id@ != zero32() ==> recorded(
            old(store).view(),
            final(store).view(),
            tenant@,
            1,
            state.evidence_digest@,
            budget_state_bytes(active_budget_id@, state),
            r,
        ),
{
    if is_zero32(&active_budget_id) {
        return Err(HumanOperationError::Refused);
    }
    let mut out: Vec<u8> = Vec::new();
    push_all(&mut out, &active_budget_id);
    push_u64(&mut out, state.revocation_sequence);
    push_u64(&mut out, state.observed_head_sequence);
    out.push(state.verification);
    push_all(&mut out, &state.evidence_digest);
    push_all(&mut out, &state.receipt_digest);
    push_all(&mut out, &state.checkpoint_digest);
    push_u64(&mut out, state.age_sequences);
    push_u64(&mut out, state.maximum_age_sequences);
    push_u128(&mut out, state.remaining);
    push_all(&mut out, &state.asset);
    assert(out@ =~= budget_state_bytes(active_budget_id@, state));
    let mut recorded_copy: Vec<u8> = Vec::new();
    push_all(&mut recorded_copy, out.as_slice());
    match record_observation(store, tenant, 1, state.evidence_digest, recorded_copy) {
        Ok(()) => Ok(out),
        Err(e) => Err(e),
    }
}

/// Answers a key-policy request with the authority's report and records it as the
/// key-policy observation under its evidence digest.
///
/// # Errors
///
/// `Refused` for a DID that is empty or longer than a response text, or when recording
/// refuses (see `recorded`).
pub fn agent_key_policy(store: &mut Store, tenant: &TenantId, agent_did: &str, recovery: bool, state: CoreKeyPolicy) -> (r: Result<Vec<u8>, HumanOperationError>)
    requires
        old(store).wf(),
    ensures
        final(store).wf(),
        match key_policy_bytes(agent_did@, recovery, state) {
            None => r == Err::<Vec<u8>, HumanOperationError>(HumanOperationError::Refused)
                && final(store).view() == old(store).view(),
            Some(b) => recorded(old(store).view(), final(store).view(), tenant@, 2, state.evidence_digest@, b, r),
        },
{
    let mut out: Vec<u8> = Vec::new();
    if !push_response_text(&mut out, agent_did) {
        return Err(HumanOperationError::Refused);
    }
    out.push(if recovery { 1u8 } else { 0u8 });
    push_u64(&mut out, state.policy_revision);
    push_u64(&mut out, state.required_delay_seconds);
    push_u64(&mut out, state.maximum_delay_seconds);
    push_u64(&mut out, state.effective_sequence);
    push_u64(&mut out, state.observed_head_sequence);
    out.push(state.verification);
    push_all(&mut out, &state.evidence_digest);
    push_all(&mut out, &state.checkpoint_digest);
    push_u64(&mut out, state.age_sequences);
    push_u64(&mut out, state.maximum_age_sequences);
    assert(out@ =~= key_policy_bytes(agent_did@, recovery, state).unwrap());
    let mut recorded_copy: Vec<u8> = Vec::new();
    push_all(&mut recorded_copy, out.as_slice());
    match record_observation(store, tenant, 2, state.evidence_digest, recorded_copy) {
        Ok(()) => Ok(out),
        Err(e) => Err(e),
    }
}

/// Law: the budget observation `agent_budget_state` records for a report that can be relied
/// on is one `budget_observation` accepts, for the budget it names and under its evidence
/// digest, exactly when the report observed the head no earlier than `minimum_sequence`
/// and, where nothing may remain, nothing remains.
pub proof fn lemma_budget_state_read_back(budget_id: Seq<u8>, s: CoreBudgetState, minimum_sequence: u64, require_zero: bool)
    requires
        budget_id.len() == 32,
        budget_state_ok(s),
    ensures
        budget_observation_ok(budget_state_bytes(budget_id, s), s.evidence_digest@, budget_id, minimum_sequence, require_zero)
            <==> (s.observed_head_sequence >= minimum_sequence && !(require_zero && s.remaining != 0)),
{
    let b = budget_state_bytes(budget_id, s);
    assert(b.len() == 209);
    assert(b.subrange(0, 32) =~= budget_id);
    assert(b.subrange(49, 81) =~= s.evidence_digest@);
    assert(b.subrange(81, 113) =~= s.receipt_digest@);
    assert(b.subrange(113, 145) =~= s.checkpoint_digest@);
    assert(b.subrange(177, 209) =~= s.asset@);
    assert(b[48] == s.verification);
    assert(b =~= b.subrange(0, 40) + u64_be(s.observed_head_sequence) + b.subrange(48, 209));
    lemma_u64_at_be(b.subrange(0, 40), s.observed_head_sequence, b.subrange(48, 209));
    assert(b =~= b.subrange(0, 145) + u64_be(s.age_sequences) + b.subrange(153, 209));
    lemma_u64_at_be(b.subrange(0, 145), s.age_sequences, b.subrange(153, 209));
    assert(b =~= b.subrange(0, 153) + u64_be(s.maximum_age_sequences) + b.subrange(161, 209));
    lemma_u64_at_be(b.subrange(0, 153), s.maximum_age_sequences, b.subrange(161, 209));
    let hi = (s.remaining >> 64u128) as u64;
    let lo = s.remaining as u64;
    assert(b =~= b.subrange(0, 161) + u64_be(hi) + b.subrange(169, 209));
    lemma_u64_at_be(b.subrange(0, 161), hi, b.subrange(169, 209));
    assert(b =~= b.subrange(0, 169) + u64_be(lo) + b.subrange(177, 209));
    lemma_u64_at_be(b.subrange(0, 169), lo, b.subrange(177, 209));
    lemma_u128_split(s.remaining);
    assert(u128_at(b, 161) == s.remaining);
}

/// The fields of a key-policy answer.
pub open spec fn key_policy_fields(did: Seq<char>, recovery: bool, s: CoreKeyPolicy) -> Seq<FieldView> {
    seq![
        FieldView::Text(did),
        FieldView::U8(if recovery { 1u8 } else { 0u8 }),
        FieldView::U64(s.policy_revision),
        FieldView::U64(s.required_delay_seconds),
        FieldView::U64(s.maximum_delay_seconds),
        FieldView::U64(s.effective_sequence),
        FieldView::U64(s.observed_head_sequence),
        FieldView::U8(s.verification),
        FieldView::Fixed(s.evidence_digest@),
        FieldView::Fixed(s.checkpoint_digest@),
        FieldView::U64(s.age_sequences),
        FieldView::U64(s.maximum_age_sequences),
    ]
}

/// Law: the key-policy observation `agent_key_policy` records for a report that can be
/// relied on, about a DID of at most 4096 bytes, is one `key_policy_observation` accepts
/// for that DID and kind of journey under its evidence digest exactly when the journey's
/// delay is the required one and it is ready that delay after finalization.
pub proof fn lemma_key_policy_read_back(
    did: Seq<char>,
    recovery: bool,
    s: CoreKeyPolicy,
    delay: u64,
    ready_at: u64,
    finalized_at: u64,
)
    requires
        key_policy_state_ok(s),
        text_fits(did),
    ensures
        key_policy_bytes(did, recovery, s) matches Some(b) && (key_policy_ok(
            b,
            s.evidence_digest@,
            did,
            recovery,
            delay,
            ready_at,
            finalized_at,
        ) <==> (delay == s.required_delay_seconds && finalized_at + delay <= u64::MAX && ready_at == finalized_at
            + delay)),
{
    let fs = key_policy_fields(did, recovery, s);
    let ks = key_policy_kinds();
    assert(fields_fit(ks, fs));
    reveal_with_fuel(fields_bytes, 13);
    let b = key_policy_bytes(did, recovery, s).unwrap();
    assert(response_text(did).unwrap() == text_field(did));
    assert(b =~= fields_bytes(ks, fs));
    lemma_fields_read(ks, fs, Seq::empty(), Seq::empty());
    assert(Seq::<u8>::empty() + fields_bytes(ks, fs) + Seq::<u8>::empty() =~= b);
}

} // verus!
