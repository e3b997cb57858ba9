//! Finalizing a governance action on a managed agent: what the request must hold, the
//! change it makes to the record, the operation bytes and digest it is bound to, and the
//! action record that makes a repeated request answer as the first one did.
use vstd::prelude::*;

use crate::bytes::{is_zero32, push_all, push_u128, push_u32, push_u64, text_bytes, u128_be, u32_be, u64_be};
use crate::digest::{sha256, sha256_digest};
use crate::managed_agent::{
    agent_valid, blank, is_blank, zero32, FinalizationEvidence, HumanOperationError, ManagedAgent,
    MAX_EVIDENCE,
};
use crate::managed_agent::fields::{field_views, fields_bytes, fields_writable, write_fields, FieldKind, FieldValue, FieldView};
use crate::managed_agent::codec::{agent_bytes, agent_encodable, agent_fits, encode, lemma_same_fields, seed_fields};
use crate::managed_agent::fields::fixed_views;
use crate::managed_agent::records::{agent_entry, agent_id_ok, agent_key, agent_key_view, agent_loadable, lemma_stored_agent, load_agent, stored_agent};
use crate::managed_agent::observations::{
    budget_observation, budget_observation_ok, key_policy_observation, key_policy_ok, observation_key_view,
    require_session_observation, session_fields_match, session_observation_fields, session_observation_ok,
};
use crate::managed_agent::responses::{agent_response, response_bytes, response_writable};
use crate::store::{KeyView, ObjectKind, StorageClass, Store, StoreView, TenantId, TenantKey};
use crate::text::{decimal_text, hex_text, push_decimal, push_hex, same_text, to_hex};

verus! {

/// Whether finalization evidence is complete: a non-zero action key that is also the
/// activity, a non-zero receipt digest, a non-zero sequence and time, and a verification
/// level of 4 or 5.
pub open spec fn evidence_complete(e: FinalizationEvidence) -> bool {
    &&& e.action_key@ != zero32()
    &&& e.activity_id@ == e.action_key@
    &&& e.receipt_digest@ != zero32()
    &&& e.observed_sequence != 0
    &&& 4 <= e.verification <= 5
    &&& e.finalized_at != 0
}

/// Checks that finalization evidence is complete.
pub fn evidence_acceptable(evidence: &FinalizationEvidence) -> (r: bool)
    ensures
        r == evidence_complete(*evidence),
{
    !is_zero32(&evidence.action_key) && crate::bytes::fixed_equal(&evidence.activity_id, &evidence.action_key)
        && !is_zero32(&evidence.receipt_digest) && evidence.observed_sequence != 0
        && evidence.verification >= 4 && evidence.verification <= 5 && evidence.finalized_at != 0
}

/// The domain tag of finalization digests: `layerx-agentd/managed-agent-finalize/v1` and a
/// zero byte.
pub open spec fn finalize_domain() -> Seq<u8> {
    seq![108u8, 97u8, 121u8, 101u8, 114u8, 120u8, 45u8, 97u8, 103u8, 101u8, 110u8, 116u8, 100u8, 47u8, 109u8, 97u8, 110u8, 97u8, 103u8, 101u8, 100u8, 45u8, 97u8, 103u8, 101u8, 110u8, 116u8, 45u8, 102u8, 105u8, 110u8, 97u8, 108u8, 105u8, 122u8, 101u8, 47u8, 118u8, 49u8, 0u8]
}

/// The bytes a finalization digest covers: the tag, the agent identifier and the operation,
/// each after its length as a big-endian `u32` (truncated), then the evidence.
pub open spec fn finalization_preimage(agent: Seq<char>, operation: Seq<u8>, e: FinalizationEvidence) -> Seq<u8> {
    finalize_domain() + u32_be(text_bytes(agent).len() as u32) + text_bytes(agent)
        + u32_be(operation.len() as u32) + operation + e.action_key@ + e.activity_id@
        + e.receipt_digest@ + u64_be(e.observed_sequence) + seq![e.verification]
        + u64_be(e.finalized_at)
}

/// The digest binding a finalization request: agent, operation and evidence.
pub fn finalization_digest(agent: &str, operation: &[u8], evidence: &FinalizationEvidence) -> (r: [u8; 32])
    ensures
        r@ == sha256(finalization_preimage(agent@, operation@, *evidence)),
{
    let domain: [u8; 40] = [108, 97, 121, 101, 114, 120, 45, 97, 103, 101, 110, 116, 100, 47, 109, 97, 110, 97, 103, 101, 100, 45, 97, 103, 101, 110, 116, 45, 102, 105, 110, 97, 108, 105, 122, 101, 47, 118, 49, 0];
    let name = agent.as_bytes();
    let mut bytes: Vec<u8> = Vec::new();
    push_all(&mut bytes, &domain);
    push_u32(&mut bytes, name.len() as u32);
    push_all(&mut bytes, name);
    push_u32(&mut bytes, operation.len() as u32);
    push_all(&mut bytes, operation);
    push_all(&mut bytes, &evidence.action_key);
    push_all(&mut bytes, &evidence.activity_id);
    push_all(&mut bytes, &evidence.receipt_digest);
    push_u64(&mut bytes, evidence.observed_sequence);
    bytes.push(evidence.verification);
    push_u64(&mut bytes, evidence.finalized_at);
    assert(domain@ =~= finalize_domain());
    assert(bytes@ =~= finalization_preimage(agent@, operation@, *evidence));
    sha256_digest(bytes.as_slice())
}

/// The change a finalized governance action makes to an agent record.
#[derive(Debug)]
pub enum AgentChange {
    /// Pause (`resume` false) or resume the agent.
    Control { resume: bool },
    /// Replace the monthly limit and the budget it is drawn from.
    Limit { monthly_limit: u128, currency: String, replacement_budget_id: [u8; 32] },
    /// A reclaim (`kind` 0, in `currency`), or a key rotation or recovery (`kind` 1 or 2).
    Journey { kind: u8, currency: String },
    /// Archive the agent named `confirm_name`.
    Archive { confirm_name: String },
}

/// The governance operation a finalized change must have been executed as.
pub open spec fn expected_operation(c: AgentChange) -> Option<u8> {
    match c {
        AgentChange::Control { .. } => Some(6),
        AgentChange::Limit { .. } => Some(1),
        AgentChange::Journey { kind, .. } => if kind == 0 {
            Some(3)
        } else if kind == 1 || kind == 2 {
            Some(2)
        } else {
            None
        },
        AgentChange::Archive { .. } => Some(6),
    }
}

/// The governance operation a change must have been executed as, if any.
pub fn operation_code(change: &AgentChange) -> (r: Option<u8>)
    ensures
        r == expected_operation(*change),
{
    match change {
        AgentChange::Control { .. } => Some(6),
        AgentChange::Limit { .. } => Some(1),
        AgentChange::Journey { kind, .. } => if *kind == 0 {
            Some(3)
        } else if *kind == 1 || *kind == 2 {
            Some(2)
        } else {
            None
        },
        AgentChange::Archive { .. } => Some(6),
    }
}

/// Whether a change is refused on this agent: resuming an agent that is not paused, pausing
/// one that is not active, a limit that is zero, in a blank currency or without a budget,
/// or any change but control on an archived agent, in another currency, below what was
/// spent, or archiving under another name.
pub open spec fn change_refused(a: ManagedAgent, c: AgentChange) -> bool {
    match c {
        AgentChange::Control { resume } => if resume { a.state != 2 } else { a.state != 1 },
        AgentChange::Limit { monthly_limit, currency, replacement_budget_id } => {
            ||| monthly_limit == 0
            ||| blank(currency@)
            ||| replacement_budget_id@ == zero32()
            ||| a.state == 4
            ||| a.currency@ != currency@
            ||| a.spent > monthly_limit
        },
        AgentChange::Journey { kind, currency } => kind > 2 || a.state == 4 || (kind == 0 && a.currency@ != currency@),
        AgentChange::Archive { confirm_name } => a.state == 4 || a.name@ != confirm_name@,
    }
}

/// The state an agent is in after a change.
pub open spec fn changed_state(a: ManagedAgent, c: AgentChange) -> u8 {
    match c {
        AgentChange::Control { resume } => if resume { 1 } else { 2 },
        AgentChange::Archive { .. } => 4,
        _ => a.state,
    }
}

/// The monthly limit after a change.
pub open spec fn changed_limit(a: ManagedAgent, c: AgentChange) -> u128 {
    match c {
        AgentChange::Limit { monthly_limit, .. } => monthly_limit,
        _ => a.monthly_limit,
    }
}

/// The active budget after a change.
pub open spec fn changed_budget(a: ManagedAgent, c: AgentChange) -> Seq<u8> {
    match c {
        AgentChange::Limit { replacement_budget_id, .. } => replacement_budget_id@,
        _ => a.active_budget_id@,
    }
}

/// Everything but the state, limit, budget, update time and evidence is kept.
pub open spec fn keeps_identity(a: ManagedAgent, b: ManagedAgent) -> bool {
    &&& b.agent_id == a.agent_id
    &&& b.name == a.name
    &&& b.purpose == a.purpose
    &&& b.currency == a.currency
    &&& b.period_start == a.period_start
    &&& b.period_end == a.period_end
    &&& b.spent == a.spent
    &&& b.created_at == a.created_at
    &&& b.context == a.context
    &&& b.agent_did == a.agent_did
    &&& b.session_id == a.session_id
    &&& b.session_token_id == a.session_token_id
    &&& b.protocol_grant_id == a.protocol_grant_id
}

/// Whether finalizing a change on an agent is refused: evidence older than the record's
/// last update, a refused change, or evidence the record has no room left for.
pub open spec fn finalization_refused(a: ManagedAgent, c: AgentChange, e: FinalizationEvidence) -> bool {
    e.finalized_at < a.updated_at || change_refused(a, c) || a.verified_evidence@.len() >= MAX_EVIDENCE
}

/// Applies a finalized change to an agent record: the change itself, the time of
/// finalization and the receipt digest added to the verified evidence.
///
/// # Errors
///
/// `Refused` when [`finalization_refused`] holds.
pub fn finalize_record(agent: ManagedAgent, change: &AgentChange, evidence: &FinalizationEvidence) -> (r: Result<ManagedAgent, HumanOperationError>)
    requires
        agent_valid(agent),
        evidence_complete(*evidence),
    ensures
        r is Err <==> finalization_refused(agent, *change, *evidence),
        r matches Err(e) ==> e == HumanOperationError::Refused,
        r matches Ok(b) ==> {
            &&& agent_valid(b)
            &&& keeps_identity(agent, b)
            &&& b.state == changed_state(agent, *change)
            &&& b.monthly_limit == changed_limit(agent, *change)
            &&& b.active_budget_id@ == changed_budget(agent, *change)
            &&& b.updated_at == evidence.finalized_at
            &&& b.verified_evidence@ == agent.verified_evidence@.push(evidence.receipt_digest)
        },
{
    proof {
        reveal(agent_valid);
    }
    let mut agent = agent;
    if evidence.finalized_at < agent.updated_at {
        return Err(HumanOperationError::Refused);
    }
    match change {
        AgentChange::Control { resume } => {
            if *resume {
                if agent.state != 2 {
                    return Err(HumanOperationError::Refused);
                }
                agent.state = 1;
            } else {
                if agent.state != 1 {
                    return Err(HumanOperationError::Refused);
                }
                agent.state = 2;
            }
        },
        AgentChange::Limit { monthly_limit, currency, replacement_budget_id } => {
            if *monthly_limit == 0 || is_blank(currency.as_str()) || is_zero32(replacement_budget_id)
                || agent.state == 4 || !same_text(agent.currency.as_str(), currency.as_str())
                || agent.spent > *monthly_limit {
                return Err(HumanOperationError::Refused);
            }
            agent.monthly_limit = *monthly_limit;
            agent.active_budget_id = *replacement_budget_id;
        },
        AgentChange::Journey { kind, currency } => {
            if *kind > 2 || agent.state == 4 || (*kind == 0 && !same_text(agent.currency.as_str(), currency.as_str())) {
                return Err(HumanOperationError::Refused);
            }
        },
        AgentChange::Archive { confirm_name } => {
            if agent.state == 4 || !same_text(agent.name.as_str(), confirm_name.as_str()) {
                return Err(HumanOperationError::Refused);
            }
            agent.state = 4;
        },
    }
    if agent.verified_evidence.len() >= MAX_EVIDENCE {
        return Err(HumanOperationError::Refused);
    }
    let ghost before = agent.verified_evidence@;
    agent.updated_at = evidence.finalized_at;
    agent.verified_evidence.push(evidence.receipt_digest);
    proof {
        assert(!crate::managed_agent::has_zero(agent.verified_evidence@)) by {
            if crate::managed_agent::has_zero(agent.verified_evidence@) {
                let i = choose|i: int| 0 <= i < agent.verified_evidence@.len() && (#[trigger] agent.verified_evidence@[i])@ == zero32();
                if i < before.len() {
                    assert(agent.verified_evidence@[i] == before[i]);
                    assert(crate::managed_agent::has_zero(before));
                }
            }
        }
    }
    Ok(agent)
}


/// The operation bytes of a control change.
pub open spec fn control_operation_bytes(resume: bool, session_observation: Seq<u8>) -> Seq<u8> {
    seq![26u8, if resume { 1u8 } else { 0u8 }] + session_observation
}

/// The operation bytes of pausing or resuming an agent.
pub fn control_operation(resume: bool, session_observation: [u8; 32]) -> (r: Vec<u8>)
    ensures
        r@ == control_operation_bytes(resume, session_observation@),
{
    let mut out: Vec<u8> = Vec::new();
    out.push(26);
    out.push(if resume { 1 } else { 0 });
    push_all(&mut out, &session_observation);
    assert(out@ =~= control_operation_bytes(resume, session_observation@));
    out
}

/// The operation bytes of a limit change.
pub open spec fn limit_operation_bytes(monthly_limit: u128, currency: Seq<char>, replacement_budget_id: Seq<u8>) -> Seq<u8> {
    seq![27u8] + u128_be(monthly_limit) + text_bytes(currency) + replacement_budget_id
}

/// The operation bytes of replacing an agent's monthly limit and budget.
pub fn limit_operation(monthly_limit: u128, currency: &str, replacement_budget_id: [u8; 32]) -> (r: Vec<u8>)
    ensures
        r@ == limit_operation_bytes(monthly_limit, currency@, replacement_budget_id@),
{
    let mut out: Vec<u8> = Vec::new();
    out.push(27);
    push_u128(&mut out, monthly_limit);
    push_all(&mut out, currency.as_bytes());
    push_all(&mut out, &replacement_budget_id);
    assert(out@ =~= limit_operation_bytes(monthly_limit, currency@, replacement_budget_id@));
    out
}

/// The operation bytes of a journey.
pub open spec fn journey_operation_bytes(
    kind: u8,
    amount: u128,
    currency: Seq<char>,
    delay: u64,
    ready_at: u64,
    pre_observation: Seq<u8>,
    post_observation: Seq<u8>,
) -> Seq<u8> {
    seq![28u8, kind] + u128_be(amount) + text_bytes(currency) + u64_be(delay) + u64_be(ready_at)
        + pre_observation + post_observation
}

/// The operation bytes of a reclaim, key rotation or recovery.
pub fn journey_operation(
    kind: u8,
    amount: u128,
    currency: &str,
    delay: u64,
    ready_at: u64,
    pre_observation: [u8; 32],
    post_observation: [u8; 32],
) -> (r: Vec<u8>)
    ensures
        r@ == journey_operation_bytes(kind, amount, currency@, delay, ready_at, pre_observation@, post_observation@),
{
    let mut out: Vec<u8> = Vec::new();
    out.push(28);
    out.push(kind);
    push_u128(&mut out, amount);
    push_all(&mut out, currency.as_bytes());
    push_u64(&mut out, delay);
    push_u64(&mut out, ready_at);
    push_all(&mut out, &pre_observation);
    push_all(&mut out, &post_observation);
    assert(out@ =~= journey_operation_bytes(kind, amount, currency@, delay, ready_at, pre_observation@, post_observation@));
    out
}

/// The operation bytes of archiving an agent.
pub open spec fn archive_operation_bytes(
    confirm_name: Seq<char>,
    pre_observation: Seq<u8>,
    post_observation: Seq<u8>,
    session_observation: Seq<u8>,
) -> Seq<u8> {
    seq![29u8] + text_bytes(confirm_name) + pre_observation + post_observation + session_observation
}

/// The operation bytes of archiving an agent.
pub fn archive_operation(
    confirm_name: &str,
    pre_observation: [u8; 32],
    post_observation: [u8; 32],
    session_observation: [u8; 32],
) -> (r: Vec<u8>)
    ensures
        r@ == archive_operation_bytes(confirm_name@, pre_observation@, post_observation@, session_observation@),
{
    let mut out: Vec<u8> = Vec::new();
    out.push(29);
    push_all(&mut out, confirm_name.as_bytes());
    push_all(&mut out, &pre_observation);
    push_all(&mut out, &post_observation);
    push_all(&mut out, &session_observation);
    assert(out@ =~= archive_operation_bytes(confirm_name@, pre_observation@, post_observation@, session_observation@));
    out
}

/// Whether a journey request is refused before anything is read: a kind above 2; a reclaim
/// without an amount or currency, with a delay or ready time, or whose budget observations
/// coincide; a rotation or recovery with an amount or currency, without a delay, ready no
/// later than finalization, without a prior key observation or with a later one.
pub open spec fn journey_request_refused(
    kind: u8,
    amount: u128,
    currency: Seq<char>,
    delay: u64,
    ready_at: u64,
    pre_observation: Seq<u8>,
    post_observation: Seq<u8>,
    finalized_at: u64,
) -> bool {
    ||| kind > 2
    ||| (kind == 0 && (amount == 0 || blank(currency) || delay != 0 || ready_at != 0))
    ||| (kind != 0 && (amount != 0 || !blank(currency) || delay == 0 || ready_at <= finalized_at))
    ||| (kind == 0 && pre_observation == post_observation)
    ||| (kind != 0 && (pre_observation == zero32() || post_observation != zero32()))
}

/// Checks a journey request before anything is read.
pub fn journey_request_acceptable(
    kind: u8,
    amount: u128,
    currency: &str,
    delay: u64,
    ready_at: u64,
    pre_observation: [u8; 32],
    post_observation: [u8; 32],
    finalized_at: u64,
) -> (r: bool)
    ensures
        r == !journey_request_refused(kind, amount, currency@, delay, ready_at, pre_observation@, post_observation@, finalized_at),
{
    if kind > 2 {
        return false;
    }
    if kind == 0 {
        !(amount == 0 || is_blank(currency) || delay != 0 || ready_at != 0)
            && !crate::bytes::fixed_equal(&pre_observation, &post_observation)
    } else {
        !(amount != 0 || !is_blank(currency) || delay == 0 || ready_at <= finalized_at)
            && !is_zero32(&pre_observation) && is_zero32(&post_observation)
    }
}

/// The object identifier of the action record of `action`: `managed-agent-action-v1:` and
/// the action key.
pub open spec fn action_record_id(action: Seq<u8>) -> Seq<u8> {
    seq![109u8, 97u8, 110u8, 97u8, 103u8, 101u8, 100u8, 45u8, 97u8, 103u8, 101u8, 110u8, 116u8, 45u8, 97u8, 99u8, 116u8, 105u8, 111u8, 110u8, 45u8, 118u8, 49u8, 58u8] + action
}

/// The object identifier of the action record of `action`.
pub fn action_record_object(action: [u8; 32]) -> (r: Vec<u8>)
    ensures
        r@ == action_record_id(action@),
{
    let prefix: [u8; 24] = [109, 97, 110, 97, 103, 101, 100, 45, 97, 103, 101, 110, 116, 45, 97, 99, 116, 105, 111, 110, 45, 118, 49, 58];
    let mut out: Vec<u8> = Vec::new();
    push_all(&mut out, &prefix);
    push_all(&mut out, &action);
    assert(out@ =~= action_record_id(action@));
    out
}

/// The action record of a finalized request: its digest, then the response served.
pub open spec fn action_record_bytes(request_digest: Seq<u8>, response: Seq<u8>) -> Seq<u8> {
    request_digest + response
}

/// The action record stored beside the updated agent.
pub fn action_record(request_digest: [u8; 32], response: &[u8]) -> (r: Vec<u8>)
    ensures
        r@ == action_record_bytes(request_digest@, response@),
{
    let mut out: Vec<u8> = Vec::new();
    push_all(&mut out, &request_digest);
    push_all(&mut out, response);
    out
}

/// Answers a repeated request from its saved action record: the response served the first
/// time, when the record is daemon-local and was made for the same request digest.
///
/// # Errors
///
/// `Refused` for a record that is not daemon-local, shorter than a digest, or made for
/// another request.
pub fn replay(class: StorageClass, saved: &[u8], request_digest: [u8; 32]) -> (r: Result<Vec<u8>, HumanOperationError>)
    ensures
        r is Ok <==> class == StorageClass::LocalOnly && saved@.len() >= 32 && saved@.subrange(0, 32) == request_digest@,
        r matches Err(e) ==> e == HumanOperationError::Refused,
        r matches Ok(b) ==> b@ == saved@.subrange(32, saved@.len() as int),
        r is Ok ==> saved@ == action_record_bytes(request_digest@, saved@.subrange(32, saved@.len() as int)),
{
    if class != StorageClass::LocalOnly || saved.len() < 32 {
        return Err(HumanOperationError::Refused);
    }
    let mut head: Vec<u8> = Vec::new();
    let mut rest: Vec<u8> = Vec::new();
    let mut i: usize = 0;
    while i < saved.len()
        invariant
            i <= saved@.len(),
            32 <= saved@.len(),
            head@ == saved@.subrange(0, if i < 32 { i as int } else { 32 }),
            rest@ == if i <= 32 { Seq::<u8>::empty() } else { saved@.subrange(32, i as int) },
        decreases saved@.len() - i,
    {
        if i < 32 {
            head.push(saved[i]);
        } else {
            rest.push(saved[i]);
        }
        i = i + 1;
        assert(head@ =~= saved@.subrange(0, if i < 32 { i as int } else { 32 }));
        assert(rest@ =~= if i <= 32 { Seq::<u8>::empty() } else { saved@.subrange(32, i as int) });
    }
    if !crate::bytes::bytes_equal(head.as_slice(), &request_digest) {
        return Err(HumanOperationError::Refused);
    }
    assert(saved@ =~= action_record_bytes(request_digest@, saved@.subrange(32, saved@.len() as int)));
    Ok(rest)
}


/// Law: a repeated request is answered from the action record of the first as that
/// request was answered: the record made for a digest and a response is accepted for the
/// same digest and gives back that response.
pub proof fn lemma_replay_answers_first(request_digest: Seq<u8>, response: Seq<u8>)
    requires
        request_digest.len() == 32,
    ensures
        action_record_bytes(request_digest, response).len() >= 32,
        action_record_bytes(request_digest, response).subrange(0, 32) == request_digest,
        action_record_bytes(request_digest, response).subrange(32, action_record_bytes(request_digest, response).len() as int) == response,
{
    let b = action_record_bytes(request_digest, response);
    assert(b.subrange(0, 32) =~= request_digest);
    assert(b.subrange(32, b.len() as int) =~= response);
}


/// The label of a journey kind: reclaim, rotate, recover or archive.
pub open spec fn journey_label(kind: u8) -> Option<Seq<char>> {
    if kind == 0 {
        Some("reclaim"@)
    } else if kind == 1 {
        Some("rotate"@)
    } else if kind == 2 {
        Some("recover"@)
    } else if kind == 3 {
        Some("archive"@)
    } else {
        None
    }
}

/// The kinds of the fields of a journey description.
pub open spec fn journey_kinds() -> Seq<FieldKind> {
    seq![
        FieldKind::Text, FieldKind::Text, FieldKind::U8, FieldKind::U8, FieldKind::Text,
        FieldKind::Text, FieldKind::U8, FieldKind::U8, FieldKind::Text, FieldKind::Text,
        FieldKind::U8, FieldKind::Text, FieldKind::Text, FieldKind::U8, FieldKind::Text,
        FieldKind::Text, FieldKind::U8,
    ]
}

/// The fields of a finalized journey's description: its identifier (`jrn_` and the action
/// key in hex) and label, its one finalized step, the receipt that finalized it with the
/// verification level, the finalization and update times in decimal, and its evidence.
pub open spec fn journey_fields(a: ManagedAgent, kind: u8, e: FinalizationEvidence) -> Seq<FieldView> {
    let label = journey_label(kind).unwrap();
    let receipt = hex_text(e.receipt_digest@);
    seq![
        FieldView::Text("jrn_"@ + hex_text(e.action_key@)),
        FieldView::Text(label),
        FieldView::U8(2),
        FieldView::U8(1),
        FieldView::Text("receipt-finalized"@),
        FieldView::Text("agent.journey.receipt-finalized"@),
        FieldView::U8(2),
        FieldView::U8(1),
        FieldView::Text(receipt),
        FieldView::Text(label),
        FieldView::U8(e.verification),
        FieldView::Text(decimal_text(e.finalized_at as nat)),
        FieldView::Text(decimal_text(a.updated_at as nat)),
        FieldView::U8(1),
        FieldView::Text(receipt),
        FieldView::Text(label),
        FieldView::U8(e.verification),
    ]
}

fn text_value(t: String) -> (r: FieldValue)
    ensures
        r@ == FieldView::Text(t@),
{
    FieldValue::Text(t)
}

/// Describes a finalized reclaim, rotation, recovery or archive.
///
/// # Errors
///
/// `Refused` for a kind above 3 or a description that cannot be written.
pub fn journey_response(agent: &ManagedAgent, kind: u8, evidence: FinalizationEvidence) -> (r: Result<Vec<u8>, HumanOperationError>)
    ensures
        r is Ok <==> journey_label(kind) is Some && fields_writable(journey_kinds(), journey_fields(*agent, kind, evidence)),
        r matches Ok(b) ==> b@ == fields_bytes(journey_kinds(), journey_fields(*agent, kind, evidence)),
        r matches Err(e) ==> e == HumanOperationError::Refused,
{
    let label = match kind {
        0 => "reclaim".to_string(),
        1 => "rotate".to_string(),
        2 => "recover".to_string(),
        3 => "archive".to_string(),
        _ => {
            return Err(HumanOperationError::Refused);
        },
    };
    assert(label@ == journey_label(kind).unwrap());
    let mut id = "jrn_".to_string();
    push_hex(&mut id, &evidence.action_key);
    let mut finalized = String::new();
    push_decimal(&mut finalized, evidence.finalized_at);
    let mut updated = String::new();
    push_decimal(&mut updated, agent.updated_at);
    let mut kinds: Vec<FieldKind> = Vec::new();
    kinds.push(FieldKind::Text);
    kinds.push(FieldKind::Text);
    kinds.push(FieldKind::U8);
    kinds.push(FieldKind::U8);
    kinds.push(FieldKind::Text);
    kinds.push(FieldKind::Text);
    kinds.push(FieldKind::U8);
    kinds.push(FieldKind::U8);
    kinds.push(FieldKind::Text);
    kinds.push(FieldKind::Text);
    kinds.push(FieldKind::U8);
    kinds.push(FieldKind::Text);
    kinds.push(FieldKind::Text);
    kinds.push(FieldKind::U8);
    kinds.push(FieldKind::Text);
    kinds.push(FieldKind::Text);
    kinds.push(FieldKind::U8);
    let finalized_step = "receipt-finalized".to_string();
    let finalized_event = "agent.journey.receipt-finalized".to_string();
    let mut values: Vec<FieldValue> = Vec::new();
    values.push(text_value(id));
    values.push(text_value(label.clone()));
    values.push(FieldValue::U8(2));
    values.push(FieldValue::U8(1));
    values.push(text_value(finalized_step));
    values.push(text_value(finalized_event));
    values.push(FieldValue::U8(2));
    values.push(FieldValue::U8(1));
    values.push(text_value(to_hex(&evidence.receipt_digest)));
    values.push(text_value(label.clone()));
    values.push(FieldValue::U8(evidence.verification));
    values.push(text_value(finalized));
    values.push(text_value(updated));
    values.push(FieldValue::U8(1));
    values.push(text_value(to_hex(&evidence.receipt_digest)));
    values.push(text_value(label));
    values.push(FieldValue::U8(evidence.verification));
    assert(kinds@ =~= journey_kinds());
    assert(field_views(values@) =~= journey_fields(*agent, kind, evidence));
    let mut out: Vec<u8> = Vec::new();
    if !write_fields(&mut out, &kinds, &values) {
        return Err(HumanOperationError::Refused);
    }
    Ok(out)
}

/// The kinds of the fields of a key challenge description.
pub open spec fn challenge_kinds() -> Seq<FieldKind> {
    seq![
        FieldKind::Text, FieldKind::U8, FieldKind::U64, FieldKind::Text, FieldKind::U8,
        FieldKind::Text, FieldKind::Text, FieldKind::U8,
    ]
}

/// The fields of a finalized key rotation (`kind` 1) or recovery (`kind` 2): the agent, the
/// challenge kind, its delay and the time it is ready in decimal, and the receipt that
/// finalized it with the verification level.
pub open spec fn challenge_fields(a: ManagedAgent, kind: u8, delay: u64, ready_at: u64, e: FinalizationEvidence) -> Seq<FieldView> {
    seq![
        FieldView::Text(a.agent_id@),
        FieldView::U8((kind - 1) as u8),
        FieldView::U64(delay),
        FieldView::Text(decimal_text(ready_at as nat)),
        FieldView::U8(1),
        FieldView::Text(hex_text(e.receipt_digest@)),
        FieldView::Text(if kind == 1 { "rotate"@ } else { "recover"@ }),
        FieldView::U8(e.verification),
    ]
}

/// Describes a finalized key rotation or recovery challenge.
///
/// # Errors
///
/// `Refused` for a description that cannot be written.
pub fn challenge_response(agent: &ManagedAgent, kind: u8, delay: u64, ready_at: u64, evidence: FinalizationEvidence) -> (r: Result<Vec<u8>, HumanOperationError>)
    requires
        kind >= 1,
    ensures
        r is Ok <==> fields_writable(challenge_kinds(), challenge_fields(*agent, kind, delay, ready_at, evidence)),
        r matches Ok(b) ==> b@ == fields_bytes(challenge_kinds(), challenge_fields(*agent, kind, delay, ready_at, evidence)),
        r matches Err(e) ==> e == HumanOperationError::Refused,
{
    let mut ready = String::new();
    push_decimal(&mut ready, ready_at);
    let label = if kind == 1 { "rotate".to_string() } else { "recover".to_string() };
    let mut kinds: Vec<FieldKind> = Vec::new();
    kinds.push(FieldKind::Text);
    kinds.push(FieldKind::U8);
    kinds.push(FieldKind::U64);
    kinds.push(FieldKind::Text);
    kinds.push(FieldKind::U8);
    kinds.push(FieldKind::Text);
    kinds.push(FieldKind::Text);
    kinds.push(FieldKind::U8);
    let mut values: Vec<FieldValue> = Vec::new();
    values.push(text_value(agent.agent_id.clone()));
    values.push(FieldValue::U8(kind - 1));
    values.push(FieldValue::U64(delay));
    values.push(text_value(ready));
    values.push(FieldValue::U8(1));
    values.push(text_value(to_hex(&evidence.receipt_digest)));
    values.push(text_value(label));
    values.push(FieldValue::U8(evidence.verification));
    assert(kinds@ =~= challenge_kinds());
    assert(field_views(values@) =~= challenge_fields(*agent, kind, delay, ready_at, evidence));
    let mut out: Vec<u8> = Vec::new();
    if !write_fields(&mut out, &kinds, &values) {
        return Err(HumanOperationError::Refused);
    }
    Ok(out)
}


/// What finalizing reads of the receipt served for an action: its canonical bytes, and the
/// decoded facts the rule looks at.
#[derive(Debug)]
pub struct ServedReceipt {
    pub canonical_bytes: Vec<u8>,
    /// The receipt's protocol section, if it has one: whether it names the governance
    /// module, and the operation.
    pub protocol: Option<(bool, u8)>,
    pub activity_id: [u8; 32],
    pub idempotency_key: [u8; 32],
    pub global_sequence: u64,
    /// Whether the result code is success.
    pub succeeded: bool,
    /// Whether the verification level is at least checkpoint-finalised.
    pub checkpoint_finalised: bool,
    /// The verification level's wire rank.
    pub verification_rank: u8,
}

/// Whether a served receipt finalizes the action the evidence names: a governance receipt
/// of the expected operation, for the evidence's activity, key and sequence, successful,
/// checkpoint-finalised at the evidence's level, whose bytes digest to the evidence's
/// receipt digest.
pub open spec fn receipt_finalizes(r: ServedReceipt, expected_operation: u8, e: FinalizationEvidence) -> bool {
    &&& r.protocol matches Some((governance, operation)) && governance && operation == expected_operation
    &&& r.activity_id@ == e.activity_id@
    &&& r.idempotency_key@ == e.action_key@
    &&& r.global_sequence == e.observed_sequence
    &&& r.succeeded
    &&& r.checkpoint_finalised
    &&& r.verification_rank == e.verification
    &&& sha256(r.canonical_bytes@) == e.receipt_digest@
}

/// Checks that a served receipt finalizes the action the evidence names.
pub fn receipt_acceptable(receipt: &ServedReceipt, expected_operation: u8, evidence: &FinalizationEvidence) -> (r: bool)
    ensures
        r == receipt_finalizes(*receipt, expected_operation, *evidence),
{
    let protocol_ok = match receipt.protocol {
        Some((governance, operation)) => governance && operation == expected_operation,
        None => false,
    };
    if !protocol_ok {
        return false;
    }
    let digest = sha256_digest(receipt.canonical_bytes.as_slice());
    crate::bytes::fixed_equal(&receipt.activity_id, &evidence.activity_id)
        && crate::bytes::fixed_equal(&receipt.idempotency_key, &evidence.action_key)
        && receipt.global_sequence == evidence.observed_sequence && receipt.succeeded
        && receipt.checkpoint_finalised && receipt.verification_rank == evidence.verification
        && crate::bytes::fixed_equal(&digest, &evidence.receipt_digest)
}


/// The store key of a finalized action's record.
pub open spec fn action_record_key(tenant: Seq<char>, action: Seq<u8>) -> KeyView {
    KeyView { tenant, kind: ObjectKind::Idempotency, object_id: action_record_id(action) }
}

/// How a finalized change is answered.
#[derive(Clone, Copy, Debug)]
pub enum Answer {
    /// With the agent's description.
    Agent,
    /// With a journey of this kind.
    Journey(u8),
    /// With a key challenge of this kind (1 or 2), delay and ready time.
    Challenge { kind: u8, delay: u64, ready_at: u64 },
}

/// Whether the answer for an agent can be written.
pub open spec fn answer_writable(b: ManagedAgent, answer: Answer, e: FinalizationEvidence) -> bool {
    match answer {
        Answer::Agent => response_writable(b),
        Answer::Journey(kind) => journey_label(kind) is Some && fields_writable(journey_kinds(), journey_fields(b, kind, e)),
        Answer::Challenge { kind, delay, ready_at } => fields_writable(challenge_kinds(), challenge_fields(b, kind, delay, ready_at, e)),
    }
}

/// The answer for an agent.
pub open spec fn answer_bytes(b: ManagedAgent, answer: Answer, e: FinalizationEvidence) -> Seq<u8> {
    match answer {
        Answer::Agent => response_bytes(b),
        Answer::Journey(kind) => fields_bytes(journey_kinds(), journey_fields(b, kind, e)),
        Answer::Challenge { kind, delay, ready_at } => fields_bytes(challenge_kinds(), challenge_fields(b, kind, delay, ready_at, e)),
    }
}

/// Agent `b` is agent `a` after a finalized change: the change's state, limit and budget,
/// the finalization time, the receipt digest added to the evidence, and every other field
/// the same.
pub open spec fn finalized_as(a: ManagedAgent, b: ManagedAgent, c: AgentChange, e: FinalizationEvidence) -> bool {
    &&& b.agent_id@ == a.agent_id@
    &&& b.name@ == a.name@
    &&& b.purpose@ == a.purpose@
    &&& b.currency@ == a.currency@
    &&& b.period_start == a.period_start
    &&& b.period_end == a.period_end
    &&& b.spent == a.spent
    &&& b.created_at == a.created_at
    &&& seed_fields(b.context) == seed_fields(a.context)
    &&& b.agent_did@ == a.agent_did@
    &&& b.session_id@ == a.session_id@
    &&& b.session_token_id@ == a.session_token_id@
    &&& b.protocol_grant_id@ == a.protocol_grant_id@
    &&& b.state == changed_state(a, c)
    &&& b.monthly_limit == changed_limit(a, c)
    &&& b.active_budget_id@ == changed_budget(a, c)
    &&& b.updated_at == e.finalized_at
    &&& fixed_views(b.verified_evidence@) == fixed_views(a.verified_evidence@).push(e.receipt_digest@)
}

/// What finalizing a governance action on an agent gives, from a store holding `v0`: the
/// result `r` and the store `v1` afterwards.
pub open spec fn finalize_outcome(
    v0: StoreView,
    tenant: Seq<char>,
    agent_id: Seq<char>,
    evidence: FinalizationEvidence,
    change: AgentChange,
    operation: Seq<u8>,
    served: Result<ServedReceipt, HumanOperationError>,
    answer: Answer,
    r: Result<Vec<u8>, HumanOperationError>,
    v1: StoreView,
) -> bool {
    let v = v0;
    let ak = action_record_key(tenant, evidence.action_key@);
    let gk = agent_key_view(tenant, agent_id);
    let d = sha256(finalization_preimage(agent_id, operation, evidence));
    if !evidence_complete(evidence) || !agent_id_ok(agent_id) {
        r == Err::<Vec<u8>, HumanOperationError>(HumanOperationError::Refused) && v1 == v
    } else if v.contains_key(ak) {
        &&& v1 == v
        &&& r is Ok <==> v[ak].0 == StorageClass::LocalOnly && v[ak].1.len() >= 32 && v[ak].1.subrange(0, 32) == d
        &&& r matches Ok(b) ==> b@ == v[ak].1.subrange(32, v[ak].1.len() as int)
        &&& r matches Err(x) ==> x == HumanOperationError::Refused
    } else if served is Err {
        r == Err::<Vec<u8>, HumanOperationError>(served->Err_0) && v1 == v
    } else if expected_operation(change) is None || !receipt_finalizes(served->Ok_0, expected_operation(change).unwrap(), evidence)
        || !agent_loadable(v, tenant, agent_id) || finalization_refused(stored_agent(v, tenant, agent_id), change, evidence) {
        r == Err::<Vec<u8>, HumanOperationError>(HumanOperationError::Refused) && v1 == v
    } else {
        exists|b: ManagedAgent|
            #![trigger agent_bytes(b)]
            agent_valid(b) && finalized_as(stored_agent(v, tenant, agent_id), b, change, evidence) && if answer_writable(b, answer, evidence) && agent_encodable(b) {
                r matches Ok(resp) && resp@ == answer_bytes(b, answer, evidence) && v1 == v.insert(
                    gk,
                    (StorageClass::LocalOnly, agent_bytes(b)),
                ).insert(ak, (StorageClass::LocalOnly, action_record_bytes(d, resp@)))
            } else {
                r == Err::<Vec<u8>, HumanOperationError>(HumanOperationError::Refused) && v1 == v
            }
    }
}

/// Finalizes a governance action on an agent: a repeated request is answered from its
/// action record; otherwise the served receipt must finalize the action, the agent's record
/// must load and accept the change, and then the changed record and the action record are
/// stored together and the answer returned.
///
/// # Errors
///
/// `Refused` for incomplete evidence, a bad agent identifier, an action record made for
/// another request, a receipt that does not finalize the action, a record that does not
/// load or refuses the change, or an answer or record that cannot be written; what serving
/// the receipt failed with.
pub fn finalize_agent(
    store: &mut Store,
    tenant: &TenantId,
    agent_id: &str,
    evidence: FinalizationEvidence,
    change: &AgentChange,
    operation: &[u8],
    served: Result<ServedReceipt, HumanOperationError>,
    answer: Answer,
) -> (r: Result<Vec<u8>, HumanOperationError>)
    requires
        old(store).wf(),
        answer matches Answer::Challenge { kind, .. } ==> kind >= 1,
    ensures
        final(store).wf(),
        finalize_outcome(old(store).view(), tenant@, agent_id@, evidence, *change, operation@, served, answer, r, final(store).view()),
{
    let ghost v = store.view();
    if !evidence_acceptable(&evidence) {
        return Err(HumanOperationError::Refused);
    }
    let aggregate = match agent_key(tenant, agent_id) {
        Ok(k) => k,
        Err(e) => {
            return Err(e);
        },
    };
    let action_key = match TenantKey::new(tenant.clone(), ObjectKind::Idempotency, action_record_object(evidence.action_key)) {
        Ok(k) => k,
        Err(_) => {
            return Err(HumanOperationError::Refused);
        },
    };
    let digest = finalization_digest(agent_id, operation, &evidence);
    match store.get(&action_key) {
        Some(saved) => {
            return replay(saved.class(), saved.bytes(), digest);
        },
        None => {},
    }
    let receipt = match served {
        Ok(r) => r,
        Err(e) => {
            return Err(e);
        },
    };
    let expected = match operation_code(change) {
        Some(o) => o,
        None => {
            return Err(HumanOperationError::Refused);
        },
    };
    if !receipt_acceptable(&receipt, expected, &evidence) {
        return Err(HumanOperationError::Refused);
    }
    let current = match load_agent(store, tenant, agent_id) {
        Ok(a) => a,
        Err(e) => {
            return Err(e);
        },
    };
    let ghost stored = stored_agent(v, tenant@, agent_id@);
    proof {
        lemma_stored_agent(v, tenant@, agent_id@, current);
        lemma_same_fields(current, stored);
    }
    let ghost before = current;
    proof {
        assert(fixed_views(current.verified_evidence@).len() == current.verified_evidence@.len());
        assert(fixed_views(stored.verified_evidence@).len() == stored.verified_evidence@.len());
    }
    let updated = match finalize_record(current, change, &evidence) {
        Ok(b) => b,
        Err(e) => {
            return Err(e);
        },
    };
    proof {
        assert(fixed_views(updated.verified_evidence@) =~= fixed_views(before.verified_evidence@).push(evidence.receipt_digest@));
        assert(finalized_as(stored, updated, *change, evidence));
    }
    let response = match answer {
        Answer::Agent => agent_response(&updated),
        Answer::Journey(kind) => journey_response(&updated, kind, evidence),
        Answer::Challenge { kind, delay, ready_at } => challenge_response(&updated, kind, delay, ready_at, evidence),
    };
    let response = match response {
        Ok(b) => b,
        Err(e) => {
            assert(!answer_writable(updated, answer, evidence));
            assert(agent_bytes(updated) == agent_bytes(updated));
            return Err(e);
        },
    };
    let encoded = match encode(&updated) {
        Ok(b) => b,
        Err(e) => {
            assert(agent_bytes(updated) == agent_bytes(updated));
            return Err(e);
        },
    };
    let record = action_record(digest, response.as_slice());
    let _ = store.put_local(aggregate, encoded);
    let _ = store.put_local(action_key, record);
    assert(agent_valid(updated) && finalized_as(stored, updated, *change, evidence));
    assert(agent_bytes(updated) == agent_bytes(updated));
    Ok(response)
}


/// What checking the budget observation recorded under `digest` gives.
pub open spec fn budget_check(v: StoreView, tenant: Seq<char>, digest: Seq<u8>, budget: Seq<u8>, minimum_sequence: u64, require_zero: bool) -> Result<(), HumanOperationError> {
    let k = observation_key_view(tenant, 1, digest);
    if digest == zero32() {
        Err(HumanOperationError::Refused)
    } else if !v.contains_key(k) {
        Err(HumanOperationError::Unavailable)
    } else if budget_observation_ok(v[k].1, digest, budget, minimum_sequence, require_zero) {
        Ok(())
    } else {
        Err(HumanOperationError::Refused)
    }
}

/// What checking the key-policy observation recorded under `digest` gives.
pub open spec fn key_policy_check(
    v: StoreView,
    tenant: Seq<char>,
    digest: Seq<u8>,
    did: Seq<char>,
    recovery: bool,
    delay: u64,
    ready_at: u64,
    finalized_at: u64,
) -> Result<(), HumanOperationError> {
    let k = observation_key_view(tenant, 2, digest);
    if !v.contains_key(k) {
        Err(HumanOperationError::Unavailable)
    } else if key_policy_ok(v[k].1, digest, did, recovery, delay, ready_at, finalized_at) {
        Ok(())
    } else {
        Err(HumanOperationError::Refused)
    }
}

/// What checking the session observation recorded under `digest` gives.
pub open spec fn session_check(v: StoreView, tenant: Seq<char>, agent_id: Seq<char>, digest: Seq<u8>, open: bool) -> Result<(), HumanOperationError> {
    let k = observation_key_view(tenant, 3, digest);
    if !v.contains_key(k) {
        Err(HumanOperationError::Unavailable)
    } else if session_observation_ok(v[k].1, agent_id, digest, open) && agent_loadable(v, tenant, agent_id) && forall|a: ManagedAgent|
        agent_valid(a) && agent_fits(a) && #[trigger] agent_bytes(a) == agent_entry(v, tenant, agent_id)->Some_0.1
            ==> session_fields_match(session_observation_fields(v[k].1), a) {
        Ok(())
    } else {
        Err(HumanOperationError::Refused)
    }
}

/// Pauses (`resume` false) or resumes an agent once the governance action is finalized,
/// after checking the session observation the request names.
///
/// # Errors
///
/// What the session check or [`finalize_agent`] refuses with.
pub fn finalize_control(
    store: &mut Store,
    tenant: &TenantId,
    agent_id: &str,
    resume: bool,
    session_observation: [u8; 32],
    evidence: FinalizationEvidence,
    served: Result<ServedReceipt, HumanOperationError>,
) -> (r: Result<Vec<u8>, HumanOperationError>)
    requires
        old(store).wf(),
    ensures
        final(store).wf(),
        match session_check(old(store).view(), tenant@, agent_id@, session_observation@, resume) {
            Err(e) => r == Err::<Vec<u8>, HumanOperationError>(e) && final(store).view() == old(store).view(),
            Ok(_) => finalize_outcome(
                old(store).view(),
                tenant@,
                agent_id@,
                evidence,
                AgentChange::Control { resume },
                control_operation_bytes(resume, session_observation@),
                served,
                Answer::Agent,
                r,
                final(store).view(),
            ),
        },
{
    match require_session_observation(store, tenant, agent_id, session_observation, resume) {
        Ok(()) => {},
        Err(e) => {
            return Err(e);
        },
    }
    let operation = control_operation(resume, session_observation);
    let change = AgentChange::Control { resume };
    finalize_agent(store, tenant, agent_id, evidence, &change, operation.as_slice(), served, Answer::Agent)
}

/// Replaces an agent's monthly limit and budget once the governance action is finalized.
///
/// # Errors
///
/// `Refused` for a zero limit, a blank currency or no budget; what [`finalize_agent`]
/// refuses with.
pub fn finalize_limit(
    store: &mut Store,
    tenant: &TenantId,
    agent_id: &str,
    monthly_limit: u128,
    currency: &str,
    replacement_budget_id: [u8; 32],
    evidence: FinalizationEvidence,
    served: Result<ServedReceipt, HumanOperationError>,
) -> (r: Result<Vec<u8>, HumanOperationError>)
    requires
        old(store).wf(),
    ensures
        final(store).wf(),
        monthly_limit == 0 || blank(currency@) || replacement_budget_id@ == zero32() ==> r == Err::<Vec<u8>, HumanOperationError>(
            HumanOperationError::Refused,
        ) && final(store).view() == old(store).view(),
        !(monthly_limit == 0 || blank(currency@) || replacement_budget_id@ == zero32()) ==> exists|c: AgentChange|
            #![trigger change_refused(stored_agent(old(store).view(), tenant@, agent_id@), c)]
            (c matches AgentChange::Limit { monthly_limit: m, currency: cur, replacement_budget_id: b } && m == monthly_limit
                && cur@ == currency@ && b == replacement_budget_id) && finalize_outcome(
                old(store).view(),
                tenant@,
                agent_id@,
                evidence,
                c,
                limit_operation_bytes(monthly_limit, currency@, replacement_budget_id@),
                served,
                Answer::Agent,
                r,
                final(store).view(),
            ),
{
    if monthly_limit == 0 || is_blank(currency) || is_zero32(&replacement_budget_id) {
        return Err(HumanOperationError::Refused);
    }
    let operation = limit_operation(monthly_limit, currency, replacement_budget_id);
    let change = AgentChange::Limit { monthly_limit, currency: currency.to_string(), replacement_budget_id };
    let ghost v = store.view();
    let r = finalize_agent(store, tenant, agent_id, evidence, &change, operation.as_slice(), served, Answer::Agent);
    assert(change_refused(stored_agent(v, tenant@, agent_id@), change) == change_refused(stored_agent(v, tenant@, agent_id@), change));
    r
}

/// Finalizes a reclaim (`kind` 0) or a key rotation or recovery (`kind` 1 or 2), after
/// checking the budget observations before and after a reclaim, or the key-policy
/// observation of a rotation or recovery.
///
/// # Errors
///
/// `Refused` for a request [`journey_request_refused`] refuses or an agent record that does
/// not load; what the observation checks or [`finalize_agent`] refuse with.
pub fn finalize_journey(
    store: &mut Store,
    tenant: &TenantId,
    agent_id: &str,
    kind: u8,
    amount: u128,
    currency: &str,
    delay: u64,
    ready_at: u64,
    pre_observation: [u8; 32],
    post_observation: [u8; 32],
    evidence: FinalizationEvidence,
    served: Result<ServedReceipt, HumanOperationError>,
) -> (r: Result<Vec<u8>, HumanOperationError>)
    requires
        old(store).wf(),
    ensures
        final(store).wf(),
        ({
            let v = old(store).view();
            let a = stored_agent(v, tenant@, agent_id@);
            let checked = if kind == 0 {
                match budget_check(v, tenant@, pre_observation@, a.active_budget_id@, 0, false) {
                    Err(e) => Err(e),
                    Ok(_) => budget_check(v, tenant@, post_observation@, a.active_budget_id@, evidence.observed_sequence, false),
                }
            } else {
                key_policy_check(v, tenant@, pre_observation@, a.agent_did@, kind == 2, delay, ready_at, evidence.finalized_at)
            };
            if journey_request_refused(kind, amount, currency@, delay, ready_at, pre_observation@, post_observation@, evidence.finalized_at)
                || !agent_loadable(v, tenant@, agent_id@) {
                r == Err::<Vec<u8>, HumanOperationError>(HumanOperationError::Refused) && final(store).view() == v
            } else if checked is Err {
                r == Err::<Vec<u8>, HumanOperationError>(checked->Err_0) && final(store).view() == v
            } else {
                exists|c: AgentChange|
                    #![trigger change_refused(a, c)]
                    (c matches AgentChange::Journey { kind: k, currency: cur } && k == kind && cur@ == currency@) && finalize_outcome(
                        v,
                        tenant@,
                        agent_id@,
                        evidence,
                        c,
                        journey_operation_bytes(kind, amount, currency@, delay, ready_at, pre_observation@, post_observation@),
                        served,
                        if kind == 0 { Answer::Journey(0) } else { Answer::Challenge { kind, delay, ready_at } },
                        r,
                        final(store).view(),
                    )
            }
        }),
{
    let ghost v = store.view();
    if !journey_request_acceptable(kind, amount, currency, delay, ready_at, pre_observation, post_observation, evidence.finalized_at) {
        return Err(HumanOperationError::Refused);
    }
    let agent = match load_agent(store, tenant, agent_id) {
        Ok(a) => a,
        Err(e) => {
            return Err(e);
        },
    };
    proof {
        lemma_stored_agent(v, tenant@, agent_id@, agent);
        lemma_same_fields(agent, stored_agent(v, tenant@, agent_id@));
    }
    if kind == 0 {
        match budget_observation(store, tenant, pre_observation, agent.active_budget_id, 0, false) {
            Ok(()) => {},
            Err(e) => {
                return Err(e);
            },
        }
        match budget_observation(store, tenant, post_observation, agent.active_budget_id, evidence.observed_sequence, false) {
            Ok(()) => {},
            Err(e) => {
                return Err(e);
            },
        }
    } else {
        match key_policy_observation(store, tenant, pre_observation, agent.agent_did.as_str(), kind == 2, delay, ready_at, evidence.finalized_at) {
            Ok(()) => {},
            Err(e) => {
                return Err(e);
            },
        }
    }
    let operation = journey_operation(kind, amount, currency, delay, ready_at, pre_observation, post_observation);
    let change = AgentChange::Journey { kind, currency: currency.to_string() };
    let answer = if kind == 0 { Answer::Journey(0) } else { Answer::Challenge { kind, delay, ready_at } };
    let r = finalize_agent(store, tenant, agent_id, evidence, &change, operation.as_slice(), served, answer);
    assert(change_refused(stored_agent(v, tenant@, agent_id@), change) == change_refused(stored_agent(v, tenant@, agent_id@), change));
    r
}

/// Archives an agent once the governance action is finalized, after checking the budget
/// observations before and after (nothing may remain) and the session observation.
///
/// # Errors
///
/// `Refused` when the budget observations coincide or the agent's record does not load;
/// what the observation checks or [`finalize_agent`] refuse with.
pub fn finalize_archive(
    store: &mut Store,
    tenant: &TenantId,
    agent_id: &str,
    confirm_name: &str,
    pre_observation: [u8; 32],
    post_observation: [u8; 32],
    session_observation: [u8; 32],
    evidence: FinalizationEvidence,
    served: Result<ServedReceipt, HumanOperationError>,
) -> (r: Result<Vec<u8>, HumanOperationError>)
    requires
        old(store).wf(),
    ensures
        final(store).wf(),
        ({
            let v = old(store).view();
            let a = stored_agent(v, tenant@, agent_id@);
            let checked = match budget_check(v, tenant@, pre_observation@, a.active_budget_id@, 0, false) {
                Err(e) => Err(e),
                Ok(_) => match budget_check(v, tenant@, post_observation@, a.active_budget_id@, evidence.observed_sequence, true) {
                    Err(e) => Err(e),
                    Ok(_) => session_check(v, tenant@, agent_id@, session_observation@, false),
                },
            };
            if pre_observation@ == post_observation@ || !agent_loadable(v, tenant@, agent_id@) {
                r == Err::<Vec<u8>, HumanOperationError>(HumanOperationError::Refused) && final(store).view() == v
            } else if checked is Err {
                r == Err::<Vec<u8>, HumanOperationError>(checked->Err_0) && final(store).view() == v
            } else {
                exists|c: AgentChange|
                    #![trigger change_refused(a, c)]
                    (c matches AgentChange::Archive { confirm_name: n } && n@ == confirm_name@) && finalize_outcome(
                        v,
                        tenant@,
                        agent_id@,
                        evidence,
                        c,
                        archive_operation_bytes(confirm_name@, pre_observation@, post_observation@, session_observation@),
                        served,
                        Answer::Journey(3),
                        r,
                        final(store).view(),
                    )
            }
        }),
{
    let ghost v = store.view();
    if crate::bytes::fixed_equal(&pre_observation, &post_observation) {
        return Err(HumanOperationError::Refused);
    }
    let agent = match load_agent(store, tenant, agent_id) {
        Ok(a) => a,
        Err(e) => {
            return Err(e);
        },
    };
    proof {
        lemma_stored_agent(v, tenant@, agent_id@, agent);
        lemma_same_fields(agent, stored_agent(v, tenant@, agent_id@));
    }
    match budget_observation(store, tenant, pre_observation, agent.active_budget_id, 0, false) {
        Ok(()) => {},
        Err(e) => {
            return Err(e);
        },
    }
    match budget_observation(store, tenant, post_observation, agent.active_budget_id, evidence.observed_sequence, true) {
        Ok(()) => {},
        Err(e) => {
            return Err(e);
        },
    }
    match require_session_observation(store, tenant, agent_id, session_observation, false) {
        Ok(()) => {},
        Err(e) => {
            return Err(e);
        },
    }
    let operation = archive_operation(confirm_name, pre_observation, post_observation, session_observation);
    let change = AgentChange::Archive { confirm_name: confirm_name.to_string() };
    let r = finalize_agent(store, tenant, agent_id, evidence, &change, operation.as_slice(), served, Answer::Journey(3));
    assert(change_refused(stored_agent(v, tenant@, agent_id@), change) == change_refused(stored_agent(v, tenant@, agent_id@), change));
    r
}

} // verus!
