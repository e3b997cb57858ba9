//! What the daemon answers about a managed agent.
use vstd::prelude::*;

use crate::managed_agent::codec::{
    agent_fields, lemma_same_fields, seed_fields, seed_kinds, seed_values,
};
use crate::managed_agent::fields::{
    field_views, fields_bytes, fields_writable, fixed_views, write_fields, FieldKind, FieldValue,
    FieldView,
};
use crate::managed_agent::records::{
    agent_loadable, lemma_stored_agent, load_agent, stored_agent,
};
use crate::bytes::push_all;
use crate::digest::{sha256, sha256_digest};
use crate::managed_agent::{agent_valid, HumanAgentLifecycleSeed, HumanOperationError, ManagedAgent};
use crate::store::{Store, TenantId};
use crate::text::{decimal_text, hex_text, push_decimal, to_hex};

verus! {

/// A number written out in decimal, as a text field's value.
pub open spec fn decimal_field(n: u64) -> FieldView {
    FieldView::Text(decimal_text(n as nat))
}

/// The kinds of the fields describing an agent, before its evidence.
pub open spec fn response_head_kinds() -> Seq<FieldKind> {
    seq![
        FieldKind::Text,
        FieldKind::Text,
        FieldKind::Text,
        FieldKind::U8,
        FieldKind::U128,
        FieldKind::Text,
        FieldKind::U8,
        FieldKind::Text,
        FieldKind::Text,
        FieldKind::U128,
        FieldKind::U128,
        FieldKind::U8,
        FieldKind::Text,
        FieldKind::Text,
        FieldKind::U8,
    ]
}

/// The fields describing an agent, before its evidence: identifier, name, purpose, state,
/// limit, currency, a monthly period with its bounds in decimal, spent and remaining
/// amounts, the creation and update times in decimal, and the number of evidence digests.
pub open spec fn response_head(a: ManagedAgent) -> Seq<FieldView> {
    seq![
        FieldView::Text(a.agent_id@),
        FieldView::Text(a.name@),
        FieldView::Text(a.purpose@),
        FieldView::U8(a.state),
        FieldView::U128(a.monthly_limit),
        FieldView::Text(a.currency@),
        FieldView::U8(0),
        decimal_field(a.period_start),
        decimal_field(a.period_end),
        FieldView::U128(a.spent),
        FieldView::U128((a.monthly_limit - a.spent) as u128),
        FieldView::U8(3),
        decimal_field(a.created_at),
        decimal_field(a.updated_at),
        FieldView::U8(a.verified_evidence@.len() as u8),
    ]
}

/// The kinds of the fields of `n` evidence digests.
pub open spec fn evidence_kinds(n: nat) -> Seq<FieldKind>
    decreases n,
{
    if n == 0 {
        Seq::empty()
    } else {
        evidence_kinds((n - 1) as nat) + seq![FieldKind::Text, FieldKind::Text, FieldKind::U8]
    }
}

/// Each evidence digest in hexadecimal, labelled as agent-creation evidence at level 3.
pub open spec fn evidence_fields(v: Seq<Seq<u8>>) -> Seq<FieldView>
    decreases v.len(),
{
    if v.len() == 0 {
        Seq::empty()
    } else {
        evidence_fields(v.drop_last()) + seq![
            FieldView::Text(hex_text(v.last())),
            FieldView::Text("agent-creation"@),
            FieldView::U8(3),
        ]
    }
}

/// The kinds of an agent description.
pub open spec fn response_kinds(a: ManagedAgent) -> Seq<FieldKind> {
    response_head_kinds() + evidence_kinds(a.verified_evidence@.len())
}

/// The fields of an agent description.
pub open spec fn response_fields(a: ManagedAgent) -> Seq<FieldView> {
    response_head(a) + evidence_fields(fixed_views(a.verified_evidence@))
}

/// An agent description.
#[verifier::opaque]
pub open spec fn response_bytes(a: ManagedAgent) -> Seq<u8> {
    fields_bytes(response_kinds(a), response_fields(a))
}

/// Whether an agent description can be written: every text holds 1 to 4096 bytes.
#[verifier::opaque]
pub open spec fn response_writable(a: ManagedAgent) -> bool {
    fields_writable(response_kinds(a), response_fields(a))
}

proof fn lemma_evidence_len(v: Seq<Seq<u8>>)
    ensures
        evidence_fields(v).len() == 3 * v.len(),
        evidence_kinds(v.len()).len() == 3 * v.len(),
    decreases v.len(),
{
    if v.len() > 0 {
        lemma_evidence_len(v.drop_last());
    }
}

fn decimal_value(n: u64) -> (r: FieldValue)
    ensures
        r@ == decimal_field(n),
{
    let mut s = String::new();
    push_decimal(&mut s, n);
    assert(s@ =~= decimal_text(n as nat));
    FieldValue::Text(s)
}

/// Describes an agent.
///
/// # Errors
///
/// `Refused` for an invalid agent or a description that cannot be written.
pub fn agent_response(agent: &ManagedAgent) -> (r: Result<Vec<u8>, HumanOperationError>)
    ensures
        r is Ok <==> agent_valid(*agent) && response_writable(*agent),
        r matches Ok(b) ==> b@ == response_bytes(*agent),
        r matches Err(e) ==> e == HumanOperationError::Refused,
{
    proof {
        reveal(response_bytes);
        reveal(response_writable);
    }
    agent.validate()?;
    proof {
        reveal(crate::managed_agent::agent_valid);
    }
    let mut kinds: Vec<FieldKind> = Vec::new();
    kinds.push(FieldKind::Text);
    kinds.push(FieldKind::Text);
    kinds.push(FieldKind::Text);
    kinds.push(FieldKind::U8);
    kinds.push(FieldKind::U128);
    kinds.push(FieldKind::Text);
    kinds.push(FieldKind::U8);
    kinds.push(FieldKind::Text);
    kinds.push(FieldKind::Text);
    kinds.push(FieldKind::U128);
    kinds.push(FieldKind::U128);
    kinds.push(FieldKind::U8);
    kinds.push(FieldKind::Text);
    kinds.push(FieldKind::Text);
    kinds.push(FieldKind::U8);
    assert(kinds@ =~= response_head_kinds());
    let mut values: Vec<FieldValue> = Vec::new();
    values.push(FieldValue::Text(agent.agent_id.clone()));
    values.push(FieldValue::Text(agent.name.clone()));
    values.push(FieldValue::Text(agent.purpose.clone()));
    values.push(FieldValue::U8(agent.state));
    values.push(FieldValue::U128(agent.monthly_limit));
    values.push(FieldValue::Text(agent.currency.clone()));
    values.push(FieldValue::U8(0));
    values.push(decimal_value(agent.period_start));
    values.push(decimal_value(agent.period_end));
    values.push(FieldValue::U128(agent.spent));
    values.push(FieldValue::U128(agent.monthly_limit - agent.spent));
    values.push(FieldValue::U8(3));
    values.push(decimal_value(agent.created_at));
    values.push(decimal_value(agent.updated_at));
    values.push(FieldValue::U8(agent.verified_evidence.len() as u8));
    assert(field_views(values@) =~= response_head(*agent));
    let ghost ev = fixed_views(agent.verified_evidence@);
    let mut i: usize = 0;
    while i < agent.verified_evidence.len()
        invariant
            i <= agent.verified_evidence@.len(),
            ev == fixed_views(agent.verified_evidence@),
            kinds@ == response_head_kinds() + evidence_kinds(i as nat),
            field_views(values@) == response_head(*agent) + evidence_fields(ev.take(i as int)),
        decreases agent.verified_evidence@.len() - i,
    {
        let ghost before_k = kinds@;
        let ghost before_v = field_views(values@);
        kinds.push(FieldKind::Text);
        kinds.push(FieldKind::Text);
        kinds.push(FieldKind::U8);
        let hex = to_hex(&agent.verified_evidence[i]);
        let label = "agent-creation".to_string();
        assert(label@ == "agent-creation"@);
        assert(hex@ == hex_text(agent.verified_evidence@[i as int]@));
        values.push(FieldValue::Text(hex));
        values.push(FieldValue::Text(label));
        values.push(FieldValue::U8(3));
        proof {
            assert(field_views(values@) =~= before_v + seq![
                FieldView::Text(hex_text(agent.verified_evidence@[i as int]@)),
                FieldView::Text("agent-creation"@),
                FieldView::U8(3),
            ]);
            assert(ev.take(i + 1).drop_last() =~= ev.take(i as int));
            assert(ev.take(i + 1).last() == agent.verified_evidence@[i as int]@);
            assert(kinds@ =~= response_head_kinds() + evidence_kinds((i + 1) as nat));
            assert(field_views(values@) =~= response_head(*agent) + evidence_fields(
                ev.take(i + 1),
            ));
        }
        i = i + 1;
    }
    proof {
        assert(ev.take(i as int) =~= ev);
        lemma_evidence_len(ev);
        assert(ev.len() == agent.verified_evidence@.len());
    }
    let mut out: Vec<u8> = Vec::new();
    if !write_fields(&mut out, &kinds, &values) {
        return Err(HumanOperationError::Refused);
    }
    Ok(out)
}

/// Agents with the same fields have the same description.
pub proof fn lemma_same_response(a: ManagedAgent, b: ManagedAgent)
    requires
        agent_fields(a) == agent_fields(b),
    ensures
        response_bytes(a) == response_bytes(b),
        response_writable(a) == response_writable(b),
{
    reveal(response_bytes);
    reveal(response_writable);
    lemma_same_fields(a, b);
    assert(a.verified_evidence@.len() == fixed_views(a.verified_evidence@).len());
    assert(b.verified_evidence@.len() == fixed_views(b.verified_evidence@).len());
    assert(response_head(a) =~= response_head(b));
}

/// Describes an agent from its stored record.
///
/// # Errors
///
/// `Refused` when the agent's record does not load or cannot be described.
pub fn get(store: &Store, tenant: &TenantId, agent_id: &str) -> (r: Result<Vec<u8>, HumanOperationError>)
    requires
        store.wf(),
    ensures
        r is Ok <==> agent_loadable(store.view(), tenant@, agent_id@) && response_writable(
            stored_agent(store.view(), tenant@, agent_id@),
        ),
        r matches Ok(b) ==> b@ == response_bytes(stored_agent(store.view(), tenant@, agent_id@)),
        r matches Err(e) ==> e == HumanOperationError::Refused,
{
    let agent = load_agent(store, tenant, agent_id)?;
    proof {
        lemma_stored_agent(store.view(), tenant@, agent_id@, agent);
        lemma_same_response(stored_agent(store.view(), tenant@, agent_id@), agent);
    }
    agent_response(&agent)
}

/// The kinds of an agent's lifecycle context: its seed, then its DID, bound identifiers,
/// state, limit, spent amount and update time.
pub open spec fn context_kinds() -> Seq<FieldKind> {
    seed_kinds() + seq![
        FieldKind::Text,
        FieldKind::Fixed,
        FieldKind::Fixed,
        FieldKind::Fixed,
        FieldKind::Fixed,
        FieldKind::U8,
        FieldKind::U128,
        FieldKind::U128,
        FieldKind::U64,
    ]
}

/// The fields of an agent's lifecycle context.
pub open spec fn context_fields(a: ManagedAgent) -> Seq<FieldView> {
    seed_fields(a.context) + seq![
        FieldView::Text(a.agent_did@),
        FieldView::Fixed(a.session_id@),
        FieldView::Fixed(a.session_token_id@),
        FieldView::Fixed(a.protocol_grant_id@),
        FieldView::Fixed(a.active_budget_id@),
        FieldView::U8(a.state),
        FieldView::U128(a.monthly_limit),
        FieldView::U128(a.spent),
        FieldView::U64(a.updated_at),
    ]
}

/// An agent's lifecycle context.
pub open spec fn context_bytes(a: ManagedAgent) -> Seq<u8> {
    fields_bytes(context_kinds(), context_fields(a))
}

/// Whether an agent's lifecycle context can be written.
pub open spec fn context_writable(a: ManagedAgent) -> bool {
    fields_writable(context_kinds(), context_fields(a))
}

/// Writes an agent's lifecycle context.
///
/// # Errors
///
/// `Refused` when the context cannot be written.
pub fn context_of(agent: &ManagedAgent) -> (r: Result<Vec<u8>, HumanOperationError>)
    ensures
        r is Ok <==> context_writable(*agent),
        r matches Ok(b) ==> b@ == context_bytes(*agent),
        r matches Err(e) ==> e == HumanOperationError::Refused,
{
    proof {
        crate::managed_agent::codec::lemma_layout(*agent);
    }
    let mut kinds = crate::managed_agent::codec::seed_layout();
    kinds.push(FieldKind::Text);
    kinds.push(FieldKind::Fixed);
    kinds.push(FieldKind::Fixed);
    kinds.push(FieldKind::Fixed);
    kinds.push(FieldKind::Fixed);
    kinds.push(FieldKind::U8);
    kinds.push(FieldKind::U128);
    kinds.push(FieldKind::U128);
    kinds.push(FieldKind::U64);
    assert(kinds@ =~= context_kinds());
    let mut values: Vec<FieldValue> = Vec::new();
    seed_values(&agent.context, &mut values);
    values.push(FieldValue::Text(agent.agent_did.clone()));
    values.push(FieldValue::Fixed(agent.session_id));
    values.push(FieldValue::Fixed(agent.session_token_id));
    values.push(FieldValue::Fixed(agent.protocol_grant_id));
    values.push(FieldValue::Fixed(agent.active_budget_id));
    values.push(FieldValue::U8(agent.state));
    values.push(FieldValue::U128(agent.monthly_limit));
    values.push(FieldValue::U128(agent.spent));
    values.push(FieldValue::U64(agent.updated_at));
    assert(field_views(values@) =~= context_fields(*agent));
    let mut out: Vec<u8> = Vec::new();
    if !write_fields(&mut out, &kinds, &values) {
        return Err(HumanOperationError::Refused);
    }
    Ok(out)
}

/// An agent's lifecycle context from its stored record.
///
/// # Errors
///
/// `Refused` when the agent's record does not load or its context cannot be written.
pub fn context(store: &Store, tenant: &TenantId, agent_id: &str) -> (r: Result<Vec<u8>, HumanOperationError>)
    requires
        store.wf(),
    ensures
        r is Ok <==> agent_loadable(store.view(), tenant@, agent_id@) && context_writable(
            stored_agent(store.view(), tenant@, agent_id@),
        ),
        r matches Ok(b) ==> b@ == context_bytes(stored_agent(store.view(), tenant@, agent_id@)),
        r matches Err(e) ==> e == HumanOperationError::Refused,
{
    let agent = load_agent(store, tenant, agent_id)?;
    proof {
        let s = stored_agent(store.view(), tenant@, agent_id@);
        lemma_stored_agent(store.view(), tenant@, agent_id@, agent);
        lemma_same_fields(s, agent);
        assert(context_fields(s) =~= context_fields(agent));
    }
    context_of(&agent)
}

/// The domain tag of lifecycle publication digests: `layerx-human-agent-lifecycle-publish/v1`.
pub open spec fn publish_tag() -> Seq<u8> {
    seq![
        108u8, 97u8, 121u8, 101u8, 114u8, 120u8, 45u8, 104u8, 117u8, 109u8, 97u8, 110u8, 45u8,
        97u8, 103u8, 101u8, 110u8, 116u8, 45u8, 108u8, 105u8, 102u8, 101u8, 99u8, 121u8, 99u8,
        108u8, 101u8, 45u8, 112u8, 117u8, 98u8, 108u8, 105u8, 115u8, 104u8, 47u8, 118u8, 49u8,
    ]
}

/// The digest that publishes a seed: SHA-256 of the tag and the seed's fields.
///
/// # Errors
///
/// `Refused` when the seed's fields cannot be written.
pub fn lifecycle_publish_digest(c: &HumanAgentLifecycleSeed) -> (r: Result<[u8; 32], HumanOperationError>)
    ensures
        r is Ok <==> fields_writable(seed_kinds(), seed_fields(*c)),
        r matches Ok(d) ==> d@ == sha256(publish_tag() + fields_bytes(seed_kinds(), seed_fields(*c))),
        r matches Err(e) ==> e == HumanOperationError::Refused,
{
    proof {
        crate::managed_agent::codec::lemma_seed_len(*c);
    }
    let kinds = crate::managed_agent::codec::seed_layout();
    let mut values: Vec<FieldValue> = Vec::new();
    seed_values(c, &mut values);
    assert(field_views(values@) =~= seed_fields(*c));
    let tag: [u8; 39] = [
        108, 97, 121, 101, 114, 120, 45, 104, 117, 109, 97, 110, 45, 97, 103, 101, 110, 116, 45,
        108, 105, 102, 101, 99, 121, 99, 108, 101, 45, 112, 117, 98, 108, 105, 115, 104, 47, 118,
        49,
    ];
    let mut out: Vec<u8> = Vec::new();
    push_all(&mut out, &tag);
    if !write_fields(&mut out, &kinds, &values) {
        return Err(HumanOperationError::Refused);
    }
    assert(out@ =~= publish_tag() + fields_bytes(seed_kinds(), seed_fields(*c)));
    Ok(sha256_digest(out.as_slice()))
}

} // verus!
