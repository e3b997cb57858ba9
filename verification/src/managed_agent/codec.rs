//! The durable encoding of a managed agent: a version byte, then its fields in a fixed
//! order, the lifecycle seed among them.
use vstd::prelude::*;

use crate::managed_agent::fields::{
    field_fits, field_views, fields_bytes, fields_fit, fields_writable, fixed_views,
    lemma_fields_parsed, lemma_fields_read, parse_fields, read_fields, string_views, write_fields, FieldKind, FieldValue, FieldView,
};
use crate::managed_agent::{
    agent_valid, context_valid, has_zero, HumanAgentLifecycleSeed,
    HumanOperationError, ManagedAgent,
};
use crate::policy::clone_texts;

verus! {

/// The version byte of the encoding.
pub const AGENT_RECORD_VERSION: u8 = 3;

/// The kinds of an agent's own fields, the version byte first.
#[verifier::opaque]
pub open spec fn head_kinds() -> Seq<FieldKind> {
    seq![
        FieldKind::U8,
        FieldKind::Text,
        FieldKind::Text,
        FieldKind::Text,
        FieldKind::U8,
        FieldKind::U128,
        FieldKind::Text,
        FieldKind::U64,
        FieldKind::U64,
        FieldKind::U128,
        FieldKind::U64,
        FieldKind::U64,
        FieldKind::FixedsByte(64),
    ]
}

/// The kinds of a lifecycle seed's fields.
#[verifier::opaque]
pub open spec fn seed_kinds() -> Seq<FieldKind> {
    seq![
        FieldKind::Text,
        FieldKind::Text,
        FieldKind::Text,
        FieldKind::Text,
        FieldKind::U128,
        FieldKind::U64,
        FieldKind::U64,
        FieldKind::U64,
        FieldKind::U64,
        FieldKind::Fixeds(64),
        FieldKind::Text,
        FieldKind::Text,
        FieldKind::Text,
        FieldKind::Fixed,
        FieldKind::Text,
        FieldKind::Text,
        FieldKind::Fixed,
        FieldKind::Fixed,
        FieldKind::Fixed,
        FieldKind::U16,
        FieldKind::Fixed,
        FieldKind::U32s(256),
        FieldKind::Fixeds(256),
        FieldKind::Fixeds(256),
        FieldKind::U128,
        FieldKind::U64,
        FieldKind::U64,
        FieldKind::Texts(64),
        FieldKind::U64,
        FieldKind::Texts(64),
        FieldKind::U64,
        FieldKind::Fixed,
        FieldKind::U64,
        FieldKind::U64,
        FieldKind::U128,
        FieldKind::U32,
        FieldKind::Fixeds(64),
    ]
}

/// The kinds of the fields after the seed: the DID and the bound identifiers.
#[verifier::opaque]
pub open spec fn tail_kinds() -> Seq<FieldKind> {
    seq![FieldKind::Text, FieldKind::Fixed, FieldKind::Fixed, FieldKind::Fixed, FieldKind::Fixed]
}

/// The kinds of all fields of an agent record.
pub open spec fn agent_kinds() -> Seq<FieldKind> {
    head_kinds() + seed_kinds() + tail_kinds()
}

/// A lifecycle seed's fields, in order.
#[verifier::opaque]
pub open spec fn seed_fields(c: HumanAgentLifecycleSeed) -> Seq<FieldView> {
    seq![
        FieldView::Text(c.agent_id@),
        FieldView::Text(c.name@),
        FieldView::Text(c.purpose@),
        FieldView::Text(c.currency@),
        FieldView::U128(c.monthly_limit),
        FieldView::U64(c.period_start),
        FieldView::U64(c.period_end),
        FieldView::U64(c.created_at),
        FieldView::U64(c.updated_at),
        FieldView::Fixeds(fixed_views(c.verified_evidence@)),
        FieldView::Text(c.actor@),
        FieldView::Text(c.primary_authority@),
        FieldView::Text(c.custody_key@),
        FieldView::Fixed(c.custody_public_key@),
        FieldView::Text(c.owner_account@),
        FieldView::Text(c.budget_account@),
        FieldView::Fixed(c.budget_asset@),
        FieldView::Fixed(c.purpose_hash@),
        FieldView::Fixed(c.recovery_root@),
        FieldView::U16(c.recovery_threshold),
        FieldView::Fixed(c.capability_id@),
        FieldView::U32s(c.activity_types@),
        FieldView::Fixeds(fixed_views(c.counterparties@)),
        FieldView::Fixeds(fixed_views(c.assets@)),
        FieldView::U128(c.amount_ceiling),
        FieldView::U64(c.rate_maximum_uses),
        FieldView::U64(c.rate_window_sequences),
        FieldView::Texts(string_views(c.purposes@)),
        FieldView::U64(c.capability_expiry_sequence),
        FieldView::Texts(string_views(c.session_scopes@)),
        FieldView::U64(c.session_expiry_unix_seconds),
        FieldView::Fixed(c.protocol_grant_id@),
        FieldView::U64(c.budget_period_seconds),
        FieldView::U64(c.budget_expiry_seconds),
        FieldView::U128(c.initial_funding),
        FieldView::U32(c.network_id),
        FieldView::Fixeds(fixed_views(c.creation_receipt_roots@)),
    ]
}

/// An agent's own fields, the version byte first.
#[verifier::opaque]
pub open spec fn head_fields(a: ManagedAgent) -> Seq<FieldView> {
    seq![
        FieldView::U8(AGENT_RECORD_VERSION),
        FieldView::Text(a.agent_id@),
        FieldView::Text(a.name@),
        FieldView::Text(a.purpose@),
        FieldView::U8(a.state),
        FieldView::U128(a.monthly_limit),
        FieldView::Text(a.currency@),
        FieldView::U64(a.period_start),
        FieldView::U64(a.period_end),
        FieldView::U128(a.spent),
        FieldView::U64(a.created_at),
        FieldView::U64(a.updated_at),
        FieldView::Fixeds(fixed_views(a.verified_evidence@)),
    ]
}

/// The fields after the seed.
#[verifier::opaque]
pub open spec fn tail_fields(a: ManagedAgent) -> Seq<FieldView> {
    seq![
        FieldView::Text(a.agent_did@),
        FieldView::Fixed(a.session_id@),
        FieldView::Fixed(a.session_token_id@),
        FieldView::Fixed(a.protocol_grant_id@),
        FieldView::Fixed(a.active_budget_id@),
    ]
}

/// All fields of an agent record, in order.
pub open spec fn agent_fields(a: ManagedAgent) -> Seq<FieldView> {
    head_fields(a) + seed_fields(a.context) + tail_fields(a)
}

/// The encoding of an agent record.
pub open spec fn agent_bytes(a: ManagedAgent) -> Seq<u8> {
    fields_bytes(agent_kinds(), agent_fields(a))
}

/// Whether an agent record can be encoded: every text holds 1 to 4096 bytes, there are at
/// most 255 evidence digests and at most 65535 entries in each list of the seed.
pub open spec fn agent_encodable(a: ManagedAgent) -> bool {
    fields_writable(agent_kinds(), agent_fields(a))
}

/// Whether an agent record's fields are within what a reading accepts: every text holds 1
/// to 4096 bytes, and every list is non-empty and within its bound.
pub open spec fn agent_fits(a: ManagedAgent) -> bool {
    fields_fit(agent_kinds(), agent_fields(a))
}

/// The kinds of an agent's own fields.
fn head_layout() -> (r: Vec<FieldKind>)
    ensures
        r@ == head_kinds(),
{
    proof {
        reveal(head_kinds);
    }
    let mut k: Vec<FieldKind> = Vec::new();
    k.push(FieldKind::U8);
    k.push(FieldKind::Text);
    k.push(FieldKind::Text);
    k.push(FieldKind::Text);
    k.push(FieldKind::U8);
    k.push(FieldKind::U128);
    k.push(FieldKind::Text);
    k.push(FieldKind::U64);
    k.push(FieldKind::U64);
    k.push(FieldKind::U128);
    k.push(FieldKind::U64);
    k.push(FieldKind::U64);
    k.push(FieldKind::FixedsByte(64));
    assert(k@ =~= head_kinds());
    k
}

/// The kinds of a seed's fields.
pub(crate) fn seed_layout() -> (r: Vec<FieldKind>)
    ensures
        r@ == seed_kinds(),
{
    proof {
        reveal(seed_kinds);
    }
    let mut k: Vec<FieldKind> = Vec::new();
    k.push(FieldKind::Text);
    k.push(FieldKind::Text);
    k.push(FieldKind::Text);
    k.push(FieldKind::Text);
    k.push(FieldKind::U128);
    k.push(FieldKind::U64);
    k.push(FieldKind::U64);
    k.push(FieldKind::U64);
    k.push(FieldKind::U64);
    k.push(FieldKind::Fixeds(64));
    k.push(FieldKind::Text);
    k.push(FieldKind::Text);
    k.push(FieldKind::Text);
    k.push(FieldKind::Fixed);
    k.push(FieldKind::Text);
    k.push(FieldKind::Text);
    k.push(FieldKind::Fixed);
    k.push(FieldKind::Fixed);
    k.push(FieldKind::Fixed);
    k.push(FieldKind::U16);
    k.push(FieldKind::Fixed);
    k.push(FieldKind::U32s(256));
    k.push(FieldKind::Fixeds(256));
    k.push(FieldKind::Fixeds(256));
    k.push(FieldKind::U128);
    k.push(FieldKind::U64);
    k.push(FieldKind::U64);
    k.push(FieldKind::Texts(64));
    k.push(FieldKind::U64);
    k.push(FieldKind::Texts(64));
    k.push(FieldKind::U64);
    k.push(FieldKind::Fixed);
    k.push(FieldKind::U64);
    k.push(FieldKind::U64);
    k.push(FieldKind::U128);
    k.push(FieldKind::U32);
    k.push(FieldKind::Fixeds(64));
    assert(k@ =~= seed_kinds());
    k
}

/// The kinds of the fields after the seed.
fn tail_layout() -> (r: Vec<FieldKind>)
    ensures
        r@ == tail_kinds(),
{
    proof {
        reveal(tail_kinds);
    }
    let mut k: Vec<FieldKind> = Vec::new();
    k.push(FieldKind::Text);
    k.push(FieldKind::Fixed);
    k.push(FieldKind::Fixed);
    k.push(FieldKind::Fixed);
    k.push(FieldKind::Fixed);
    assert(k@ =~= tail_kinds());
    k
}

/// The kinds of all fields of an agent record.
pub fn agent_layout() -> (r: Vec<FieldKind>)
    ensures
        r@ == agent_kinds(),
{
    let mut k = head_layout();
    let mut seed = seed_layout();
    let mut tail = tail_layout();
    k.append(&mut seed);
    k.append(&mut tail);
    k
}

/// The number of fields of each part of an agent record.
proof fn lemma_kinds()
    ensures
        head_kinds().len() == 13,
        seed_kinds().len() == 37,
        tail_kinds().len() == 5,
        agent_kinds().len() == 55,
{
    reveal(head_kinds);
    reveal(seed_kinds);
    reveal(tail_kinds);
}

/// A seed has as many fields as kinds.
pub proof fn lemma_seed_len(c: HumanAgentLifecycleSeed)
    ensures
        seed_fields(c).len() == 37,
        seed_kinds().len() == 37,
{
    reveal(seed_fields);
    reveal(seed_kinds);
}

/// The number of fields of each part of an agent record, and the version byte.
pub proof fn lemma_layout(a: ManagedAgent)
    ensures
        head_kinds().len() == 13,
        seed_kinds().len() == 37,
        tail_kinds().len() == 5,
        agent_kinds().len() == 55,
        head_fields(a).len() == 13,
        seed_fields(a.context).len() == 37,
        tail_fields(a).len() == 5,
        agent_fields(a).len() == 55,
        agent_fields(a)[0] == FieldView::U8(AGENT_RECORD_VERSION),
{
    reveal(head_kinds);
    reveal(seed_kinds);
    reveal(tail_kinds);
    reveal(head_fields);
    reveal(seed_fields);
    reveal(tail_fields);
}

/// Copies a list of 32-byte values.
pub fn copy_fixeds(v: &Vec<[u8; 32]>) -> (r: Vec<[u8; 32]>)
    ensures
        r@ == v@,
{
    let mut out: Vec<[u8; 32]> = Vec::new();
    let mut i: usize = 0;
    while i < v.len()
        invariant
            i <= v@.len(),
            out@ == v@.take(i as int),
        decreases v@.len() - i,
    {
        out.push(v[i]);
        assert(out@ =~= v@.take(i + 1));
        i = i + 1;
    }
    assert(v@.take(i as int) =~= v@);
    out
}

/// Copies a list of `u32` values.
pub fn copy_u32s(v: &Vec<u32>) -> (r: Vec<u32>)
    ensures
        r@ == v@,
{
    let mut out: Vec<u32> = Vec::new();
    let mut i: usize = 0;
    while i < v.len()
        invariant
            i <= v@.len(),
            out@ == v@.take(i as int),
        decreases v@.len() - i,
    {
        out.push(v[i]);
        assert(out@ =~= v@.take(i + 1));
        i = i + 1;
    }
    assert(v@.take(i as int) =~= v@);
    out
}

pub(crate) fn seed_values(c: &HumanAgentLifecycleSeed, out: &mut Vec<FieldValue>)
    ensures
        field_views(final(out)@) == field_views(old(out)@) + seed_fields(*c),
{
    proof {
        reveal(seed_fields);
    }
    let ghost start = field_views(out@);
    out.push(FieldValue::Text(c.agent_id.clone()));
    out.push(FieldValue::Text(c.name.clone()));
    out.push(FieldValue::Text(c.purpose.clone()));
    out.push(FieldValue::Text(c.currency.clone()));
    out.push(FieldValue::U128(c.monthly_limit));
    out.push(FieldValue::U64(c.period_start));
    out.push(FieldValue::U64(c.period_end));
    out.push(FieldValue::U64(c.created_at));
    out.push(FieldValue::U64(c.updated_at));
    out.push(FieldValue::Fixeds(copy_fixeds(&c.verified_evidence)));
    out.push(FieldValue::Text(c.actor.clone()));
    out.push(FieldValue::Text(c.primary_authority.clone()));
    out.push(FieldValue::Text(c.custody_key.clone()));
    out.push(FieldValue::Fixed(c.custody_public_key));
    out.push(FieldValue::Text(c.owner_account.clone()));
    out.push(FieldValue::Text(c.budget_account.clone()));
    out.push(FieldValue::Fixed(c.budget_asset));
    out.push(FieldValue::Fixed(c.purpose_hash));
    out.push(FieldValue::Fixed(c.recovery_root));
    out.push(FieldValue::U16(c.recovery_threshold));
    out.push(FieldValue::Fixed(c.capability_id));
    out.push(FieldValue::U32s(copy_u32s(&c.activity_types)));
    out.push(FieldValue::Fixeds(copy_fixeds(&c.counterparties)));
    out.push(FieldValue::Fixeds(copy_fixeds(&c.assets)));
    out.push(FieldValue::U128(c.amount_ceiling));
    out.push(FieldValue::U64(c.rate_maximum_uses));
    out.push(FieldValue::U64(c.rate_window_sequences));
    out.push(FieldValue::Texts(clone_texts(&c.purposes)));
    out.push(FieldValue::U64(c.capability_expiry_sequence));
    out.push(FieldValue::Texts(clone_texts(&c.session_scopes)));
    out.push(FieldValue::U64(c.session_expiry_unix_seconds));
    out.push(FieldValue::Fixed(c.protocol_grant_id));
    out.push(FieldValue::U64(c.budget_period_seconds));
    out.push(FieldValue::U64(c.budget_expiry_seconds));
    out.push(FieldValue::U128(c.initial_funding));
    out.push(FieldValue::U32(c.network_id));
    out.push(FieldValue::Fixeds(copy_fixeds(&c.creation_receipt_roots)));
    assert(field_views(out@) =~= start + seed_fields(*c));
}

/// An agent record's fields, in order.
fn agent_values(a: &ManagedAgent) -> (r: Vec<FieldValue>)
    ensures
        field_views(r@) == agent_fields(*a),
{
    proof {
        reveal(head_fields);
        reveal(tail_fields);
    }
    let mut out: Vec<FieldValue> = Vec::new();
    out.push(FieldValue::U8(AGENT_RECORD_VERSION));
    out.push(FieldValue::Text(a.agent_id.clone()));
    out.push(FieldValue::Text(a.name.clone()));
    out.push(FieldValue::Text(a.purpose.clone()));
    out.push(FieldValue::U8(a.state));
    out.push(FieldValue::U128(a.monthly_limit));
    out.push(FieldValue::Text(a.currency.clone()));
    out.push(FieldValue::U64(a.period_start));
    out.push(FieldValue::U64(a.period_end));
    out.push(FieldValue::U128(a.spent));
    out.push(FieldValue::U64(a.created_at));
    out.push(FieldValue::U64(a.updated_at));
    out.push(FieldValue::Fixeds(copy_fixeds(&a.verified_evidence)));
    assert(field_views(out@) =~= head_fields(*a));
    seed_values(&a.context, &mut out);
    let ghost middle = field_views(out@);
    out.push(FieldValue::Text(a.agent_did.clone()));
    out.push(FieldValue::Fixed(a.session_id));
    out.push(FieldValue::Fixed(a.session_token_id));
    out.push(FieldValue::Fixed(a.protocol_grant_id));
    out.push(FieldValue::Fixed(a.active_budget_id));
    assert(field_views(out@) =~= middle + tail_fields(*a));
    out
}

/// Encodes an agent record.
///
/// # Errors
///
/// `Refused` unless `agent_encodable` holds.
pub fn encode(agent: &ManagedAgent) -> (r: Result<Vec<u8>, HumanOperationError>)
    ensures
        r is Ok <==> agent_encodable(*agent),
        r matches Ok(b) ==> b@ == agent_bytes(*agent),
        r matches Err(e) ==> e == HumanOperationError::Refused,
{
    proof {
        lemma_layout(*agent);
    }
    let kinds = agent_layout();
    let values = agent_values(agent);
    let mut out: Vec<u8> = Vec::new();
    if !write_fields(&mut out, &kinds, &values) {
        return Err(HumanOperationError::Refused);
    }
    assert(out@ =~= agent_bytes(*agent));
    Ok(out)
}

pub(crate) fn field_u8(fs: &Vec<FieldValue>, i: usize) -> (r: Option<u8>)
    requires
        i < fs@.len(),
    ensures
        match fs@[i as int]@ {
            FieldView::U8(x) => r == Some(x),
            _ => r is None,
        },
{
    match &fs[i] {
        FieldValue::U8(x) => Some(*x),
        _ => None,
    }
}

pub(crate) fn field_u16(fs: &Vec<FieldValue>, i: usize) -> (r: Option<u16>)
    requires
        i < fs@.len(),
    ensures
        match fs@[i as int]@ {
            FieldView::U16(x) => r == Some(x),
            _ => r is None,
        },
{
    match &fs[i] {
        FieldValue::U16(x) => Some(*x),
        _ => None,
    }
}

pub(crate) fn field_u32(fs: &Vec<FieldValue>, i: usize) -> (r: Option<u32>)
    requires
        i < fs@.len(),
    ensures
        match fs@[i as int]@ {
            FieldView::U32(x) => r == Some(x),
            _ => r is None,
        },
{
    match &fs[i] {
        FieldValue::U32(x) => Some(*x),
        _ => None,
    }
}

pub(crate) fn field_u64(fs: &Vec<FieldValue>, i: usize) -> (r: Option<u64>)
    requires
        i < fs@.len(),
    ensures
        match fs@[i as int]@ {
            FieldView::U64(x) => r == Some(x),
            _ => r is None,
        },
{
    match &fs[i] {
        FieldValue::U64(x) => Some(*x),
        _ => None,
    }
}

pub(crate) fn field_u128(fs: &Vec<FieldValue>, i: usize) -> (r: Option<u128>)
    requires
        i < fs@.len(),
    ensures
        match fs@[i as int]@ {
            FieldView::U128(x) => r == Some(x),
            _ => r is None,
        },
{
    match &fs[i] {
        FieldValue::U128(x) => Some(*x),
        _ => None,
    }
}

pub(crate) fn field_fixed(fs: &Vec<FieldValue>, i: usize) -> (r: Option<[u8; 32]>)
    requires
        i < fs@.len(),
    ensures
        match fs@[i as int]@ {
            FieldView::Fixed(a) => r matches Some(x) && x@ == a,
            _ => r is None,
        },
{
    match &fs[i] {
        FieldValue::Fixed(x) => Some(*x),
        _ => None,
    }
}

pub(crate) fn field_text(fs: &Vec<FieldValue>, i: usize) -> (r: Option<String>)
    requires
        i < fs@.len(),
    ensures
        match fs@[i as int]@ {
            FieldView::Text(t) => r matches Some(x) && x@ == t,
            _ => r is None,
        },
{
    match &fs[i] {
        FieldValue::Text(x) => Some(x.clone()),
        _ => None,
    }
}

pub(crate) fn field_fixeds(fs: &Vec<FieldValue>, i: usize) -> (r: Option<Vec<[u8; 32]>>)
    requires
        i < fs@.len(),
    ensures
        match fs@[i as int]@ {
            FieldView::Fixeds(v) => r matches Some(x) && fixed_views(x@) == v,
            _ => r is None,
        },
{
    match &fs[i] {
        FieldValue::Fixeds(x) => Some(copy_fixeds(x)),
        _ => None,
    }
}

pub(crate) fn field_u32s(fs: &Vec<FieldValue>, i: usize) -> (r: Option<Vec<u32>>)
    requires
        i < fs@.len(),
    ensures
        match fs@[i as int]@ {
            FieldView::U32s(v) => r matches Some(x) && x@ == v,
            _ => r is None,
        },
{
    match &fs[i] {
        FieldValue::U32s(x) => Some(copy_u32s(x)),
        _ => None,
    }
}

pub(crate) fn field_texts(fs: &Vec<FieldValue>, i: usize) -> (r: Option<Vec<String>>)
    requires
        i < fs@.len(),
    ensures
        match fs@[i as int]@ {
            FieldView::Texts(v) => r matches Some(x) && string_views(x@) == v,
            _ => r is None,
        },
{
    match &fs[i] {
        FieldValue::Texts(x) => Some(clone_texts(x)),
        _ => None,
    }
}

/// The seed whose fields start at `at`, when they have the seed's kinds.
fn seed_from(fs: &Vec<FieldValue>, at: usize) -> (r: Option<HumanAgentLifecycleSeed>)
    requires
        at + 37 <= fs@.len(),
    ensures
        r matches Some(c) ==> seed_fields(c) == field_views(fs@).subrange(at as int, at + 37),
        fields_fit(seed_kinds(), field_views(fs@).subrange(at as int, at + 37)) ==> r is Some,
{
    proof {
        reveal(seed_fields);
        reveal(seed_kinds);
    }
    let total = fs.len();
    let ghost want = field_views(fs@).subrange(at as int, at + 37);
    proof {
        if fields_fit(seed_kinds(), want) {
            assert forall|k: int| 0 <= k < 37 implies #[trigger] fs@[at + k]@ == want[k] by {}
            assert(field_fits(seed_kinds()[0], want[0]));
        }
    }
    let c = HumanAgentLifecycleSeed {
        agent_id: field_text(fs, at)?,
        name: field_text(fs, at + 1)?,
        purpose: field_text(fs, at + 2)?,
        currency: field_text(fs, at + 3)?,
        monthly_limit: field_u128(fs, at + 4)?,
        period_start: field_u64(fs, at + 5)?,
        period_end: field_u64(fs, at + 6)?,
        created_at: field_u64(fs, at + 7)?,
        updated_at: field_u64(fs, at + 8)?,
        verified_evidence: field_fixeds(fs, at + 9)?,
        actor: field_text(fs, at + 10)?,
        primary_authority: field_text(fs, at + 11)?,
        custody_key: field_text(fs, at + 12)?,
        custody_public_key: field_fixed(fs, at + 13)?,
        owner_account: field_text(fs, at + 14)?,
        budget_account: field_text(fs, at + 15)?,
        budget_asset: field_fixed(fs, at + 16)?,
        purpose_hash: field_fixed(fs, at + 17)?,
        recovery_root: field_fixed(fs, at + 18)?,
        recovery_threshold: field_u16(fs, at + 19)?,
        capability_id: field_fixed(fs, at + 20)?,
        activity_types: field_u32s(fs, at + 21)?,
        counterparties: field_fixeds(fs, at + 22)?,
        assets: field_fixeds(fs, at + 23)?,
        amount_ceiling: field_u128(fs, at + 24)?,
        rate_maximum_uses: field_u64(fs, at + 25)?,
        rate_window_sequences: field_u64(fs, at + 26)?,
        purposes: field_texts(fs, at + 27)?,
        capability_expiry_sequence: field_u64(fs, at + 28)?,
        session_scopes: field_texts(fs, at + 29)?,
        session_expiry_unix_seconds: field_u64(fs, at + 30)?,
        protocol_grant_id: field_fixed(fs, at + 31)?,
        budget_period_seconds: field_u64(fs, at + 32)?,
        budget_expiry_seconds: field_u64(fs, at + 33)?,
        initial_funding: field_u128(fs, at + 34)?,
        network_id: field_u32(fs, at + 35)?,
        creation_receipt_roots: field_fixeds(fs, at + 36)?,
    };
    assert(seed_fields(c) =~= want);
    Some(c)
}

/// The agent whose fields these are, when they have an agent's kinds and the version byte
/// is the current one.
fn agent_from(fs: &Vec<FieldValue>) -> (r: Option<ManagedAgent>)
    requires
        fs@.len() == 55,
    ensures
        r matches Some(a) ==> agent_fields(a) == field_views(fs@),
        fields_fit(agent_kinds(), field_views(fs@)) && fs@[0]@ == FieldView::U8(AGENT_RECORD_VERSION)
            ==> r is Some,
{
    proof {
        reveal(head_fields);
        reveal(tail_fields);
        reveal(head_kinds);
        reveal(seed_kinds);
        reveal(tail_kinds);
    }
    let ghost want = field_views(fs@);
    proof {
        if fields_fit(agent_kinds(), want) {
            assert forall|k: int| 0 <= k < 55 implies #[trigger] fs@[k]@ == want[k] by {}
            assert(want.subrange(13, 50) =~= field_views(fs@).subrange(13int, 50int));
            assert forall|k: int| 0 <= k < 37 implies field_fits(
                seed_kinds()[k],
                #[trigger] want.subrange(13, 50)[k],
            ) by {
                assert(agent_kinds()[13 + k] == seed_kinds()[k]);
                assert(want.subrange(13, 50)[k] == want[13 + k]);
            }
        }
    }
    match field_u8(fs, 0) {
        Some(v) => if v != AGENT_RECORD_VERSION {
            return None;
        },
        None => {
            return None;
        },
    }
    let a = ManagedAgent {
        agent_id: field_text(fs, 1)?,
        name: field_text(fs, 2)?,
        purpose: field_text(fs, 3)?,
        state: field_u8(fs, 4)?,
        monthly_limit: field_u128(fs, 5)?,
        currency: field_text(fs, 6)?,
        period_start: field_u64(fs, 7)?,
        period_end: field_u64(fs, 8)?,
        spent: field_u128(fs, 9)?,
        created_at: field_u64(fs, 10)?,
        updated_at: field_u64(fs, 11)?,
        verified_evidence: field_fixeds(fs, 12)?,
        context: seed_from(fs, 13)?,
        agent_did: field_text(fs, 50)?,
        session_id: field_fixed(fs, 51)?,
        session_token_id: field_fixed(fs, 52)?,
        protocol_grant_id: field_fixed(fs, 53)?,
        active_budget_id: field_fixed(fs, 54)?,
    };
    assert(agent_fields(a) =~= want) by {
        assert(head_fields(a) =~= want.subrange(0, 13));
        assert(tail_fields(a) =~= want.subrange(50, 55));
        assert(want =~= want.subrange(0, 13) + want.subrange(13, 50) + want.subrange(50, 55));
    }
    Some(a)
}

proof fn lemma_same_seed_valid(c: HumanAgentLifecycleSeed, d: HumanAgentLifecycleSeed)
    requires
        seed_fields(c) == seed_fields(d),
    ensures
        context_valid(c) == context_valid(d),
        c.agent_id@ == d.agent_id@,
{
    reveal(seed_fields);
    let sa = seed_fields(c);
    let sb = seed_fields(d);
    assert(sa[0] == sb[0] && sa[10] == sb[10] && sa[11] == sb[11] && sa[12] == sb[12]);
    assert(sa[13] == sb[13] && sa[14] == sb[14] && sa[15] == sb[15] && sa[16] == sb[16]);
    assert(sa[17] == sb[17] && sa[18] == sb[18] && sa[19] == sb[19] && sa[20] == sb[20]);
    assert(sa[21] == sb[21] && sa[22] == sb[22] && sa[23] == sb[23] && sa[24] == sb[24]);
    assert(sa[25] == sb[25] && sa[26] == sb[26] && sa[27] == sb[27] && sa[28] == sb[28]);
    assert(sa[29] == sb[29] && sa[30] == sb[30] && sa[32] == sb[32] && sa[33] == sb[33]);
    assert(sa[34] == sb[34] && sa[35] == sb[35] && sa[36] == sb[36]);
    assert(c.purposes@.len() == string_views(c.purposes@).len());
    assert(d.purposes@.len() == string_views(d.purposes@).len());
    assert(c.session_scopes@.len() == string_views(c.session_scopes@).len());
    assert(d.session_scopes@.len() == string_views(d.session_scopes@).len());
    assert(c.counterparties@.len() == fixed_views(c.counterparties@).len());
    assert(d.counterparties@.len() == fixed_views(d.counterparties@).len());
    assert(c.assets@.len() == fixed_views(c.assets@).len());
    assert(d.assets@.len() == fixed_views(d.assets@).len());
    assert(c.creation_receipt_roots@.len() == fixed_views(c.creation_receipt_roots@).len());
    assert(d.creation_receipt_roots@.len() == fixed_views(d.creation_receipt_roots@).len());
}

/// Agents with the same fields are equally valid.
proof fn lemma_same_fields_valid(a: ManagedAgent, b: ManagedAgent)
    requires
        agent_fields(a) == agent_fields(b),
    ensures
        agent_valid(a) == agent_valid(b),
{
    reveal(head_fields);
    reveal(tail_fields);
    reveal(agent_valid);
    lemma_layout(a);
    lemma_layout(b);
    let fa = agent_fields(a);
    let fb = agent_fields(b);
    assert(fa[1] == fb[1] && fa[2] == fb[2] && fa[3] == fb[3] && fa[4] == fb[4]);
    assert(fa[5] == fb[5] && fa[6] == fb[6] && fa[7] == fb[7] && fa[8] == fb[8]);
    assert(fa[9] == fb[9] && fa[10] == fb[10] && fa[11] == fb[11] && fa[12] == fb[12]);
    assert(fa[50] == fb[50] && fa[51] == fb[51] && fa[52] == fb[52] && fa[54] == fb[54]);
    assert(seed_fields(a.context) =~= fa.subrange(13, 50));
    assert(seed_fields(b.context) =~= fb.subrange(13, 50));
    lemma_same_seed_valid(a.context, b.context);
    let ea = a.verified_evidence@;
    let eb = b.verified_evidence@;
    assert(fixed_views(ea) == fixed_views(eb));
    assert(fixed_views(ea).len() == ea.len() && fixed_views(eb).len() == eb.len());
    assert(has_zero(ea) == has_zero(eb)) by {
        if has_zero(ea) {
            let i = choose|i: int| 0 <= i < ea.len() && (#[trigger] ea[i])@ == crate::managed_agent::zero32();
            assert(fixed_views(ea)[i] == fixed_views(eb)[i]);
        }
        if has_zero(eb) {
            let i = choose|i: int| 0 <= i < eb.len() && (#[trigger] eb[i])@ == crate::managed_agent::zero32();
            assert(fixed_views(ea)[i] == fixed_views(eb)[i]);
        }
    }
}

/// Whether some valid agent record that fits encodes to `b`.
pub open spec fn decodable(b: Seq<u8>) -> bool {
    exists|a: ManagedAgent| agent_valid(a) && agent_fits(a) && #[trigger] agent_bytes(a) == b
}

/// Bytes that read as no complete field list are no valid record's encoding.
proof fn lemma_refused_unread(b: Seq<u8>)
    requires
        !(parse_fields(agent_kinds(), b, 0) matches Some((fs, end)) && end == b.len()),
    ensures
        !decodable(b),
{
    if decodable(b) {
        let w = choose|a: ManagedAgent| agent_valid(a) && agent_fits(a) && #[trigger] agent_bytes(a) == b;
        lemma_decodable(w, b);
    }
}

/// Bytes whose fields start with another version byte are no valid record's encoding.
proof fn lemma_refused_version(b: Seq<u8>, fs: Seq<FieldView>)
    requires
        parse_fields(agent_kinds(), b, 0) == Some((fs, b.len() as int)),
        fs[0] != FieldView::U8(AGENT_RECORD_VERSION),
    ensures
        !decodable(b),
{
    if decodable(b) {
        let w = choose|a: ManagedAgent| agent_valid(a) && agent_fits(a) && #[trigger] agent_bytes(a) == b;
        lemma_decodable(w, b);
        lemma_layout(w);
    }
}

/// Bytes that read as the fields of an invalid record are no valid record's encoding.
proof fn lemma_refused_invalid(b: Seq<u8>, a: ManagedAgent)
    requires
        parse_fields(agent_kinds(), b, 0) == Some((agent_fields(a), b.len() as int)),
        !agent_valid(a),
    ensures
        !decodable(b),
{
    if decodable(b) {
        let w = choose|x: ManagedAgent| agent_valid(x) && agent_fits(x) && #[trigger] agent_bytes(x) == b;
        lemma_decodable(w, b);
        lemma_same_fields_valid(a, w);
    }
}

/// A valid agent record that fits is read back from its encoding.
proof fn lemma_decodable(w: ManagedAgent, b: Seq<u8>)
    requires
        agent_fits(w),
        agent_bytes(w) == b,
    ensures
        parse_fields(agent_kinds(), b, 0) == Some((agent_fields(w), b.len() as int)),
{
    lemma_fields_read(agent_kinds(), agent_fields(w), Seq::empty(), Seq::empty());
    assert(Seq::<u8>::empty() + agent_bytes(w) + Seq::<u8>::empty() =~= b);
}

/// Decodes an agent record.
///
/// # Errors
///
/// `Refused` unless the bytes are the encoding of a valid agent record that fits.
pub fn decode(bytes: &[u8]) -> (r: Result<ManagedAgent, HumanOperationError>)
    ensures
        r matches Ok(a) ==> agent_valid(a) && agent_fits(a) && agent_bytes(a) == bytes@,
        r is Ok <==> decodable(bytes@),
        r matches Err(e) ==> e == HumanOperationError::Refused,
{
    proof {
        lemma_kinds();
    }
    let kinds = agent_layout();
    let (fs, end) = match read_fields(bytes, 0, &kinds) {
        None => {
            proof {
                lemma_refused_unread(bytes@);
            }
            return Err(HumanOperationError::Refused);
        },
        Some(x) => x,
    };
    proof {
        lemma_fields_parsed(agent_kinds(), bytes@, 0);
    }
    if end != bytes.len() {
        proof {
            lemma_refused_unread(bytes@);
        }
        return Err(HumanOperationError::Refused);
    }
    assert(field_views(fs@).len() == fs@.len());
    let agent = match agent_from(&fs) {
        None => {
            proof {
                assert(field_views(fs@)[0] == fs@[0]@);
                lemma_refused_version(bytes@, field_views(fs@));
            }
            return Err(HumanOperationError::Refused);
        },
        Some(a) => a,
    };
    assert(bytes@ =~= bytes@.subrange(0, end as int));
    match agent.validate() {
        Err(e) => {
            proof {
                lemma_refused_invalid(bytes@, agent);
            }
            Err(e)
        },
        Ok(()) => {
            assert(agent_fits(agent));
            assert(agent_bytes(agent) == bytes@);
            assert(decodable(bytes@));
            Ok(agent)
        },
    }
}

/// An agent record whose fields fit can be encoded, and a valid one is decoded from its
/// encoding: the encoding is read back field for field.
pub proof fn lemma_agent_roundtrip(a: ManagedAgent)
    requires
        agent_fits(a),
    ensures
        agent_encodable(a),
        parse_fields(agent_kinds(), agent_bytes(a), 0) == Some(
            (agent_fields(a), agent_bytes(a).len() as int),
        ),
        agent_valid(a) ==> decodable(agent_bytes(a)),
{
    lemma_decodable(a, agent_bytes(a));
    let ks = agent_kinds();
    let fs = agent_fields(a);
    assert forall|i: int| 0 <= i < fs.len() implies crate::managed_agent::fields::field_writable(
        ks[i],
        #[trigger] fs[i],
    ) by {
        assert(field_fits(ks[i], fs[i]));
    }
}

/// Two agent records whose fields fit and whose encodings are equal have the same fields.
pub proof fn lemma_agent_bytes_injective(a: ManagedAgent, b: ManagedAgent)
    requires
        agent_fits(a),
        agent_fits(b),
        agent_bytes(a) == agent_bytes(b),
    ensures
        agent_fields(a) == agent_fields(b),
{
    lemma_decodable(a, agent_bytes(a));
    lemma_decodable(b, agent_bytes(b));
}

/// Agent records with the same fields agree on every field.
pub proof fn lemma_same_fields(a: ManagedAgent, b: ManagedAgent)
    requires
        agent_fields(a) == agent_fields(b),
    ensures
        a.agent_id@ == b.agent_id@,
        a.name@ == b.name@,
        a.purpose@ == b.purpose@,
        a.state == b.state,
        a.monthly_limit == b.monthly_limit,
        a.currency@ == b.currency@,
        a.period_start == b.period_start,
        a.period_end == b.period_end,
        a.spent == b.spent,
        a.created_at == b.created_at,
        a.updated_at == b.updated_at,
        fixed_views(a.verified_evidence@) == fixed_views(b.verified_evidence@),
        seed_fields(a.context) == seed_fields(b.context),
        a.agent_did@ == b.agent_did@,
        a.session_id@ == b.session_id@,
        a.session_token_id@ == b.session_token_id@,
        a.protocol_grant_id@ == b.protocol_grant_id@,
        a.active_budget_id@ == b.active_budget_id@,
{
    reveal(head_fields);
    reveal(tail_fields);
    lemma_layout(a);
    lemma_layout(b);
    let fa = agent_fields(a);
    let fb = agent_fields(b);
    assert(fa[1] == fb[1] && fa[2] == fb[2] && fa[3] == fb[3] && fa[4] == fb[4]);
    assert(fa[5] == fb[5] && fa[6] == fb[6] && fa[7] == fb[7] && fa[8] == fb[8]);
    assert(fa[9] == fb[9] && fa[10] == fb[10] && fa[11] == fb[11] && fa[12] == fb[12]);
    assert(fa[50] == fb[50] && fa[51] == fb[51] && fa[52] == fb[52] && fa[53] == fb[53]);
    assert(fa[54] == fb[54]);
    assert(seed_fields(a.context) =~= fa.subrange(13, 50));
    assert(seed_fields(b.context) =~= fb.subrange(13, 50));
}

/// Whether two agent records have the same fields.
pub fn same_agent(a: &ManagedAgent, b: &ManagedAgent) -> (r: bool)
    ensures
        r == (agent_fields(*a) == agent_fields(*b)),
{
    let x = agent_values(a);
    let y = agent_values(b);
    crate::managed_agent::fields::fields_equal(&x, &y)
}

/// Whether bytes are the encoding of a valid record with the fields of `a`.
pub open spec fn holds_agent(b: Seq<u8>, a: ManagedAgent) -> bool {
    decodable(b) && forall|x: ManagedAgent|
        agent_valid(x) && agent_fits(x) && #[trigger] agent_bytes(x) == b ==> agent_fields(x)
            == agent_fields(a)
}

/// A decoded record shows what bytes hold: they hold an agent exactly when its fields are
/// the decoded record's.
pub proof fn lemma_holds_decoded(b: Seq<u8>, d: ManagedAgent, a: ManagedAgent)
    requires
        agent_valid(d),
        agent_fits(d),
        agent_bytes(d) == b,
    ensures
        holds_agent(b, a) == (agent_fields(d) == agent_fields(a)),
{
    if agent_fields(d) == agent_fields(a) {
        assert forall|x: ManagedAgent|
            agent_valid(x) && agent_fits(x) && #[trigger] agent_bytes(x) == b implies agent_fields(x)
            == agent_fields(a) by {
            lemma_agent_bytes_injective(x, d);
        }
    }
}

/// The identifier and DID of an agent record that fits are texts a field holds.
pub proof fn lemma_fits_texts(a: ManagedAgent)
    requires
        agent_fits(a),
    ensures
        crate::managed_agent::fields::text_fits(a.agent_id@),
        crate::managed_agent::fields::text_fits(a.agent_did@),
{
    reveal(head_fields);
    reveal(tail_fields);
    reveal(head_kinds);
    reveal(seed_kinds);
    reveal(tail_kinds);
    lemma_layout(a);
    let ks = agent_kinds();
    let fs = agent_fields(a);
    assert(field_fits(ks[1], fs[1]));
    assert(field_fits(ks[50], fs[50]));
}

} // verus!
