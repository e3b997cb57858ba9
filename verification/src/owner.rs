//! The digest an owner installation request is bound by.
use vstd::prelude::*;

use crate::bytes::{push_all, push_u128, push_u16, push_u32, push_u64, text_bytes, u128_be, u16_be, u32_be, u64_be};
use crate::digest::{sha256, sha256_digest};
use crate::managed_agent::HumanAgentLifecycleSeed;

verus! {

/// What an owner installs for an agent: the owner authority and session it opens, the
/// grant behind it, the session's permissions and lease, and the lifecycle terms of a
/// managed agent created with it, if any.
#[derive(Debug)]
pub struct OwnerInstall {
    pub agent: String,
    pub authority_kind: u8,
    pub authority_id: [u8; 32],
    pub session_id: [u8; 32],
    pub token_id: [u8; 32],
    pub session_public_key: [u8; 32],
    pub registration_payload: Vec<u8>,
    pub grantor: [u8; 32],
    pub grant_not_before: u64,
    pub grant_expires_at: u64,
    pub grant_revocation_sequence: u64,
    pub permitted_activity_types: Vec<u16>,
    pub scopes: Vec<String>,
    pub lease_not_before_unix_ms: u64,
    pub lease_not_after_unix_ms: u64,
    pub opening_client: String,
    pub policy_version: String,
    pub lifecycle: Option<HumanAgentLifecycleSeed>,
}

/// The domain tag of owner installation digests: `layerx-human-owner-install/v2`.
pub open spec fn owner_install_tag() -> Seq<u8> {
    seq![108u8, 97u8, 121u8, 101u8, 114u8, 120u8, 45u8, 104u8, 117u8, 109u8, 97u8, 110u8, 45u8, 111u8, 119u8, 110u8, 101u8, 114u8, 45u8, 105u8, 110u8, 115u8, 116u8, 97u8, 108u8, 108u8, 47u8, 118u8, 50u8]
}

/// A length as a `u32`, saturating.
pub open spec fn saturated_u32(n: nat) -> u32 {
    if n > u32::MAX { u32::MAX } else { n as u32 }
}

/// A count as a `u16`, saturating.
pub open spec fn saturated_u16(n: nat) -> u16 {
    if n > u16::MAX { u16::MAX } else { n as u16 }
}

/// Bytes after their length as a big-endian `u32` (saturating).
pub open spec fn hashed_bytes(b: Seq<u8>) -> Seq<u8> {
    u32_be(saturated_u32(b.len())) + b
}

/// A count as a big-endian `u16` (saturating).
pub open spec fn item_count(n: nat) -> Seq<u8> {
    u16_be(saturated_u16(n))
}

/// 32-byte values one after another.
pub open spec fn fixeds_run(v: Seq<[u8; 32]>) -> Seq<u8>
    decreases v.len(),
{
    if v.len() == 0 { Seq::empty() } else { fixeds_run(v.drop_last()) + v.last()@ }
}

/// `u16` values one after another, big-endian.
pub open spec fn u16s_run(v: Seq<u16>) -> Seq<u8>
    decreases v.len(),
{
    if v.len() == 0 { Seq::empty() } else { u16s_run(v.drop_last()) + u16_be(v.last()) }
}

/// `u32` values one after another, big-endian.
pub open spec fn u32s_run(v: Seq<u32>) -> Seq<u8>
    decreases v.len(),
{
    if v.len() == 0 { Seq::empty() } else { u32s_run(v.drop_last()) + u32_be(v.last()) }
}

/// Texts one after another, each after its length.
pub open spec fn texts_run(v: Seq<Seq<char>>) -> Seq<u8>
    decreases v.len(),
{
    if v.len() == 0 { Seq::empty() } else { texts_run(v.drop_last()) + hashed_bytes(text_bytes(v.last())) }
}

/// The views of a list of texts.
pub open spec fn text_views(v: Seq<String>) -> Seq<Seq<char>> {
    v.map_values(|s: String| s@)
}

/// The identity, limit, period and evidence of lifecycle terms, as the digest covers them.
pub open spec fn lifecycle_identity(c: HumanAgentLifecycleSeed) -> Seq<u8> {
    hashed_bytes(text_bytes(c.agent_id@)) + hashed_bytes(text_bytes(c.name@)) + hashed_bytes(text_bytes(c.purpose@))
        + hashed_bytes(text_bytes(c.currency@)) + u128_be(c.monthly_limit) + u64_be(c.period_start)
        + u64_be(c.period_end) + u64_be(c.created_at) + u64_be(c.updated_at)
        + item_count(c.verified_evidence@.len()) + fixeds_run(c.verified_evidence@)
}

/// The custody and recovery terms, as the digest covers them.
pub open spec fn lifecycle_custody(c: HumanAgentLifecycleSeed) -> Seq<u8> {
    hashed_bytes(text_bytes(c.actor@)) + hashed_bytes(text_bytes(c.primary_authority@))
        + hashed_bytes(text_bytes(c.custody_key@)) + c.custody_public_key@
        + hashed_bytes(text_bytes(c.owner_account@)) + hashed_bytes(text_bytes(c.budget_account@))
        + c.budget_asset@ + c.purpose_hash@ + c.recovery_root@ + u16_be(c.recovery_threshold)
}

/// The capability terms, as the digest covers them.
pub open spec fn lifecycle_capability(c: HumanAgentLifecycleSeed) -> Seq<u8> {
    c.capability_id@ + item_count(c.activity_types@.len()) + u32s_run(c.activity_types@)
        + item_count(c.counterparties@.len()) + fixeds_run(c.counterparties@)
        + item_count(c.assets@.len()) + fixeds_run(c.assets@) + u128_be(c.amount_ceiling)
        + u64_be(c.rate_maximum_uses) + u64_be(c.rate_window_sequences)
        + item_count(c.purposes@.len()) + texts_run(text_views(c.purposes@))
        + u64_be(c.capability_expiry_sequence)
}

/// The session, budget and creation terms, as the digest covers them.
pub open spec fn lifecycle_session(c: HumanAgentLifecycleSeed) -> Seq<u8> {
    item_count(c.session_scopes@.len()) + texts_run(text_views(c.session_scopes@))
        + u64_be(c.session_expiry_unix_seconds) + c.protocol_grant_id@
        + u64_be(c.budget_period_seconds) + u64_be(c.budget_expiry_seconds)
        + u128_be(c.initial_funding) + u32_be(c.network_id)
        + item_count(c.creation_receipt_roots@.len()) + fixeds_run(c.creation_receipt_roots@)
}

/// What an owner installation digest covers of lifecycle terms.
pub open spec fn lifecycle_preimage(c: HumanAgentLifecycleSeed) -> Seq<u8> {
    lifecycle_identity(c) + lifecycle_custody(c) + lifecycle_capability(c) + lifecycle_session(c)
}

/// The owner authority, session and grant of an installation, as the digest covers them.
pub open spec fn owner_grant(r: OwnerInstall) -> Seq<u8> {
    hashed_bytes(text_bytes(r.agent@)) + seq![r.authority_kind] + r.authority_id@ + r.session_id@
        + r.token_id@ + r.session_public_key@ + hashed_bytes(r.registration_payload@) + r.grantor@
        + u64_be(r.grant_not_before) + u64_be(r.grant_expires_at) + u64_be(r.grant_revocation_sequence)
}

/// The session permissions and lease of an installation, as the digest covers them.
pub open spec fn owner_session(r: OwnerInstall) -> Seq<u8> {
    item_count(r.permitted_activity_types@.len()) + u16s_run(r.permitted_activity_types@)
        + item_count(r.scopes@.len()) + texts_run(text_views(r.scopes@))
        + u64_be(r.lease_not_before_unix_ms) + u64_be(r.lease_not_after_unix_ms)
        + hashed_bytes(text_bytes(r.opening_client@)) + hashed_bytes(text_bytes(r.policy_version@))
}

/// The lifecycle terms of an installation after a byte saying whether there are any.
pub open spec fn owner_lifecycle(r: OwnerInstall) -> Seq<u8> {
    match r.lifecycle {
        None => seq![0u8],
        Some(c) => seq![1u8] + lifecycle_preimage(c),
    }
}

/// The bytes an owner installation digest covers: the tag, then every field in order,
/// texts and the payload after their lengths, lists after their counts, and the lifecycle
/// terms after a byte saying whether there are any.
pub open spec fn owner_install_preimage(r: OwnerInstall) -> Seq<u8> {
    owner_install_tag() + owner_grant(r) + owner_session(r) + owner_lifecycle(r)
}

pub(crate) fn push_hashed(out: &mut Vec<u8>, bytes: &[u8])
    ensures
        final(out)@ == old(out)@ + hashed_bytes(bytes@),
{
    let n: u32 = if bytes.len() > 4294967295usize { 4294967295u32 } else { bytes.len() as u32 };
    push_u32(out, n);
    push_all(out, bytes);
    assert(final(out)@ =~= old(out)@ + hashed_bytes(bytes@));
}

pub(crate) fn push_text(out: &mut Vec<u8>, text: &str)
    ensures
        final(out)@ == old(out)@ + hashed_bytes(text_bytes(text@)),
{
    push_hashed(out, text.as_bytes());
}

fn push_count(out: &mut Vec<u8>, n: usize)
    ensures
        final(out)@ == old(out)@ + item_count(n as nat),
{
    let c: u16 = if n > 65535usize { 65535u16 } else { n as u16 };
    push_u16(out, c);
}

pub(crate) fn push_fixeds(out: &mut Vec<u8>, v: &Vec<[u8; 32]>)
    ensures
        final(out)@ == old(out)@ + item_count(v@.len()) + fixeds_run(v@),
{
    push_count(out, v.len());
    let ghost start = out@;
    let mut i: usize = 0;
    while i < v.len()
        invariant
            i <= v@.len(),
            out@ == start + fixeds_run(v@.take(i as int)),
        decreases v@.len() - i,
    {
        push_all(out, &v[i]);
        assert(v@.take(i + 1).drop_last() =~= v@.take(i as int));
        assert(out@ =~= start + fixeds_run(v@.take(i + 1)));
        i = i + 1;
    }
    assert(v@.take(i as int) =~= v@);
    assert(out@ =~= old(out)@ + item_count(v@.len()) + fixeds_run(v@));
}

fn push_u16s(out: &mut Vec<u8>, v: &Vec<u16>)
    ensures
        final(out)@ == old(out)@ + item_count(v@.len()) + u16s_run(v@),
{
    push_count(out, v.len());
    let ghost start = out@;
    let mut i: usize = 0;
    while i < v.len()
        invariant
            i <= v@.len(),
            out@ == start + u16s_run(v@.take(i as int)),
        decreases v@.len() - i,
    {
        push_u16(out, v[i]);
        assert(v@.take(i + 1).drop_last() =~= v@.take(i as int));
        assert(out@ =~= start + u16s_run(v@.take(i + 1)));
        i = i + 1;
    }
    assert(v@.take(i as int) =~= v@);
    assert(out@ =~= old(out)@ + item_count(v@.len()) + u16s_run(v@));
}

pub(crate) fn push_u32s(out: &mut Vec<u8>, v: &Vec<u32>)
    ensures
        final(out)@ == old(out)@ + item_count(v@.len()) + u32s_run(v@),
{
    push_count(out, v.len());
    let ghost start = out@;
    let mut i: usize = 0;
    while i < v.len()
        invariant
            i <= v@.len(),
            out@ == start + u32s_run(v@.take(i as int)),
        decreases v@.len() - i,
    {
        push_u32(out, v[i]);
        assert(v@.take(i + 1).drop_last() =~= v@.take(i as int));
        assert(out@ =~= start + u32s_run(v@.take(i + 1)));
        i = i + 1;
    }
    assert(v@.take(i as int) =~= v@);
    assert(out@ =~= old(out)@ + item_count(v@.len()) + u32s_run(v@));
}

pub(crate) fn push_texts(out: &mut Vec<u8>, v: &Vec<String>)
    ensures
        final(out)@ == old(out)@ + item_count(v@.len()) + texts_run(text_views(v@)),
{
    push_count(out, v.len());
    let ghost start = out@;
    let ghost views = text_views(v@);
    let mut i: usize = 0;
    while i < v.len()
        invariant
            i <= v@.len(),
            views == text_views(v@),
            views.len() == v@.len(),
            out@ == start + texts_run(views.take(i as int)),
        decreases v@.len() - i,
    {
        push_text(out, v[i].as_str());
        assert(views.take(i + 1).drop_last() =~= views.take(i as int));
        assert(views[i as int] == v@[i as int]@);
        assert(out@ =~= start + texts_run(views.take(i + 1)));
        i = i + 1;
    }
    assert(views.take(i as int) =~= views);
    assert(out@ =~= old(out)@ + item_count(v@.len()) + texts_run(text_views(v@)));
}

fn push_lifecycle_identity(out: &mut Vec<u8>, c: &HumanAgentLifecycleSeed)
    ensures
        final(out)@ == old(out)@ + lifecycle_identity(*c),
{
    push_text(out, c.agent_id.as_str());
    push_text(out, c.name.as_str());
    push_text(out, c.purpose.as_str());
    push_text(out, c.currency.as_str());
    push_u128(out, c.monthly_limit);
    push_u64(out, c.period_start);
    push_u64(out, c.period_end);
    push_u64(out, c.created_at);
    push_u64(out, c.updated_at);
    push_fixeds(out, &c.verified_evidence);
    assert(final(out)@ =~= old(out)@ + lifecycle_identity(*c));
}

fn push_lifecycle_custody(out: &mut Vec<u8>, c: &HumanAgentLifecycleSeed)
    ensures
        final(out)@ == old(out)@ + lifecycle_custody(*c),
{
    push_text(out, c.actor.as_str());
    push_text(out, c.primary_authority.as_str());
    push_text(out, c.custody_key.as_str());
    push_all(out, &c.custody_public_key);
    push_text(out, c.owner_account.as_str());
    push_text(out, c.budget_account.as_str());
    push_all(out, &c.budget_asset);
    push_all(out, &c.purpose_hash);
    push_all(out, &c.recovery_root);
    push_u16(out, c.recovery_threshold);
    assert(final(out)@ =~= old(out)@ + lifecycle_custody(*c));
}

fn push_lifecycle_capability(out: &mut Vec<u8>, c: &HumanAgentLifecycleSeed)
    ensures
        final(out)@ == old(out)@ + lifecycle_capability(*c),
{
    push_all(out, &c.capability_id);
    push_u32s(out, &c.activity_types);
    push_fixeds(out, &c.counterparties);
    push_fixeds(out, &c.assets);
    push_u128(out, c.amount_ceiling);
    push_u64(out, c.rate_maximum_uses);
    push_u64(out, c.rate_window_sequences);
    push_texts(out, &c.purposes);
    push_u64(out, c.capability_expiry_sequence);
    assert(final(out)@ =~= old(out)@ + lifecycle_capability(*c));
}

fn push_lifecycle_session(out: &mut Vec<u8>, c: &HumanAgentLifecycleSeed)
    ensures
        final(out)@ == old(out)@ + lifecycle_session(*c),
{
    push_texts(out, &c.session_scopes);
    push_u64(out, c.session_expiry_unix_seconds);
    push_all(out, &c.protocol_grant_id);
    push_u64(out, c.budget_period_seconds);
    push_u64(out, c.budget_expiry_seconds);
    push_u128(out, c.initial_funding);
    push_u32(out, c.network_id);
    push_fixeds(out, &c.creation_receipt_roots);
    assert(final(out)@ =~= old(out)@ + lifecycle_session(*c));
}

fn push_owner_grant(out: &mut Vec<u8>, r: &OwnerInstall)
    ensures
        final(out)@ == old(out)@ + owner_grant(*r),
{
    push_text(out, r.agent.as_str());
    out.push(r.authority_kind);
    push_all(out, &r.authority_id);
    push_all(out, &r.session_id);
    push_all(out, &r.token_id);
    push_all(out, &r.session_public_key);
    push_hashed(out, r.registration_payload.as_slice());
    push_all(out, &r.grantor);
    push_u64(out, r.grant_not_before);
    push_u64(out, r.grant_expires_at);
    push_u64(out, r.grant_revocation_sequence);
    assert(final(out)@ =~= old(out)@ + owner_grant(*r));
}

fn push_owner_session(out: &mut Vec<u8>, r: &OwnerInstall)
    ensures
        final(out)@ == old(out)@ + owner_session(*r),
{
    push_u16s(out, &r.permitted_activity_types);
    push_texts(out, &r.scopes);
    push_u64(out, r.lease_not_before_unix_ms);
    push_u64(out, r.lease_not_after_unix_ms);
    push_text(out, r.opening_client.as_str());
    push_text(out, r.policy_version.as_str());
    assert(final(out)@ =~= old(out)@ + owner_session(*r));
}

fn push_owner_lifecycle(out: &mut Vec<u8>, r: &OwnerInstall)
    ensures
        final(out)@ == old(out)@ + owner_lifecycle(*r),
{
    match &r.lifecycle {
        None => {
            out.push(0);
        },
        Some(c) => {
            out.push(1);
            let ghost mid = out@;
            push_lifecycle_identity(out, c);
            push_lifecycle_custody(out, c);
            push_lifecycle_capability(out, c);
            push_lifecycle_session(out, c);
            assert(out@ =~= mid + lifecycle_preimage(*c));
        },
    }
    assert(final(out)@ =~= old(out)@ + owner_lifecycle(*r));
}

/// The SHA-256 digest binding an owner installation request.
pub fn owner_digest(request: &OwnerInstall) -> (r: [u8; 32])
    ensures
        r@ == sha256(owner_install_preimage(*request)),
{
    let tag: [u8; 29] = [
        108, 97, 121, 101, 114, 120, 45, 104, 117, 109, 97, 110, 45, 111, 119, 110, 101, 114, 45,
        105, 110, 115, 116, 97, 108, 108, 47, 118, 50,
    ];
    let mut out: Vec<u8> = Vec::new();
    push_all(&mut out, &tag);
    push_owner_grant(&mut out, request);
    push_owner_session(&mut out, request);
    push_owner_lifecycle(&mut out, request);
    assert(tag@ =~= owner_install_tag());
    assert(out@ =~= owner_install_preimage(*request));
    sha256_digest(out.as_slice())
}

} // verus!
