//! Installing a capability for an agent from the Human plane: the request's digest, the
//! action record that makes a repeated request answer as the first one, and the checks of
//! the identity and scope the authority reports before the capability is recorded.
use vstd::prelude::*;

use crate::bytes::{is_zero32, push_all, push_u128, push_u32, push_u64, text_bytes, u128_be, u32_be, u64_be};
use crate::digest::{sha256, sha256_digest};
use crate::identity::{same_authority, ProtocolAuthority};
use crate::managed_agent::{zero32, HumanOperationError};
use crate::owner::{fixeds_run, hashed_bytes, push_text, saturated_u32, text_views, texts_run, u32s_run};
use crate::store::{KeyView, ObjectKind, StorageClass, Store, TenantId, TenantKey};

verus! {

/// A capability an owner asks to install for an agent.
#[derive(Debug)]
pub struct CapabilityInstall {
    pub action_key: [u8; 32],
    pub agent: String,
    pub authority_id: [u8; 32],
    pub capability_id: [u8; 32],
    pub activity_types: Vec<u32>,
    pub counterparties: Vec<[u8; 32]>,
    pub assets: Vec<[u8; 32]>,
    pub amount_ceiling: u128,
    pub rate_maximum_uses: u64,
    pub rate_window_sequences: u64,
    pub purposes: Vec<String>,
    pub expiry_sequence: u64,
}

/// The domain tag of capability action digests:
/// `layerx-agentd/human-capability-action/v1` and a zero byte.
pub open spec fn capability_action_tag() -> Seq<u8> {
    seq![108u8, 97u8, 121u8, 101u8, 114u8, 120u8, 45u8, 97u8, 103u8, 101u8, 110u8, 116u8, 100u8, 47u8, 104u8, 117u8, 109u8, 97u8, 110u8, 45u8, 99u8, 97u8, 112u8, 97u8, 98u8, 105u8, 108u8, 105u8, 116u8, 121u8, 45u8, 97u8, 99u8, 116u8, 105u8, 111u8, 110u8, 47u8, 118u8, 49u8, 0u8]
}

/// A count as a big-endian `u32` (saturating).
pub open spec fn count32(n: nat) -> Seq<u8> {
    u32_be(saturated_u32(n))
}

/// The bytes a capability request digest covers: the tag, the action key, the agent after
/// its length, the authority and capability, each list after its count, the ceilings and
/// the expiry.
pub open spec fn capability_request_preimage(r: CapabilityInstall) -> Seq<u8> {
    capability_action_tag() + r.action_key@ + hashed_bytes(text_bytes(r.agent@)) + r.authority_id@
        + r.capability_id@ + count32(r.activity_types@.len()) + u32s_run(r.activity_types@)
        + count32(r.counterparties@.len()) + fixeds_run(r.counterparties@)
        + count32(r.assets@.len()) + fixeds_run(r.assets@) + u128_be(r.amount_ceiling)
        + u64_be(r.rate_maximum_uses) + u64_be(r.rate_window_sequences)
        + count32(r.purposes@.len()) + texts_run(text_views(r.purposes@))
        + u64_be(r.expiry_sequence)
}

fn push_count32(out: &mut Vec<u8>, n: usize)
    ensures
        final(out)@ == old(out)@ + count32(n as nat),
{
    let c: u32 = if n > 4294967295usize { 4294967295u32 } else { n as u32 };
    push_u32(out, c);
}

fn push_capability_lists(out: &mut Vec<u8>, r: &CapabilityInstall)
    ensures
        final(out)@ == old(out)@ + count32(r.activity_types@.len()) + u32s_run(r.activity_types@)
            + count32(r.counterparties@.len()) + fixeds_run(r.counterparties@)
            + count32(r.assets@.len()) + fixeds_run(r.assets@),
{
    push_count32(out, r.activity_types.len());
    let ghost a = out@;
    let mut i: usize = 0;
    while i < r.activity_types.len()
        invariant
            i <= r.activity_types@.len(),
            out@ == a + u32s_run(r.activity_types@.take(i as int)),
        decreases r.activity_types@.len() - i,
    {
        push_u32(out, r.activity_types[i]);
        assert(r.activity_types@.take(i + 1).drop_last() =~= r.activity_types@.take(i as int));
        assert(out@ =~= a + u32s_run(r.activity_types@.take(i + 1)));
        i = i + 1;
    }
    assert(r.activity_types@.take(i as int) =~= r.activity_types@);
    push_count32(out, r.counterparties.len());
    let ghost b = out@;
    let mut i: usize = 0;
    while i < r.counterparties.len()
        invariant
            i <= r.counterparties@.len(),
            out@ == b + fixeds_run(r.counterparties@.take(i as int)),
        decreases r.counterparties@.len() - i,
    {
        push_all(out, &r.counterparties[i]);
        assert(r.counterparties@.take(i + 1).drop_last() =~= r.counterparties@.take(i as int));
        assert(out@ =~= b + fixeds_run(r.counterparties@.take(i + 1)));
        i = i + 1;
    }
    assert(r.counterparties@.take(i as int) =~= r.counterparties@);
    push_count32(out, r.assets.len());
    let ghost c = out@;
    let mut i: usize = 0;
    while i < r.assets.len()
        invariant
            i <= r.assets@.len(),
            out@ == c + fixeds_run(r.assets@.take(i as int)),
        decreases r.assets@.len() - i,
    {
        push_all(out, &r.assets[i]);
        assert(r.assets@.take(i + 1).drop_last() =~= r.assets@.take(i as int));
        assert(out@ =~= c + fixeds_run(r.assets@.take(i + 1)));
        i = i + 1;
    }
    assert(r.assets@.take(i as int) =~= r.assets@);
    assert(final(out)@ =~= old(out)@ + count32(r.activity_types@.len()) + u32s_run(r.activity_types@)
        + count32(r.counterparties@.len()) + fixeds_run(r.counterparties@)
        + count32(r.assets@.len()) + fixeds_run(r.assets@));
}

fn push_purposes(out: &mut Vec<u8>, v: &Vec<String>)
    ensures
        final(out)@ == old(out)@ + count32(v@.len()) + texts_run(text_views(v@)),
{
    push_count32(out, v.len());
    let ghost start = out@;
    let ghost views = text_views(v@);
    let mut i: usize = 0;
    while i < v.len()
        invariant
            i <= v@.len(),
            views == text_views(v@),
            views.len() == v@.len(),
            out@ == start + texts_run(views.take(i as int)),
        decreases v@.len() - i,
    {
        push_text(out, v[i].as_str());
        assert(views.take(i + 1).drop_last() =~= views.take(i as int));
        assert(views[i as int] == v@[i as int]@);
        assert(out@ =~= start + texts_run(views.take(i + 1)));
        i = i + 1;
    }
    assert(views.take(i as int) =~= views);
    assert(out@ =~= old(out)@ + count32(v@.len()) + texts_run(text_views(v@)));
}

/// The SHA-256 digest a capability action record is bound to.
pub fn capability_request_digest(request: &CapabilityInstall) -> (r: [u8; 32])
    ensures
        r@ == sha256(capability_request_preimage(*request)),
{
    let tag: [u8; 41] = [108, 97, 121, 101, 114, 120, 45, 97, 103, 101, 110, 116, 100, 47, 104, 117, 109, 97, 110, 45, 99, 97, 112, 97, 98, 105, 108, 105, 116, 121, 45, 97, 99, 116, 105, 111, 110, 47, 118, 49, 0];
    let mut out: Vec<u8> = Vec::new();
    push_all(&mut out, &tag);
    push_all(&mut out, &request.action_key);
    push_text(&mut out, request.agent.as_str());
    push_all(&mut out, &request.authority_id);
    push_all(&mut out, &request.capability_id);
    let ghost head = out@;
    push_capability_lists(&mut out, request);
    push_u128(&mut out, request.amount_ceiling);
    push_u64(&mut out, request.rate_maximum_uses);
    push_u64(&mut out, request.rate_window_sequences);
    push_purposes(&mut out, &request.purposes);
    push_u64(&mut out, request.expiry_sequence);
    assert(tag@ =~= capability_action_tag());
    assert(out@ =~= capability_request_preimage(*request));
    sha256_digest(out.as_slice())
}

/// The domain tag of agent evidence digests: `layerx-human/agent-create/agent-evidence/v1`.
pub open spec fn agent_evidence_tag() -> Seq<u8> {
    seq![108u8, 97u8, 121u8, 101u8, 114u8, 120u8, 45u8, 104u8, 117u8, 109u8, 97u8, 110u8, 47u8, 97u8, 103u8, 101u8, 110u8, 116u8, 45u8, 99u8, 114u8, 101u8, 97u8, 116u8, 101u8, 47u8, 97u8, 103u8, 101u8, 110u8, 116u8, 45u8, 101u8, 118u8, 105u8, 100u8, 101u8, 110u8, 99u8, 101u8, 47u8, 118u8, 49u8]
}

/// The bytes an agent evidence digest covers: the tag, the stage (5), the action key, the
/// object, the observed sequence and the verification level, each after its length.
pub open spec fn agent_evidence_preimage(action_key: Seq<u8>, object_id: Seq<u8>, observed_sequence: u64, verification: u8) -> Seq<u8> {
    u32_be(43) + agent_evidence_tag() + u32_be(1) + seq![5u8] + u32_be(32) + action_key
        + u32_be(32) + object_id + u32_be(8) + u64_be(observed_sequence) + u32_be(1)
        + seq![verification]
}

/// The digest of the evidence that an action on an object was observed at a sequence and
/// verification level.
pub fn agent_evidence_digest(action_key: [u8; 32], object_id: [u8; 32], observed_sequence: u64, verification: u8) -> (r: [u8; 32])
    ensures
        r@ == sha256(agent_evidence_preimage(action_key@, object_id@, observed_sequence, verification)),
{
    let tag: [u8; 43] = [108, 97, 121, 101, 114, 120, 45, 104, 117, 109, 97, 110, 47, 97, 103, 101, 110, 116, 45, 99, 114, 101, 97, 116, 101, 47, 97, 103, 101, 110, 116, 45, 101, 118, 105, 100, 101, 110, 99, 101, 47, 118, 49];
    let mut out: Vec<u8> = Vec::new();
    push_u32(&mut out, 43);
    push_all(&mut out, &tag);
    push_u32(&mut out, 1);
    out.push(5);
    push_u32(&mut out, 32);
    push_all(&mut out, &action_key);
    push_u32(&mut out, 32);
    push_all(&mut out, &object_id);
    push_u32(&mut out, 8);
    push_u64(&mut out, observed_sequence);
    push_u32(&mut out, 1);
    out.push(verification);
    assert(tag@ =~= agent_evidence_tag());
    assert(out@ =~= agent_evidence_preimage(action_key@, object_id@, observed_sequence, verification));
    sha256_digest(out.as_slice())
}

/// The object identifier of a capability action record: `human-capability-action-v1:` and
/// the action key.
pub open spec fn capability_action_id(action_key: Seq<u8>) -> Seq<u8> {
    seq![104u8, 117u8, 109u8, 97u8, 110u8, 45u8, 99u8, 97u8, 112u8, 97u8, 98u8, 105u8, 108u8, 105u8, 116u8, 121u8, 45u8, 97u8, 99u8, 116u8, 105u8, 111u8, 110u8, 45u8, 118u8, 49u8, 58u8] + action_key
}

/// The key of a capability action record.
pub open spec fn capability_action_key(tenant: Seq<char>, action_key: Seq<u8>) -> KeyView {
    KeyView { tenant, kind: ObjectKind::Idempotency, object_id: capability_action_id(action_key) }
}

fn action_key_for(tenant: &TenantId, action_key: [u8; 32]) -> (r: Result<TenantKey, HumanOperationError>)
    ensures
        r matches Ok(k) && k@ == capability_action_key(tenant@, action_key@),
{
    let prefix: [u8; 27] = [104, 117, 109, 97, 110, 45, 99, 97, 112, 97, 98, 105, 108, 105, 116, 121, 45, 97, 99, 116, 105, 111, 110, 45, 118, 49, 58];
    let mut id: Vec<u8> = Vec::new();
    push_all(&mut id, &prefix);
    push_all(&mut id, &action_key);
    assert(id@ =~= capability_action_id(action_key@));
    match TenantKey::new(tenant.clone(), ObjectKind::Idempotency, id) {
        Ok(k) => Ok(k),
        Err(_) => Err(HumanOperationError::Refused),
    }
}

/// Whether a capability request is refused before anything is read: a zero action key,
/// capability or authority, an empty list of activity types, counterparties, assets or
/// purposes, or a zero amount ceiling, rate, window or expiry.
pub open spec fn capability_request_refused(r: CapabilityInstall) -> bool {
    ||| r.action_key@ == zero32()
    ||| r.capability_id@ == zero32()
    ||| r.authority_id@ == zero32()
    ||| r.activity_types@.len() == 0
    ||| r.counterparties@.len() == 0
    ||| r.assets@.len() == 0
    ||| r.purposes@.len() == 0
    ||| r.amount_ceiling == 0
    ||| r.rate_maximum_uses == 0
    ||| r.rate_window_sequences == 0
    ||| r.expiry_sequence == 0
}

/// The action record of a request still in progress.
pub open spec fn pending_record(digest: Seq<u8>) -> Seq<u8> {
    seq![1u8] + digest + seq![0u8]
}

/// The action record of a completed request: its digest, then the response served.
pub open spec fn completed_record(digest: Seq<u8>, response: Seq<u8>) -> Seq<u8> {
    seq![1u8] + digest + seq![1u8] + response
}

/// What a saved action record answers a request with digest `expected`: the saved
/// response of a completed record for the same request, `Unavailable` while it is still in
/// progress, `Refused` for any other record.
pub open spec fn replay_answer(saved: Seq<u8>, expected: Seq<u8>) -> Result<Seq<u8>, HumanOperationError> {
    if saved.len() < 34 || saved[0] != 1 || saved.subrange(1, 33) != expected {
        Err(HumanOperationError::Refused)
    } else if saved[33] == 0 {
        Err(HumanOperationError::Unavailable)
    } else if saved[33] == 1 {
        Ok(saved.subrange(34, saved.len() as int))
    } else {
        Err(HumanOperationError::Refused)
    }
}

/// Law: a repeated capability request is answered from its action record: with the
/// response it was completed with, or `Unavailable` while it is still in progress; a
/// different request under the same action key is refused.
pub proof fn lemma_capability_replay(digest: Seq<u8>, other: Seq<u8>, response: Seq<u8>)
    requires
        digest.len() == 32,
        other != digest,
    ensures
        replay_answer(completed_record(digest, response), digest) == Ok::<Seq<u8>, HumanOperationError>(response),
        replay_answer(pending_record(digest), digest) == Err::<Seq<u8>, HumanOperationError>(HumanOperationError::Unavailable),
        replay_answer(completed_record(digest, response), other) == Err::<Seq<u8>, HumanOperationError>(HumanOperationError::Refused),
{
    let c = completed_record(digest, response);
    assert(c.subrange(1, 33) =~= digest);
    assert(c.subrange(34, c.len() as int) =~= response);
    assert(pending_record(digest).subrange(1, 33) =~= digest);
}

/// Answers a request from its saved action record.
pub fn decode_capability_action(bytes: &[u8], expected: [u8; 32]) -> (r: Result<Vec<u8>, HumanOperationError>)
    ensures
        match replay_answer(bytes@, expected@) {
            Ok(b) => r matches Ok(v) && v@ == b,
            Err(e) => r == Err::<Vec<u8>, HumanOperationError>(e),
        },
{
    if bytes.len() < 34 || bytes[0] != 1 {
        return Err(HumanOperationError::Refused);
    }
    let mut i: usize = 0;
    while i < 32
        invariant
            i <= 32,
            bytes@.len() >= 34,
            forall|j: int| 0 <= j < i ==> bytes@[j + 1] == expected@[j],
        decreases 32 - i,
    {
        if bytes[i + 1] != expected[i] {
            assert(bytes@.subrange(1, 33)[i as int] != expected@[i as int]);
            return Err(HumanOperationError::Refused);
        }
        i = i + 1;
    }
    assert(bytes@.subrange(1, 33) =~= expected@);
    if bytes[33] == 0 {
        return Err(HumanOperationError::Unavailable);
    }
    if bytes[33] != 1 {
        return Err(HumanOperationError::Refused);
    }
    let mut out: Vec<u8> = Vec::new();
    let mut k: usize = 34;
    while k < bytes.len()
        invariant
            34 <= k <= bytes@.len(),
            out@ == bytes@.subrange(34, k as int),
        decreases bytes@.len() - k,
    {
        out.push(bytes[k]);
        assert(out@ =~= bytes@.subrange(34, k + 1));
        k = k + 1;
    }
    Ok(out)
}

/// Where a capability installation stands after its first step.
#[derive(Debug)]
pub enum CapabilityStep {
    /// A repeated request, answered with the response served the first time.
    Replayed(Vec<u8>),
    /// The pending action record is written; the authority is to be asked next.
    Pending,
}

/// Starts installing a capability: refuses an incomplete request, answers a repeated one
/// from its action record, or writes the pending action record.
///
/// # Errors
///
/// `Refused` for a request [`capability_request_refused`] refuses or an action record
/// that is not daemon-local; otherwise what the saved record answers.
pub fn capability_install_begin(store: &mut Store, tenant: &TenantId, request: &CapabilityInstall) -> (r: Result<CapabilityStep, HumanOperationError>)
    requires
        old(store).wf(),
    ensures
        final(store).wf(),
        ({
            let v = old(store).view();
            let k = capability_action_key(tenant@, request.action_key@);
            let d = sha256(capability_request_preimage(*request));
            if capability_request_refused(*request) {
                r == Err::<CapabilityStep, HumanOperationError>(HumanOperationError::Refused) && final(store).view() == v
            } else if v.contains_key(k) {
                &&& final(store).view() == v
                &&& v[k].0 != StorageClass::LocalOnly ==> r == Err::<CapabilityStep, HumanOperationError>(HumanOperationError::Refused)
                &&& v[k].0 == StorageClass::LocalOnly ==> match replay_answer(v[k].1, d) {
                    Ok(b) => r matches Ok(CapabilityStep::Replayed(x)) && x@ == b,
                    Err(e) => r == Err::<CapabilityStep, HumanOperationError>(e),
                }
            } else {
                r matches Ok(CapabilityStep::Pending) && final(store).view() == v.insert(k, (StorageClass::LocalOnly, pending_record(d)))
            }
        }),
{
    if is_zero32(&request.action_key) || is_zero32(&request.capability_id) || is_zero32(&request.authority_id)
        || request.activity_types.len() == 0 || request.counterparties.len() == 0 || request.assets.len() == 0
        || request.purposes.len() == 0 || request.amount_ceiling == 0 || request.rate_maximum_uses == 0
        || request.rate_window_sequences == 0 || request.expiry_sequence == 0 {
        return Err(HumanOperationError::Refused);
    }
    let key = match action_key_for(tenant, request.action_key) {
        Ok(k) => k,
        Err(e) => {
            return Err(e);
        },
    };
    let digest = capability_request_digest(request);
    match store.get(&key) {
        Some(existing) => {
            if existing.class() != StorageClass::LocalOnly {
                return Err(HumanOperationError::Refused);
            }
            match decode_capability_action(existing.bytes(), digest) {
                Ok(b) => Ok(CapabilityStep::Replayed(b)),
                Err(e) => Err(e),
            }
        },
        None => {
            let mut pending: Vec<u8> = Vec::new();
            pending.push(1);
            push_all(&mut pending, &digest);
            pending.push(0);
            assert(pending@ =~= pending_record(digest@));
            let _ = store.put_local(key, pending);
            Ok(CapabilityStep::Pending)
        },
    }
}


/// What the authority reports of the agent's identity.
#[derive(Debug)]
pub struct IdentityObservation {
    pub frozen: bool,
    /// Whether core reports the identity unverified.
    pub unverified: bool,
    pub authorities: Vec<ProtocolAuthority>,
}

/// What the authority reports of the capability's scope, and whether the capability the
/// request describes is well formed and narrows that scope.
#[derive(Debug)]
pub struct ScopeObservation {
    pub observed_sequence: u64,
    pub verification: u8,
    pub evidence_digest: [u8; 32],
    pub narrows: bool,
}

/// What the store already holds under the capability's identifier.
#[derive(Debug)]
pub enum StoredCapability {
    /// The same capability.
    Same,
    /// A different capability.
    Different,
    /// Nothing; `encoded` is the capability's record.
    Absent { encoded: Vec<u8> },
}

/// Whether the identity refuses the installation: frozen, unverified, or without the
/// request's authority as a primary key.
pub open spec fn identity_refused(i: IdentityObservation, authority_id: [u8; 32]) -> bool {
    i.frozen || i.unverified || !exists|k: int|
        0 <= k < i.authorities@.len() && same_authority(#[trigger] i.authorities@[k], ProtocolAuthority::PrimaryKey(authority_id))
}

/// Whether the observed scope refuses the installation: no observed sequence, a
/// verification level other than 4 or 5, no evidence, or an expiry not after the observation.
pub open spec fn scope_refused(r: CapabilityInstall, o: ScopeObservation) -> bool {
    o.observed_sequence == 0 || o.verification < 4 || o.verification > 5 || o.evidence_digest@ == zero32()
        || r.expiry_sequence <= o.observed_sequence
}

/// Whether finishing the installation is refused.
pub open spec fn install_refused(r: CapabilityInstall, i: IdentityObservation, o: ScopeObservation, stored: StoredCapability) -> bool {
    ||| identity_refused(i, r.authority_id)
    ||| scope_refused(r, o)
    ||| !o.narrows
    ||| o.evidence_digest@ != sha256(agent_evidence_preimage(r.action_key@, r.capability_id@, o.observed_sequence, o.verification))
    ||| stored is Different
}

/// The response to an installed capability: the capability, the observed sequence, the
/// verification level and the evidence digest.
pub open spec fn capability_response(r: CapabilityInstall, o: ScopeObservation) -> Seq<u8> {
    r.capability_id@ + u64_be(o.observed_sequence) + seq![o.verification] + o.evidence_digest@
}

/// The key of a capability record.
pub open spec fn capability_key(tenant: Seq<char>, capability_id: Seq<u8>) -> KeyView {
    KeyView { tenant, kind: ObjectKind::Capability, object_id: capability_id }
}

fn holds_primary(authorities: &Vec<ProtocolAuthority>, authority_id: [u8; 32]) -> (r: bool)
    ensures
        r == exists|k: int| 0 <= k < authorities@.len() && same_authority(#[trigger] authorities@[k], ProtocolAuthority::PrimaryKey(authority_id)),
{
    let wanted = ProtocolAuthority::PrimaryKey(authority_id);
    let mut k: usize = 0;
    while k < authorities.len()
        invariant
            k <= authorities@.len(),
            wanted == ProtocolAuthority::PrimaryKey(authority_id),
            forall|j: int| 0 <= j < k ==> !same_authority(#[trigger] authorities@[j], wanted),
        decreases authorities@.len() - k,
    {
        if authorities[k].same(&wanted) {
            assert(same_authority(authorities@[k as int], wanted));
            return true;
        }
        k = k + 1;
    }
    false
}

/// Finishes installing a capability once the authority has reported the agent's identity
/// and the capability's scope: refuses what [`install_refused`] refuses, and otherwise
/// records the completed action record, with the capability's record when the store held
/// none, and returns the response.
///
/// # Errors
///
/// `Refused` when [`install_refused`] holds.
pub fn capability_install_finish(
    store: &mut Store,
    tenant: &TenantId,
    request: &CapabilityInstall,
    identity: IdentityObservation,
    observed: ScopeObservation,
    stored: StoredCapability,
) -> (r: Result<Vec<u8>, HumanOperationError>)
    requires
        old(store).wf(),
    ensures
        final(store).wf(),
        ({
            let v = old(store).view();
            let k = capability_action_key(tenant@, request.action_key@);
            let d = sha256(capability_request_preimage(*request));
            let response = capability_response(*request, observed);
            if install_refused(*request, identity, observed, stored) {
                r == Err::<Vec<u8>, HumanOperationError>(HumanOperationError::Refused) && final(store).view() == v
            } else {
                &&& r matches Ok(b) && b@ == response
                &&& final(store).view() == match stored {
                    StoredCapability::Absent { encoded } => v.insert(k, (StorageClass::LocalOnly, completed_record(d, response))).insert(
                        capability_key(tenant@, request.capability_id@),
                        (StorageClass::LocalOnly, encoded@),
                    ),
                    _ => v.insert(k, (StorageClass::LocalOnly, completed_record(d, response))),
                }
            }
        }),
{
    if identity.frozen || identity.unverified || !holds_primary(&identity.authorities, request.authority_id) {
        return Err(HumanOperationError::Refused);
    }
    if observed.observed_sequence == 0 || observed.verification < 4 || observed.verification > 5
        || is_zero32(&observed.evidence_digest) || request.expiry_sequence <= observed.observed_sequence {
        return Err(HumanOperationError::Refused);
    }
    if !observed.narrows {
        return Err(HumanOperationError::Refused);
    }
    let expected = agent_evidence_digest(request.action_key, request.capability_id, observed.observed_sequence, observed.verification);
    if !crate::bytes::fixed_equal(&observed.evidence_digest, &expected) {
        return Err(HumanOperationError::Refused);
    }
    let key = match action_key_for(tenant, request.action_key) {
        Ok(k) => k,
        Err(e) => {
            return Err(e);
        },
    };
    let digest = capability_request_digest(request);
    let mut response: Vec<u8> = Vec::new();
    push_all(&mut response, &request.capability_id);
    push_u64(&mut response, observed.observed_sequence);
    response.push(observed.verification);
    push_all(&mut response, &observed.evidence_digest);
    assert(response@ =~= capability_response(*request, observed));
    let mut completed: Vec<u8> = Vec::new();
    completed.push(1);
    push_all(&mut completed, &digest);
    completed.push(1);
    push_all(&mut completed, response.as_slice());
    assert(completed@ =~= completed_record(digest@, response@));
    match stored {
        StoredCapability::Different => Err(HumanOperationError::Refused),
        StoredCapability::Same => {
            let _ = store.put_local(key, completed);
            Ok(response)
        },
        StoredCapability::Absent { encoded } => {
            let mut id: Vec<u8> = Vec::new();
            push_all(&mut id, &request.capability_id);
            let capability = match TenantKey::new(tenant.clone(), ObjectKind::Capability, id) {
                Ok(k) => k,
                Err(_) => {
                    return Err(HumanOperationError::Refused);
                },
            };
            let _ = store.put_local(key, completed);
            let _ = store.put_local(capability, encoded);
            Ok(response)
        },
    }
}

} // verus!
