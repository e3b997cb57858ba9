//! Core observations that managed-agent operations rely on, kept in the tenant's store.
use vstd::prelude::*;

use crate::bytes::{bytes_equal, fixed_equal, is_zero32, push_all, read_u128, read_u64, u128_at, u64_at};
use crate::managed_agent::codec::{
    agent_bytes, agent_encodable, agent_fields, agent_fits, encode, seed_fields, field_fixed, lemma_fits_texts, field_text, field_u64, field_u8, lemma_agent_bytes_injective,
    lemma_same_fields,
};
use crate::digest::{sha256, sha256_digest};
use crate::managed_agent::fields::{
    fixed_views, field_views, field_writable, fields_bytes, fields_writable, lemma_fields_parsed, parse_fields,
    read_fields, text_fits, write_fields, FieldKind, FieldValue, FieldView,
};
use crate::managed_agent::records::{
    agent_entry, agent_key, agent_key_view, agent_loadable, lemma_stored_agent, load_agent, stored_agent,
};
use crate::managed_agent::{agent_valid, zero32, HumanOperationError, ManagedAgent};
use crate::store::{KeyView, ObjectKind, StorageClass, Store, TenantId, TenantKey};

verus! {

/// The object identifier prefix of observations: `managed-agent-observation-v1:`.
pub open spec fn observation_prefix() -> Seq<u8> {
    seq![
        109u8, 97u8, 110u8, 97u8, 103u8, 101u8, 100u8, 45u8, 97u8, 103u8, 101u8, 110u8, 116u8,
        45u8, 111u8, 98u8, 115u8, 101u8, 114u8, 118u8, 97u8, 116u8, 105u8, 111u8, 110u8, 45u8,
        118u8, 49u8, 58u8,
    ]
}

/// The store key of an observation: its class and digest under the prefix.
pub open spec fn observation_key_view(tenant: Seq<char>, class: u8, digest: Seq<u8>) -> KeyView {
    KeyView {
        tenant,
        kind: ObjectKind::Configuration,
        object_id: observation_prefix() + seq![class] + digest,
    }
}

/// The store key of an observation.
pub fn observation_key(tenant: &TenantId, class: u8, digest: &[u8; 32]) -> (r: TenantKey)
    ensures
        r@ == observation_key_view(tenant@, class, digest@),
{
    let prefix: [u8; 29] = [
        109, 97, 110, 97, 103, 101, 100, 45, 97, 103, 101, 110, 116, 45, 111, 98, 115, 101, 114,
        118, 97, 116, 105, 111, 110, 45, 118, 49, 58,
    ];
    let mut id: Vec<u8> = Vec::new();
    push_all(&mut id, &prefix);
    id.push(class);
    push_all(&mut id, digest);
    assert(id@ =~= observation_prefix() + seq![class] + digest@);
    TenantKey::new(tenant.clone(), ObjectKind::Configuration, id).unwrap()
}

/// Records an observation under its class and digest. Recording the same bytes again
/// changes nothing.
///
/// # Errors
///
/// `Refused` for an all-zero digest, empty bytes, or a different or non-local observation
/// already recorded; the store is then unchanged.
pub fn record_observation(
    store: &mut Store,
    tenant: &TenantId,
    class: u8,
    digest: [u8; 32],
    bytes: Vec<u8>,
) -> (r: Result<(), HumanOperationError>)
    requires
        old(store).wf(),
    ensures
        final(store).wf(),
        r is Err ==> final(store).view() == old(store).view(),
        r matches Err(e) ==> e == HumanOperationError::Refused,
        ({
            let k = observation_key_view(tenant@, class, digest@);
            if digest@ == zero32() || bytes@.len() == 0 {
                r is Err
            } else if old(store).view().contains_key(k) {
                (r is Ok <==> old(store).view()[k] == (StorageClass::LocalOnly, bytes@))
                    && final(store).view() == old(store).view()
            } else {
                r is Ok && final(store).view() == old(store).view().insert(
                    k,
                    (StorageClass::LocalOnly, bytes@),
                )
            }
        }),
{
    if is_zero32(&digest) || bytes.len() == 0 {
        return Err(HumanOperationError::Refused);
    }
    let key = observation_key(tenant, class, &digest);
    match store.get(&key) {
        Some(existing) => {
            if existing.class() != StorageClass::LocalOnly || !bytes_equal(
                existing.bytes(),
                bytes.as_slice(),
            ) {
                return Err(HumanOperationError::Refused);
            }
            return Ok(());
        },
        None => {},
    }
    match store.put_local(key, bytes) {
        Ok(()) => Ok(()),
        Err(_) => Err(HumanOperationError::Unavailable),
    }
}

/// Whether a budget observation accepts: 209 bytes naming the budget and the digest, at a
/// finalised verification level, with non-zero commitments, observed no earlier than
/// `minimum_sequence`, fresh within its bound, and with nothing remaining when that is
/// required.
pub open spec fn budget_observation_ok(
    b: Seq<u8>,
    digest: Seq<u8>,
    budget: Seq<u8>,
    minimum_sequence: u64,
    require_zero: bool,
) -> bool {
    &&& b.len() == 209
    &&& b.subrange(0, 32) == budget
    &&& b.subrange(49, 81) == digest
    &&& 4 <= b[48] <= 5
    &&& b.subrange(81, 113) != zero32()
    &&& b.subrange(113, 145) != zero32()
    &&& b.subrange(177, 209) != zero32()
    &&& u64_at(b, 40) >= minimum_sequence
    &&& u64_at(b, 153) != 0
    &&& u64_at(b, 145) <= u64_at(b, 153)
    &&& !(require_zero && u128_at(b, 161) != 0)
}

fn range_is_zero(b: &[u8], at: usize) -> (r: bool)
    requires
        at + 32 <= b@.len(),
    ensures
        r == (b@.subrange(at as int, at + 32) == zero32()),
{
    let x = crate::bytes::read_fixed(b, at);
    is_zero32(&x)
}

fn range_equals(b: &[u8], at: usize, value: &[u8; 32]) -> (r: bool)
    requires
        at + 32 <= b@.len(),
    ensures
        r == (b@.subrange(at as int, at + 32) == value@),
{
    let x = crate::bytes::read_fixed(b, at);
    fixed_equal(&x, value)
}

/// Checks the budget observation recorded under `digest`.
///
/// # Errors
///
/// `Refused` for an all-zero digest or an observation that does not accept;
/// `Unavailable` when none is recorded.
pub fn budget_observation(
    store: &Store,
    tenant: &TenantId,
    digest: [u8; 32],
    budget: [u8; 32],
    minimum_sequence: u64,
    require_zero: bool,
) -> (r: Result<(), HumanOperationError>)
    requires
        store.wf(),
    ensures
        ({
            let k = observation_key_view(tenant@, 1, digest@);
            if digest@ == zero32() {
                r == Err::<(), HumanOperationError>(HumanOperationError::Refused)
            } else if !store.view().contains_key(k) {
                r == Err::<(), HumanOperationError>(HumanOperationError::Unavailable)
            } else {
                &&& r is Ok <==> budget_observation_ok(
                    store.view()[k].1,
                    digest@,
                    budget@,
                    minimum_sequence,
                    require_zero,
                )
                &&& r matches Err(e) ==> e == HumanOperationError::Refused
            }
        }),
{
    if is_zero32(&digest) {
        return Err(HumanOperationError::Refused);
    }
    let key = observation_key(tenant, 1, &digest);
    let bytes = match store.get(&key) {
        Some(v) => v.bytes(),
        None => {
            return Err(HumanOperationError::Unavailable);
        },
    };
    if bytes.len() != 209 || !range_equals(bytes, 0, &budget) || !range_equals(bytes, 49, &digest)
        || bytes[48] < 4 || bytes[48] > 5 || range_is_zero(bytes, 81) || range_is_zero(bytes, 113)
        || range_is_zero(bytes, 177) {
        return Err(HumanOperationError::Refused);
    }
    let observed = read_u64(bytes, 40);
    let age = read_u64(bytes, 145);
    let maximum = read_u64(bytes, 153);
    let remaining = read_u128(bytes, 161);
    if observed < minimum_sequence || maximum == 0 || age > maximum || (require_zero && remaining
        != 0) {
        return Err(HumanOperationError::Refused);
    }
    Ok(())
}

/// The fields of a key-policy observation: the DID, whether it is a recovery, the policy
/// revision, required and maximum delays, effective and observed sequences, the
/// verification level, the observed digest, the checkpoint, and the age and its bound.
pub open spec fn key_policy_kinds() -> Seq<FieldKind> {
    seq![
        FieldKind::Text,
        FieldKind::U8,
        FieldKind::U64,
        FieldKind::U64,
        FieldKind::U64,
        FieldKind::U64,
        FieldKind::U64,
        FieldKind::U8,
        FieldKind::Fixed,
        FieldKind::Fixed,
        FieldKind::U64,
        FieldKind::U64,
    ]
}

fn key_policy_layout() -> (r: Vec<FieldKind>)
    ensures
        r@ == key_policy_kinds(),
{
    let mut k: Vec<FieldKind> = Vec::new();
    k.push(FieldKind::Text);
    k.push(FieldKind::U8);
    k.push(FieldKind::U64);
    k.push(FieldKind::U64);
    k.push(FieldKind::U64);
    k.push(FieldKind::U64);
    k.push(FieldKind::U64);
    k.push(FieldKind::U8);
    k.push(FieldKind::Fixed);
    k.push(FieldKind::Fixed);
    k.push(FieldKind::U64);
    k.push(FieldKind::U64);
    assert(k@ =~= key_policy_kinds());
    k
}

/// The value of a `u64` field.
pub open spec fn u64_field(f: FieldView) -> u64 {
    match f {
        FieldView::U64(x) => x,
        _ => 0,
    }
}

/// Whether a key-policy observation's fields accept: they name the DID and the kind of
/// journey, the policy has a revision, the delay is the required one and within the
/// maximum, the journey is ready exactly the delay after finalization, the policy is in
/// effect at the observation, the verification is finalised, the digest is the one asked
/// for, there is a checkpoint, and the observation is fresh within its bound.
pub open spec fn key_policy_fields_ok(
    fs: Seq<FieldView>,
    digest: Seq<u8>,
    did: Seq<char>,
    recovery: bool,
    delay: u64,
    ready_at: u64,
    finalized_at: u64,
) -> bool {
    &&& fs[0] == FieldView::Text(did)
    &&& fs[1] == FieldView::U8(
        if recovery {
            1u8
        } else {
            0u8
        },
    )
    &&& fs[2] matches FieldView::U64(revision) && revision != 0
    &&& fs[3] == FieldView::U64(delay)
    &&& fs[4] matches FieldView::U64(maximum) && delay <= maximum
    &&& finalized_at + delay <= u64::MAX && ready_at == finalized_at + delay
    &&& fs[5] is U64 && fs[6] is U64
    &&& u64_field(fs[5]) != 0 && u64_field(fs[6]) >= u64_field(fs[5])
    &&& fs[7] matches FieldView::U8(verification) && verification >= 4
    &&& fs[8] == FieldView::Fixed(digest)
    &&& fs[9] matches FieldView::Fixed(checkpoint) && checkpoint != zero32()
    &&& fs[10] is U64 && fs[11] is U64
    &&& u64_field(fs[11]) != 0 && u64_field(fs[10]) <= u64_field(fs[11])
}

/// Whether a key-policy observation accepts: its bytes are exactly its fields, and they
/// accept.
pub open spec fn key_policy_ok(
    b: Seq<u8>,
    digest: Seq<u8>,
    did: Seq<char>,
    recovery: bool,
    delay: u64,
    ready_at: u64,
    finalized_at: u64,
) -> bool {
    parse_fields(key_policy_kinds(), b, 0) matches Some((fs, end)) && end == b.len()
        && key_policy_fields_ok(fs, digest, did, recovery, delay, ready_at, finalized_at)
}

/// Checks the key-policy observation recorded under `digest`.
///
/// # Errors
///
/// `Unavailable` when none is recorded; `Refused` when it does not accept.
pub fn key_policy_observation(
    store: &Store,
    tenant: &TenantId,
    digest: [u8; 32],
    did: &str,
    recovery: bool,
    delay: u64,
    ready_at: u64,
    finalized_at: u64,
) -> (r: Result<(), HumanOperationError>)
    requires
        store.wf(),
    ensures
        ({
            let k = observation_key_view(tenant@, 2, digest@);
            if !store.view().contains_key(k) {
                r == Err::<(), HumanOperationError>(HumanOperationError::Unavailable)
            } else {
                &&& r is Ok <==> key_policy_ok(
                    store.view()[k].1,
                    digest@,
                    did@,
                    recovery,
                    delay,
                    ready_at,
                    finalized_at,
                )
                &&& r matches Err(e) ==> e == HumanOperationError::Refused
            }
        }),
{
    let key = observation_key(tenant, 2, &digest);
    let bytes = match store.get(&key) {
        Some(v) => v.bytes(),
        None => {
            return Err(HumanOperationError::Unavailable);
        },
    };
    let kinds = key_policy_layout();
    let (fs, end) = match read_fields(bytes, 0, &kinds) {
        Some(x) => x,
        None => {
            return Err(HumanOperationError::Refused);
        },
    };
    proof {
        lemma_fields_parsed(key_policy_kinds(), bytes@, 0);
    }
    assert(field_views(fs@).len() == fs@.len());
    assert forall|i: int| 0 <= i < 12 implies #[trigger] field_views(fs@)[i] == fs@[i]@ by {}
    if end != bytes.len() {
        return Err(HumanOperationError::Refused);
    }
    let text = match field_text(&fs, 0) {
        Some(t) => t,
        None => {
            return Err(HumanOperationError::Refused);
        },
    };
    let kind = field_u8(&fs, 1);
    let revision = field_u64(&fs, 2);
    let required = field_u64(&fs, 3);
    let maximum = field_u64(&fs, 4);
    let effective = field_u64(&fs, 5);
    let observed = field_u64(&fs, 6);
    let verification = field_u8(&fs, 7);
    let observed_digest = field_fixed(&fs, 8);
    let checkpoint = field_fixed(&fs, 9);
    let age = field_u64(&fs, 10);
    let maximum_age = field_u64(&fs, 11);
    match (
        kind,
        revision,
        required,
        maximum,
        effective,
        observed,
        verification,
        observed_digest,
        checkpoint,
        age,
        maximum_age,
    ) {
        (
            Some(kind),
            Some(revision),
            Some(required),
            Some(maximum),
            Some(effective),
            Some(observed),
            Some(verification),
            Some(observed_digest),
            Some(checkpoint),
            Some(age),
            Some(maximum_age),
        ) => {
            let recovery_code: u8 = if recovery {
                1
            } else {
                0
            };
            if !crate::text::same_text(text.as_str(), did) || kind != recovery_code || revision
                == 0 || delay != required || delay > maximum {
                return Err(HumanOperationError::Refused);
            }
            let due = match finalized_at.checked_add(delay) {
                Some(x) => x,
                None => {
                    return Err(HumanOperationError::Refused);
                },
            };
            if ready_at != due || effective == 0 || observed < effective || verification < 4
                || !fixed_equal(&observed_digest, &digest) || is_zero32(&checkpoint)
                || maximum_age == 0 || age > maximum_age {
                return Err(HumanOperationError::Refused);
            }
            Ok(())
        },
        _ => Err(HumanOperationError::Refused),
    }
}

/// The fields of a session observation: the agent, its DID, the session and token, whether
/// the session is open, the action, and the observation's own digest.
pub open spec fn session_observation_kinds() -> Seq<FieldKind> {
    seq![
        FieldKind::Text,
        FieldKind::Text,
        FieldKind::Fixed,
        FieldKind::Fixed,
        FieldKind::U8,
        FieldKind::Fixed,
        FieldKind::Fixed,
    ]
}

fn session_observation_layout() -> (r: Vec<FieldKind>)
    ensures
        r@ == session_observation_kinds(),
{
    let mut k: Vec<FieldKind> = Vec::new();
    k.push(FieldKind::Text);
    k.push(FieldKind::Text);
    k.push(FieldKind::Fixed);
    k.push(FieldKind::Fixed);
    k.push(FieldKind::U8);
    k.push(FieldKind::Fixed);
    k.push(FieldKind::Fixed);
    assert(k@ =~= session_observation_kinds());
    k
}

/// The code of a flag.
pub open spec fn flag(b: bool) -> u8 {
    if b {
        1
    } else {
        0
    }
}

/// Whether a session observation's fields name the agent, the digest and the session state,
/// for a non-zero action.
pub open spec fn session_fields_ok(fs: Seq<FieldView>, agent_id: Seq<char>, digest: Seq<u8>, open: bool) -> bool {
    &&& fs[0] == FieldView::Text(agent_id)
    &&& fs[6] == FieldView::Fixed(digest)
    &&& fs[4] == FieldView::U8(flag(open))
    &&& fs[5] is Fixed && fs[5] != FieldView::Fixed(zero32())
}

/// Whether an agent is the one a session observation's fields name: the same DID, session
/// and token.
pub open spec fn session_fields_match(fs: Seq<FieldView>, a: ManagedAgent) -> bool {
    &&& fs[1] == FieldView::Text(a.agent_did@)
    &&& fs[2] == FieldView::Fixed(a.session_id@)
    &&& fs[3] == FieldView::Fixed(a.session_token_id@)
}

/// Whether a session observation's bytes are exactly fields that name the agent, the digest
/// and the session state.
pub open spec fn session_observation_ok(b: Seq<u8>, agent_id: Seq<char>, digest: Seq<u8>, open: bool) -> bool {
    parse_fields(session_observation_kinds(), b, 0) matches Some((fs, end)) && end == b.len()
        && session_fields_ok(fs, agent_id, digest, open)
}

/// The fields of a session observation, when its bytes read.
pub open spec fn session_observation_fields(b: Seq<u8>) -> Seq<FieldView> {
    parse_fields(session_observation_kinds(), b, 0)->Some_0.0
}

/// Checks that the session observation recorded under `digest` names the agent, the session
/// state and the agent's current DID, session and token.
///
/// # Errors
///
/// `Unavailable` when none is recorded; `Refused` when it does not hold, or the agent's
/// record does not load.
pub fn require_session_observation(
    store: &Store,
    tenant: &TenantId,
    agent_id: &str,
    digest: [u8; 32],
    resume: bool,
) -> (r: Result<(), HumanOperationError>)
    requires
        store.wf(),
    ensures
        ({
            let k = observation_key_view(tenant@, 3, digest@);
            if !store.view().contains_key(k) {
                r == Err::<(), HumanOperationError>(HumanOperationError::Unavailable)
            } else {
                let b = store.view()[k].1;
                &&& r is Ok <==> session_observation_ok(b, agent_id@, digest@, resume)
                    && agent_loadable(store.view(), tenant@, agent_id@) && forall|a: ManagedAgent|
                    agent_valid(a) && agent_fits(a) && #[trigger] agent_bytes(a) == agent_entry(
                        store.view(),
                        tenant@,
                        agent_id@,
                    )->Some_0.1 ==> session_fields_match(session_observation_fields(b), a)
                &&& r matches Err(e) ==> e == HumanOperationError::Refused
            }
        }),
{
    let key = observation_key(tenant, 3, &digest);
    let bytes = match store.get(&key) {
        Some(v) => v.bytes(),
        None => {
            return Err(HumanOperationError::Unavailable);
        },
    };
    let kinds = session_observation_layout();
    let (fs, end) = match read_fields(bytes, 0, &kinds) {
        Some(x) => x,
        None => {
            return Err(HumanOperationError::Refused);
        },
    };
    proof {
        lemma_fields_parsed(session_observation_kinds(), bytes@, 0);
    }
    assert(field_views(fs@).len() == fs@.len());
    assert forall|i: int| 0 <= i < 7 implies #[trigger] field_views(fs@)[i] == fs@[i]@ by {}
    if end != bytes.len() {
        return Err(HumanOperationError::Refused);
    }
    let named = field_text(&fs, 0);
    let did = field_text(&fs, 1);
    let session = field_fixed(&fs, 2);
    let token = field_fixed(&fs, 3);
    let open = field_u8(&fs, 4);
    let action = field_fixed(&fs, 5);
    let observed = field_fixed(&fs, 6);
    let (named, did, session, token, open, action, observed) = match (
        named,
        did,
        session,
        token,
        open,
        action,
        observed,
    ) {
        (Some(a), Some(b), Some(c), Some(d), Some(e), Some(f), Some(g)) => (a, b, c, d, e, f, g),
        _ => {
            return Err(HumanOperationError::Refused);
        },
    };
    let code: u8 = if resume {
        1
    } else {
        0
    };
    if !crate::text::same_text(named.as_str(), agent_id) || !fixed_equal(&observed, &digest)
        || open != code || is_zero32(&action) {
        return Err(HumanOperationError::Refused);
    }
    let agent = load_agent(store, tenant, agent_id)?;
    let ghost entry = agent_entry(store.view(), tenant@, agent_id@)->Some_0.1;
    if !crate::text::same_text(agent.agent_did.as_str(), did.as_str()) || !fixed_equal(
        &agent.session_id,
        &session,
    ) || !fixed_equal(&agent.session_token_id, &token) {
        return Err(HumanOperationError::Refused);
    }
    proof {
        assert forall|a: ManagedAgent|
            agent_valid(a) && agent_fits(a) && #[trigger] agent_bytes(a) == entry implies session_fields_match(
            session_observation_fields(bytes@),
            a,
        ) by {
            lemma_agent_bytes_injective(a, agent);
            lemma_same_fields(a, agent);
        }
    }
    Ok(())
}

/// The domain tag of session-observation digests: `layerx-agentd/session-observation/v1` and
/// a zero byte.
pub open spec fn observation_tag() -> Seq<u8> {
    seq![
        108u8, 97u8, 121u8, 101u8, 114u8, 120u8, 45u8, 97u8, 103u8, 101u8, 110u8, 116u8, 100u8,
        47u8, 115u8, 101u8, 115u8, 115u8, 105u8, 111u8, 110u8, 45u8, 111u8, 98u8, 115u8, 101u8,
        114u8, 118u8, 97u8, 116u8, 105u8, 111u8, 110u8, 47u8, 118u8, 49u8, 0u8,
    ]
}

/// What a session observation states before its digest: the agent, its DID, session and
/// token, the session state and the action.
pub open spec fn observation_body(a: ManagedAgent, action: Seq<u8>, open: bool) -> Seq<u8> {
    fields_bytes(
        session_observation_kinds().take(6),
        seq![
            FieldView::Text(a.agent_id@),
            FieldView::Text(a.agent_did@),
            FieldView::Fixed(a.session_id@),
            FieldView::Fixed(a.session_token_id@),
            FieldView::U8(flag(open)),
            FieldView::Fixed(action),
        ],
    )
}

/// The digest of a session observation.
pub open spec fn observation_digest(a: ManagedAgent, action: Seq<u8>, open: bool) -> Seq<u8> {
    sha256(observation_tag() + observation_body(a, action, open))
}

/// A session observation: its statement, then its digest.
pub open spec fn observation_bytes(a: ManagedAgent, action: Seq<u8>, open: bool) -> Seq<u8> {
    observation_body(a, action, open) + observation_digest(a, action, open)
}

/// Builds the session observation of an agent's action: its bytes and digest.
///
/// # Errors
///
/// `Refused` for an all-zero action, or an agent identifier or DID that a text field
/// cannot hold.
pub fn session_observation(agent: &ManagedAgent, action: [u8; 32], open: bool) -> (r: Result<
    (Vec<u8>, [u8; 32]),
    HumanOperationError,
>)
    ensures
        r is Ok <==> action@ != zero32() && text_fits(agent.agent_id@) && text_fits(
            agent.agent_did@,
        ),
        r matches Ok((b, d)) ==> b@ == observation_bytes(*agent, action@, open) && d@
            == observation_digest(*agent, action@, open),
        r matches Err(e) ==> e == HumanOperationError::Refused,
{
    if is_zero32(&action) {
        return Err(HumanOperationError::Refused);
    }
    let mut kinds: Vec<FieldKind> = Vec::new();
    kinds.push(FieldKind::Text);
    kinds.push(FieldKind::Text);
    kinds.push(FieldKind::Fixed);
    kinds.push(FieldKind::Fixed);
    kinds.push(FieldKind::U8);
    kinds.push(FieldKind::Fixed);
    assert(kinds@ =~= session_observation_kinds().take(6));
    let mut values: Vec<FieldValue> = Vec::new();
    values.push(FieldValue::Text(agent.agent_id.clone()));
    values.push(FieldValue::Text(agent.agent_did.clone()));
    values.push(FieldValue::Fixed(agent.session_id));
    values.push(FieldValue::Fixed(agent.session_token_id));
    values.push(FieldValue::U8(if open {
        1u8
    } else {
        0u8
    }));
    values.push(FieldValue::Fixed(action));
    let ghost fs = seq![
        FieldView::Text(agent.agent_id@),
        FieldView::Text(agent.agent_did@),
        FieldView::Fixed(agent.session_id@),
        FieldView::Fixed(agent.session_token_id@),
        FieldView::U8(flag(open)),
        FieldView::Fixed(action@),
    ];
    assert(field_views(values@) =~= fs);
    let mut body: Vec<u8> = Vec::new();
    if !write_fields(&mut body, &kinds, &values) {
        proof {
            if text_fits(agent.agent_id@) && text_fits(agent.agent_did@) {
                assert(fields_writable(kinds@, fs)) by {
                    assert forall|i: int| 0 <= i < fs.len() implies field_writable(
                        kinds@[i],
                        #[trigger] fs[i],
                    ) by {}
                }
            }
        }
        return Err(HumanOperationError::Refused);
    }
    proof {
        assert(field_writable(kinds@[0], fs[0]));
        assert(field_writable(kinds@[1], fs[1]));
    }
    let tag: [u8; 37] = [
        108, 97, 121, 101, 114, 120, 45, 97, 103, 101, 110, 116, 100, 47, 115, 101, 115, 115, 105,
        111, 110, 45, 111, 98, 115, 101, 114, 118, 97, 116, 105, 111, 110, 47, 118, 49, 0,
    ];
    let mut tagged: Vec<u8> = Vec::new();
    push_all(&mut tagged, &tag);
    push_all(&mut tagged, body.as_slice());
    assert(tagged@ =~= observation_tag() + observation_body(*agent, action@, open));
    let digest = sha256_digest(tagged.as_slice());
    push_all(&mut body, &digest);
    Ok((body, digest))
}

/// Agents with the same fields make the same session observations.
proof fn lemma_same_observation(a: ManagedAgent, b: ManagedAgent, action: Seq<u8>, open: bool)
    requires
        agent_fields(a) == agent_fields(b),
    ensures
        observation_body(a, action, open) == observation_body(b, action, open),
        observation_digest(a, action, open) == observation_digest(b, action, open),
        observation_bytes(a, action, open) == observation_bytes(b, action, open),
{
    lemma_same_fields(a, b);
    assert(seq![
        FieldView::Text(a.agent_id@),
        FieldView::Text(a.agent_did@),
        FieldView::Fixed(a.session_id@),
        FieldView::Fixed(a.session_token_id@),
        FieldView::U8(flag(open)),
        FieldView::Fixed(action),
    ] =~= seq![
        FieldView::Text(b.agent_id@),
        FieldView::Text(b.agent_did@),
        FieldView::Fixed(b.session_id@),
        FieldView::Fixed(b.session_token_id@),
        FieldView::U8(flag(open)),
        FieldView::Fixed(action),
    ]);
}

/// Records the session observation of an agent's action, or finds it already recorded.
/// Its bytes are returned.
///
/// # Errors
///
/// `Refused` when the agent's record does not load, the action is all zeros, a different
/// or non-local observation is recorded under its digest, or none is and `create` is
/// false; the store is then unchanged.
pub fn record_session_observation(
    store: &mut Store,
    tenant: &TenantId,
    agent_id: &str,
    action: [u8; 32],
    open: bool,
    create: bool,
) -> (r: Result<Vec<u8>, HumanOperationError>)
    requires
        old(store).wf(),
    ensures
        final(store).wf(),
        r is Err ==> final(store).view() == old(store).view(),
        r matches Err(e) ==> e == HumanOperationError::Refused,
        if !agent_loadable(old(store).view(), tenant@, agent_id@) || action@ == zero32() {
            r is Err
        } else {
            let a = stored_agent(old(store).view(), tenant@, agent_id@);
            let k = observation_key_view(tenant@, 3, observation_digest(a, action@, open));
            let b = observation_bytes(a, action@, open);
            if old(store).view().contains_key(k) {
                &&& r is Ok <==> old(store).view()[k] == (StorageClass::LocalOnly, b)
                &&& r matches Ok(x) ==> x@ == b
                &&& final(store).view() == old(store).view()
            } else if !create {
                r is Err
            } else {
                r matches Ok(x) && x@ == b && final(store).view() == old(store).view().insert(
                    k,
                    (StorageClass::LocalOnly, b),
                )
            }
        },
{
    let agent = load_agent(store, tenant, agent_id)?;
    proof {
        let entry = agent_entry(store.view(), tenant@, agent_id@)->Some_0.1;
        lemma_stored_agent(store.view(), tenant@, agent_id@, agent);
        lemma_same_observation(stored_agent(store.view(), tenant@, agent_id@), agent, action@, open);
        lemma_fits_texts(agent);
    }
    let (bytes, digest) = session_observation(&agent, action, open)?;
    let key = observation_key(tenant, 3, &digest);
    match store.get(&key) {
        Some(existing) => {
            if existing.class() != StorageClass::LocalOnly || !bytes_equal(
                existing.bytes(),
                bytes.as_slice(),
            ) {
                return Err(HumanOperationError::Refused);
            }
            return Ok(bytes);
        },
        None => {},
    }
    if !create {
        return Err(HumanOperationError::Refused);
    }
    let mut copy: Vec<u8> = Vec::new();
    push_all(&mut copy, bytes.as_slice());
    match store.put_local(key, copy) {
        Ok(()) => Ok(bytes),
        Err(_) => Err(HumanOperationError::Unavailable),
    }
}

/// Prepares the session observation of an agent's action for recording together with
/// another write: its bytes, the key to record them under, and the bytes again.
///
/// # Errors
///
/// `Refused` when the agent's record does not load, the action is all zeros, or an
/// observation is already recorded under its digest.
pub fn prepare_session_observation(
    store: &Store,
    tenant: &TenantId,
    agent_id: &str,
    action: [u8; 32],
    open: bool,
) -> (r: Result<(Vec<u8>, TenantKey, Vec<u8>), HumanOperationError>)
    requires
        store.wf(),
    ensures
        r matches Err(e) ==> e == HumanOperationError::Refused,
        if !agent_loadable(store.view(), tenant@, agent_id@) || action@ == zero32() {
            r is Err
        } else {
            let a = stored_agent(store.view(), tenant@, agent_id@);
            let k = observation_key_view(tenant@, 3, observation_digest(a, action@, open));
            let b = observation_bytes(a, action@, open);
            if store.view().contains_key(k) {
                r is Err
            } else {
                r matches Ok((response, key, bytes)) && response@ == b && key@ == k && bytes@ == b
            }
        },
{
    let agent = load_agent(store, tenant, agent_id)?;
    proof {
        lemma_stored_agent(store.view(), tenant@, agent_id@, agent);
        lemma_same_observation(stored_agent(store.view(), tenant@, agent_id@), agent, action@, open);
        lemma_fits_texts(agent);
    }
    let (response, digest) = session_observation(&agent, action, open)?;
    let key = observation_key(tenant, 3, &digest);
    if store.get(&key).is_some() {
        return Err(HumanOperationError::Refused);
    }
    let mut bytes: Vec<u8> = Vec::new();
    push_all(&mut bytes, response.as_slice());
    Ok((response, key, bytes))
}


/// Agent `b` is agent `a` bound to a session: the session, its token and the protocol grant
/// (in the agent and its lifecycle terms) replaced, every other field the same.
pub open spec fn bound_as(a: ManagedAgent, b: ManagedAgent, session: Seq<u8>, token: Seq<u8>, grant: Seq<u8>) -> bool {
    &&& b.agent_id@ == a.agent_id@
    &&& b.name@ == a.name@
    &&& b.purpose@ == a.purpose@
    &&& b.state == a.state
    &&& b.monthly_limit == a.monthly_limit
    &&& b.currency@ == a.currency@
    &&& b.period_start == a.period_start
    &&& b.period_end == a.period_end
    &&& b.spent == a.spent
    &&& b.created_at == a.created_at
    &&& b.updated_at == a.updated_at
    &&& fixed_views(b.verified_evidence@) == fixed_views(a.verified_evidence@)
    &&& seed_fields(b.context) == seed_fields(a.context).update(31, FieldView::Fixed(grant))
    &&& b.agent_did@ == a.agent_did@
    &&& b.session_id@ == session
    &&& b.session_token_id@ == token
    &&& b.protocol_grant_id@ == grant
    &&& b.active_budget_id@ == a.active_budget_id@
}

/// Binds an agent to a session: records the agent with the session, token and grant, with
/// the observation that its session is open, and answers with that observation. A repeated
/// binding is answered from the recorded observation while the agent is still bound to the
/// same session and token.
///
/// # Errors
///
/// `Refused` for a zero session or token, a record that does not load, an action or texts
/// the observation cannot hold, a different or non-local observation, an agent since bound
/// elsewhere, or a record that cannot be encoded; the store is then unchanged.
pub fn bind_session(
    store: &mut Store,
    tenant: &TenantId,
    agent_id: &str,
    session: [u8; 32],
    token: [u8; 32],
    grant: [u8; 32],
    action: [u8; 32],
) -> (r: Result<Vec<u8>, HumanOperationError>)
    requires
        old(store).wf(),
    ensures
        final(store).wf(),
        r is Err ==> final(store).view() == old(store).view() && r == Err::<Vec<u8>, HumanOperationError>(HumanOperationError::Refused),
        session@ == zero32() || token@ == zero32() || !agent_loadable(old(store).view(), tenant@, agent_id@) ==> r is Err,
        !(session@ == zero32() || token@ == zero32() || !agent_loadable(old(store).view(), tenant@, agent_id@)) ==> {
            let v = old(store).view();
            let a = stored_agent(v, tenant@, agent_id@);
            exists|b: ManagedAgent|
                #![trigger agent_bytes(b)]
                bound_as(a, b, session@, token@, grant@) && {
                    let resp = observation_bytes(b, action@, true);
                    let k = observation_key_view(tenant@, 3, observation_digest(b, action@, true));
                    if action@ == zero32() || !text_fits(b.agent_id@) || !text_fits(b.agent_did@) {
                        r is Err
                    } else if v.contains_key(k) {
                        &&& final(store).view() == v
                        &&& r is Ok <==> v[k].0 == StorageClass::LocalOnly && v[k].1 == resp && a.session_id@ == session@
                            && a.session_token_id@ == token@
                        &&& r matches Ok(x) ==> x@ == resp
                    } else {
                        &&& r is Ok <==> agent_encodable(b)
                        &&& r matches Ok(x) ==> x@ == resp && final(store).view() == v.insert(
                            agent_key_view(tenant@, agent_id@),
                            (StorageClass::LocalOnly, agent_bytes(b)),
                        ).insert(k, (StorageClass::LocalOnly, resp))
                    }
                }
        },
{
    let ghost v = store.view();
    if is_zero32(&session) || is_zero32(&token) {
        return Err(HumanOperationError::Refused);
    }
    let mut agent = match load_agent(store, tenant, agent_id) {
        Ok(a) => a,
        Err(e) => {
            return Err(e);
        },
    };
    let ghost a = stored_agent(v, tenant@, agent_id@);
    let ghost loaded = agent;
    proof {
        lemma_stored_agent(v, tenant@, agent_id@, agent);
        lemma_same_fields(agent, a);
    }
    agent.session_id = session;
    agent.session_token_id = token;
    agent.protocol_grant_id = grant;
    agent.context.protocol_grant_id = grant;
    proof {
        reveal(seed_fields);
        assert(seed_fields(agent.context) =~= seed_fields(loaded.context).update(31, FieldView::Fixed(grant@)));
        assert(bound_as(a, agent, session@, token@, grant@));
        assert(agent_bytes(agent) == agent_bytes(agent));
    }
    let (response, digest) = match session_observation(&agent, action, true) {
        Ok(x) => x,
        Err(e) => {
            return Err(e);
        },
    };
    let record = observation_key(tenant, 3, &digest);
    match store.get(&record) {
        Some(existing) => {
            if existing.class() != StorageClass::LocalOnly || !bytes_equal(existing.bytes(), response.as_slice()) {
                return Err(HumanOperationError::Refused);
            }
            let current = match load_agent(store, tenant, agent_id) {
                Ok(c) => c,
                Err(e) => {
                    return Err(e);
                },
            };
            proof {
                lemma_stored_agent(v, tenant@, agent_id@, current);
                lemma_same_fields(current, a);
            }
            if !fixed_equal(&current.session_id, &session) || !fixed_equal(&current.session_token_id, &token) {
                return Err(HumanOperationError::Refused);
            }
            Ok(response)
        },
        None => {
            let key = match agent_key(tenant, agent_id) {
                Ok(k) => k,
                Err(e) => {
                    return Err(e);
                },
            };
            let encoded = match encode(&agent) {
                Ok(b) => b,
                Err(e) => {
                    return Err(e);
                },
            };
            let _ = store.put_local(key, encoded);
            let _ = store.put_local(record, response.clone());
            Ok(response)
        },
    }
}

} // verus!
