//! The action record that makes an owner installation idempotent: pending, validated with
//! the identity and lease the authority confirmed and the session token allocated, then
//! completed with the response served.
use vstd::prelude::*;

use crate::bytes::{
    is_zero32, lemma_u16_roundtrip, lemma_u32_at_be, lemma_u64_at_be, push_all, push_u16, push_u32, push_u64, read_fixed, read_u32,
    read_u64, u16_be, u16_of, u32_at, u32_be, u64_at, u64_be,
};
use crate::human::journey::MAX_RESPONSE;
use crate::identity::{authority_id, authority_kind, same_authority, ProtocolAuthority};
use crate::digest::sha256;
use crate::managed_agent::{zero32, HumanOperationError};
use crate::owner::{owner_digest, owner_install_preimage, OwnerInstall};
use crate::store::{KeyView, ObjectKind, StorageClass, Store, TenantId, TenantKey};

verus! {

/// What the authority confirmed when an owner installation was validated: the agent's core
/// identity (head and revocation sequences, verification rank, whether it is frozen, its
/// authorities and canonical bytes), the lease's expiry sequence and the observed head.
#[derive(Debug)]
pub struct OwnerValidation {
    pub head_sequence: u64,
    pub revocation_sequence: u64,
    pub verification: u8,
    pub frozen: bool,
    pub authorities: Vec<ProtocolAuthority>,
    pub canonical_bytes: Vec<u8>,
    pub expiry: u64,
    pub observed: u64,
}

/// Where an owner installation stands.
#[derive(Debug)]
pub enum OwnerAction {
    Pending,
    Validated(OwnerValidation, Option<[u8; 32]>),
    Completed(Vec<u8>),
}

/// Each authority as its kind's code and its identifier, one after another.
pub open spec fn authorities_bytes(s: Seq<ProtocolAuthority>) -> Seq<u8>
    decreases s.len(),
{
    if s.len() == 0 {
        Seq::empty()
    } else {
        authorities_bytes(s.drop_last()) + seq![authority_kind(s.last())] + authority_id(s.last())
    }
}

/// A validation as recorded: the head and revocation sequences, the verification rank,
/// whether the identity is frozen, the number of authorities and the authorities, the
/// canonical bytes after their length, the expiry and the observed head; every number
/// big-endian.
pub open spec fn validation_bytes(v: OwnerValidation) -> Seq<u8> {
    u64_be(v.head_sequence) + u64_be(v.revocation_sequence) + seq![v.verification] + seq![
        if v.frozen {
            1u8
        } else {
            0u8
        },
    ] + u16_be(v.authorities@.len() as u16) + authorities_bytes(v.authorities@) + u32_be(
        v.canonical_bytes@.len() as u32,
    ) + v.canonical_bytes@ + u64_be(v.expiry) + u64_be(v.observed)
}

/// The record of a pending installation of request digest `body`.
pub open spec fn owner_pending_record(body: Seq<u8>) -> Seq<u8> {
    seq![1u8, 0u8] + body
}

/// The record of a validated installation with its allocated session token; `None` for an
/// all-zero token, more authorities than a `u16` counts, or canonical bytes that are empty
/// or longer than `MAX_RESPONSE`.
pub open spec fn owner_validated_record(body: Seq<u8>, v: OwnerValidation, token: Seq<u8>) -> Option<Seq<u8>> {
    if token == zero32() || v.authorities@.len() > u16::MAX || v.canonical_bytes@.len() == 0
        || v.canonical_bytes@.len() > MAX_RESPONSE {
        None
    } else {
        Some(seq![1u8, 1u8] + body + validation_bytes(v) + token)
    }
}

/// The record of a completed installation with the response served.
pub open spec fn owner_completed_record(body: Seq<u8>, response: Seq<u8>) -> Seq<u8> {
    seq![1u8, 2u8] + body + response
}

/// Whether a record is the pending record of request digest `body`.
pub open spec fn owner_pending(b: Seq<u8>, body: Seq<u8>) -> bool {
    b == owner_pending_record(body)
}

/// The number of authorities a validated record gives.
pub open spec fn record_count(b: Seq<u8>) -> int {
    u16_of(b[52], b[53]) as int
}

/// The kind code of the `k`-th authority of a validated record.
pub open spec fn authority_tag(b: Seq<u8>, k: int) -> u8 {
    b[54 + 33 * k]
}

/// Where a validated record's authorities end.
pub open spec fn record_authorities_end(b: Seq<u8>) -> int {
    54 + 33 * record_count(b)
}

/// Where a validated record's canonical bytes end.
pub open spec fn record_canonical_end(b: Seq<u8>) -> int {
    record_authorities_end(b) + 4 + u32_at(b, record_authorities_end(b)) as int
}

/// Whether `b` is a well-formed validated record of request digest `body`: a rank from 1
/// to 5, a frozen flag of 0 or 1, 1 to 256 authorities of kinds 1 to 3, and after the
/// expiry and observed head either nothing or a non-zero 32-byte token.
pub open spec fn owner_validated_ok(b: Seq<u8>, body: Seq<u8>) -> bool {
    &&& b.len() >= 54
    &&& b[0] == 1 && b[1] == 1
    &&& b.subrange(2, 34) == body
    &&& 1 <= b[50] <= 5
    &&& b[51] <= 1
    &&& 1 <= record_count(b) <= 256
    &&& b.len() >= record_authorities_end(b) + 4
    &&& forall|k: int| 0 <= k < record_count(b) ==> 1 <= #[trigger] authority_tag(b, k) <= 3
    &&& b.len() >= record_canonical_end(b) + 16
    &&& (b.len() == record_canonical_end(b) + 16 || (b.len() == record_canonical_end(b) + 48 && b.subrange(
        record_canonical_end(b) + 16,
        b.len() as int,
    ) != zero32()))
}

/// Whether `v` and `t` are what the validated record `b` holds.
pub open spec fn owner_validated_as(b: Seq<u8>, v: OwnerValidation, t: Option<[u8; 32]>) -> bool {
    let e = record_canonical_end(b);
    &&& v.head_sequence == u64_at(b, 34)
    &&& v.revocation_sequence == u64_at(b, 42)
    &&& v.verification == b[50]
    &&& v.frozen == (b[51] == 1)
    &&& v.authorities@.len() == record_count(b)
    &&& forall|k: int|
        0 <= k < record_count(b) ==> authority_kind(#[trigger] v.authorities@[k]) == authority_tag(b, k) && authority_id(
            v.authorities@[k],
        ) == b.subrange(54 + 33 * k + 1, 54 + 33 * k + 33)
    &&& v.canonical_bytes@ == b.subrange(record_authorities_end(b) + 4, e)
    &&& v.expiry == u64_at(b, e)
    &&& v.observed == u64_at(b, e + 8)
    &&& (b.len() == e + 16 ==> t is None)
    &&& (b.len() != e + 16 ==> (t matches Some(x) && x@ == b.subrange(e + 16, b.len() as int)))
}

/// Whether a record is the completed record of request digest `body`.
pub open spec fn owner_completed(b: Seq<u8>, body: Seq<u8>) -> bool {
    b.len() >= 34 && b[0] == 1 && b[1] == 2 && b.subrange(2, 34) == body
}

/// Whether `b` is the pending record of request digest `body`.
pub fn pending_owner_action(b: &[u8], body: [u8; 32]) -> (r: bool)
    ensures
        r == owner_pending(b@, body@),
{
    if b.len() != 34 || b[0] != 1 || b[1] != 0 {
        proof {
            if b@ == owner_pending_record(body@) {
                assert(b@[0] == 1 && b@[1] == 0);
            }
        }
        return false;
    }
    let mut i: usize = 0;
    while i < 32
        invariant
            i <= 32,
            b@.len() == 34,
            forall|j: int| 0 <= j < i ==> b@[j + 2] == body@[j],
        decreases 32 - i,
    {
        if b[i + 2] != body[i] {
            proof {
                if b@ == owner_pending_record(body@) {
                    assert(b@[i + 2] == owner_pending_record(body@)[i + 2]);
                }
            }
            return false;
        }
        i = i + 1;
    }
    assert(b@ =~= owner_pending_record(body@));
    true
}

fn body_matches(b: &[u8], body: &[u8; 32]) -> (r: bool)
    requires
        b@.len() >= 34,
    ensures
        r == (b@.subrange(2, 34) == body@),
{
    let x = read_fixed(b, 2);
    crate::bytes::fixed_equal(&x, body)
}

/// Reads an action record of request digest `body` that is not pending: the completed
/// record's response, or the validated record's validation and token.
///
/// # Errors
///
/// `Refused` for any other record.
pub fn decode_owner_action(b: &[u8], body: [u8; 32]) -> (r: Result<OwnerAction, HumanOperationError>)
    ensures
        owner_completed(b@, body@) ==> (r matches Ok(OwnerAction::Completed(x)) && x@ == b@.subrange(34, b@.len() as int)),
        !owner_completed(b@, body@) && owner_validated_ok(b@, body@) ==> (r matches Ok(OwnerAction::Validated(v, t))
            && owner_validated_as(b@, v, t)),
        !owner_completed(b@, body@) && !owner_validated_ok(b@, body@) ==> r == Err::<OwnerAction, HumanOperationError>(
            HumanOperationError::Refused,
        ),
{
    if b.len() < 34 || b[0] != 1 || !body_matches(b, &body) {
        return Err(HumanOperationError::Refused);
    }
    if b[1] == 2 {
        let mut response: Vec<u8> = Vec::new();
        let mut i: usize = 34;
        while i < b.len()
            invariant
                34 <= i <= b@.len(),
                response@ == b@.subrange(34, i as int),
            decreases b@.len() - i,
        {
            response.push(b[i]);
            assert(response@ =~= b@.subrange(34, i + 1));
            i = i + 1;
        }
        return Ok(OwnerAction::Completed(response));
    }
    if b[1] != 1 || b.len() < 54 {
        return Err(HumanOperationError::Refused);
    }
    let head_sequence = read_u64(b, 34);
    let revocation_sequence = read_u64(b, 42);
    let verification = b[50];
    if verification < 1 || verification > 5 {
        return Err(HumanOperationError::Refused);
    }
    let frozen = if b[51] == 0 {
        false
    } else if b[51] == 1 {
        true
    } else {
        return Err(HumanOperationError::Refused);
    };
    let b52 = b[52];
    let b53 = b[53];
    let count: usize = ((b52 as usize) * 256) + (b53 as usize);
    assert(count == u16_of(b52, b53) as usize) by (bit_vector)
        requires
            count == (b52 as usize) * 256 + (b53 as usize),
    ;
    if count == 0 || count > 256 {
        return Err(HumanOperationError::Refused);
    }
    let mut authorities: Vec<ProtocolAuthority> = Vec::new();
    let mut at: usize = 54;
    let mut k: usize = 0;
    while k < count
        invariant
            b@.len() >= 54,
            b@[1] == 1,
            count == record_count(b@),
            1 <= count <= 256,
            k <= count,
            at == 54 + 33 * k,
            authorities@.len() == k,
            forall|j: int| 0 <= j < k ==> 1 <= #[trigger] authority_tag(b@, j) <= 3,
            forall|j: int|
                0 <= j < k ==> authority_kind(#[trigger] authorities@[j]) == authority_tag(b@, j) && authority_id(
                    authorities@[j],
                ) == b@.subrange(54 + 33 * j + 1, 54 + 33 * j + 33),
        decreases count - k,
    {
        if b.len() < at + 33 {
            proof {
                assert(b@.len() < record_authorities_end(b@) + 4);
            }
            return Err(HumanOperationError::Refused);
        }
        let tag = b[at];
        let id = read_fixed(b, at + 1);
        let a = if tag == 1 {
            ProtocolAuthority::PrimaryKey(id)
        } else if tag == 2 {
            ProtocolAuthority::SessionKey(id)
        } else if tag == 3 {
            ProtocolAuthority::CapabilityGrant(id)
        } else {
            proof {
                assert(!(1 <= authority_tag(b@, k as int) <= 3));
            }
            return Err(HumanOperationError::Refused);
        };
        authorities.push(a);
        k = k + 1;
        at = at + 33;
    }
    if b.len() < at + 4 {
        return Err(HumanOperationError::Refused);
    }
    let length = read_u32(b, at) as usize;
    let start = at + 4;
    if b.len() - start < length {
        return Err(HumanOperationError::Refused);
    }
    let end = start + length;
    let mut canonical_bytes: Vec<u8> = Vec::new();
    let mut i: usize = start;
    while i < end
        invariant
            start <= i <= end,
            end <= b@.len(),
            canonical_bytes@ == b@.subrange(start as int, i as int),
        decreases end - i,
    {
        canonical_bytes.push(b[i]);
        assert(canonical_bytes@ =~= b@.subrange(start as int, i + 1));
        i = i + 1;
    }
    if b.len() - end < 16 {
        return Err(HumanOperationError::Refused);
    }
    let expiry = read_u64(b, end);
    let observed = read_u64(b, end + 8);
    let token = if b.len() == end + 16 {
        None
    } else {
        if b.len() - end != 48 {
            return Err(HumanOperationError::Refused);
        }
        let t = read_fixed(b, end + 16);
        if is_zero32(&t) {
            return Err(HumanOperationError::Refused);
        }
        Some(t)
    };
    Ok(
        OwnerAction::Validated(
            OwnerValidation {
                head_sequence,
                revocation_sequence,
                verification,
                frozen,
                authorities,
                canonical_bytes,
                expiry,
                observed,
            },
            token,
        ),
    )
}

fn push_authorities(out: &mut Vec<u8>, v: &Vec<ProtocolAuthority>)
    ensures
        final(out)@ == old(out)@ + authorities_bytes(v@),
{
    let ghost start = out@;
    let mut i: usize = 0;
    while i < v.len()
        invariant
            i <= v@.len(),
            out@ == start + authorities_bytes(v@.subrange(0, i as int)),
        decreases v@.len() - i,
    {
        let (kind, id) = v[i].parts();
        out.push(kind);
        push_all(out, &id);
        proof {
            let s = v@.subrange(0, i + 1);
            assert(s.drop_last() =~= v@.subrange(0, i as int));
            assert(s.last() == v@[i as int]);
        }
        i = i + 1;
    }
    assert(v@.subrange(0, v@.len() as int) =~= v@);
}

/// The record of a validated installation.
///
/// # Errors
///
/// `Refused` where `owner_validated_record` has no record.
pub fn encode_owner_validated(body: [u8; 32], v: &OwnerValidation, token: [u8; 32]) -> (r: Result<Vec<u8>, HumanOperationError>)
    ensures
        match owner_validated_record(body@, *v, token@) {
            Some(b) => r matches Ok(x) && x@ == b,
            None => r == Err::<Vec<u8>, HumanOperationError>(HumanOperationError::Refused),
        },
{
    if is_zero32(&token) || v.authorities.len() > 65535 || v.canonical_bytes.len() == 0
        || v.canonical_bytes.len() > MAX_RESPONSE {
        return Err(HumanOperationError::Refused);
    }
    let mut out: Vec<u8> = Vec::new();
    out.push(1);
    out.push(1);
    push_all(&mut out, &body);
    push_u64(&mut out, v.head_sequence);
    push_u64(&mut out, v.revocation_sequence);
    out.push(v.verification);
    out.push(if v.frozen { 1u8 } else { 0u8 });
    push_u16(&mut out, v.authorities.len() as u16);
    push_authorities(&mut out, &v.authorities);
    push_u32(&mut out, v.canonical_bytes.len() as u32);
    push_all(&mut out, v.canonical_bytes.as_slice());
    push_u64(&mut out, v.expiry);
    push_u64(&mut out, v.observed);
    push_all(&mut out, &token);
    assert(out@ =~= owner_validated_record(body@, *v, token@).unwrap());
    Ok(out)
}

/// The response to a completed owner installation: the allocated session token, the
/// session, the installed session generation, the lease's expiry sequence and the observed
/// head, each number big-endian.
pub open spec fn owner_install_response(token: Seq<u8>, session_id: Seq<u8>, generation: u64, expiry: u64, observed: u64) -> Seq<u8> {
    token + session_id + u64_be(generation) + u64_be(expiry) + u64_be(observed)
}

/// The object identifier of an owner installation's action record:
/// `human-owner-action-v1:` and the action key.
pub open spec fn owner_action_id(action: Seq<u8>) -> Seq<u8> {
    seq![104u8, 117u8, 109u8, 97u8, 110u8, 45u8, 111u8, 119u8, 110u8, 101u8, 114u8, 45u8, 97u8, 99u8, 116u8, 105u8, 111u8, 110u8, 45u8, 118u8, 49u8, 58u8] + action
}

/// The key of an owner installation's action record.
pub open spec fn owner_action_key(tenant: Seq<char>, action: Seq<u8>) -> KeyView {
    KeyView { tenant, kind: ObjectKind::Idempotency, object_id: owner_action_id(action) }
}

fn owner_action_key_for(tenant: &TenantId, action: [u8; 32]) -> (r: Result<TenantKey, HumanOperationError>)
    ensures
        r matches Ok(k) && k@ == owner_action_key(tenant@, action@),
{
    let prefix: [u8; 22] = [104, 117, 109, 97, 110, 45, 111, 119, 110, 101, 114, 45, 97, 99, 116, 105, 111, 110, 45, 118, 49, 58];
    let mut id: Vec<u8> = Vec::new();
    push_all(&mut id, &prefix);
    push_all(&mut id, &action);
    assert(id@ =~= owner_action_id(action@));
    match TenantKey::new(tenant.clone(), ObjectKind::Idempotency, id) {
        Ok(k) => Ok(k),
        Err(_) => Err(HumanOperationError::Refused),
    }
}

/// What an existing action record of request digest `body` says, as `read_owner_action`
/// reads it.
pub open spec fn owner_record_read(b: Seq<u8>, body: Seq<u8>, r: Result<OwnerAction, HumanOperationError>) -> bool {
    if owner_pending(b, body) {
        r matches Ok(OwnerAction::Pending)
    } else if owner_completed(b, body) {
        r matches Ok(OwnerAction::Completed(x)) && x@ == b.subrange(34, b.len() as int)
    } else if owner_validated_ok(b, body) {
        r matches Ok(OwnerAction::Validated(v, t)) && owner_validated_as(b, v, t)
    } else {
        r == Err::<OwnerAction, HumanOperationError>(HumanOperationError::Refused)
    }
}

fn read_owner_action(b: &[u8], body: [u8; 32]) -> (r: Result<OwnerAction, HumanOperationError>)
    ensures
        owner_record_read(b@, body@, r),
{
    if pending_owner_action(b, body) {
        Ok(OwnerAction::Pending)
    } else {
        decode_owner_action(b, body)
    }
}

/// Starts an owner installation: refuses a request whose digest is not `body_digest`,
/// reads an existing action record, or writes the pending one and answers `None`.
///
/// # Errors
///
/// `Refused` for a digest mismatch or a record `owner_record_read` refuses.
pub fn owner_install_begin(store: &mut Store, tenant: &TenantId, action: [u8; 32], body_digest: [u8; 32], request: &OwnerInstall) -> (r: Result<Option<OwnerAction>, HumanOperationError>)
    requires
        old(store).wf(),
    ensures
        final(store).wf(),
        ({
            let v = old(store).view();
            let k = owner_action_key(tenant@, action@);
            if sha256(owner_install_preimage(*request)) != body_digest@ {
                r == Err::<Option<OwnerAction>, HumanOperationError>(HumanOperationError::Refused) && final(store).view() == v
            } else if v.contains_key(k) {
                &&& final(store).view() == v
                &&& owner_record_read(v[k].1, body_digest@, match r {
                    Ok(Some(a)) => Ok(a),
                    Ok(None) => Err(HumanOperationError::Unavailable),
                    Err(e) => Err(e),
                })
                &&& r != Ok::<Option<OwnerAction>, HumanOperationError>(None)
            } else {
                r matches Ok(None) && final(store).view() == v.insert(k, (StorageClass::LocalOnly, owner_pending_record(body_digest@)))
            }
        }),
{
    let digest = owner_digest(request);
    if !crate::bytes::fixed_equal(&digest, &body_digest) {
        return Err(HumanOperationError::Refused);
    }
    let key = match owner_action_key_for(tenant, action) {
        Ok(k) => k,
        Err(e) => {
            return Err(e);
        },
    };
    match store.get(&key) {
        Some(value) => match read_owner_action(value.bytes(), body_digest) {
            Ok(a) => Ok(Some(a)),
            Err(e) => Err(e),
        },
        None => {
            let mut pending: Vec<u8> = Vec::new();
            pending.push(1);
            pending.push(0);
            push_all(&mut pending, &body_digest);
            assert(pending@ =~= owner_pending_record(body_digest@));
            let _ = store.put_local(key, pending);
            Ok(None)
        },
    }
}

/// The session token an installation is validated with: the token of the session it names
/// when one exists (refused when that token is all zero), else a freshly generated one
/// (unavailable when none could be generated).
pub open spec fn chosen_token(existing: Option<[u8; 32]>, generated: Option<[u8; 32]>) -> Result<[u8; 32], HumanOperationError> {
    match existing {
        Some(t) => if t@ == zero32() {
            Err(HumanOperationError::Refused)
        } else {
            Ok(t)
        },
        None => match generated {
            Some(t) => Ok(t),
            None => Err(HumanOperationError::Unavailable),
        },
    }
}

/// Records the validation of an owner installation with its session token, unless the
/// action record already holds a token or the installation has completed: then it answers
/// what the record holds. `existing_token` is the token of the session the installation
/// names, if the registry holds that session; `generated_token` a fresh non-zero one.
///
/// # Errors
///
/// `Unavailable` when the action record is gone or no token could be generated; `Refused`
/// for a record `owner_record_read` refuses, an all-zero session token, or a validation
/// `owner_validated_record` cannot record. The store is then unchanged.
pub fn owner_install_validate(
    store: &mut Store,
    tenant: &TenantId,
    action: [u8; 32],
    body_digest: [u8; 32],
    existing_token: Option<[u8; 32]>,
    generated_token: Option<[u8; 32]>,
    validated: OwnerValidation,
) -> (r: Result<OwnerAction, HumanOperationError>)
    requires
        old(store).wf(),
    ensures
        final(store).wf(),
        r is Err ==> final(store).view() == old(store).view(),
        ({
            let v = old(store).view();
            let k = owner_action_key(tenant@, action@);
            if !v.contains_key(k) {
                r == Err::<OwnerAction, HumanOperationError>(HumanOperationError::Unavailable)
            } else {
                let b = v[k].1;
                if !owner_pending(b, body_digest@) && !owner_validated_ok(b, body_digest@) && !owner_completed(b, body_digest@) {
                    r == Err::<OwnerAction, HumanOperationError>(HumanOperationError::Refused)
                } else if owner_completed(b, body_digest@) && !owner_pending(b, body_digest@) || (!owner_pending(b, body_digest@)
                    && owner_validated_ok(b, body_digest@) && b.len() == record_canonical_end(b) + 48) {
                    owner_record_read(b, body_digest@, r) && final(store).view() == v
                } else {
                    match chosen_token(existing_token, generated_token) {
                        Err(e) => r == Err::<OwnerAction, HumanOperationError>(e),
                        Ok(t) => match owner_validated_record(body_digest@, validated, t@) {
                            None => r == Err::<OwnerAction, HumanOperationError>(HumanOperationError::Refused),
                            Some(rec) => {
                                &&& r matches Ok(OwnerAction::Validated(w, Some(x))) && w == validated && x == t
                                &&& final(store).view() == v.insert(k, (StorageClass::LocalOnly, rec))
                            },
                        },
                    }
                }
            }
        }),
{
    let key = match owner_action_key_for(tenant, action) {
        Ok(k) => k,
        Err(e) => {
            return Err(e);
        },
    };
    let decoded = match store.get(&key) {
        None => {
            return Err(HumanOperationError::Unavailable);
        },
        Some(current) => read_owner_action(current.bytes(), body_digest),
    };
    match decoded {
        Err(e) => {
            return Err(e);
        },
        Ok(OwnerAction::Completed(x)) => {
            return Ok(OwnerAction::Completed(x));
        },
        Ok(OwnerAction::Validated(w, Some(t))) => {
            return Ok(OwnerAction::Validated(w, Some(t)));
        },
        Ok(_) => {},
    }
    let token = match existing_token {
        Some(t) => {
            if is_zero32(&t) {
                return Err(HumanOperationError::Refused);
            }
            t
        },
        None => match generated_token {
            Some(t) => t,
            None => {
                return Err(HumanOperationError::Unavailable);
            },
        },
    };
    let record = match encode_owner_validated(body_digest, &validated, token) {
        Ok(b) => b,
        Err(e) => {
            return Err(e);
        },
    };
    let _ = store.put_local(key, record);
    Ok(OwnerAction::Validated(validated, Some(token)))
}

/// Completes an owner installation: records the response, after the completed state and
/// the request digest, as the action record, and answers it.
pub fn owner_install_complete(
    store: &mut Store,
    tenant: &TenantId,
    action: [u8; 32],
    body_digest: [u8; 32],
    token: [u8; 32],
    session_id: [u8; 32],
    generation: u64,
    expiry: u64,
    observed: u64,
) -> (r: Vec<u8>)
    requires
        old(store).wf(),
    ensures
        final(store).wf(),
        r@ == owner_install_response(token@, session_id@, generation, expiry, observed),
        final(store).view() == old(store).view().insert(
            owner_action_key(tenant@, action@),
            (StorageClass::LocalOnly, owner_completed_record(body_digest@, r@)),
        ),
{
    let key = owner_action_key_for(tenant, action).unwrap();
    let mut response: Vec<u8> = Vec::new();
    push_all(&mut response, &token);
    push_all(&mut response, &session_id);
    push_u64(&mut response, generation);
    push_u64(&mut response, expiry);
    push_u64(&mut response, observed);
    let mut completed: Vec<u8> = Vec::new();
    completed.push(1);
    completed.push(2);
    push_all(&mut completed, &body_digest);
    push_all(&mut completed, response.as_slice());
    assert(response@ =~= owner_install_response(token@, session_id@, generation, expiry, observed));
    assert(completed@ =~= owner_completed_record(body_digest@, response@));
    let _ = store.put_local(key, completed);
    response
}

proof fn lemma_authorities_bytes(s: Seq<ProtocolAuthority>)
    ensures
        authorities_bytes(s).len() == 33 * s.len(),
        forall|k: int|
            0 <= k < s.len() ==> authorities_bytes(s)[33 * k] == authority_kind(#[trigger] s[k]) && authorities_bytes(
                s,
            ).subrange(33 * k + 1, 33 * k + 33) == authority_id(s[k]),
    decreases s.len(),
{
    if s.len() > 0 {
        let p = s.drop_last();
        lemma_authorities_bytes(p);
        let b = authorities_bytes(s);
        let a = authorities_bytes(p);
        let n = p.len() as int;
        assert(authority_id(s.last()).len() == 32);
        assert(b =~= a + seq![authority_kind(s.last())] + authority_id(s.last()));
        assert forall|k: int| 0 <= k < s.len() implies authorities_bytes(s)[33 * k] == authority_kind(#[trigger] s[k])
            && authorities_bytes(s).subrange(33 * k + 1, 33 * k + 33) == authority_id(s[k]) by {
            if k < n {
                assert(s[k] == p[k]);
                assert(b[33 * k] == a[33 * k]);
                assert(b.subrange(33 * k + 1, 33 * k + 33) =~= a.subrange(33 * k + 1, 33 * k + 33));
            } else {
                assert(b.subrange(33 * k + 1, 33 * k + 33) =~= authority_id(s.last()));
            }
        }
    }
}

/// Whether two validations hold the same identity, authorities, lease expiry and observed
/// head.
pub open spec fn same_validation(a: OwnerValidation, b: OwnerValidation) -> bool {
    &&& a.head_sequence == b.head_sequence
    &&& a.revocation_sequence == b.revocation_sequence
    &&& a.verification == b.verification
    &&& a.frozen == b.frozen
    &&& a.authorities@.len() == b.authorities@.len()
    &&& forall|k: int| 0 <= k < a.authorities@.len() ==> same_authority(#[trigger] a.authorities@[k], b.authorities@[k])
    &&& a.canonical_bytes@ == b.canonical_bytes@
    &&& a.expiry == b.expiry
    &&& a.observed == b.observed
}

proof fn lemma_u64_at_sub(b: Seq<u8>, at: int, v: u64)
    requires
        0 <= at,
        at + 8 <= b.len(),
        b.subrange(at, at + 8) == u64_be(v),
    ensures
        u64_at(b, at) == v,
{
    assert(b =~= b.subrange(0, at) + u64_be(v) + b.subrange(at + 8, b.len() as int));
    lemma_u64_at_be(b.subrange(0, at), v, b.subrange(at + 8, b.len() as int));
}

proof fn lemma_u32_at_sub(b: Seq<u8>, at: int, v: u32)
    requires
        0 <= at,
        at + 4 <= b.len(),
        b.subrange(at, at + 4) == u32_be(v),
    ensures
        u32_at(b, at) == v,
{
    assert(b =~= b.subrange(0, at) + u32_be(v) + b.subrange(at + 4, b.len() as int));
    lemma_u32_at_be(b.subrange(0, at), v, b.subrange(at + 4, b.len() as int));
}

/// Where each part of a validated record stands.
#[verifier::spinoff_prover]
#[verifier::rlimit(40)]
proof fn lemma_validated_layout(body: Seq<u8>, v: OwnerValidation, token: [u8; 32])
    requires
        body.len() == 32,
        owner_validated_record(body, v, token@) is Some,
        v.authorities@.len() <= 256,
    ensures
        ({
            let b = owner_validated_record(body, v, token@).unwrap();
            let n = v.authorities@.len() as int;
            let ae = 54 + 33 * n;
            let e = ae + 4 + v.canonical_bytes@.len();
            &&& b.len() == e + 48
            &&& b[0] == 1 && b[1] == 1
            &&& b.subrange(2, 34) == body
            &&& b.subrange(34, 42) == u64_be(v.head_sequence)
            &&& b.subrange(42, 50) == u64_be(v.revocation_sequence)
            &&& b[50] == v.verification
            &&& b[51] == (if v.frozen { 1u8 } else { 0u8 })
            &&& b[52] == ((n as u16) >> 8u16) as u8 && b[53] == (n as u16) as u8
            &&& b.subrange(54, ae) == authorities_bytes(v.authorities@)
            &&& b.subrange(ae, ae + 4) == u32_be(v.canonical_bytes@.len() as u32)
            &&& b.subrange(ae + 4, e) == v.canonical_bytes@
            &&& b.subrange(e, e + 8) == u64_be(v.expiry)
            &&& b.subrange(e + 8, e + 16) == u64_be(v.observed)
            &&& b.subrange(e + 16, e + 48) == token@
        }),
{
    lemma_authorities_bytes(v.authorities@);
    let b = owner_validated_record(body, v, token@).unwrap();
    let n = v.authorities@.len() as int;
    let ae = 54 + 33 * n;
    let e = ae + 4 + v.canonical_bytes@.len();
    assert(b =~= seq![1u8, 1u8] + body + validation_bytes(v) + token@);
    assert(b.subrange(2, 34) =~= body);
    assert(b.subrange(34, 42) =~= u64_be(v.head_sequence));
    assert(b.subrange(42, 50) =~= u64_be(v.revocation_sequence));
    assert(b.subrange(54, ae) =~= authorities_bytes(v.authorities@));
    assert(b.subrange(ae, ae + 4) =~= u32_be(v.canonical_bytes@.len() as u32));
    assert(b.subrange(ae + 4, e) =~= v.canonical_bytes@);
    assert(b.subrange(e, e + 8) =~= u64_be(v.expiry));
    assert(b.subrange(e + 8, e + 16) =~= u64_be(v.observed));
    assert(b.subrange(e + 16, e + 48) =~= token@);
}

/// Law: reading back the record of a validated owner installation gives back the
/// validation and the session token it was recorded with, for a verification rank from 1
/// to 5 and 1 to 256 authorities (others do not read back).
#[verifier::spinoff_prover]
#[verifier::rlimit(40)]
pub proof fn lemma_owner_validated_round_trip(body: Seq<u8>, v: OwnerValidation, token: [u8; 32])
    requires
        body.len() == 32,
        owner_validated_record(body, v, token@) is Some,
        1 <= v.verification <= 5,
        1 <= v.authorities@.len() <= 256,
    ensures
        ({
            let b = owner_validated_record(body, v, token@).unwrap();
            forall|r: Result<OwnerAction, HumanOperationError>|
                #[trigger] owner_record_read(b, body, r) ==> (r matches Ok(OwnerAction::Validated(w, Some(t))) && t@ == token@
                    && same_validation(w, v))
        }),
{
    let b = owner_validated_record(body, v, token@).unwrap();
    lemma_validated_layout(body, v, token);
    lemma_authorities_bytes(v.authorities@);
    let n = v.authorities@.len() as int;
    let ae = 54 + 33 * n;
    let e = ae + 4 + v.canonical_bytes@.len();
    lemma_u16_roundtrip(n as u16, b[52], b[53]);
    assert(record_count(b) == n);
    lemma_u32_at_sub(b, ae, v.canonical_bytes@.len() as u32);
    assert(record_canonical_end(b) == e);
    lemma_u64_at_sub(b, 34, v.head_sequence);
    lemma_u64_at_sub(b, 42, v.revocation_sequence);
    lemma_u64_at_sub(b, e, v.expiry);
    lemma_u64_at_sub(b, e + 8, v.observed);
    assert forall|k: int| 0 <= k < n implies authority_tag(b, k) == authority_kind(#[trigger] v.authorities@[k])
        && b.subrange(54 + 33 * k + 1, 54 + 33 * k + 33) == authority_id(v.authorities@[k]) by {
        let ab = authorities_bytes(v.authorities@);
        assert(b[54 + 33 * k] == b.subrange(54, ae)[33 * k]);
        assert(b.subrange(54 + 33 * k + 1, 54 + 33 * k + 33) =~= ab.subrange(33 * k + 1, 33 * k + 33));
    }
    assert(!owner_pending(b, body)) by {
        if owner_pending(b, body) {
            assert(b.len() == 34);
        }
    }
    assert(!owner_completed(b, body));
    assert forall|k: int| 0 <= k < record_count(b) implies 1 <= #[trigger] authority_tag(b, k) <= 3 by {
        assert(authority_tag(b, k) == authority_kind(v.authorities@[k]));
    }
    assert(b.subrange(e + 16, b.len() as int) == token@);
    assert(owner_validated_ok(b, body));
    assert forall|r: Result<OwnerAction, HumanOperationError>| #[trigger] owner_record_read(b, body, r) implies (r matches Ok(
        OwnerAction::Validated(w, Some(t)),
    ) && t@ == token@ && same_validation(w, v)) by {
        let w = r->Ok_0->Validated_0;
        assert forall|k: int| 0 <= k < w.authorities@.len() implies same_authority(#[trigger] w.authorities@[k], v.authorities@[k]) by {
            assert(authority_tag(b, k) == authority_kind(v.authorities@[k]));
        }
    }
}

/// Law: the pending record of a request reads back as pending, and its completed record
/// as the response it was completed with.
pub proof fn lemma_owner_records_read_back(body: Seq<u8>, response: Seq<u8>)
    requires
        body.len() == 32,
    ensures
        forall|r: Result<OwnerAction, HumanOperationError>|
            #[trigger] owner_record_read(owner_pending_record(body), body, r) ==> (r matches Ok(OwnerAction::Pending)),
        forall|r: Result<OwnerAction, HumanOperationError>|
            #[trigger] owner_record_read(owner_completed_record(body, response), body, r) ==> (r matches Ok(
                OwnerAction::Completed(x),
            ) && x@ == response),
{
    let c = owner_completed_record(body, response);
    assert(c.subrange(2, 34) =~= body);
    assert(c.subrange(34, c.len() as int) =~= response);
    assert(!owner_pending(c, body)) by {
        if owner_pending(c, body) {
            assert(c[1] == owner_pending_record(body)[1]);
        }
    }
}

} // verus!
