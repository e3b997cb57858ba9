//! Managed-agent records in the tenant-scoped store.
use vstd::prelude::*;

use crate::bytes::{bytes_equal, has_prefix, is_zero32, push_all, starts_with, text_bytes};
use crate::managed_agent::codec::{
    agent_bytes, agent_encodable, agent_fits, decodable, decode, encode, holds_agent,
    agent_fields, lemma_agent_bytes_injective, lemma_holds_decoded, lemma_same_fields, same_agent,
};
use crate::managed_agent::{agent_valid, blank, zero32, HumanOperationError, ManagedAgent};
use crate::store::{
    ids_contain, kind_ids, KeyView, ObjectKind, StorageClass, Store, StoreView, TenantId, TenantKey,
};

verus! {

/// The longest agent identifier, in bytes.
pub const MAX_AGENT_ID_BYTES: usize = 512;

/// The object identifier prefix of agent records: `managed-agent-v1:`.
pub open spec fn agent_prefix() -> Seq<u8> {
    seq![
        109u8, 97u8, 110u8, 97u8, 103u8, 101u8, 100u8, 45u8, 97u8, 103u8, 101u8, 110u8, 116u8,
        45u8, 118u8, 49u8, 58u8,
    ]
}

/// Whether an agent identifier can name a record: between 1 and 512 bytes.
pub open spec fn agent_id_ok(agent_id: Seq<char>) -> bool {
    !blank(agent_id) && text_bytes(agent_id).len() <= MAX_AGENT_ID_BYTES
}

/// The store key of an agent's record.
pub open spec fn agent_key_view(tenant: Seq<char>, agent_id: Seq<char>) -> KeyView {
    KeyView {
        tenant,
        kind: ObjectKind::Configuration,
        object_id: agent_prefix() + text_bytes(agent_id),
    }
}

/// The store key of an agent's record.
///
/// # Errors
///
/// `Refused` unless `agent_id_ok` holds.
pub fn agent_key(tenant: &TenantId, agent_id: &str) -> (r: Result<TenantKey, HumanOperationError>)
    ensures
        r is Ok <==> agent_id_ok(agent_id@),
        r matches Ok(k) ==> k@ == agent_key_view(tenant@, agent_id@),
        r matches Err(e) ==> e == HumanOperationError::Refused,
{
    let id = agent_id.as_bytes();
    if id.len() == 0 || id.len() > MAX_AGENT_ID_BYTES {
        return Err(HumanOperationError::Refused);
    }
    let prefix: [u8; 17] = [109, 97, 110, 97, 103, 101, 100, 45, 97, 103, 101, 110, 116, 45, 118, 49, 58];
    let mut object_id: Vec<u8> = Vec::new();
    push_all(&mut object_id, &prefix);
    push_all(&mut object_id, id);
    assert(object_id@ =~= agent_prefix() + text_bytes(agent_id@));
    match TenantKey::new(tenant.clone(), ObjectKind::Configuration, object_id) {
        Ok(k) => Ok(k),
        Err(_) => Err(HumanOperationError::Refused),
    }
}

/// The entry an agent's record key holds, if its identifier names one.
pub open spec fn agent_entry(view: StoreView, tenant: Seq<char>, agent_id: Seq<char>) -> Option<
    (StorageClass, Seq<u8>),
> {
    if agent_id_ok(agent_id) && view.contains_key(agent_key_view(tenant, agent_id)) {
        Some(view[agent_key_view(tenant, agent_id)])
    } else {
        None
    }
}

/// Whether an agent's record is present, daemon-local and decodes.
pub open spec fn agent_loadable(view: StoreView, tenant: Seq<char>, agent_id: Seq<char>) -> bool {
    agent_entry(view, tenant, agent_id) matches Some((class, bytes)) && class
        == StorageClass::LocalOnly && decodable(bytes)
}

/// The agent a tenant's record holds, when it loads: one valid record that fits and
/// encodes to the stored bytes (all such records have the same fields).
pub open spec fn stored_agent(view: StoreView, tenant: Seq<char>, agent_id: Seq<char>) -> ManagedAgent {
    choose|a: ManagedAgent|
        agent_valid(a) && agent_fits(a) && #[trigger] agent_bytes(a) == agent_entry(
            view,
            tenant,
            agent_id,
        )->Some_0.1
}

/// A record that loads has the fields of the stored agent.
pub proof fn lemma_stored_agent(view: StoreView, tenant: Seq<char>, agent_id: Seq<char>, a: ManagedAgent)
    requires
        agent_valid(a),
        agent_fits(a),
        agent_bytes(a) == agent_entry(view, tenant, agent_id)->Some_0.1,
    ensures
        agent_valid(stored_agent(view, tenant, agent_id)),
        agent_fits(stored_agent(view, tenant, agent_id)),
        agent_fields(stored_agent(view, tenant, agent_id)) == agent_fields(a),
{
    let s = stored_agent(view, tenant, agent_id);
    lemma_agent_bytes_injective(s, a);
}

/// Loads an agent's record.
///
/// # Errors
///
/// `Refused` unless `agent_loadable` holds.
pub fn load_agent(store: &Store, tenant: &TenantId, agent_id: &str) -> (r: Result<
    ManagedAgent,
    HumanOperationError,
>)
    requires
        store.wf(),
    ensures
        r is Ok <==> agent_loadable(store.view(), tenant@, agent_id@),
        r matches Ok(a) ==> agent_valid(a) && agent_fits(a) && agent_bytes(a) == agent_entry(
            store.view(),
            tenant@,
            agent_id@,
        )->Some_0.1,
        r matches Err(e) ==> e == HumanOperationError::Refused,
{
    let key = agent_key(tenant, agent_id)?;
    let value = match store.get(&key) {
        Some(v) => v,
        None => {
            return Err(HumanOperationError::Refused);
        },
    };
    if value.class() != StorageClass::LocalOnly {
        return Err(HumanOperationError::Refused);
    }
    decode(value.bytes())
}

/// The DID, session and token an agent is bound to.
///
/// # Errors
///
/// `Refused` unless the agent's record loads.
pub fn session_coordinates(store: &Store, tenant: &TenantId, agent_id: &str) -> (r: Result<
    (String, [u8; 32], [u8; 32]),
    HumanOperationError,
>)
    requires
        store.wf(),
    ensures
        r is Ok <==> agent_loadable(store.view(), tenant@, agent_id@),
        r matches Ok((did, session, token)) ==> exists|a: ManagedAgent|
            agent_valid(a) && agent_fits(a) && #[trigger] agent_bytes(a) == agent_entry(
                store.view(),
                tenant@,
                agent_id@,
            )->Some_0.1 && did@ == a.agent_did@ && session == a.session_id && token
                == a.session_token_id,
        r matches Err(e) ==> e == HumanOperationError::Refused,
{
    let agent = load_agent(store, tenant, agent_id)?;
    Ok((agent.agent_did, agent.session_id, agent.session_token_id))
}

/// The protocol grant an agent holds.
///
/// # Errors
///
/// `Refused` unless the agent's record loads and names a grant.
pub fn protocol_grant(store: &Store, tenant: &TenantId, agent_id: &str) -> (r: Result<
    [u8; 32],
    HumanOperationError,
>)
    requires
        store.wf(),
    ensures
        r is Ok <==> agent_loadable(store.view(), tenant@, agent_id@) && forall|a: ManagedAgent|
            agent_valid(a) && agent_fits(a) && #[trigger] agent_bytes(a) == agent_entry(
                store.view(),
                tenant@,
                agent_id@,
            )->Some_0.1 ==> a.protocol_grant_id@ != zero32(),
        r matches Ok(grant) ==> exists|a: ManagedAgent|
            agent_valid(a) && agent_fits(a) && #[trigger] agent_bytes(a) == agent_entry(
                store.view(),
                tenant@,
                agent_id@,
            )->Some_0.1 && grant == a.protocol_grant_id,
        r matches Err(e) ==> e == HumanOperationError::Refused,
{
    let agent = load_agent(store, tenant, agent_id)?;
    let ghost bytes = agent_entry(store.view(), tenant@, agent_id@)->Some_0.1;
    if is_zero32(&agent.protocol_grant_id) {
        Err(HumanOperationError::Refused)
    } else {
        proof {
            assert forall|a: ManagedAgent|
                agent_valid(a) && agent_fits(a) && #[trigger] agent_bytes(a) == bytes implies a.protocol_grant_id@
                != zero32() by {
                lemma_agent_bytes_injective(a, agent);
                lemma_same_fields(a, agent);
            }
        }
        Ok(agent.protocol_grant_id)
    }
}

/// Records an agent the Human plane created. Publishing the same agent again changes
/// nothing.
///
/// # Errors
///
/// `Refused` for an invalid agent, an identifier that names no record, a record already
/// present that is not daemon-local or holds another agent, or an agent that cannot be
/// encoded; the store is then unchanged.
pub fn publish_creation(store: &mut Store, tenant: &TenantId, agent: ManagedAgent) -> (r: Result<
    (),
    HumanOperationError,
>)
    requires
        old(store).wf(),
    ensures
        final(store).wf(),
        r is Err ==> final(store).view() == old(store).view(),
        r matches Err(e) ==> e == HumanOperationError::Refused,
        if !agent_valid(agent) || !agent_id_ok(agent.agent_id@) {
            r is Err
        } else {
            match agent_entry(old(store).view(), tenant@, agent.agent_id@) {
                Some((class, bytes)) => (r is Ok <==> class == StorageClass::LocalOnly
                    && holds_agent(bytes, agent)) && final(store).view() == old(store).view(),
                None => (r is Ok <==> agent_encodable(agent)) && (r is Ok ==> final(store).view()
                    == old(store).view().insert(
                    agent_key_view(tenant@, agent.agent_id@),
                    (StorageClass::LocalOnly, agent_bytes(agent)),
                )),
            }
        },
{
    agent.validate()?;
    let key = agent_key(tenant, agent.agent_id.as_str())?;
    match store.get(&key) {
        Some(existing) => {
            if existing.class() != StorageClass::LocalOnly {
                return Err(HumanOperationError::Refused);
            }
            let stored = decode(existing.bytes())?;
            proof {
                lemma_holds_decoded(existing@.1, stored, agent);
            }
            if !same_agent(&stored, &agent) {
                return Err(HumanOperationError::Refused);
            }
            return Ok(());
        },
        None => {},
    }
    let bytes = encode(&agent)?;
    match store.put_local(key, bytes) {
        Ok(()) => Ok(()),
        Err(_) => Err(HumanOperationError::Unavailable),
    }
}

/// Records an agent the Human plane created together with a companion record: the
/// companion is written with the agent's record, or alone when the same agent is already
/// recorded.
///
/// # Errors
///
/// `Refused` as [`publish_creation`] refuses; the store is then unchanged.
pub fn publish_creation_with_companion(
    store: &mut Store,
    tenant: &TenantId,
    agent: ManagedAgent,
    companion: TenantKey,
    bytes: Vec<u8>,
) -> (r: Result<(), HumanOperationError>)
    requires
        old(store).wf(),
    ensures
        final(store).wf(),
        r is Err ==> final(store).view() == old(store).view(),
        r matches Err(e) ==> e == HumanOperationError::Refused,
        if !agent_valid(agent) || !agent_id_ok(agent.agent_id@) {
            r is Err
        } else {
            match agent_entry(old(store).view(), tenant@, agent.agent_id@) {
                Some((class, existing)) => (r is Ok <==> class == StorageClass::LocalOnly && holds_agent(existing, agent))
                    && (r is Ok ==> final(store).view() == old(store).view().insert(companion@, (StorageClass::LocalOnly, bytes@))),
                None => (r is Ok <==> agent_encodable(agent)) && (r is Ok ==> final(store).view()
                    == old(store).view().insert(
                    agent_key_view(tenant@, agent.agent_id@),
                    (StorageClass::LocalOnly, agent_bytes(agent)),
                ).insert(companion@, (StorageClass::LocalOnly, bytes@))),
            }
        },
{
    agent.validate()?;
    let key = agent_key(tenant, agent.agent_id.as_str())?;
    match store.get(&key) {
        Some(existing) => {
            if existing.class() != StorageClass::LocalOnly {
                return Err(HumanOperationError::Refused);
            }
            let stored = decode(existing.bytes())?;
            proof {
                lemma_holds_decoded(existing@.1, stored, agent);
            }
            if !same_agent(&stored, &agent) {
                return Err(HumanOperationError::Refused);
            }
            let _ = store.put_local(companion, bytes);
            return Ok(());
        },
        None => {},
    }
    let encoded = encode(&agent)?;
    let _ = store.put_local(key, encoded);
    let _ = store.put_local(companion, bytes);
    Ok(())
}

/// Whether the record object `id` of a tenant is sound: daemon-local, decodable, and stored
/// under the key its own agent identifier names.
pub open spec fn agent_object_ok(view: StoreView, tenant: Seq<char>, id: Seq<u8>) -> bool {
    let (class, b) = view[KeyView { tenant, kind: ObjectKind::Configuration, object_id: id }];
    &&& class == StorageClass::LocalOnly
    &&& decodable(b)
    &&& forall|a: ManagedAgent|
        agent_valid(a) && agent_fits(a) && #[trigger] agent_bytes(a) == b ==> agent_id_ok(
            a.agent_id@,
        ) && agent_prefix() + text_bytes(a.agent_id@) == id
}

/// Whether every agent record object of a tenant is sound.
pub open spec fn tenant_agents_ok(view: StoreView, tenant: Seq<char>) -> bool {
    forall|id: Seq<u8>|
        #[trigger] kind_ids(view, tenant, ObjectKind::Configuration).contains(id) && has_prefix(
            id,
            agent_prefix(),
        ) ==> agent_object_ok(view, tenant, id)
}

/// Checks every agent record object of a tenant.
///
/// # Errors
///
/// `Refused` unless `tenant_agents_ok` holds.
pub fn validate_tenant(store: &Store, tenant: &TenantId) -> (r: Result<(), HumanOperationError>)
    requires
        store.wf(),
    ensures
        r is Ok <==> tenant_agents_ok(store.view(), tenant@),
        r matches Err(e) ==> e == HumanOperationError::Refused,
{
    let ghost view = store.view();
    let ghost t = tenant@;
    let prefix: [u8; 17] = [109, 97, 110, 97, 103, 101, 100, 45, 97, 103, 101, 110, 116, 45, 118, 49, 58];
    assert(prefix@ == agent_prefix());
    let ids = store.list_object_ids(tenant, ObjectKind::Configuration);
    let mut i: usize = 0;
    while i < ids.len()
        invariant
            store.wf(),
            view == store.view(),
            t == tenant@,
            prefix@ == agent_prefix(),
            i <= ids@.len(),
            forall|id: Seq<u8>|
                #[trigger] ids_contain(ids@, id) <==> view.contains_key(
                    KeyView { tenant: t, kind: ObjectKind::Configuration, object_id: id },
                ),
            forall|q: int|
                0 <= q < i && has_prefix(#[trigger] ids@[q]@, agent_prefix()) ==> agent_object_ok(
                    view,
                    t,
                    ids@[q]@,
                ),
        decreases ids@.len() - i,
    {
        let ghost id = ids@[i as int]@;
        assert(ids_contain(ids@, id));
        let ghost k = KeyView { tenant: t, kind: ObjectKind::Configuration, object_id: id };
        assert(kind_ids(view, t, ObjectKind::Configuration).contains(id));
        if starts_with(ids[i].as_slice(), &prefix) {
            proof {
                store.lemma_view_key_valid(k);
            }
            let mut object_id: Vec<u8> = Vec::new();
            push_all(&mut object_id, ids[i].as_slice());
            let key = match TenantKey::new(tenant.clone(), ObjectKind::Configuration, object_id) {
                Ok(key) => key,
                Err(_) => {
                    return Err(HumanOperationError::Refused);
                },
            };
            let value = match store.get(&key) {
                Some(v) => v,
                None => {
                    return Err(HumanOperationError::Unavailable);
                },
            };
            if value.class() != StorageClass::LocalOnly {
                return Err(HumanOperationError::Refused);
            }
            let agent = decode(value.bytes())?;
            let named = match agent_key(tenant, agent.agent_id.as_str()) {
                Ok(named) => named,
                Err(e) => {
                    return Err(e);
                },
            };
            if !bytes_equal(named.object_id(), ids[i].as_slice()) {
                return Err(HumanOperationError::Refused);
            }
            proof {
                assert forall|a: ManagedAgent|
                    agent_valid(a) && agent_fits(a) && #[trigger] agent_bytes(a) == view[k].1 implies agent_id_ok(
                    a.agent_id@,
                ) && agent_prefix() + text_bytes(a.agent_id@) == id by {
                    lemma_agent_bytes_injective(a, agent);
                    lemma_same_fields(a, agent);
                }
            }
        }
        i = i + 1;
    }
    proof {
        assert forall|id: Seq<u8>|
            #[trigger] kind_ids(view, t, ObjectKind::Configuration).contains(id) && has_prefix(
                id,
                agent_prefix(),
            ) implies agent_object_ok(view, t, id) by {
            assert(ids_contain(ids@, id));
            let q = choose|q: int| 0 <= q < ids@.len() && #[trigger] ids@[q]@ == id;
        }
    }
    Ok(())
}

} // verus!
