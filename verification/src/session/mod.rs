//! Tenant-bound session lifecycle and daemon-only authentication tokens.
use vstd::prelude::*;

use crate::bytes::{push_all, text_bytes};
use crate::identity::{authority_id, authority_kind, same_authority, IdentityRecord, ProtocolAuthority};
use crate::policy::{clone_texts, texts};
use crate::session::record::{
    encode_fault, encode_session, holds_read, scopes_fit, session_bytes, session_view, storable,
    SessionView,
};
use crate::session::registry::{record_id, with_open, SessionRegistry};
use crate::session::sets::{
    ascending_copy_texts, ascending_copy_u16, lemma_ascending_texts_count, lemma_ascending_u16_count, string_texts,
};
use crate::store::{KeyView, ObjectKind, StorageClass, Store, StoreError, TenantId, TenantKey};
use crate::text::same_text;

pub mod record;
pub mod registry;
pub mod restore;
pub mod revocation;
pub mod sets;

pub use revocation::{
    invalidate_on_revocation, InvalidationReason, InvalidationReport, PendingActivity,
    PreparationState, RevocationEvent,
};

verus! {

/// A session identifier.
#[derive(Clone, Copy, Debug, PartialEq, Eq)]
pub struct SessionId(pub [u8; 32]);

/// Refusals of session operations.
#[derive(Debug)]
pub enum SessionError {
    MissingField(&'static str),
    IdentityMismatch,
    AuthorityMissing,
    Expired,
    WrongPrincipal,
    ScopeDenied,
    NotFound,
    AlreadyClosed,
    Store(StoreError),
}

/// Complete request required to open a session. The permitted activity types and the
/// scopes are sets: their order and repeats carry no meaning.
#[derive(Debug)]
pub struct OpenRequest {
    pub session_id: SessionId,
    pub token_id: [u8; 32],
    pub tenant: TenantId,
    pub agent: String,
    pub authority: ProtocolAuthority,
    pub permitted_activity_types: Vec<u16>,
    pub scopes: Vec<String>,
    pub expiry_sequence: u64,
    pub opening_client: String,
    pub policy_version: String,
}

/// Durable session record, including the protocol authority actually used.
#[derive(Debug)]
pub struct SessionRecord {
    pub request: OpenRequest,
    pub open: bool,
    pub sequence: u64,
    pub budget_reserved: u128,
    pub subscription_cursor: u64,
}

/// What a token carries, as plain values.
pub struct TokenView {
    pub id: Seq<u8>,
    pub session_id: Seq<u8>,
    pub tenant: Seq<char>,
    pub agent: Seq<char>,
    pub scopes: Seq<Seq<char>>,
    pub expiry_sequence: u64,
}

/// A daemon authenticator. It is never accepted as protocol authority.
#[derive(Debug)]
pub struct Token {
    id: [u8; 32],
    session_id: SessionId,
    tenant: TenantId,
    agent: String,
    scopes: Vec<String>,
    expiry_sequence: u64,
}

impl View for Token {
    type V = TokenView;

    closed spec fn view(&self) -> TokenView {
        TokenView {
            id: self.id@,
            session_id: self.session_id.0@,
            tenant: self.tenant@,
            agent: self.agent@,
            scopes: texts(self.scopes@),
            expiry_sequence: self.expiry_sequence,
        }
    }
}

/// Whether a list of strings holds `t`.
fn holds_text(v: &Vec<String>, t: &str) -> (r: bool)
    ensures
        r == texts(v@).contains(t@),
{
    let mut i: usize = 0;
    while i < v.len()
        invariant
            i <= v@.len(),
            forall|q: int| 0 <= q < i ==> texts(v@)[q] != t@,
        decreases v@.len() - i,
    {
        if same_text(v[i].as_str(), t) {
            assert(texts(v@)[i as int] == t@);
            return true;
        }
        i = i + 1;
    }
    false
}

impl Token {
    /// Checks tenant, agent, scope and core-relative expiry.
    ///
    /// # Errors
    ///
    /// Returns `WrongPrincipal` for a mismatched tenant or agent, `Expired` once the core sequence
    /// reaches the token's expiry, and `ScopeDenied` for a scope the token does not carry.
    pub fn authorize(&self, tenant: &TenantId, agent: &str, scope: &str, core_sequence: u64) -> (r:
        Result<SessionId, SessionError>)
        ensures
            if self@.tenant != tenant@ || self@.agent != agent@ {
                r matches Err(SessionError::WrongPrincipal)
            } else if core_sequence >= self@.expiry_sequence {
                r matches Err(SessionError::Expired)
            } else if !self@.scopes.contains(scope@) {
                r matches Err(SessionError::ScopeDenied)
            } else {
                r matches Ok(id) && id.0@ == self@.session_id
            },
    {
        if !self.tenant.same(tenant) || !same_text(self.agent.as_str(), agent) {
            return Err(SessionError::WrongPrincipal);
        }
        if core_sequence >= self.expiry_sequence {
            return Err(SessionError::Expired);
        }
        if !holds_text(&self.scopes, scope) {
            return Err(SessionError::ScopeDenied);
        }
        Ok(self.session_id)
    }

    /// Returns the daemon token identifier for audit correlation.
    pub fn token_id(&self) -> (r: [u8; 32])
        ensures
            r@ == self@.id,
    {
        self.id
    }

    /// The tenant the token was issued to.
    pub fn tenant(&self) -> (r: &TenantId)
        ensures
            r@ == self@.tenant,
    {
        &self.tenant
    }

    /// The agent the token was issued to.
    pub fn agent(&self) -> (r: &str)
        ensures
            r@ == self@.agent,
    {
        self.agent.as_str()
    }
}

/// The store key of a session record.
pub open spec fn session_key(tenant: Seq<char>, id: Seq<u8>) -> KeyView {
    KeyView { tenant, kind: ObjectKind::Session, object_id: id }
}

/// Why request validation refuses a session.
pub enum OpenRefusal {
    IdentityMismatch,
    MissingField(Seq<char>),
    Expired,
    AuthorityMissing,
}

/// The first check a request fails against the caller's identity, if any: the identity's
/// tenant and DID, a non-empty set of activity types and of scopes, a non-empty opening
/// client and policy version, an expiry after the core sequence, and an authority core binds.
pub open spec fn open_refusal(identity: IdentityRecord, request: OpenRequest, core_sequence: u64) -> Option<
    OpenRefusal,
> {
    if identity.tenant_view() != request.tenant@ || identity.did_view() != request.agent@ {
        Some(OpenRefusal::IdentityMismatch)
    } else if request.permitted_activity_types@.len() == 0 {
        Some(OpenRefusal::MissingField("permitted_activity_types"@))
    } else if request.scopes@.len() == 0 {
        Some(OpenRefusal::MissingField("scopes"@))
    } else if request.opening_client@.len() == 0 {
        Some(OpenRefusal::MissingField("opening_client"@))
    } else if request.policy_version@.len() == 0 {
        Some(OpenRefusal::MissingField("policy_version"@))
    } else if request.expiry_sequence <= core_sequence {
        Some(OpenRefusal::Expired)
    } else if !(exists|i: int|
        0 <= i < identity.authorities_view().len() && same_authority(
            #[trigger] identity.authorities_view()[i],
            request.authority,
        )) {
        Some(OpenRefusal::AuthorityMissing)
    } else {
        None
    }
}

/// Whether an error is the given refusal.
pub open spec fn refused_as(e: SessionError, f: OpenRefusal) -> bool {
    match f {
        OpenRefusal::IdentityMismatch => e is IdentityMismatch,
        OpenRefusal::MissingField(x) => e matches SessionError::MissingField(y) && y@ == x,
        OpenRefusal::Expired => e is Expired,
        OpenRefusal::AuthorityMissing => e is AuthorityMissing,
    }
}

/// The record a request opens, its sets as requested.
pub open spec fn requested_view(request: OpenRequest) -> SessionView {
    SessionView {
        session_id: request.session_id.0@,
        token_id: request.token_id@,
        expiry_sequence: request.expiry_sequence,
        open: true,
        sequence: 0,
        budget_reserved: 0,
        subscription_cursor: 0,
        opening_client: request.opening_client@,
        policy_version: request.policy_version@,
        agent: request.agent@,
        authority_kind: authority_kind(request.authority),
        authority_id: authority_id(request.authority),
        activity_types: request.permitted_activity_types@,
        scopes: string_texts(request.scopes@),
    }
}

/// The field the encoding of an opened session refuses, if any: a text longer than a
/// two-byte length can count, more distinct activity types or scopes than that, or a
/// scope that long.
pub open spec fn open_fault(v: SessionView) -> Option<Seq<char>> {
    if text_bytes(v.opening_client).len() > u16::MAX {
        Some("opening_client"@)
    } else if text_bytes(v.policy_version).len() > u16::MAX {
        Some("policy_version"@)
    } else if text_bytes(v.agent).len() > u16::MAX {
        Some("agent"@)
    } else if v.activity_types.to_set().len() > u16::MAX {
        Some("permitted_activity_types"@)
    } else if v.scopes.to_set().len() > u16::MAX || !scopes_fit(v.scopes) {
        Some("scopes"@)
    } else {
        None
    }
}

/// A record read back with ascending sets is refused by the encoding exactly as the
/// requested record is.
proof fn lemma_open_fault(v: SessionView, p: SessionView)
    requires
        holds_read(v, p),
    ensures
        encode_fault(v) == open_fault(p),
{
    lemma_ascending_u16_count(v.activity_types);
    lemma_ascending_texts_count(v.scopes);
    assert(scopes_fit(v.scopes) <==> scopes_fit(p.scopes)) by {
        if scopes_fit(v.scopes) {
            assert forall|i: int| 0 <= i < p.scopes.len() implies text_bytes(
                #[trigger] p.scopes[i],
            ).len() <= u16::MAX by {
                assert(p.scopes.to_set().contains(p.scopes[i]));
                assert(v.scopes.to_set().contains(p.scopes[i]));
                let j = choose|j: int| 0 <= j < v.scopes.len() && v.scopes[j] == p.scopes[i];
                assert(text_bytes(v.scopes[j]).len() <= u16::MAX);
            }
        }
        if scopes_fit(p.scopes) {
            assert forall|i: int| 0 <= i < v.scopes.len() implies text_bytes(
                #[trigger] v.scopes[i],
            ).len() <= u16::MAX by {
                assert(v.scopes.to_set().contains(v.scopes[i]));
                assert(p.scopes.to_set().contains(v.scopes[i]));
                let j = choose|j: int| 0 <= j < p.scopes.len() && p.scopes[j] == v.scopes[i];
                assert(text_bytes(p.scopes[j]).len() <= u16::MAX);
            }
        }
    }
}

/// Checks a request against the caller's identity and the core sequence.
///
/// # Errors
///
/// The refusal `open_refusal` names.
pub fn validate_request(identity: &IdentityRecord, request: &OpenRequest, core_sequence: u64) -> (r:
    Result<(), SessionError>)
    ensures
        match open_refusal(*identity, *request, core_sequence) {
            Some(f) => r matches Err(e) && refused_as(e, f),
            None => r is Ok,
        },
{
    if !identity.tenant().same(&request.tenant) || !same_text(identity.did(), request.agent.as_str()) {
        return Err(SessionError::IdentityMismatch);
    }
    if request.permitted_activity_types.len() == 0 {
        return Err(SessionError::MissingField("permitted_activity_types"));
    }
    if request.scopes.len() == 0 {
        return Err(SessionError::MissingField("scopes"));
    }
    if request.opening_client.as_str().unicode_len() == 0 {
        return Err(SessionError::MissingField("opening_client"));
    }
    if request.policy_version.as_str().unicode_len() == 0 {
        return Err(SessionError::MissingField("policy_version"));
    }
    if request.expiry_sequence <= core_sequence {
        return Err(SessionError::Expired);
    }
    if !identity.holds(&request.authority) {
        return Err(SessionError::AuthorityMissing);
    }
    Ok(())
}

/// The identifier bytes of a session as a vector.
pub(crate) fn id_bytes(id: &[u8; 32]) -> (r: Vec<u8>)
    ensures
        r@ == id@,
{
    let mut out: Vec<u8> = Vec::new();
    push_all(&mut out, id);
    out
}

/// Encodes a record and writes it under its session key.
///
/// # Errors
///
/// `MissingField` naming the field the encoding refuses; the store is then unchanged.
pub fn persist_record(store: &mut Store, record: &SessionRecord) -> (r: Result<(), SessionError>)
    requires
        old(store).wf(),
    ensures
        final(store).wf(),
        match encode_fault(session_view(*record)) {
            Some(f) => r matches Err(SessionError::MissingField(x)) && x@ == f && final(store).view()
                == old(store).view(),
            None => r is Ok && final(store).view() == old(store).view().insert(
                session_key(record.request.tenant@, record_id(*record)),
                (StorageClass::LocalOnly, session_bytes(session_view(*record))),
            ),
        },
{
    let encoded = match encode_session(record) {
        Err(e) => {
            return Err(e);
        },
        Ok(b) => b,
    };
    let key = match TenantKey::new(
        record.request.tenant.clone(),
        ObjectKind::Session,
        id_bytes(&record.request.session_id.0),
    ) {
        Ok(k) => k,
        Err(e) => {
            return Err(SessionError::Store(e));
        },
    };
    match store.put_local(key, encoded) {
        Ok(()) => Ok(()),
        Err(e) => Err(SessionError::Store(e)),
    }
}

/// Opens and durably records one independently scoped session. The record holds the
/// requested sets in ascending order without repeats.
///
/// # Errors
///
/// Returns `IdentityMismatch`, `MissingField`, `Expired` or `AuthorityMissing` from request
/// validation, or `MissingField` when the session record cannot be encoded; the store and
/// the registry are then left untouched.
pub fn open(
    store: &mut Store,
    registry: &mut SessionRegistry,
    identity: &IdentityRecord,
    request: OpenRequest,
    core_sequence: u64,
) -> (r: Result<Token, SessionError>)
    requires
        old(store).wf(),
        old(registry).wf(),
    ensures
        final(store).wf(),
        final(registry).wf(),
        r is Err ==> final(store).view() == old(store).view() && final(registry)@ == old(
            registry,
        )@,
        match open_refusal(*identity, request, core_sequence) {
            Some(f) => r matches Err(e) && refused_as(e, f),
            None => match open_fault(requested_view(request)) {
                Some(f) => r matches Err(SessionError::MissingField(x)) && x@ == f,
                None => r matches Ok(t) && final(registry)@.contains_key(request.session_id.0@) && {
                    let rec = final(registry)@[request.session_id.0@];
                    &&& rec.request.tenant@ == request.tenant@
                    &&& holds_read(session_view(rec), requested_view(request))
                    &&& storable(session_view(rec))
                    &&& final(registry)@ == old(registry)@.insert(request.session_id.0@, rec)
                    &&& final(store).view() == old(store).view().insert(
                        session_key(request.tenant@, request.session_id.0@),
                        (StorageClass::LocalOnly, session_bytes(session_view(rec))),
                    )
                    &&& t@ == (TokenView {
                        id: request.token_id@,
                        session_id: request.session_id.0@,
                        tenant: request.tenant@,
                        agent: request.agent@,
                        scopes: session_view(rec).scopes,
                        expiry_sequence: request.expiry_sequence,
                    })
                },
            },
        },
{
    match validate_request(identity, &request, core_sequence) {
        Err(e) => {
            return Err(e);
        },
        Ok(()) => {},
    }
    let ghost asked = request;
    let permitted_activity_types = ascending_copy_u16(&request.permitted_activity_types);
    let scopes = ascending_copy_texts(&request.scopes);
    let token = Token {
        id: request.token_id,
        session_id: request.session_id,
        tenant: request.tenant.clone(),
        agent: request.agent.clone(),
        scopes: clone_texts(&scopes),
        expiry_sequence: request.expiry_sequence,
    };
    let OpenRequest {
        session_id,
        token_id,
        tenant,
        agent,
        authority,
        permitted_activity_types: _,
        scopes: _,
        expiry_sequence,
        opening_client,
        policy_version,
    } = request;
    let record = SessionRecord {
        request: OpenRequest {
            session_id,
            token_id,
            tenant,
            agent,
            authority,
            permitted_activity_types,
            scopes,
            expiry_sequence,
            opening_client,
            policy_version,
        },
        open: true,
        sequence: 0,
        budget_reserved: 0,
        subscription_cursor: 0,
    };
    proof {
        let v = session_view(record);
        let p = requested_view(asked);
        assert(holds_read(v, p));
        lemma_open_fault(v, p);
        assert(p.activity_types.to_set().contains(p.activity_types[0]));
        assert(p.scopes.to_set().contains(p.scopes[0]));
        if v.activity_types.len() == 0 {
            assert(v.activity_types.to_set() =~= Set::<u16>::empty());
        }
        if v.scopes.len() == 0 {
            assert(v.scopes.to_set() =~= Set::<Seq<char>>::empty());
        }
    }
    match persist_record(store, &record) {
        Err(e) => {
            return Err(e);
        },
        Ok(()) => {},
    }
    let ghost rec = record;
    registry.upsert(record);
    proof {
        assert(final(registry)@.contains_key(record_id(rec)));
    }
    Ok(token)
}

/// A record closed: the same record with `open` false.
pub open spec fn closed_record(r: SessionRecord) -> SessionRecord {
    with_open(r, false)
}

/// Closes exactly one session without disturbing any sibling state.
///
/// # Errors
///
/// Returns `NotFound` for a session the registry never held, `AlreadyClosed` for one already
/// closed, or `MissingField` when the closed record cannot be encoded; the store and the
/// registry are then left untouched.
pub fn close(store: &mut Store, registry: &mut SessionRegistry, session_id: SessionId) -> (r: Result<
    (),
    SessionError,
>)
    requires
        old(store).wf(),
        old(registry).wf(),
    ensures
        final(store).wf(),
        final(registry).wf(),
        r is Err ==> final(store).view() == old(store).view() && final(registry)@ == old(
            registry,
        )@,
        if !old(registry)@.contains_key(session_id.0@) {
            r matches Err(SessionError::NotFound)
        } else if !old(registry)@[session_id.0@].open {
            r matches Err(SessionError::AlreadyClosed)
        } else {
            let rec = old(registry)@[session_id.0@];
            match encode_fault(session_view(closed_record(rec))) {
                Some(f) => r matches Err(SessionError::MissingField(x)) && x@ == f,
                None => r is Ok && final(registry)@ == old(registry)@.insert(
                    session_id.0@,
                    closed_record(rec),
                ) && final(store).view() == old(store).view().insert(
                    session_key(rec.request.tenant@, session_id.0@),
                    (StorageClass::LocalOnly, session_bytes(session_view(closed_record(rec)))),
                ),
            }
        },
{
    let open = match registry.get(session_id) {
        None => {
            return Err(SessionError::NotFound);
        },
        Some(rec) => rec.open,
    };
    if !open {
        return Err(SessionError::AlreadyClosed);
    }
    let ghost before = registry@;
    let ghost rec = registry@[session_id.0@];
    registry.set_open(&session_id, false);
    let closed = registry.get(session_id).unwrap();
    assert(*closed == closed_record(rec));
    match persist_record(store, closed) {
        Ok(()) => Ok(()),
        Err(e) => {
            registry.set_open(&session_id, true);
            proof {
                assert(registry@ =~= before);
            }
            Err(e)
        },
    }
}

} // verus!
