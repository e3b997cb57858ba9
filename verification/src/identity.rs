//! Agent identity bindings backed only by verified core observations.
use vstd::prelude::*;

use crate::store::{StoreError, TenantId};

verus! {

/// Protocol authority currently bound to a DID by core state.
#[derive(Clone, Copy, Debug, PartialEq, Eq)]
pub enum ProtocolAuthority {
    PrimaryKey([u8; 32]),
    SessionKey([u8; 32]),
    CapabilityGrant([u8; 32]),
}

/// The wire code of an authority's kind.
pub open spec fn authority_kind(a: ProtocolAuthority) -> u8 {
    match a {
        ProtocolAuthority::PrimaryKey(_) => 1,
        ProtocolAuthority::SessionKey(_) => 2,
        ProtocolAuthority::CapabilityGrant(_) => 3,
    }
}

/// The identifier an authority names.
pub open spec fn authority_id(a: ProtocolAuthority) -> Seq<u8> {
    match a {
        ProtocolAuthority::PrimaryKey(id) => id@,
        ProtocolAuthority::SessionKey(id) => id@,
        ProtocolAuthority::CapabilityGrant(id) => id@,
    }
}

/// Two authorities are the same kind naming the same identifier.
pub open spec fn same_authority(a: ProtocolAuthority, b: ProtocolAuthority) -> bool {
    authority_kind(a) == authority_kind(b) && authority_id(a) == authority_id(b)
}

impl ProtocolAuthority {
    /// The kind's wire code and the identifier.
    pub fn parts(&self) -> (r: (u8, [u8; 32]))
        ensures
            r.0 == authority_kind(*self),
            r.1@ == authority_id(*self),
    {
        match self {
            ProtocolAuthority::PrimaryKey(id) => (1, *id),
            ProtocolAuthority::SessionKey(id) => (2, *id),
            ProtocolAuthority::CapabilityGrant(id) => (3, *id),
        }
    }

    /// Whether both name the same authority.
    pub fn same(&self, other: &ProtocolAuthority) -> (r: bool)
        ensures
            r == same_authority(*self, *other),
    {
        let (a, x) = self.parts();
        let (b, y) = other.parts();
        a == b && crate::bytes::fixed_equal(&x, &y)
    }
}

/// Identity registration and revalidation failures.
#[derive(Debug)]
pub enum IdentityError {
    BoundaryUnavailable,
    UnknownDid,
    Frozen,
    Unverified,
    Store(StoreError),
}

/// A persisted identity binding and its core provenance.
#[derive(Debug)]
pub struct IdentityRecord {
    tenant: TenantId,
    did: String,
    head_sequence: u64,
    verification_level: u8,
    authorities: Vec<ProtocolAuthority>,
    canonical_core_bytes: Vec<u8>,
}

impl IdentityRecord {
    /// The tenant holding the binding.
    pub closed spec fn tenant_view(&self) -> Seq<char> {
        self.tenant@
    }

    /// The bound DID.
    pub closed spec fn did_view(&self) -> Seq<char> {
        self.did@
    }

    /// The authorities core binds to the DID.
    pub closed spec fn authorities_view(&self) -> Seq<ProtocolAuthority> {
        self.authorities@
    }

    /// The core sequence the binding was verified at.
    pub closed spec fn head_sequence_view(&self) -> u64 {
        self.head_sequence
    }

    /// The verification level core reported.
    pub closed spec fn verification_level_view(&self) -> u8 {
        self.verification_level
    }

    /// The canonical core bytes the binding was resolved from.
    pub closed spec fn core_bytes_view(&self) -> Seq<u8> {
        self.canonical_core_bytes@
    }

    /// A binding as resolved and verified against core state at `head_sequence`.
    pub fn new(
        tenant: TenantId,
        did: String,
        head_sequence: u64,
        verification_level: u8,
        authorities: Vec<ProtocolAuthority>,
        canonical_core_bytes: Vec<u8>,
    ) -> (r: Self)
        ensures
            r.tenant_view() == tenant@,
            r.did_view() == did@,
            r.authorities_view() == authorities@,
            r.head_sequence_view() == head_sequence,
            r.verification_level_view() == verification_level,
            r.core_bytes_view() == canonical_core_bytes@,
    {
        IdentityRecord { tenant, did, head_sequence, verification_level, authorities, canonical_core_bytes }
    }

    pub fn tenant(&self) -> (r: &TenantId)
        ensures
            r@ == self.tenant_view(),
    {
        &self.tenant
    }

    pub fn did(&self) -> (r: &str)
        ensures
            r@ == self.did_view(),
    {
        self.did.as_str()
    }

    pub fn head_sequence(&self) -> (r: u64)
        ensures
            r == self.head_sequence_view(),
    {
        self.head_sequence
    }

    pub fn verification_level(&self) -> (r: u8)
        ensures
            r == self.verification_level_view(),
    {
        self.verification_level
    }

    pub fn authorities(&self) -> (r: &[ProtocolAuthority])
        ensures
            r@ == self.authorities_view(),
    {
        self.authorities.as_slice()
    }

    pub fn canonical_core_bytes(&self) -> (r: &[u8])
        ensures
            r@ == self.core_bytes_view(),
    {
        self.canonical_core_bytes.as_slice()
    }

    /// Whether core binds this authority to the DID.
    pub fn holds(&self, authority: &ProtocolAuthority) -> (r: bool)
        ensures
            r == exists|i: int| 0 <= i < self.authorities_view().len() && same_authority(
                #[trigger] self.authorities_view()[i],
                *authority,
            ),
    {
        let mut i: usize = 0;
        while i < self.authorities.len()
            invariant
                i <= self.authorities@.len(),
                forall|q: int| 0 <= q < i ==> !same_authority(#[trigger] self.authorities@[q], *authority),
            decreases self.authorities@.len() - i,
        {
            if self.authorities[i].same(authority) {
                assert(same_authority(self.authorities_view()[i as int], *authority));
                return true;
            }
            i = i + 1;
        }
        false
    }
}

} // verus!
