//! Durable tenant-scoped local storage.
//!
//! The store is an ordered map from tenant-scoped keys to classified bytes. Every read and
//! write goes through a [`TenantKey`], so no access can omit the tenant. Writing the durable
//! image to disk is the caller's concern: [`encode_image`] renders the exact bytes and
//! [`decode_image`] reads them back.
use vstd::prelude::*;

use crate::bytes::{
    bytes_equal, compare_bytes, is_valid_identifier, lemma_lex_asymmetric, lemma_lex_irreflexive,
    lemma_lex_total, lemma_lex_transitive, lex_lt, push_all, text_bytes, valid_identifier, Precedence,
};

pub mod durable;
pub mod image;
pub mod migrate;
pub mod migrate_forward;
pub mod tenant;

pub use image::{decode_image, encode_image};
pub use migrate::{MigrationError, MigrationReport, MigrationStep, CURRENT_SCHEMA_VERSION};
pub use migrate_forward::{migrate, migrate_forward};
pub use tenant::TenantScoped;

verus! {

#[verifier::external_type_specification]
#[verifier::external_body]
pub struct ExIoError(std::io::Error);

/// A validated tenant identifier that must be present in every storage key.
#[derive(Debug, PartialEq, Eq, PartialOrd, Ord)]
pub struct TenantId {
    value: String,
}

impl View for TenantId {
    type V = Seq<char>;

    closed spec fn view(&self) -> Seq<char> {
        self.value@
    }
}

impl Clone for TenantId {
    fn clone(&self) -> (r: Self)
        ensures
            r@ == self@,
    {
        proof {
            use_type_invariant(self);
        }
        TenantId { value: self.value.clone() }
    }
}

impl TenantId {
    /// Every tenant identifier is valid: non-empty, at most 255 bytes, no NUL byte.
    #[verifier::type_invariant]
    spec fn inv(self) -> bool {
        valid_identifier(self.value@)
    }

    /// Creates a non-empty bounded tenant identifier.
    ///
    /// # Errors
    ///
    /// Returns `InvalidTenant` for an empty, over-255-byte, or NUL-bearing value.
    pub fn new(value: String) -> (r: Result<Self, StoreError>)
        ensures
            r is Ok <==> valid_identifier(value@),
            r matches Ok(t) ==> t@ == value@,
            r matches Err(e) ==> e is InvalidTenant,
    {
        if !is_valid_identifier(value.as_str()) {
            return Err(StoreError::InvalidTenant);
        }
        Ok(TenantId { value })
    }

    /// Returns the tenant identifier.
    pub fn as_str(&self) -> (r: &str)
        ensures
            r@ == self@,
    {
        self.value.as_str()
    }

    /// Whether two identifiers name the same tenant.
    pub fn same(&self, other: &TenantId) -> (r: bool)
        ensures
            r == (self@ == other@),
    {
        self.value == other.value
    }
}

/// Every durable object category owned by the daemon.
#[derive(Clone, Copy, Debug, PartialEq, Eq, Structural, PartialOrd, Ord)]
pub enum ObjectKind {
    Identity,
    Session,
    Capability,
    Budget,
    Policy,
    PreparedActivity,
    Outbox,
    Receipt,
    Subscription,
    Audit,
    Idempotency,
    Configuration,
}

/// The stable one-byte code of an object kind.
pub open spec fn kind_code(kind: ObjectKind) -> u8 {
    match kind {
        ObjectKind::Identity => 1,
        ObjectKind::Session => 2,
        ObjectKind::Capability => 3,
        ObjectKind::Budget => 4,
        ObjectKind::Policy => 5,
        ObjectKind::PreparedActivity => 6,
        ObjectKind::Outbox => 7,
        ObjectKind::Receipt => 8,
        ObjectKind::Subscription => 9,
        ObjectKind::Audit => 10,
        ObjectKind::Idempotency => 11,
        ObjectKind::Configuration => 12,
    }
}

impl ObjectKind {
    /// The stable one-byte code.
    pub fn code(self) -> (r: u8)
        ensures
            r == kind_code(self),
    {
        match self {
            ObjectKind::Identity => 1,
            ObjectKind::Session => 2,
            ObjectKind::Capability => 3,
            ObjectKind::Budget => 4,
            ObjectKind::Policy => 5,
            ObjectKind::PreparedActivity => 6,
            ObjectKind::Outbox => 7,
            ObjectKind::Receipt => 8,
            ObjectKind::Subscription => 9,
            ObjectKind::Audit => 10,
            ObjectKind::Idempotency => 11,
            ObjectKind::Configuration => 12,
        }
    }

    /// Decodes a stable one-byte code.
    pub fn from_byte(value: u8) -> (r: Result<Self, StoreError>)
        ensures
            r is Ok <==> 1 <= value <= 12,
            r matches Ok(k) ==> kind_code(k) == value,
            r matches Err(e) ==> e is Corrupt,
    {
        match value {
            1 => Ok(ObjectKind::Identity),
            2 => Ok(ObjectKind::Session),
            3 => Ok(ObjectKind::Capability),
            4 => Ok(ObjectKind::Budget),
            5 => Ok(ObjectKind::Policy),
            6 => Ok(ObjectKind::PreparedActivity),
            7 => Ok(ObjectKind::Outbox),
            8 => Ok(ObjectKind::Receipt),
            9 => Ok(ObjectKind::Subscription),
            10 => Ok(ObjectKind::Audit),
            11 => Ok(ObjectKind::Idempotency),
            12 => Ok(ObjectKind::Configuration),
            _ => Err(StoreError::Corrupt("unknown object kind")),
        }
    }
}

/// The mathematical content of a storage key.
pub struct KeyView {
    pub tenant: Seq<char>,
    pub kind: ObjectKind,
    pub object_id: Seq<u8>,
}

/// A valid object identifier: between 1 and 4096 bytes.
pub open spec fn valid_object_id(id: Seq<u8>) -> bool {
    0 < id.len() <= 4096
}

/// A key whose tenant and object identifier are both valid.
pub open spec fn valid_key(k: KeyView) -> bool {
    valid_identifier(k.tenant) && valid_object_id(k.object_id)
}

/// A key that cannot be constructed without a tenant.
#[derive(Debug, PartialEq, Eq, PartialOrd, Ord)]
pub struct TenantKey {
    tenant: TenantId,
    kind: ObjectKind,
    object_id: Vec<u8>,
}

impl View for TenantKey {
    type V = KeyView;

    closed spec fn view(&self) -> KeyView {
        KeyView { tenant: self.tenant@, kind: self.kind, object_id: self.object_id@ }
    }
}

impl Clone for TenantKey {
    fn clone(&self) -> (r: Self)
        ensures
            r@ == self@,
    {
        proof {
            use_type_invariant(self);
        }
        let mut object_id: Vec<u8> = Vec::new();
        push_all(&mut object_id, self.object_id.as_slice());
        let r = TenantKey { tenant: self.tenant.clone(), kind: self.kind, object_id };
        assert(r@ == self@) by {
            assert(r@.object_id =~= self@.object_id);
        }
        r
    }
}

impl TenantKey {
    /// Every key has a valid object identifier.
    #[verifier::type_invariant]
    spec fn inv(self) -> bool {
        valid_object_id(self.object_id@)
    }

    /// Creates a tenant-scoped key.
    ///
    /// # Errors
    ///
    /// Returns `InvalidObjectId` for an empty or over-4096-byte object identifier.
    pub fn new(tenant: TenantId, kind: ObjectKind, object_id: Vec<u8>) -> (r: Result<
        Self,
        StoreError,
    >)
        ensures
            r is Ok <==> valid_object_id(object_id@),
            r matches Ok(k) ==> k@ == (KeyView { tenant: tenant@, kind, object_id: object_id@ }),
            r matches Err(e) ==> e is InvalidObjectId,
    {
        if object_id.len() == 0 || object_id.len() > 4096 {
            return Err(StoreError::InvalidObjectId);
        }
        Ok(TenantKey { tenant, kind, object_id })
    }

    /// Returns the tenant owning this key.
    pub fn tenant(&self) -> (r: &TenantId)
        ensures
            r@ == self@.tenant,
    {
        &self.tenant
    }

    /// Returns the object category.
    pub fn kind(&self) -> (r: ObjectKind)
        ensures
            r == self@.kind,
    {
        self.kind
    }

    /// Returns the opaque object identifier.
    pub fn object_id(&self) -> (r: &[u8])
        ensures
            r@ == self@.object_id,
    {
        self.object_id.as_slice()
    }
}

/// Declares whether bytes are a daemon-local artefact or a cache of core output.
#[derive(Clone, Copy, Debug, PartialEq, Eq, Structural)]
pub enum StorageClass {
    LocalOnly,
    CoreProducedCache,
}

/// The stable one-byte code of a storage class.
pub open spec fn class_code(class: StorageClass) -> u8 {
    match class {
        StorageClass::LocalOnly => 1,
        StorageClass::CoreProducedCache => 2,
    }
}

impl StorageClass {
    /// The stable one-byte code.
    pub fn code(self) -> (r: u8)
        ensures
            r == class_code(self),
    {
        match self {
            StorageClass::LocalOnly => 1,
            StorageClass::CoreProducedCache => 2,
        }
    }

    /// Decodes a stable one-byte code.
    pub fn from_byte(value: u8) -> (r: Result<Self, StoreError>)
        ensures
            r is Ok <==> 1 <= value <= 2,
            r matches Ok(c) ==> class_code(c) == value,
            r matches Err(e) ==> e is Corrupt,
    {
        match value {
            1 => Ok(StorageClass::LocalOnly),
            2 => Ok(StorageClass::CoreProducedCache),
            _ => Err(StoreError::Corrupt("unknown storage class")),
        }
    }
}

/// Stored bytes with their authority classification inseparably attached.
#[derive(Debug, PartialEq, Eq)]
pub struct StoredValue {
    class: StorageClass,
    bytes: Vec<u8>,
}

impl View for StoredValue {
    type V = (StorageClass, Seq<u8>);

    closed spec fn view(&self) -> (StorageClass, Seq<u8>) {
        (self.class, self.bytes@)
    }
}

impl StoredValue {
    /// Returns whether these bytes are local or a cache of core output.
    pub fn class(&self) -> (r: StorageClass)
        ensures
            r == self@.0,
    {
        self.class
    }

    /// Returns the exact stored bytes.
    pub fn bytes(&self) -> (r: &[u8])
        ensures
            r@ == self@.1,
    {
        self.bytes.as_slice()
    }
}

/// Errors from the durable store.
#[derive(Debug)]
pub enum StoreError {
    Io(std::io::Error),
    Migration(MigrationError),
    InvalidTenant,
    InvalidObjectId,
    Corrupt(&'static str),
    SizeOverflow,
}

/// Strict order of storage keys: tenant bytes, then kind code, then object identifier.
pub open spec fn key_lt(a: KeyView, b: KeyView) -> bool {
    ||| lex_lt(text_bytes(a.tenant), text_bytes(b.tenant))
    ||| (a.tenant == b.tenant && kind_code(a.kind) < kind_code(b.kind))
    ||| (a.tenant == b.tenant && a.kind == b.kind && lex_lt(a.object_id, b.object_id))
}

pub proof fn lemma_text_bytes_injective(a: Seq<char>, b: Seq<char>)
    ensures
        text_bytes(a) == text_bytes(b) ==> a == b,
{
    vstd::utf8::encode_utf8_decode_utf8(a);
    vstd::utf8::encode_utf8_decode_utf8(b);
}

pub proof fn lemma_kind_code_injective(a: ObjectKind, b: ObjectKind)
    ensures
        kind_code(a) == kind_code(b) ==> a == b,
{
}

pub proof fn lemma_key_lt_irreflexive(a: KeyView)
    ensures
        !key_lt(a, a),
{
    lemma_lex_irreflexive(text_bytes(a.tenant));
    lemma_lex_irreflexive(a.object_id);
}

pub proof fn lemma_key_lt_transitive(a: KeyView, b: KeyView, c: KeyView)
    requires
        key_lt(a, b),
        key_lt(b, c),
    ensures
        key_lt(a, c),
{
    let (ta, tb, tc) = (text_bytes(a.tenant), text_bytes(b.tenant), text_bytes(c.tenant));
    if lex_lt(ta, tb) && lex_lt(tb, tc) {
        lemma_lex_transitive(ta, tb, tc);
    }
    if lex_lt(a.object_id, b.object_id) && lex_lt(b.object_id, c.object_id) {
        lemma_lex_transitive(a.object_id, b.object_id, c.object_id);
    }
}

pub proof fn lemma_key_lt_asymmetric(a: KeyView, b: KeyView)
    ensures
        !(key_lt(a, b) && key_lt(b, a)),
{
    lemma_lex_asymmetric(text_bytes(a.tenant), text_bytes(b.tenant));
    lemma_lex_irreflexive(text_bytes(a.tenant));
    lemma_lex_asymmetric(a.object_id, b.object_id);
}

pub proof fn lemma_key_lt_total(a: KeyView, b: KeyView)
    ensures
        a == b || key_lt(a, b) || key_lt(b, a),
{
    lemma_lex_total(text_bytes(a.tenant), text_bytes(b.tenant));
    lemma_text_bytes_injective(a.tenant, b.tenant);
    lemma_lex_total(a.object_id, b.object_id);
}

/// Three-way comparison of two keys in storage order.
pub fn compare_keys(a: &TenantKey, b: &TenantKey) -> (r: Precedence)
    ensures
        r == Precedence::Same <==> a@ == b@,
        r == Precedence::Before <==> key_lt(a@, b@),
        r == Precedence::After <==> key_lt(b@, a@),
{
    proof {
        lemma_key_lt_asymmetric(a@, b@);
        lemma_key_lt_irreflexive(a@);
        lemma_key_lt_total(a@, b@);
        lemma_text_bytes_injective(a@.tenant, b@.tenant);
    }
    let tenant_order = compare_bytes(a.tenant.as_str().as_bytes(), b.tenant.as_str().as_bytes());
    match tenant_order {
        Precedence::Before => Precedence::Before,
        Precedence::After => Precedence::After,
        Precedence::Same => {
            let (ka, kb) = (a.kind.code(), b.kind.code());
            if ka < kb {
                Precedence::Before
            } else if ka > kb {
                Precedence::After
            } else {
                compare_bytes(a.object_id.as_slice(), b.object_id.as_slice())
            }
        },
    }
}

struct Entry {
    key: TenantKey,
    value: StoredValue,
}

/// The contents of a store: classified bytes per key.
pub type StoreView = Map<KeyView, (StorageClass, Seq<u8>)>;

/// A store's records in strictly increasing key order.
pub open spec fn sorted_records(records: Seq<(KeyView, (StorageClass, Seq<u8>))>) -> bool {
    forall|i: int, j: int|
        0 <= i < j < records.len() ==> key_lt(#[trigger] records[i].0, #[trigger] records[j].0)
}

/// Every record has a valid key.
pub open spec fn valid_records(records: Seq<(KeyView, (StorageClass, Seq<u8>))>) -> bool {
    forall|i: int| 0 <= i < records.len() ==> valid_key(#[trigger] records[i].0)
}

/// The map described by a sequence of records with distinct keys.
pub open spec fn records_map(records: Seq<(KeyView, (StorageClass, Seq<u8>))>) -> StoreView {
    Map::new(
        |k: KeyView| exists|i: int| 0 <= i < records.len() && #[trigger] records[i].0 == k,
        |k: KeyView| records[key_index(records, k)].1,
    )
}

/// The position of the record holding `k`.
pub open spec fn key_index(records: Seq<(KeyView, (StorageClass, Seq<u8>))>, k: KeyView) -> int {
    choose|i: int| 0 <= i < records.len() && #[trigger] records[i].0 == k
}

pub proof fn lemma_records_map_at(records: Seq<(KeyView, (StorageClass, Seq<u8>))>, i: int)
    requires
        sorted_records(records),
        0 <= i < records.len(),
    ensures
        records_map(records).contains_key(records[i].0),
        records_map(records)[records[i].0] == records[i].1,
{
    let k = records[i].0;
    assert(exists|j: int| 0 <= j < records.len() && #[trigger] records[j].0 == k);
    let c = key_index(records, k);
    assert(records_map(records)[k] == records[c].1);
    if c != i {
        if c < i {
            lemma_key_lt_irreflexive(k);
            assert(key_lt(records[c].0, records[i].0));
        } else {
            lemma_key_lt_irreflexive(k);
            assert(key_lt(records[i].0, records[c].0));
        }
    }
}

/// File-backed daemon store. All access requires a [`TenantKey`].
pub struct Store {
    entries: Vec<Entry>,
}

impl Store {
    /// The store's records in key order.
    pub closed spec fn records(&self) -> Seq<(KeyView, (StorageClass, Seq<u8>))> {
        self.entries@.map_values(|e: Entry| (e.key@, e.value@))
    }

    /// The store's invariant: records strictly ordered by key, every key valid.
    pub closed spec fn wf(&self) -> bool {
        sorted_records(self.records()) && valid_records(self.records())
    }

    pub open spec fn view(&self) -> StoreView {
        records_map(self.records())
    }

    pub proof fn lemma_records(&self)
        requires
            self.wf(),
        ensures
            sorted_records(self.records()),
            valid_records(self.records()),
            self.view() == records_map(self.records()),
    {
    }

    /// Every key a store holds is valid.
    pub proof fn lemma_view_key_valid(&self, k: KeyView)
        requires
            self.wf(),
            self.view().contains_key(k),
        ensures
            valid_key(k),
    {
        let recs = self.records();
        let i = choose|i: int| 0 <= i < recs.len() && #[trigger] recs[i].0 == k;
        assert(valid_key(recs[i].0));
    }

    /// The number of records.
    pub(crate) fn record_count(&self) -> (r: usize)
        ensures
            r == self.records().len(),
    {
        self.entries.len()
    }

    /// The record at a position of key order.
    pub(crate) fn record_at(&self, i: usize) -> (r: (&TenantKey, &StoredValue))
        requires
            i < self.records().len(),
        ensures
            (r.0@, r.1@) == self.records()[i as int],
    {
        let entry = &self.entries[i];
        (&entry.key, &entry.value)
    }

    /// A copy of the store, record for record.
    pub fn snapshot(&self) -> (r: Store)
        requires
            self.wf(),
        ensures
            r.wf(),
            r.records() == self.records(),
            r.view() == self.view(),
    {
        let mut entries: Vec<Entry> = Vec::new();
        let mut i: usize = 0;
        while i < self.entries.len()
            invariant
                i <= self.entries.len(),
                entries@.map_values(|e: Entry| (e.key@, e.value@)) == self.records().take(i as int),
            decreases self.entries.len() - i,
        {
            let mut bytes: Vec<u8> = Vec::new();
            push_all(&mut bytes, self.entries[i].value.bytes.as_slice());
            let entry = Entry {
                key: self.entries[i].key.clone(),
                value: StoredValue { class: self.entries[i].value.class, bytes },
            };
            let ghost before = entries@;
            assert(self.records()[i as int] == (self.entries[i as int].key@, self.entries[i as int].value@));
            assert(entry.value@ == self.entries[i as int].value@);
            entries.push(entry);
            proof {
                assert(self.records().take(i + 1) =~= self.records().take(i as int).push(self.records()[i as int]));
                assert(entries@ =~= before.push(entry));
                assert(entries@.map_values(|e: Entry| (e.key@, e.value@)) =~= before.map_values(|e: Entry| (e.key@, e.value@)).push((entry.key@, entry.value@)));
                assert(entries@.map_values(|e: Entry| (e.key@, e.value@)) =~= self.records().take(i + 1));
            }
            i = i + 1;
        }
        let r = Store { entries };
        assert(r.records() =~= self.records());
        r
    }

    /// An empty store.
    pub fn new() -> (r: Self)
        ensures
            r.wf(),
            r.view() == StoreView::empty(),
            r.records().len() == 0,
    {
        let r = Store { entries: Vec::new() };
        assert(r.view() =~= StoreView::empty());
        r
    }

    /// Locates `key`: `Ok(i)` at its record, or `Err(p)` at its insertion point.
    fn find(&self, key: &TenantKey) -> (r: Result<usize, usize>)
        requires
            self.wf(),
        ensures
            r matches Ok(i) ==> i < self.records().len() && self.records()[i as int].0 == key@,
            r matches Err(p) ==> p <= self.records().len() && (forall|j: int|
                0 <= j < p ==> key_lt(#[trigger] self.records()[j].0, key@)) && (forall|j: int|
                p <= j < self.records().len() ==> key_lt(key@, #[trigger] self.records()[j].0)),
    {
        let ghost recs = self.records();
        let mut i: usize = 0;
        while i < self.entries.len()
            invariant
                recs == self.records(),
                sorted_records(recs),
                recs.len() == self.entries.len(),
                i <= self.entries.len(),
                forall|j: int| 0 <= j < i ==> key_lt(#[trigger] recs[j].0, key@),
            decreases self.entries.len() - i,
        {
            assert(recs[i as int].0 == self.entries[i as int].key@);
            match compare_keys(&self.entries[i].key, key) {
                Precedence::Same => {
                    return Ok(i);
                },
                Precedence::After => {
                    assert forall|j: int| i <= j < recs.len() implies key_lt(
                        key@,
                        #[trigger] recs[j].0,
                    ) by {
                        if j > i {
                            lemma_key_lt_transitive(key@, recs[i as int].0, recs[j].0);
                        }
                    }
                    return Err(i);
                },
                Precedence::Before => {},
            }
            i = i + 1;
        }
        Err(i)
    }

    /// Reads an object. There is deliberately no unscoped read API.
    pub fn get(&self, key: &TenantKey) -> (r: Option<&StoredValue>)
        requires
            self.wf(),
        ensures
            r is Some <==> self.view().contains_key(key@),
            r matches Some(v) ==> v@ == self.view()[key@],
    {
        match self.find(key) {
            Ok(i) => {
                proof {
                    lemma_records_map_at(self.records(), i as int);
                }
                Some(&self.entries[i].value)
            },
            Err(p) => {
                proof {
                    let recs = self.records();
                    if self.view().contains_key(key@) {
                        let j = choose|j: int| 0 <= j < recs.len() && #[trigger] recs[j].0 == key@;
                        lemma_key_lt_irreflexive(key@);
                        if j < p {
                            assert(key_lt(recs[j].0, key@));
                        } else {
                            assert(key_lt(key@, recs[j].0));
                        }
                    }
                }
                None
            },
        }
    }

    /// Lists tenant-scoped object identifiers in deterministic key order.
    pub fn list_object_ids(&self, tenant: &TenantId, kind: ObjectKind) -> (r: Vec<Vec<u8>>)
        requires
            self.wf(),
        ensures
            strictly_ascending(r@),
            forall|id: Seq<u8>|
                #[trigger] ids_contain(r@, id) <==> self.view().contains_key(
                    KeyView { tenant: tenant@, kind, object_id: id },
                ),
    {
        let ghost recs = self.records();
        let mut out: Vec<Vec<u8>> = Vec::new();
        let mut i: usize = 0;
        while i < self.entries.len()
            invariant
                recs == self.records(),
                sorted_records(recs),
                recs.len() == self.entries.len(),
                i <= self.entries.len(),
                strictly_ascending(out@),
                forall|id: Seq<u8>|
                    #[trigger] ids_contain(out@, id) <==> selected_upto(recs, tenant@, kind, i as int, id),
                forall|a: int, j: int|
                    0 <= a < out.len() && i <= j < recs.len() && recs[j].0.tenant == tenant@
                        && recs[j].0.kind == kind ==> lex_lt(
                        #[trigger] out@[a]@,
                        #[trigger] recs[j].0.object_id,
                    ),
            decreases self.entries.len() - i,
        {
            let entry = &self.entries[i];
            assert(recs[i as int].0 == entry.key@);
            let ghost old_out = out@;
            if entry.key.tenant.same(tenant) && entry.key.kind == kind {
                let mut id: Vec<u8> = Vec::new();
                push_all(&mut id, entry.key.object_id.as_slice());
                assert(id@ =~= recs[i as int].0.object_id);
                out.push(id);
                proof {
                    assert forall|a: int, j: int|
                        0 <= a < out.len() && i + 1 <= j < recs.len() && recs[j].0.tenant == tenant@
                            && recs[j].0.kind == kind implies lex_lt(
                        #[trigger] out@[a]@,
                        #[trigger] recs[j].0.object_id,
                    ) by {
                        assert(key_lt(recs[i as int].0, recs[j].0));
                        lemma_lex_irreflexive(text_bytes(tenant@));
                        if a < old_out.len() {
                            assert(out@[a] == old_out[a]);
                        }
                    }
                    assert forall|a: int, b: int| 0 <= a < b < out.len() implies lex_lt(
                        #[trigger] out@[a]@,
                        #[trigger] out@[b]@,
                    ) by {
                        if b < old_out.len() {
                            assert(out@[a] == old_out[a] && out@[b] == old_out[b]);
                        } else {
                            assert(out@[a] == old_out[a]);
                        }
                    }
                    assert forall|id2: Seq<u8>|
                        #[trigger] ids_contain(out@, id2) <==> selected_upto(
                            recs,
                            tenant@,
                            kind,
                            i + 1,
                            id2,
                        ) by {
                        if ids_contain(out@, id2) {
                            let a = choose|a: int| 0 <= a < out@.len() && #[trigger] out@[a]@ == id2;
                            if a < old_out.len() {
                                assert(old_out[a]@ == id2);
                                assert(ids_contain(old_out, id2));
                                assert(selected_upto(recs, tenant@, kind, i as int, id2));
                                let j = choose|j: int|
                                    0 <= j < i && #[trigger] selects(recs[j].0, tenant@, kind, id2);
                                assert(selects(recs[j].0, tenant@, kind, id2));
                            } else {
                                assert(recs[i as int].0.object_id == id2);
                                assert(selects(recs[i as int].0, tenant@, kind, id2));
                            }
                        }
                        if selected_upto(recs, tenant@, kind, i + 1, id2) {
                            let j = choose|j: int|
                                0 <= j < i + 1 && #[trigger] selects(recs[j].0, tenant@, kind, id2);
                            if j < i {
                                assert(selected_upto(recs, tenant@, kind, i as int, id2));
                                assert(ids_contain(old_out, id2));
                                let a = choose|a: int| 0 <= a < old_out.len() && #[trigger] old_out[a]@ == id2;
                                assert(out@[a] == old_out[a]);
                            } else {
                                assert(out@[old_out.len() as int]@ == id2);
                            }
                        }
                    }
                }
            } else {
                proof {
                    assert forall|id2: Seq<u8>|
                        #[trigger] ids_contain(out@, id2) <==> selected_upto(
                            recs,
                            tenant@,
                            kind,
                            i + 1,
                            id2,
                        ) by {
                        if selected_upto(recs, tenant@, kind, i + 1, id2) {
                            let j = choose|j: int|
                                0 <= j < i + 1 && #[trigger] selects(recs[j].0, tenant@, kind, id2);
                            assert(j < i);
                            assert(selected_upto(recs, tenant@, kind, i as int, id2));
                        }
                        if ids_contain(out@, id2) {
                            assert(selected_upto(recs, tenant@, kind, i as int, id2));
                            let j = choose|j: int|
                                0 <= j < i && #[trigger] selects(recs[j].0, tenant@, kind, id2);
                            assert(selects(recs[j].0, tenant@, kind, id2));
                        }
                    }
                }
            }
            i = i + 1;
        }
        proof {
            assert forall|id: Seq<u8>|
                #[trigger] ids_contain(out@, id) <==> self.view().contains_key(
                    KeyView { tenant: tenant@, kind, object_id: id },
                ) by {
                let k = KeyView { tenant: tenant@, kind, object_id: id };
                if self.view().contains_key(k) {
                    let j = choose|j: int| 0 <= j < recs.len() && #[trigger] recs[j].0 == k;
                    assert(selects(recs[j].0, tenant@, kind, id));
                    assert(selected_upto(recs, tenant@, kind, i as int, id));
                }
                if ids_contain(out@, id) {
                    let j = choose|j: int| 0 <= j < i && #[trigger] selects(recs[j].0, tenant@, kind, id);
                    assert(recs[j].0 == k);
                }
            }
        }
        out
    }

    /// Inserts or replaces the record for `key`.
    pub(crate) fn put(&mut self, key: TenantKey, class: StorageClass, bytes: Vec<u8>)
        requires
            old(self).wf(),
        ensures
            final(self).wf(),
            final(self).view() == old(self).view().insert(key@, (class, bytes@)),
    {
        let ghost k = key@;
        let ghost v = (class, bytes@);
        let ghost recs = self.records();
        proof {
            use_type_invariant(&key);
            use_type_invariant(&key.tenant);
        }
        let found = self.find(&key);
        match found {
            Ok(i) => {
                self.entries.set(i, Entry { key, value: StoredValue { class, bytes } });
                let ghost nrecs = self.records();
                assert(nrecs =~= recs.update(i as int, (k, v)));
                assert(valid_records(nrecs));
                assert(sorted_records(nrecs)) by {
                    assert forall|a: int, b: int| 0 <= a < b < nrecs.len() implies key_lt(
                        #[trigger] nrecs[a].0,
                        #[trigger] nrecs[b].0,
                    ) by {
                        assert(key_lt(recs[a].0, recs[b].0));
                    }
                }
                proof {
                    self.lemma_update_view(recs, i as int, k, v);
                }
            },
            Err(p) => {
                self.entries.insert(p, Entry { key, value: StoredValue { class, bytes } });
                let ghost nrecs = self.records();
                assert(nrecs =~= recs.insert(p as int, (k, v)));
                assert(valid_records(nrecs)) by {
                    assert forall|a: int| 0 <= a < nrecs.len() implies valid_key(
                        #[trigger] nrecs[a].0,
                    ) by {
                        if a > p {
                            assert(nrecs[a] == recs[a - 1]);
                        }
                    }
                }
                assert(sorted_records(nrecs)) by {
                    assert forall|a: int, b: int| 0 <= a < b < nrecs.len() implies key_lt(
                        #[trigger] nrecs[a].0,
                        #[trigger] nrecs[b].0,
                    ) by {
                        if a < p && b > p {
                            assert(key_lt(recs[a].0, recs[b - 1].0));
                        } else if a < p && b < p {
                            assert(key_lt(recs[a].0, recs[b].0));
                        } else if a > p {
                            assert(key_lt(recs[a - 1].0, recs[b - 1].0));
                        }
                    }
                }
                proof {
                    self.lemma_insert_view(recs, p as int, k, v);
                }
            },
        }
    }

    proof fn lemma_update_view(
        &self,
        recs: Seq<(KeyView, (StorageClass, Seq<u8>))>,
        i: int,
        k: KeyView,
        v: (StorageClass, Seq<u8>),
    )
        requires
            sorted_records(recs),
            0 <= i < recs.len(),
            recs[i].0 == k,
            self.records() == recs.update(i, (k, v)),
            sorted_records(self.records()),
        ensures
            self.view() == records_map(recs).insert(k, v),
    {
        let n = self.records();
        let m = records_map(recs).insert(k, v);
        assert forall|key: KeyView| self.view().contains_key(key) <==> m.contains_key(key) by {
            if m.contains_key(key) && key != k {
                let j = choose|j: int| 0 <= j < recs.len() && #[trigger] recs[j].0 == key;
                assert(n[j].0 == key);
            }
            if self.view().contains_key(key) && key != k {
                let j = choose|j: int| 0 <= j < n.len() && #[trigger] n[j].0 == key;
                assert(recs[j].0 == key);
            }
            if key == k {
                assert(n[i].0 == key);
            }
        }
        assert forall|key: KeyView| #[trigger] self.view().contains_key(key) implies self.view()[key]
            == m[key] by {
            let j = choose|j: int| 0 <= j < n.len() && #[trigger] n[j].0 == key;
            lemma_records_map_at(n, j);
            if j != i {
                lemma_records_map_at(recs, j);
                lemma_key_lt_irreflexive(k);
                if j < i {
                    assert(key_lt(recs[j].0, recs[i].0));
                } else {
                    assert(key_lt(recs[i].0, recs[j].0));
                }
            }
        }
        assert(self.view() =~= m);
    }

    proof fn lemma_insert_view(
        &self,
        recs: Seq<(KeyView, (StorageClass, Seq<u8>))>,
        p: int,
        k: KeyView,
        v: (StorageClass, Seq<u8>),
    )
        requires
            sorted_records(recs),
            0 <= p <= recs.len(),
            self.records() == recs.insert(p, (k, v)),
            sorted_records(self.records()),
        ensures
            self.view() == records_map(recs).insert(k, v),
    {
        let n = self.records();
        let m = records_map(recs).insert(k, v);
        assert forall|key: KeyView| self.view().contains_key(key) <==> m.contains_key(key) by {
            if m.contains_key(key) && key != k {
                let j = choose|j: int| 0 <= j < recs.len() && #[trigger] recs[j].0 == key;
                if j < p {
                    assert(n[j].0 == key);
                } else {
                    assert(n[j + 1].0 == key);
                }
            }
            if self.view().contains_key(key) && key != k {
                let j = choose|j: int| 0 <= j < n.len() && #[trigger] n[j].0 == key;
                if j < p {
                    assert(recs[j].0 == key);
                } else {
                    assert(recs[j - 1].0 == key);
                }
            }
            if key == k {
                assert(n[p].0 == key);
            }
        }
        assert forall|key: KeyView| #[trigger] self.view().contains_key(key) implies self.view()[key]
            == m[key] by {
            let j = choose|j: int| 0 <= j < n.len() && #[trigger] n[j].0 == key;
            lemma_records_map_at(n, j);
            lemma_key_lt_irreflexive(k);
            if j < p {
                lemma_records_map_at(recs, j);
                assert(key_lt(n[j].0, n[p].0));
            } else if j > p {
                lemma_records_map_at(recs, j - 1);
                assert(key_lt(n[p].0, n[j].0));
            }
        }
        assert(self.view() =~= m);
    }

    proof fn lemma_remove_view(&self, recs: Seq<(KeyView, (StorageClass, Seq<u8>))>, i: int)
        requires
            sorted_records(recs),
            0 <= i < recs.len(),
            self.records() == recs.remove(i),
        ensures
            sorted_records(self.records()),
            self.view() == records_map(recs).remove(recs[i].0),
    {
        let n = self.records();
        let k = recs[i].0;
        assert(sorted_records(n)) by {
            assert forall|a: int, b: int| 0 <= a < b < n.len() implies key_lt(
                #[trigger] n[a].0,
                #[trigger] n[b].0,
            ) by {
                if b < i {
                    assert(key_lt(recs[a].0, recs[b].0));
                } else if a < i {
                    assert(key_lt(recs[a].0, recs[b + 1].0));
                } else {
                    assert(key_lt(recs[a + 1].0, recs[b + 1].0));
                }
            }
        }
        let m = records_map(recs).remove(k);
        assert forall|key: KeyView| self.view().contains_key(key) <==> m.contains_key(key) by {
            if m.contains_key(key) {
                let j = choose|j: int| 0 <= j < recs.len() && #[trigger] recs[j].0 == key;
                if j < i {
                    assert(n[j].0 == key);
                } else {
                    assert(n[j - 1].0 == key);
                }
            }
            if self.view().contains_key(key) {
                let j = choose|j: int| 0 <= j < n.len() && #[trigger] n[j].0 == key;
                lemma_key_lt_irreflexive(k);
                if j < i {
                    assert(recs[j].0 == key);
                    assert(key_lt(recs[j].0, recs[i].0));
                } else {
                    assert(recs[j + 1].0 == key);
                    assert(key_lt(recs[i].0, recs[j + 1].0));
                }
            }
        }
        assert forall|key: KeyView| #[trigger] self.view().contains_key(key) implies self.view()[key]
            == m[key] by {
            let j = choose|j: int| 0 <= j < n.len() && #[trigger] n[j].0 == key;
            lemma_records_map_at(n, j);
            lemma_key_lt_irreflexive(k);
            if j < i {
                lemma_records_map_at(recs, j);
                assert(key_lt(recs[j].0, recs[i].0));
            } else {
                lemma_records_map_at(recs, j + 1);
                assert(key_lt(recs[i].0, recs[j + 1].0));
            }
        }
        assert(self.view() =~= m);
    }

    /// Stores daemon-local bytes in memory; [`Store::put_local_durably`] also writes the image.
    pub fn put_local(&mut self, key: TenantKey, bytes: Vec<u8>) -> (r: Result<(), StoreError>)
        requires
            old(self).wf(),
        ensures
            final(self).wf(),
            r is Ok,
            final(self).view() == old(self).view().insert(key@, (StorageClass::LocalOnly, bytes@)),
    {
        self.put(key, StorageClass::LocalOnly, bytes);
        Ok(())
    }

    /// Stores exact core-produced bytes as a rebuildable cache in memory;
    /// [`Store::put_core_cache_durably`] also writes the image.
    pub fn put_core_cache(&mut self, key: TenantKey, bytes: Vec<u8>) -> (r: Result<(), StoreError>)
        requires
            old(self).wf(),
        ensures
            final(self).wf(),
            r is Ok,
            final(self).view() == old(self).view().insert(
                key@,
                (StorageClass::CoreProducedCache, bytes@),
            ),
    {
        self.put(key, StorageClass::CoreProducedCache, bytes);
        Ok(())
    }

    /// Removes one daemon-local object in memory; core-produced cache is never removed.
    /// [`Store::remove_local_durably`] also writes the image and restores the object when
    /// that fails.
    pub fn remove_local(&mut self, key: &TenantKey) -> (r: Result<bool, StoreError>)
        requires
            old(self).wf(),
        ensures
            final(self).wf(),
            !old(self).view().contains_key(key@) ==> r == Ok::<bool, StoreError>(false)
                && final(self).view() == old(self).view(),
            old(self).view().contains_key(key@) && old(self).view()[key@].0
                == StorageClass::LocalOnly ==> r == Ok::<bool, StoreError>(true)
                && final(self).view() == old(self).view().remove(key@),
            old(self).view().contains_key(key@) && old(self).view()[key@].0
                == StorageClass::CoreProducedCache ==> (r matches Err(e) && e is Corrupt)
                && final(self).view() == old(self).view(),
    {
        let ghost recs = self.records();
        match self.find(key) {
            Err(p) => {
                proof {
                    if self.view().contains_key(key@) {
                        let j = choose|j: int| 0 <= j < recs.len() && #[trigger] recs[j].0 == key@;
                        lemma_key_lt_irreflexive(key@);
                        if j < p {
                            assert(key_lt(recs[j].0, key@));
                        } else {
                            assert(key_lt(key@, recs[j].0));
                        }
                    }
                }
                Ok(false)
            },
            Ok(i) => {
                proof {
                    lemma_records_map_at(recs, i as int);
                }
                if self.entries[i].value.class != StorageClass::LocalOnly {
                    return Err(StoreError::Corrupt("attempted to remove core-produced cache"));
                }
                self.entries.remove(i);
                proof {
                    assert(self.records() =~= recs.remove(i as int));
                    self.lemma_remove_view(recs, i as int);
                }
                Ok(true)
            },
        }
    }

    /// Records, in memory and all at once, the three local records required before
    /// transmission ([`Store::record_submission_durably`] also writes the image):
    /// the signed bytes, the outbox state and a pending idempotency marker.
    pub fn record_submission(
        &mut self,
        tenant: TenantId,
        idempotency_key: Vec<u8>,
        signed_bytes: Vec<u8>,
        outbox_state: Vec<u8>,
    ) -> (r: Result<(), StoreError>)
        requires
            old(self).wf(),
        ensures
            final(self).wf(),
            r is Ok <==> valid_object_id(idempotency_key@),
            r matches Err(e) ==> e is InvalidObjectId && final(self).view() == old(self).view(),
            r is Ok ==> final(self).view() == with_submission(
                old(self).view(),
                tenant@,
                idempotency_key@,
                signed_bytes@,
                outbox_state@,
            ),
    {
        let mut id_a: Vec<u8> = Vec::new();
        push_all(&mut id_a, idempotency_key.as_slice());
        let mut id_b: Vec<u8> = Vec::new();
        push_all(&mut id_b, idempotency_key.as_slice());
        let prepared_key = TenantKey::new(tenant.clone(), ObjectKind::PreparedActivity, id_a)?;
        let outbox_key = TenantKey::new(tenant.clone(), ObjectKind::Outbox, id_b)?;
        let idempotency_record = TenantKey::new(tenant, ObjectKind::Idempotency, idempotency_key)?;
        self.put(prepared_key, StorageClass::LocalOnly, signed_bytes);
        self.put(outbox_key, StorageClass::LocalOnly, outbox_state);
        self.put(idempotency_record, StorageClass::LocalOnly, pending_bytes());
        Ok(())
    }

    /// Restores cache entries obtained again from the core after local deletion, in memory;
    /// [`Store::restore_core_cache_durably`] also writes the image.
    pub fn restore_core_cache(&mut self, entries: Vec<(TenantKey, Vec<u8>)>) -> (r: Result<
        (),
        StoreError,
    >)
        requires
            old(self).wf(),
        ensures
            final(self).wf(),
            r is Ok,
            final(self).view() == insert_all(
                old(self).view(),
                entries@.map_values(|e: (TenantKey, Vec<u8>)| e.0@),
                StorageClass::CoreProducedCache,
                entries@.map_values(|e: (TenantKey, Vec<u8>)| e.1@),
            ),
    {
        let ghost keys = entries@.map_values(|e: (TenantKey, Vec<u8>)| e.0@);
        let ghost values = entries@.map_values(|e: (TenantKey, Vec<u8>)| e.1@);
        let ghost start = self.view();
        let mut remaining = entries;
        let ghost total = keys.len();
        let ghost original = remaining@;
        while remaining.len() > 0
            invariant
                self.wf(),
                keys.len() == total,
                values.len() == total,
                original.len() == total,
                keys == original.map_values(|e: (TenantKey, Vec<u8>)| e.0@),
                values == original.map_values(|e: (TenantKey, Vec<u8>)| e.1@),
                remaining.len() <= total,
                remaining@ == original.skip(total - remaining.len()),
                self.view() == insert_all(
                    start,
                    keys.take(total - remaining.len()),
                    StorageClass::CoreProducedCache,
                    values.take(total - remaining.len()),
                ),
            decreases remaining.len(),
        {
            let ghost done = total - remaining.len();
            let (key, bytes) = remaining.remove(0);
            proof {
                assert(original[done] == (key, bytes));
                assert(keys.take(done + 1).drop_last() =~= keys.take(done));
                assert(values.take(done + 1).drop_last() =~= values.take(done));
                assert(remaining@ =~= original.skip(total - remaining.len()));
            }
            self.put(key, StorageClass::CoreProducedCache, bytes);
        }
        proof {
            assert(keys.take(total as int) =~= keys);
            assert(values.take(total as int) =~= values);
        }
        Ok(())
    }

    /// Records, in memory and all at once ([`Store::record_verified_receipt_durably`] also
    /// writes the image), byte-identical core receipt indexes and local verification
    /// metadata, rejecting any conflicting existing index.
    pub fn record_verified_receipt(
        &mut self,
        receipt_keys: &[TenantKey],
        receipt_bytes: &[u8],
        metadata_key: TenantKey,
        metadata: Vec<u8>,
    ) -> (r: Result<(), StoreError>)
        requires
            old(self).wf(),
        ensures
            final(self).wf(),
            r is Ok <==> receipt_record_acceptable(
                old(self).view(),
                receipt_keys@.map_values(|k: TenantKey| k@),
                receipt_bytes@,
                metadata_key@,
                metadata@,
            ),
            r matches Err(e) ==> e is Corrupt && final(self).view() == old(self).view(),
            r is Ok ==> final(self).view() == insert_all(
                old(self).view(),
                receipt_keys@.map_values(|k: TenantKey| k@),
                StorageClass::CoreProducedCache,
                Seq::new(receipt_keys@.len(), |_i: int| receipt_bytes@),
            ).insert(metadata_key@, (StorageClass::LocalOnly, metadata@)),
    {
        let ghost keys = receipt_keys@.map_values(|k: TenantKey| k@);
        let ghost start = self.view();
        assert(receipt_keys@.len() == keys.len());
        if receipt_keys.len() == 0 || metadata_key.kind != ObjectKind::Configuration {
            assert(keys.len() == 0 || metadata_key@.kind != ObjectKind::Configuration);
            return Err(StoreError::Corrupt("invalid verified receipt record"));
        }
        let mut i: usize = 0;
        while i < receipt_keys.len()
            invariant
                self.wf(),
                start == self.view(),
                i <= receipt_keys.len(),
                keys == receipt_keys@.map_values(|k: TenantKey| k@),
                forall|j: int| 0 <= j < i ==> #[trigger] keys[j].kind == ObjectKind::Receipt,
            decreases receipt_keys.len() - i,
        {
            assert(keys[i as int] == receipt_keys[i as int]@);
            if receipt_keys[i].kind != ObjectKind::Receipt {
                assert(keys[i as int].kind != ObjectKind::Receipt);
                return Err(StoreError::Corrupt("invalid verified receipt record"));
            }
            i = i + 1;
        }
        let mut i: usize = 0;
        while i < receipt_keys.len()
            invariant
                self.wf(),
                start == self.view(),
                i <= receipt_keys.len(),
                keys == receipt_keys@.map_values(|k: TenantKey| k@),
                forall|j: int|
                    0 <= j < i ==> !start.contains_key(#[trigger] keys[j]) || start[keys[j]].1
                        == receipt_bytes@,
            decreases receipt_keys.len() - i,
        {
            assert(keys[i as int] == receipt_keys[i as int]@);
            match self.get(&receipt_keys[i]) {
                Some(value) => {
                    if !bytes_equal(value.bytes.as_slice(), receipt_bytes) {
                        return Err(StoreError::Corrupt("conflicting receipt index"));
                    }
                },
                None => {},
            }
            i = i + 1;
        }
        match self.get(&metadata_key) {
            Some(value) => {
                if !bytes_equal(value.bytes.as_slice(), metadata.as_slice()) {
                    return Err(StoreError::Corrupt("conflicting receipt metadata"));
                }
            },
            None => {},
        }
        let ghost values = Seq::new(receipt_keys@.len(), |_i: int| receipt_bytes@);
        let mut i: usize = 0;
        while i < receipt_keys.len()
            invariant
                self.wf(),
                i <= receipt_keys.len(),
                keys == receipt_keys@.map_values(|k: TenantKey| k@),
                values == Seq::new(receipt_keys@.len(), |_i: int| receipt_bytes@),
                self.view() == insert_all(
                    start,
                    keys.take(i as int),
                    StorageClass::CoreProducedCache,
                    values.take(i as int),
                ),
            decreases receipt_keys.len() - i,
        {
            let mut bytes: Vec<u8> = Vec::new();
            push_all(&mut bytes, receipt_bytes);
            proof {
                assert(keys.take(i + 1).drop_last() =~= keys.take(i as int));
                assert(values.take(i + 1).drop_last() =~= values.take(i as int));
            }
            self.put(receipt_keys[i].clone(), StorageClass::CoreProducedCache, bytes);
            i = i + 1;
        }
        proof {
            assert(keys.take(i as int) =~= keys);
            assert(values.take(i as int) =~= values);
        }
        self.put(metadata_key, StorageClass::LocalOnly, metadata);
        Ok(())
    }
}

/// Whether a list of identifiers holds `id`.
pub open spec fn ids_contain(ids: Seq<Vec<u8>>, id: Seq<u8>) -> bool {
    exists|a: int| 0 <= a < ids.len() && #[trigger] ids[a]@ == id
}

/// A list of identifiers in strictly increasing lexicographic order.
pub open spec fn strictly_ascending(ids: Seq<Vec<u8>>) -> bool {
    forall|a: int, b: int| 0 <= a < b < ids.len() ==> lex_lt(#[trigger] ids[a]@, #[trigger] ids[b]@)
}

/// Whether a key belongs to `tenant` and `kind` with object identifier `id`.
pub open spec fn selects(key: KeyView, tenant: Seq<char>, kind: ObjectKind, id: Seq<u8>) -> bool {
    key.tenant == tenant && key.kind == kind && key.object_id == id
}

/// Whether one of the first `upto` records has the key selected by `tenant`, `kind` and `id`.
pub open spec fn selected_upto(
    records: Seq<(KeyView, (StorageClass, Seq<u8>))>,
    tenant: Seq<char>,
    kind: ObjectKind,
    upto: int,
    id: Seq<u8>,
) -> bool {
    exists|j: int| 0 <= j < upto && #[trigger] selects(records[j].0, tenant, kind, id)
}

/// The marker stored in the idempotency record of a freshly recorded submission.
pub open spec fn pending_marker() -> Seq<u8> {
    seq![112u8, 101u8, 110u8, 100u8, 105u8, 110u8, 103u8]
}

fn pending_bytes() -> (r: Vec<u8>)
    ensures
        r@ == pending_marker(),
{
    let r = vec![112u8, 101u8, 110u8, 100u8, 105u8, 110u8, 103u8];
    assert(r@ =~= pending_marker());
    r
}

/// The map obtained by inserting each key, in order, with the value at the same position.
pub open spec fn insert_all(
    m: StoreView,
    keys: Seq<KeyView>,
    class: StorageClass,
    values: Seq<Seq<u8>>,
) -> StoreView
    decreases keys.len(),
{
    if keys.len() == 0 {
        m
    } else {
        insert_all(m, keys.drop_last(), class, values.drop_last()).insert(
            keys.last(),
            (class, values[keys.len() - 1]),
        )
    }
}

/// When a verified receipt may be recorded: at least one receipt key, every receipt key of
/// kind `Receipt`, a `Configuration` metadata key, and no existing record holding other bytes.
pub open spec fn receipt_record_acceptable(
    view: StoreView,
    keys: Seq<KeyView>,
    receipt: Seq<u8>,
    metadata_key: KeyView,
    metadata: Seq<u8>,
) -> bool {
    &&& keys.len() > 0
    &&& metadata_key.kind == ObjectKind::Configuration
    &&& forall|j: int| 0 <= j < keys.len() ==> #[trigger] keys[j].kind == ObjectKind::Receipt
    &&& forall|j: int|
        0 <= j < keys.len() ==> !view.contains_key(#[trigger] keys[j]) || view[keys[j]].1
            == receipt
    &&& !view.contains_key(metadata_key) || view[metadata_key].1 == metadata
}

/// The object identifiers a store holds for one tenant and kind.
pub open spec fn kind_ids(view: StoreView, tenant: Seq<char>, kind: ObjectKind) -> Set<Seq<u8>> {
    Set::new(|id: Seq<u8>| view.contains_key(KeyView { tenant, kind, object_id: id }))
}

/// A strictly ascending listing of the identifiers of one tenant and kind has as many
/// entries as the store holds such identifiers.
pub proof fn lemma_listing_counts(ids: Seq<Vec<u8>>, view: StoreView, tenant: Seq<char>, kind: ObjectKind)
    requires
        strictly_ascending(ids),
        forall|id: Seq<u8>|
            #[trigger] ids_contain(ids, id) <==> view.contains_key(
                KeyView { tenant, kind, object_id: id },
            ),
    ensures
        ids.len() == kind_ids(view, tenant, kind).len(),
        kind_ids(view, tenant, kind).finite(),
{
    let s = ids.map_values(|v: Vec<u8>| v@);
    assert(s.no_duplicates()) by {
        assert forall|a: int, b: int| 0 <= a < s.len() && 0 <= b < s.len() && a != b implies s[a]
            != s[b] by {
            if a < b {
                assert(lex_lt(ids[a]@, ids[b]@));
                lemma_lex_irreflexive(ids[a]@);
            } else {
                assert(lex_lt(ids[b]@, ids[a]@));
                lemma_lex_irreflexive(ids[b]@);
            }
        }
    }
    assert(s.to_set() =~= kind_ids(view, tenant, kind)) by {
        assert forall|id: Seq<u8>| s.to_set().contains(id) <==> kind_ids(view, tenant, kind).contains(
            id,
        ) by {
            if s.to_set().contains(id) {
                let a = choose|a: int| 0 <= a < s.len() && s[a] == id;
                assert(ids[a]@ == id);
                assert(ids_contain(ids, id));
            }
            if kind_ids(view, tenant, kind).contains(id) {
                assert(ids_contain(ids, id));
                let a = choose|a: int| 0 <= a < ids.len() && #[trigger] ids[a]@ == id;
                assert(s[a] == id);
            }
        }
    }
    s.unique_seq_to_set();
    vstd::seq_lib::seq_to_set_is_finite(s);
}

/// A store after recording a submission: its signed bytes, its outbox state and a
/// pending idempotency marker, all daemon-local and keyed by the idempotency key.
pub open spec fn with_submission(
    view: StoreView,
    tenant: Seq<char>,
    id: Seq<u8>,
    signed: Seq<u8>,
    state: Seq<u8>,
) -> StoreView {
    view.insert(
        KeyView { tenant, kind: ObjectKind::PreparedActivity, object_id: id },
        (StorageClass::LocalOnly, signed),
    ).insert(
        KeyView { tenant, kind: ObjectKind::Outbox, object_id: id },
        (StorageClass::LocalOnly, state),
    ).insert(
        KeyView { tenant, kind: ObjectKind::Idempotency, object_id: id },
        (StorageClass::LocalOnly, pending_marker()),
    )
}

} // verus!
