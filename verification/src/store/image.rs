//! The durable store image: the exact bytes written to disk and read back.
//!
//! Layout: the magic `LXAS`, the schema version and the record count as big-endian `u32`,
//! then per record the tenant (length-prefixed UTF-8), the kind code, the storage class code,
//! the object identifier and the value (both length-prefixed).
use vstd::prelude::*;

use crate::bytes::{
    copy_range, lemma_parse_sized, lemma_u32_at_be, parse_sized, push_sized, push_u32, read_sized,
    read_u32, sized, text_bytes, u32_at, u32_be, valid_identifier,
};
use crate::store::migrate::CURRENT_SCHEMA_VERSION;
use crate::store::{
    class_code, key_lt, kind_code, lemma_key_lt_irreflexive, records_map, valid_key, valid_object_id, valid_records, KeyView, ObjectKind, StorageClass, Store,
    StoreError, TenantId, TenantKey,
};
use crate::text::utf8_text;

verus! {

/// One stored record: its key, storage class and bytes.
pub type Record = (KeyView, (StorageClass, Seq<u8>));

/// The four magic bytes `LXAS`.
pub open spec fn image_magic() -> Seq<u8> {
    seq![76u8, 88u8, 65u8, 83u8]
}

/// The encoding of one record.
pub open spec fn record_bytes(r: Record) -> Seq<u8> {
    sized(text_bytes(r.0.tenant)) + seq![kind_code(r.0.kind), class_code(r.1.0)] + sized(
        r.0.object_id,
    ) + sized(r.1.1)
}

/// The encodings of records, in order.
pub open spec fn records_bytes(recs: Seq<Record>) -> Seq<u8>
    decreases recs.len(),
{
    if recs.len() == 0 {
        Seq::empty()
    } else {
        records_bytes(recs.drop_last()) + record_bytes(recs.last())
    }
}

/// The image of a sequence of records.
pub open spec fn image_bytes(recs: Seq<Record>) -> Seq<u8> {
    image_magic() + u32_be(CURRENT_SCHEMA_VERSION) + u32_be(recs.len() as u32) + records_bytes(recs)
}

/// Every length of a record fits a `u32` length prefix.
pub open spec fn record_fits(r: Record) -> bool {
    &&& text_bytes(r.0.tenant).len() <= u32::MAX
    &&& r.0.object_id.len() <= u32::MAX
    &&& r.1.1.len() <= u32::MAX
}

/// The record count and every record length fit the image's `u32` fields.
pub open spec fn image_fits(recs: Seq<Record>) -> bool {
    &&& recs.len() <= u32::MAX
    &&& forall|i: int| 0 <= i < recs.len() ==> record_fits(#[trigger] recs[i])
}

/// No two records share a key.
pub open spec fn distinct_keys(recs: Seq<Record>) -> bool {
    forall|i: int, j: int| 0 <= i < j < recs.len() ==> (#[trigger] recs[i]).0 != (#[trigger] recs[j]).0
}

/// Stored tenant bytes that decode to a valid tenant identifier.
pub open spec fn tenant_text_ok(t: Seq<u8>) -> bool {
    vstd::utf8::valid_utf8(t) && valid_identifier(vstd::utf8::decode_utf8(t))
}

/// The object kind with a one-byte code.
pub open spec fn kind_of(code: u8) -> ObjectKind {
    if code == 1 {
        ObjectKind::Identity
    } else if code == 2 {
        ObjectKind::Session
    } else if code == 3 {
        ObjectKind::Capability
    } else if code == 4 {
        ObjectKind::Budget
    } else if code == 5 {
        ObjectKind::Policy
    } else if code == 6 {
        ObjectKind::PreparedActivity
    } else if code == 7 {
        ObjectKind::Outbox
    } else if code == 8 {
        ObjectKind::Receipt
    } else if code == 9 {
        ObjectKind::Subscription
    } else if code == 10 {
        ObjectKind::Audit
    } else if code == 11 {
        ObjectKind::Idempotency
    } else {
        ObjectKind::Configuration
    }
}

/// The storage class with a one-byte code.
pub open spec fn class_of(code: u8) -> StorageClass {
    if code == 1 {
        StorageClass::LocalOnly
    } else {
        StorageClass::CoreProducedCache
    }
}

/// Reads one record at `at`: the record and the offset just past it.
#[verifier::opaque]
pub open spec fn parse_record(b: Seq<u8>, at: int) -> Option<(Record, int)> {
    match parse_sized(b, at) {
        None => None,
        Some((t, a1)) => {
            if !tenant_text_ok(t) || a1 + 2 > b.len() || !(1 <= b[a1] <= 12) || !(1 <= b[a1 + 1]
                <= 2) {
                None
            } else {
                match parse_sized(b, a1 + 2) {
                    None => None,
                    Some((id, a2)) => match parse_sized(b, a2) {
                        None => None,
                        Some((v, a3)) => {
                            if !valid_object_id(id) {
                                None
                            } else {
                                Some(
                                    (
                                        (
                                            KeyView {
                                                tenant: vstd::utf8::decode_utf8(t),
                                                kind: kind_of(b[a1]),
                                                object_id: id,
                                            },
                                            (class_of(b[a1 + 1]), v),
                                        ),
                                        a3,
                                    ),
                                )
                            }
                        },
                    },
                }
            }
        },
    }
}

/// Reads `n` consecutive records starting at `at`.
pub open spec fn parse_records(b: Seq<u8>, at: int, n: nat) -> Option<(Seq<Record>, int)>
    decreases n,
{
    if n == 0 {
        Some((Seq::empty(), at))
    } else {
        match parse_records(b, at, (n - 1) as nat) {
            None => None,
            Some((acc, off)) => match parse_record(b, off) {
                None => None,
                Some((r, next)) => Some((acc.push(r), next)),
            },
        }
    }
}

/// Reads a whole image: the records it holds, when it is a current-schema image of
/// well-formed records with distinct keys and no trailing bytes.
pub open spec fn parse_image(b: Seq<u8>) -> Option<Seq<Record>> {
    if b.len() < 12 || b.subrange(0, 4) != image_magic() || u32_at(b, 4) != CURRENT_SCHEMA_VERSION {
        None
    } else {
        match parse_records(b, 12, u32_at(b, 8) as nat) {
            None => None,
            Some((recs, end)) => {
                if end == b.len() && distinct_keys(recs) {
                    Some(recs)
                } else {
                    None
                }
            },
        }
    }
}

/// Renders the exact image of a store's records, in key order.
///
/// # Errors
///
/// Returns `SizeOverflow` when the record count or a length exceeds a `u32`.
pub fn encode_image(store: &Store) -> (r: Result<Vec<u8>, StoreError>)
    ensures
        r is Ok <==> image_fits(store.records()),
        r matches Ok(b) ==> b@ == image_bytes(store.records()),
        r matches Err(e) ==> e is SizeOverflow,
{
    let ghost recs = store.records();
    let n = store.record_count();
    if n > 4294967295usize {
        return Err(StoreError::SizeOverflow);
    }
    let mut out: Vec<u8> = Vec::new();
    out.push(76u8);
    out.push(88u8);
    out.push(65u8);
    out.push(83u8);
    push_u32(&mut out, CURRENT_SCHEMA_VERSION);
    push_u32(&mut out, n as u32);
    let ghost head = out@;
    assert(head =~= image_magic() + u32_be(CURRENT_SCHEMA_VERSION) + u32_be(n as u32));
    let mut i: usize = 0;
    while i < n
        invariant
            i <= n,
            n == recs.len(),
            n <= u32::MAX,
            recs == store.records(),
            head == image_magic() + u32_be(CURRENT_SCHEMA_VERSION) + u32_be(n as u32),
            out@ == head + records_bytes(recs.take(i as int)),
            forall|j: int| 0 <= j < i ==> record_fits(#[trigger] recs[j]),
        decreases n - i,
    {
        let (key, value) = store.record_at(i);
        let ghost r = recs[i as int];
        let tenant_bytes = key.tenant().as_str().as_bytes();
        assert(tenant_bytes@ == text_bytes(r.0.tenant));
        let ghost before = out@;
        if !push_sized(&mut out, tenant_bytes) {
            assert(!record_fits(recs[i as int]));
            return Err(StoreError::SizeOverflow);
        }
        out.push(key.kind().code());
        out.push(value.class().code());
        if !push_sized(&mut out, key.object_id()) {
            assert(!record_fits(recs[i as int]));
            return Err(StoreError::SizeOverflow);
        }
        if !push_sized(&mut out, value.bytes()) {
            assert(!record_fits(recs[i as int]));
            return Err(StoreError::SizeOverflow);
        }
        proof {
            assert(out@ =~= before + record_bytes(r));
            assert(recs.take(i + 1).drop_last() =~= recs.take(i as int));
            assert(recs.take(i + 1).last() == r);
        }
        i = i + 1;
    }
    assert(recs.take(n as int) =~= recs);
    Ok(out)
}

/// Reads the record at `at`.
fn parse_record_at(bytes: &[u8], at: usize) -> (r: Result<
    (TenantKey, StorageClass, Vec<u8>, usize),
    StoreError,
>)
    ensures
        r is Ok <==> parse_record(bytes@, at as int) is Some,
        r matches Ok((k, c, v, end)) ==> parse_record(bytes@, at as int) == Some(
            ((k@, (c, v@)), end as int),
        ),
        r matches Err(e) ==> e is Corrupt || e is InvalidTenant || e is InvalidObjectId,
{
    proof {
        reveal(parse_record);
    }
    let (ts, te) = match read_sized(bytes, at) {
        Some(span) => span,
        None => {
            return Err(StoreError::Corrupt("truncated value"));
        },
    };
    let tenant_bytes = copy_range(bytes, ts, te - ts);
    let text = match utf8_text(tenant_bytes.as_slice()) {
        Some(text) => text,
        None => {
            return Err(StoreError::Corrupt("tenant is not UTF-8"));
        },
    };
    proof {
        vstd::utf8::encode_utf8_decode_utf8(text@);
        assert(vstd::utf8::decode_utf8(tenant_bytes@) == text@);
    }
    let tenant = TenantId::new(text)?;
    if bytes.len() - te < 2 {
        return Err(StoreError::Corrupt("truncated value"));
    }
    let kind = ObjectKind::from_byte(bytes[te])?;
    let class = StorageClass::from_byte(bytes[te + 1])?;
    let (is, ie) = match read_sized(bytes, te + 2) {
        Some(span) => span,
        None => {
            return Err(StoreError::Corrupt("truncated value"));
        },
    };
    let object_id = copy_range(bytes, is, ie - is);
    let (vs, ve) = match read_sized(bytes, ie) {
        Some(span) => span,
        None => {
            return Err(StoreError::Corrupt("truncated value"));
        },
    };
    let value = copy_range(bytes, vs, ve - vs);
    let key = TenantKey::new(tenant, kind, object_id)?;
    proof {
        assert(kind_of(bytes@[te as int]) == kind);
        assert(class_of(bytes@[te + 1]) == class);
    }
    Ok((key, class, value, ve))
}

/// Reading `n` records that succeeds also reads every shorter prefix of them.
pub proof fn lemma_parse_records_prefix(b: Seq<u8>, at: int, m: nat, n: nat)
    requires
        m <= n,
        parse_records(b, at, n) is Some,
    ensures
        parse_records(b, at, m) is Some,
        parse_records(b, at, m).unwrap().0 == parse_records(b, at, n).unwrap().0.take(m as int),
    decreases n,
{
    lemma_parse_records_len(b, at, n);
    if m < n {
        lemma_parse_records_len(b, at, (n - 1) as nat);
        lemma_parse_records_prefix(b, at, m, (n - 1) as nat);
        let prev = parse_records(b, at, (n - 1) as nat).unwrap().0;
        let full = parse_records(b, at, n).unwrap().0;
        assert(full.take(m as int) =~= prev.take(m as int));
    } else {
        assert(parse_records(b, at, n).unwrap().0.take(n as int) =~= parse_records(
            b,
            at,
            n,
        ).unwrap().0);
    }
}

/// Reading `n` records yields exactly `n` records.
pub proof fn lemma_parse_records_len(b: Seq<u8>, at: int, n: nat)
    requires
        parse_records(b, at, n) is Some,
    ensures
        parse_records(b, at, n).unwrap().0.len() == n,
    decreases n,
{
    if n > 0 {
        lemma_parse_records_len(b, at, (n - 1) as nat);
    }
}

/// Adding a record with a new key to records with distinct keys adds that key to their map.
pub proof fn lemma_records_map_push(acc: Seq<Record>, r: Record)
    requires
        distinct_keys(acc),
        forall|j: int| 0 <= j < acc.len() ==> (#[trigger] acc[j]).0 != r.0,
    ensures
        distinct_keys(acc.push(r)),
        records_map(acc.push(r)) == records_map(acc).insert(r.0, r.1),
{
    let n = acc.push(r);
    let m = records_map(acc).insert(r.0, r.1);
    assert forall|i: int, j: int| 0 <= i < j < n.len() implies (#[trigger] n[i]).0 != (
    #[trigger] n[j]).0 by {
        if j < acc.len() {
            assert(n[i] == acc[i] && n[j] == acc[j]);
        } else {
            assert(n[i] == acc[i]);
        }
    }
    assert forall|k: KeyView| records_map(n).contains_key(k) <==> m.contains_key(k) by {
        if m.contains_key(k) && k != r.0 {
            let j = choose|j: int| 0 <= j < acc.len() && #[trigger] acc[j].0 == k;
            assert(n[j].0 == k);
        }
        if records_map(n).contains_key(k) && k != r.0 {
            let j = choose|j: int| 0 <= j < n.len() && #[trigger] n[j].0 == k;
            assert(acc[j].0 == k);
        }
        if k == r.0 {
            assert(n[acc.len() as int].0 == k);
        }
    }
    assert forall|k: KeyView| #[trigger] records_map(n).contains_key(k) implies records_map(n)[k]
        == m[k] by {
        let c = choose|i: int| 0 <= i < n.len() && #[trigger] n[i].0 == k;
        if k == r.0 {
            assert(c == acc.len());
        } else {
            let d = choose|i: int| 0 <= i < acc.len() && #[trigger] acc[i].0 == k;
            assert(n[d].0 == k);
            assert(c == d);
        }
    }
    assert(records_map(n) =~= m);
}

/// Decodes a store image.
///
/// # Errors
///
/// Returns `Corrupt`, `InvalidTenant` or `InvalidObjectId` for bytes that are not a
/// current-schema image of valid records with distinct keys and nothing after them.
pub fn decode_image(bytes: &[u8]) -> (r: Result<Store, StoreError>)
    ensures
        r is Ok <==> parse_image(bytes@) is Some,
        r matches Ok(s) ==> s.wf() && s.view() == records_map(parse_image(bytes@).unwrap()),
        r matches Err(e) ==> e is Corrupt || e is InvalidTenant || e is InvalidObjectId,
{
    if bytes.len() < 4 {
        return Err(StoreError::Corrupt("truncated value"));
    }
    if bytes[0] != 76u8 || bytes[1] != 88u8 || bytes[2] != 65u8 || bytes[3] != 83u8 {
        assert(bytes@.subrange(0, 4) != image_magic()) by {
            assert(bytes@.subrange(0, 4)[0] == bytes@[0]);
            assert(bytes@.subrange(0, 4)[1] == bytes@[1]);
            assert(bytes@.subrange(0, 4)[2] == bytes@[2]);
            assert(bytes@.subrange(0, 4)[3] == bytes@[3]);
        }
        return Err(StoreError::Corrupt("invalid magic"));
    }
    assert(bytes@.subrange(0, 4) =~= image_magic());
    if bytes.len() < 8 {
        return Err(StoreError::Corrupt("truncated value"));
    }
    if read_u32(bytes, 4) != CURRENT_SCHEMA_VERSION {
        return Err(StoreError::Corrupt("store was not migrated"));
    }
    if bytes.len() < 12 {
        return Err(StoreError::Corrupt("truncated value"));
    }
    let count = read_u32(bytes, 8);
    let mut store = Store::new();
    let mut at: usize = 12;
    let mut i: u32 = 0;
    let ghost mut acc: Seq<Record> = Seq::empty();
    while i < count
        invariant
            i <= count,
            count == u32_at(bytes@, 8),
            store.wf(),
            parse_records(bytes@, 12, i as nat) == Some((acc, at as int)),
            distinct_keys(acc),
            store.view() == records_map(acc),
        decreases count - i,
    {
        match parse_record_at(bytes, at) {
            Err(e) => {
                proof {
                    if parse_records(bytes@, 12, count as nat) is Some {
                        lemma_parse_records_prefix(bytes@, 12, (i + 1) as nat, count as nat);
                    }
                }
                return Err(e);
            },
            Ok((key, class, value, end)) => {
                let ghost r = (key@, (class, value@));
                if store.get(&key).is_some() {
                    proof {
                        let j = choose|j: int| 0 <= j < acc.len() && #[trigger] acc[j].0 == key@;
                        if parse_records(bytes@, 12, count as nat) is Some {
                            lemma_parse_records_prefix(bytes@, 12, (i + 1) as nat, count as nat);
                            lemma_parse_records_len(bytes@, 12, i as nat);
                            lemma_parse_records_len(bytes@, 12, count as nat);
                            let full = parse_records(bytes@, 12, count as nat).unwrap().0;
                            assert(full.take(i + 1) == acc.push(r));
                            assert(full.take(i + 1)[j] == full[j]);
                            assert(acc.push(r)[j] == acc[j]);
                            assert(full[j] == acc[j]);
                            assert(full.take(i + 1)[i as int] == full[i as int]);
                            assert(full[i as int] == r);
                            assert(!distinct_keys(full));
                        }
                    }
                    return Err(StoreError::Corrupt("duplicate key"));
                }
                proof {
                    lemma_records_map_push(acc, r);
                }
                store.put(key, class, value);
                proof {
                    acc = acc.push(r);
                }
                at = end;
                i = i + 1;
            },
        }
    }
    if at != bytes.len() {
        return Err(StoreError::Corrupt("trailing bytes"));
    }
    Ok(store)
}

proof fn lemma_record_split(prefix: Seq<u8>, r: Record, suffix: Seq<u8>)
    ensures
        ({
            let t = text_bytes(r.0.tenant);
            let codes = seq![kind_code(r.0.kind), class_code(r.1.0)];
            let s = prefix + record_bytes(r) + suffix;
            let p2 = prefix + sized(t) + codes;
            let p3 = p2 + sized(r.0.object_id);
            &&& s == prefix + sized(t) + (codes + sized(r.0.object_id) + sized(r.1.1) + suffix)
            &&& s == p2 + sized(r.0.object_id) + (sized(r.1.1) + suffix)
            &&& s == p3 + sized(r.1.1) + suffix
            &&& s.len() == prefix.len() + record_bytes(r).len() + suffix.len()
            &&& s[p2.len() - 2] == codes[0]
            &&& s[p2.len() - 1] == codes[1]
        }),
{
    let t = text_bytes(r.0.tenant);
    let id = r.0.object_id;
    let v = r.1.1;
    let codes = seq![kind_code(r.0.kind), class_code(r.1.0)];
    let s = prefix + record_bytes(r) + suffix;
    let p2 = prefix + sized(t) + codes;
    let p3 = p2 + sized(id);
    assert(s =~= prefix + sized(t) + (codes + sized(id) + sized(v) + suffix));
    assert(s =~= p2 + sized(id) + (sized(v) + suffix));
    assert(s =~= p3 + sized(v) + suffix);
    assert(s[p2.len() - 2] == p2[p2.len() - 2]);
    assert(s[p2.len() - 1] == p2[p2.len() - 1]);
}

/// The fields of an encoded record sit where the reader looks for them.
proof fn lemma_record_fields(prefix: Seq<u8>, r: Record, suffix: Seq<u8>)
    requires
        record_fits(r),
    ensures
        ({
            let s = prefix + record_bytes(r) + suffix;
            let t = text_bytes(r.0.tenant);
            let a1: int = (prefix.len() + 4 + t.len()) as int;
            let a2: int = a1 + 2 + 4 + r.0.object_id.len();
            &&& parse_sized(s, prefix.len() as int) == Some((t, a1))
            &&& a1 + 2 <= s.len()
            &&& s[a1] == kind_code(r.0.kind)
            &&& s[a1 + 1] == class_code(r.1.0)
            &&& parse_sized(s, a1 + 2) == Some((r.0.object_id, a2))
            &&& parse_sized(s, a2) == Some((r.1.1, (a2 + 4 + r.1.1.len()) as int))
            &&& a2 + 4 + r.1.1.len() == prefix.len() + record_bytes(r).len()
        }),
{
    let t = text_bytes(r.0.tenant);
    let id = r.0.object_id;
    let v = r.1.1;
    let codes = seq![kind_code(r.0.kind), class_code(r.1.0)];
    let p2 = prefix + sized(t) + codes;
    let p3 = p2 + sized(id);
    let s = prefix + record_bytes(r) + suffix;
    let a1: int = (prefix.len() + 4 + t.len()) as int;
    let a2: int = a1 + 2 + 4 + id.len();
    lemma_record_split(prefix, r, suffix);
    assert(sized(t).len() == 4 + t.len());
    assert(sized(id).len() == 4 + id.len());
    assert(sized(v).len() == 4 + v.len());
    assert(record_bytes(r).len() == sized(t).len() + 2 + sized(id).len() + sized(v).len());
    assert(p2.len() == a1 + 2);
    assert(p3.len() == a2);
    assert(parse_sized(s, prefix.len() as int) == Some((t, a1))) by {
        lemma_parse_sized(prefix, t, codes + sized(id) + sized(v) + suffix);
    }
    assert(parse_sized(s, a1 + 2) == Some((id, a2))) by {
        lemma_parse_sized(p2, id, sized(v) + suffix);
    }
    assert(parse_sized(s, a2) == Some((v, (a2 + 4 + v.len()) as int))) by {
        lemma_parse_sized(p3, v, suffix);
    }
}

/// A record is read back whole from its encoding, whatever precedes and follows it.
pub proof fn lemma_parse_record_bytes(prefix: Seq<u8>, r: Record, suffix: Seq<u8>)
    requires
        valid_key(r.0),
        record_fits(r),
    ensures
        parse_record(prefix + record_bytes(r) + suffix, prefix.len() as int) == Some(
            (r, (prefix.len() + record_bytes(r).len()) as int),
        ),
{
    lemma_record_fields(prefix, r, suffix);
    vstd::utf8::encode_utf8_valid_utf8(r.0.tenant);
    vstd::utf8::encode_utf8_decode_utf8(r.0.tenant);
    assert(kind_of(kind_code(r.0.kind)) == r.0.kind);
    assert(class_of(class_code(r.1.0)) == r.1.0);
    reveal(parse_record);
}

/// A sequence of records is read back whole from its encoding.
pub proof fn lemma_parse_records_bytes(prefix: Seq<u8>, recs: Seq<Record>, suffix: Seq<u8>)
    requires
        valid_records(recs),
        forall|i: int| 0 <= i < recs.len() ==> record_fits(#[trigger] recs[i]),
    ensures
        parse_records(prefix + records_bytes(recs) + suffix, prefix.len() as int, recs.len())
            == Some((recs, (prefix.len() + records_bytes(recs).len()) as int)),
    decreases recs.len(),
{
    if recs.len() > 0 {
        let init = recs.drop_last();
        let last = recs.last();
        let s = prefix + records_bytes(recs) + suffix;
        assert(s =~= prefix + records_bytes(init) + (record_bytes(last) + suffix));
        assert forall|i: int| 0 <= i < init.len() implies record_fits(#[trigger] init[i]) by {
            assert(init[i] == recs[i]);
        }
        assert forall|i: int| 0 <= i < init.len() implies valid_key(#[trigger] init[i].0) by {
            assert(init[i] == recs[i]);
        }
        lemma_parse_records_bytes(prefix, init, record_bytes(last) + suffix);
        assert(s =~= (prefix + records_bytes(init)) + record_bytes(last) + suffix);
        assert(valid_key(recs[recs.len() - 1].0));
        assert(record_fits(recs[recs.len() - 1]));
        lemma_parse_record_bytes(prefix + records_bytes(init), last, suffix);
        assert(init.push(last) =~= recs);
    } else {
        assert(prefix + records_bytes(recs) + suffix =~= prefix + suffix);
    }
}

/// Law: the image of valid records with distinct keys that fit the format reads back as
/// exactly those records.
pub proof fn lemma_image_roundtrip(recs: Seq<Record>)
    requires
        distinct_keys(recs),
        valid_records(recs),
        image_fits(recs),
    ensures
        parse_image(image_bytes(recs)) == Some(recs),
{
    let head = image_magic() + u32_be(CURRENT_SCHEMA_VERSION) + u32_be(recs.len() as u32);
    let b = image_bytes(recs);
    assert(head.len() == 12);
    assert(b =~= head + records_bytes(recs) + Seq::<u8>::empty());
    lemma_parse_records_bytes(head, recs, Seq::<u8>::empty());
    assert(b.subrange(0, 4) =~= image_magic());
    assert(b =~= image_magic() + u32_be(CURRENT_SCHEMA_VERSION) + (u32_be(recs.len() as u32)
        + records_bytes(recs)));
    lemma_u32_at_be(
        image_magic(),
        CURRENT_SCHEMA_VERSION,
        u32_be(recs.len() as u32) + records_bytes(recs),
    );
    assert(b =~= (image_magic() + u32_be(CURRENT_SCHEMA_VERSION)) + u32_be(recs.len() as u32)
        + records_bytes(recs));
    lemma_u32_at_be(
        image_magic() + u32_be(CURRENT_SCHEMA_VERSION),
        recs.len() as u32,
        records_bytes(recs),
    );
}

/// Law: what is written is what is read. Whenever a store's image can be rendered, reading
/// that image back gives a store with exactly the same contents.
pub proof fn lemma_store_image_roundtrip(store: &Store)
    requires
        store.wf(),
        image_fits(store.records()),
    ensures
        parse_image(image_bytes(store.records())) == Some(store.records()),
        records_map(store.records()) == store.view(),
{
    store.lemma_records();
    let recs = store.records();
    assert forall|i: int, j: int| 0 <= i < j < recs.len() implies (#[trigger] recs[i]).0 != (
    #[trigger] recs[j]).0 by {
        assert(key_lt(recs[i].0, recs[j].0));
        lemma_key_lt_irreflexive(recs[i].0);
    }
    lemma_image_roundtrip(recs);
}

} // verus!
