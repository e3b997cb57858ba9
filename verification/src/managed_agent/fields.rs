//! Typed fields of the managed-agent wire format: big-endian integers, 32-byte values,
//! length-prefixed texts and counted lists, written one after another.
use vstd::prelude::*;

use crate::bytes::{
    lemma_u16_roundtrip, lemma_u32_at_be, lemma_u64_at_be, lemma_u128_split, push_all,
    push_u128, push_u16, push_u32, push_u64, read_fixed, read_u128, read_u32, read_u64,
    text_bytes, u128_at, u128_be, u16_be, u16_of, u32_at, u32_be, u64_at, u64_be,
};
use crate::text::utf8_text;

verus! {

/// The largest text a field holds, in bytes.
pub const MAX_TEXT_BYTES: usize = 4096;

/// The shape of a field. A list kind carries the most entries it may hold.
#[derive(Clone, Copy, Debug, PartialEq, Eq, Structural)]
pub enum FieldKind {
    U8,
    U16,
    U32,
    U64,
    U128,
    Fixed,
    Text,
    Fixeds(u16),
    FixedsByte(u8),
    U32s(u16),
    Texts(u16),
}

/// A field's value.
#[derive(Debug)]
pub enum FieldValue {
    U8(u8),
    U16(u16),
    U32(u32),
    U64(u64),
    U128(u128),
    Fixed([u8; 32]),
    Text(String),
    Fixeds(Vec<[u8; 32]>),
    U32s(Vec<u32>),
    Texts(Vec<String>),
}

/// A field's value as plain values.
pub enum FieldView {
    U8(u8),
    U16(u16),
    U32(u32),
    U64(u64),
    U128(u128),
    Fixed(Seq<u8>),
    Text(Seq<char>),
    Fixeds(Seq<Seq<u8>>),
    U32s(Seq<u32>),
    Texts(Seq<Seq<char>>),
}

/// The contents of 32-byte values.
pub open spec fn fixed_views(v: Seq<[u8; 32]>) -> Seq<Seq<u8>> {
    v.map_values(|a: [u8; 32]| a@)
}

/// The texts of strings.
pub open spec fn string_views(v: Seq<String>) -> Seq<Seq<char>> {
    v.map_values(|s: String| s@)
}

impl View for FieldValue {
    type V = FieldView;

    open spec fn view(&self) -> FieldView {
        match self {
            FieldValue::U8(x) => FieldView::U8(*x),
            FieldValue::U16(x) => FieldView::U16(*x),
            FieldValue::U32(x) => FieldView::U32(*x),
            FieldValue::U64(x) => FieldView::U64(*x),
            FieldValue::U128(x) => FieldView::U128(*x),
            FieldValue::Fixed(a) => FieldView::Fixed(a@),
            FieldValue::Text(s) => FieldView::Text(s@),
            FieldValue::Fixeds(v) => FieldView::Fixeds(fixed_views(v@)),
            FieldValue::U32s(v) => FieldView::U32s(v@),
            FieldValue::Texts(v) => FieldView::Texts(string_views(v@)),
        }
    }
}

/// The values of fields.
pub open spec fn field_views(v: Seq<FieldValue>) -> Seq<FieldView> {
    v.map_values(|f: FieldValue| f@)
}

/// A text field: its UTF-8 length as a big-endian `u32`, then the UTF-8 bytes.
pub open spec fn text_field(t: Seq<char>) -> Seq<u8> {
    u32_be(text_bytes(t).len() as u32) + text_bytes(t)
}

/// A text a field can hold: between 1 and 4096 UTF-8 bytes.
pub open spec fn text_fits(t: Seq<char>) -> bool {
    0 < text_bytes(t).len() <= MAX_TEXT_BYTES
}

/// 32-byte values one after another.
pub open spec fn concat_fixed(v: Seq<Seq<u8>>) -> Seq<u8>
    decreases v.len(),
{
    if v.len() == 0 {
        Seq::empty()
    } else {
        concat_fixed(v.drop_last()) + v.last()
    }
}

/// `u32` values one after another.
pub open spec fn concat_u32(v: Seq<u32>) -> Seq<u8>
    decreases v.len(),
{
    if v.len() == 0 {
        Seq::empty()
    } else {
        concat_u32(v.drop_last()) + u32_be(v.last())
    }
}

/// Text fields one after another.
pub open spec fn concat_text(v: Seq<Seq<char>>) -> Seq<u8>
    decreases v.len(),
{
    if v.len() == 0 {
        Seq::empty()
    } else {
        concat_text(v.drop_last()) + text_field(v.last())
    }
}

/// The bytes of a field of a kind.
pub open spec fn field_bytes(k: FieldKind, f: FieldView) -> Seq<u8> {
    match f {
        FieldView::U8(x) => seq![x],
        FieldView::U16(x) => u16_be(x),
        FieldView::U32(x) => u32_be(x),
        FieldView::U64(x) => u64_be(x),
        FieldView::U128(x) => u128_be(x),
        FieldView::Fixed(a) => a,
        FieldView::Text(t) => text_field(t),
        FieldView::Fixeds(v) => (match k {
            FieldKind::FixedsByte(_) => seq![v.len() as u8],
            _ => u16_be(v.len() as u16),
        }) + concat_fixed(v),
        FieldView::U32s(v) => u16_be(v.len() as u16) + concat_u32(v),
        FieldView::Texts(v) => u16_be(v.len() as u16) + concat_text(v),
    }
}

/// Whether a value has the shape of a kind, within its limits: lists are non-empty.
pub open spec fn field_fits(k: FieldKind, f: FieldView) -> bool {
    match k {
        FieldKind::U8 => f is U8,
        FieldKind::U16 => f is U16,
        FieldKind::U32 => f is U32,
        FieldKind::U64 => f is U64,
        FieldKind::U128 => f is U128,
        FieldKind::Fixed => f matches FieldView::Fixed(a) && a.len() == 32,
        FieldKind::Text => f matches FieldView::Text(t) && text_fits(t),
        FieldKind::Fixeds(max) => f matches FieldView::Fixeds(v) && 0 < v.len() <= max && forall|
            i: int,
        | 0 <= i < v.len() ==> (#[trigger] v[i]).len() == 32,
        FieldKind::FixedsByte(max) => f matches FieldView::Fixeds(v) && 0 < v.len() <= max
            && forall|i: int| 0 <= i < v.len() ==> (#[trigger] v[i]).len() == 32,
        FieldKind::U32s(max) => f matches FieldView::U32s(v) && 0 < v.len() <= max,
        FieldKind::Texts(max) => f matches FieldView::Texts(v) && 0 < v.len() <= max && forall|
            i: int,
        | 0 <= i < v.len() ==> text_fits(#[trigger] v[i]),
    }
}

/// Fields one after another.
pub open spec fn fields_bytes(ks: Seq<FieldKind>, fs: Seq<FieldView>) -> Seq<u8>
    decreases fs.len(),
{
    if fs.len() == 0 || ks.len() == 0 {
        Seq::empty()
    } else {
        fields_bytes(ks.drop_last(), fs.drop_last()) + field_bytes(ks.last(), fs.last())
    }
}

/// Whether values have the shapes of kinds, one for one.
pub open spec fn fields_fit(ks: Seq<FieldKind>, fs: Seq<FieldView>) -> bool {
    ks.len() == fs.len() && forall|i: int| 0 <= i < fs.len() ==> field_fits(ks[i], #[trigger] fs[i])
}

// ---------------------------------------------------------------------------------------
// Reading.

/// A text field at `at`, and the offset after it.
pub open spec fn parse_text(b: Seq<u8>, at: int) -> Option<(Seq<char>, int)> {
    if at < 0 || at + 4 > b.len() {
        None
    } else {
        let n = u32_at(b, at) as int;
        if n == 0 || n > MAX_TEXT_BYTES || at + 4 + n > b.len() {
            None
        } else if !vstd::utf8::valid_utf8(b.subrange(at + 4, at + 4 + n)) {
            None
        } else {
            Some((vstd::utf8::decode_utf8(b.subrange(at + 4, at + 4 + n)), at + 4 + n))
        }
    }
}

/// `n` text fields from `at`.
pub open spec fn parse_texts(b: Seq<u8>, at: int, n: nat) -> Option<(Seq<Seq<char>>, int)>
    decreases n,
{
    if n == 0 {
        Some((Seq::empty(), at))
    } else {
        match parse_texts(b, at, (n - 1) as nat) {
            None => None,
            Some((acc, off)) => match parse_text(b, off) {
                None => None,
                Some((t, next)) => Some((acc.push(t), next)),
            },
        }
    }
}

/// `n` 32-byte values from `at`.
pub open spec fn fixed_items(b: Seq<u8>, at: int, n: nat) -> Seq<Seq<u8>> {
    Seq::new(n, |i: int| b.subrange(at + 32 * i, at + 32 * i + 32))
}

/// `n` `u32` values from `at`.
pub open spec fn u32_items(b: Seq<u8>, at: int, n: nat) -> Seq<u32> {
    Seq::new(n, |i: int| u32_at(b, at + 4 * i))
}

/// A field of kind `k` at `at`, and the offset after it.
pub open spec fn parse_field(k: FieldKind, b: Seq<u8>, at: int) -> Option<(FieldView, int)> {
    if at < 0 {
        None
    } else {
        match k {
            FieldKind::U8 => if at + 1 <= b.len() {
                Some((FieldView::U8(b[at]), at + 1))
            } else {
                None
            },
            FieldKind::U16 => if at + 2 <= b.len() {
                Some((FieldView::U16(u16_of(b[at], b[at + 1])), at + 2))
            } else {
                None
            },
            FieldKind::U32 => if at + 4 <= b.len() {
                Some((FieldView::U32(u32_at(b, at)), at + 4))
            } else {
                None
            },
            FieldKind::U64 => if at + 8 <= b.len() {
                Some((FieldView::U64(u64_at(b, at)), at + 8))
            } else {
                None
            },
            FieldKind::U128 => if at + 16 <= b.len() {
                Some((FieldView::U128(u128_at(b, at)), at + 16))
            } else {
                None
            },
            FieldKind::Fixed => if at + 32 <= b.len() {
                Some((FieldView::Fixed(b.subrange(at, at + 32)), at + 32))
            } else {
                None
            },
            FieldKind::Text => match parse_text(b, at) {
                None => None,
                Some((t, next)) => Some((FieldView::Text(t), next)),
            },
            FieldKind::Fixeds(max) => if at + 2 > b.len() {
                None
            } else {
                let n = u16_of(b[at], b[at + 1]) as int;
                if n == 0 || n > max || at + 2 + 32 * n > b.len() {
                    None
                } else {
                    Some((FieldView::Fixeds(fixed_items(b, at + 2, n as nat)), at + 2 + 32 * n))
                }
            },
            FieldKind::FixedsByte(max) => if at + 1 > b.len() {
                None
            } else {
                let n = b[at] as int;
                if n == 0 || n > max || at + 1 + 32 * n > b.len() {
                    None
                } else {
                    Some((FieldView::Fixeds(fixed_items(b, at + 1, n as nat)), at + 1 + 32 * n))
                }
            },
            FieldKind::U32s(max) => if at + 2 > b.len() {
                None
            } else {
                let n = u16_of(b[at], b[at + 1]) as int;
                if n == 0 || n > max || at + 2 + 4 * n > b.len() {
                    None
                } else {
                    Some((FieldView::U32s(u32_items(b, at + 2, n as nat)), at + 2 + 4 * n))
                }
            },
            FieldKind::Texts(max) => if at + 2 > b.len() {
                None
            } else {
                let n = u16_of(b[at], b[at + 1]) as int;
                if n == 0 || n > max {
                    None
                } else {
                    match parse_texts(b, at + 2, n as nat) {
                        None => None,
                        Some((v, next)) => Some((FieldView::Texts(v), next)),
                    }
                }
            },
        }
    }
}

/// Fields of the kinds `ks` from `at`, and the offset after them.
pub open spec fn parse_fields(ks: Seq<FieldKind>, b: Seq<u8>, at: int) -> Option<(Seq<FieldView>, int)>
    decreases ks.len(),
{
    if ks.len() == 0 {
        Some((Seq::empty(), at))
    } else {
        match parse_fields(ks.drop_last(), b, at) {
            None => None,
            Some((acc, off)) => match parse_field(ks.last(), b, off) {
                None => None,
                Some((f, next)) => Some((acc.push(f), next)),
            },
        }
    }
}


// ---------------------------------------------------------------------------------------
// Reading what was written.

proof fn lemma_u16_read(prefix: Seq<u8>, x: u16, suffix: Seq<u8>)
    ensures
        ({
            let b = prefix + u16_be(x) + suffix;
            let at = prefix.len() as int;
            u16_of(b[at], b[at + 1]) == x
        }),
{
    let b = prefix + u16_be(x) + suffix;
    let at = prefix.len() as int;
    assert(b[at] == (x >> 8u16) as u8);
    assert(b[at + 1] == x as u8);
    lemma_u16_roundtrip(x, 0, 0);
}

proof fn lemma_u128_read(prefix: Seq<u8>, x: u128, suffix: Seq<u8>)
    ensures
        u128_at(prefix + u128_be(x) + suffix, prefix.len() as int) == x,
{
    let hi = (x >> 64u128) as u64;
    let lo = x as u64;
    let b = prefix + u128_be(x) + suffix;
    assert(b =~= prefix + u64_be(hi) + (u64_be(lo) + suffix));
    lemma_u64_at_be(prefix, hi, u64_be(lo) + suffix);
    assert(b =~= (prefix + u64_be(hi)) + u64_be(lo) + suffix);
    lemma_u64_at_be(prefix + u64_be(hi), lo, suffix);
    lemma_u128_split(x);
}

/// A text field is read back, whatever precedes and follows it.
pub proof fn lemma_text_read(prefix: Seq<u8>, t: Seq<char>, suffix: Seq<u8>)
    requires
        text_fits(t),
    ensures
        parse_text(prefix + text_field(t) + suffix, prefix.len() as int) == Some(
            (t, (prefix.len() + text_field(t).len()) as int),
        ),
{
    let b = prefix + text_field(t) + suffix;
    let at = prefix.len() as int;
    let n = text_bytes(t).len();
    assert(b =~= prefix + u32_be(n as u32) + (text_bytes(t) + suffix));
    lemma_u32_at_be(prefix, n as u32, text_bytes(t) + suffix);
    assert(b.subrange(at + 4, at + 4 + n) =~= text_bytes(t));
    vstd::utf8::encode_utf8_valid_utf8(t);
    vstd::utf8::encode_utf8_decode_utf8(t);
}

proof fn lemma_texts_read(prefix: Seq<u8>, v: Seq<Seq<char>>, suffix: Seq<u8>)
    requires
        forall|i: int| 0 <= i < v.len() ==> text_fits(#[trigger] v[i]),
    ensures
        parse_texts(prefix + concat_text(v) + suffix, prefix.len() as int, v.len()) == Some(
            (v, (prefix.len() + concat_text(v).len()) as int),
        ),
    decreases v.len(),
{
    if v.len() == 0 {
        assert(v =~= Seq::<Seq<char>>::empty());
    } else {
        let d = v.drop_last();
        let t = v.last();
        let b = prefix + concat_text(v) + suffix;
        assert(b =~= prefix + concat_text(d) + (text_field(t) + suffix));
        assert forall|i: int| 0 <= i < d.len() implies text_fits(#[trigger] d[i]) by {
            assert(d[i] == v[i]);
        }
        lemma_texts_read(prefix, d, text_field(t) + suffix);
        assert(text_fits(v[v.len() - 1]));
        assert(b =~= (prefix + concat_text(d)) + text_field(t) + suffix);
        lemma_text_read(prefix + concat_text(d), t, suffix);
        assert(d.push(t) =~= v);
    }
}

proof fn lemma_fixed_items_read(prefix: Seq<u8>, v: Seq<Seq<u8>>, suffix: Seq<u8>)
    requires
        forall|i: int| 0 <= i < v.len() ==> (#[trigger] v[i]).len() == 32,
    ensures
        concat_fixed(v).len() == 32 * v.len(),
        fixed_items(prefix + concat_fixed(v) + suffix, prefix.len() as int, v.len()) == v,
    decreases v.len(),
{
    if v.len() == 0 {
        assert(fixed_items(prefix + concat_fixed(v) + suffix, prefix.len() as int, 0) =~= v);
    } else {
        let d = v.drop_last();
        let x = v.last();
        assert forall|i: int| 0 <= i < d.len() implies (#[trigger] d[i]).len() == 32 by {
            assert(d[i] == v[i]);
        }
        lemma_fixed_items_read(prefix, d, x + suffix);
        assert(v[v.len() - 1].len() == 32);
        let b = prefix + concat_fixed(v) + suffix;
        assert(b =~= prefix + concat_fixed(d) + (x + suffix));
        let at = prefix.len() as int;
        let items = fixed_items(b, at, v.len());
        assert forall|i: int| 0 <= i < v.len() implies items[i] == v[i] by {
            if i < d.len() {
                assert(fixed_items(b, at, d.len())[i] == d[i]);
            } else {
                assert(b.subrange(at + 32 * i, at + 32 * i + 32) =~= x);
            }
        }
        assert(items =~= v);
    }
}

proof fn lemma_u32_items_read(prefix: Seq<u8>, v: Seq<u32>, suffix: Seq<u8>)
    ensures
        concat_u32(v).len() == 4 * v.len(),
        u32_items(prefix + concat_u32(v) + suffix, prefix.len() as int, v.len()) == v,
    decreases v.len(),
{
    if v.len() == 0 {
        assert(u32_items(prefix + concat_u32(v) + suffix, prefix.len() as int, 0) =~= v);
    } else {
        let d = v.drop_last();
        let x = v.last();
        lemma_u32_items_read(prefix, d, u32_be(x) + suffix);
        let b = prefix + concat_u32(v) + suffix;
        assert(b =~= prefix + concat_u32(d) + (u32_be(x) + suffix));
        let at = prefix.len() as int;
        let items = u32_items(b, at, v.len());
        assert(b =~= (prefix + concat_u32(d)) + u32_be(x) + suffix);
        lemma_u32_at_be(prefix + concat_u32(d), x, suffix);
        assert forall|i: int| 0 <= i < v.len() implies items[i] == v[i] by {
            if i < d.len() {
                assert(u32_items(b, at, d.len())[i] == d[i]);
            }
        }
        assert(items =~= v);
    }
}

/// A field that fits its kind is read back, whatever precedes and follows it.
#[verifier::spinoff_prover]
#[verifier::rlimit(40)]
pub proof fn lemma_field_read(k: FieldKind, f: FieldView, prefix: Seq<u8>, suffix: Seq<u8>)
    requires
        field_fits(k, f),
    ensures
        parse_field(k, prefix + field_bytes(k, f) + suffix, prefix.len() as int) == Some(
            (f, (prefix.len() + field_bytes(k, f).len()) as int),
        ),
{
    let b = prefix + field_bytes(k, f) + suffix;
    let at = prefix.len() as int;
    match f {
        FieldView::U8(x) => {},
        FieldView::U16(x) => {
            lemma_u16_read(prefix, x, suffix);
        },
        FieldView::U32(x) => {
            lemma_u32_at_be(prefix, x, suffix);
        },
        FieldView::U64(x) => {
            lemma_u64_at_be(prefix, x, suffix);
        },
        FieldView::U128(x) => {
            lemma_u128_read(prefix, x, suffix);
        },
        FieldView::Fixed(a) => {
            assert(b.subrange(at, at + 32) =~= a);
        },
        FieldView::Text(t) => {
            lemma_text_read(prefix, t, suffix);
        },
        FieldView::Fixeds(v) => {
            match k {
                FieldKind::FixedsByte(_) => {
                    assert(b =~= (prefix + seq![v.len() as u8]) + concat_fixed(v) + suffix);
                    lemma_fixed_items_read(prefix + seq![v.len() as u8], v, suffix);
                },
                _ => {
                    assert(b =~= prefix + u16_be(v.len() as u16) + (concat_fixed(v) + suffix));
                    lemma_u16_read(prefix, v.len() as u16, concat_fixed(v) + suffix);
                    assert(b =~= (prefix + u16_be(v.len() as u16)) + concat_fixed(v) + suffix);
                    lemma_fixed_items_read(prefix + u16_be(v.len() as u16), v, suffix);
                },
            }
        },
        FieldView::U32s(v) => {
            assert(b =~= prefix + u16_be(v.len() as u16) + (concat_u32(v) + suffix));
            lemma_u16_read(prefix, v.len() as u16, concat_u32(v) + suffix);
            assert(b =~= (prefix + u16_be(v.len() as u16)) + concat_u32(v) + suffix);
            lemma_u32_items_read(prefix + u16_be(v.len() as u16), v, suffix);
        },
        FieldView::Texts(v) => {
            assert(b =~= prefix + u16_be(v.len() as u16) + (concat_text(v) + suffix));
            lemma_u16_read(prefix, v.len() as u16, concat_text(v) + suffix);
            assert(b =~= (prefix + u16_be(v.len() as u16)) + concat_text(v) + suffix);
            lemma_texts_read(prefix + u16_be(v.len() as u16), v, suffix);
        },
    }
}

/// Fields that fit their kinds are read back, whatever precedes and follows them.
pub proof fn lemma_fields_read(ks: Seq<FieldKind>, fs: Seq<FieldView>, prefix: Seq<u8>, suffix: Seq<u8>)
    requires
        fields_fit(ks, fs),
    ensures
        parse_fields(ks, prefix + fields_bytes(ks, fs) + suffix, prefix.len() as int) == Some(
            (fs, (prefix.len() + fields_bytes(ks, fs).len()) as int),
        ),
    decreases fs.len(),
{
    if fs.len() == 0 {
        assert(fs =~= Seq::<FieldView>::empty());
    } else {
        let dk = ks.drop_last();
        let df = fs.drop_last();
        let k = ks.last();
        let f = fs.last();
        assert(fields_fit(dk, df)) by {
            assert forall|i: int| 0 <= i < df.len() implies field_fits(dk[i], #[trigger] df[i]) by {
                assert(df[i] == fs[i] && dk[i] == ks[i]);
            }
        }
        assert(field_fits(ks[fs.len() - 1], fs[fs.len() - 1]));
        let b = prefix + fields_bytes(ks, fs) + suffix;
        assert(b =~= prefix + fields_bytes(dk, df) + (field_bytes(k, f) + suffix));
        lemma_fields_read(dk, df, prefix, field_bytes(k, f) + suffix);
        assert(b =~= (prefix + fields_bytes(dk, df)) + field_bytes(k, f) + suffix);
        lemma_field_read(k, f, prefix + fields_bytes(dk, df), suffix);
        assert(df.push(f) =~= fs);
    }
}


// ---------------------------------------------------------------------------------------
// What was read is what is written.

proof fn lemma_u16_bytes_of(b0: u8, b1: u8)
    ensures
        u16_be(u16_of(b0, b1)) == seq![b0, b1],
{
    lemma_u16_roundtrip(0, b0, b1);
    assert(u16_be(u16_of(b0, b1)) =~= seq![b0, b1]);
}

proof fn lemma_u32_bytes_at(b: Seq<u8>, at: int)
    requires
        0 <= at,
        at + 4 <= b.len(),
    ensures
        u32_be(u32_at(b, at)) == b.subrange(at, at + 4),
{
    crate::bytes::lemma_u32_bytes(b[at], b[at + 1], b[at + 2], b[at + 3]);
    assert(b.subrange(at, at + 4) =~= seq![b[at], b[at + 1], b[at + 2], b[at + 3]]);
}

proof fn lemma_u64_bytes_at(b: Seq<u8>, at: int)
    requires
        0 <= at,
        at + 8 <= b.len(),
    ensures
        u64_be(u64_at(b, at)) == b.subrange(at, at + 8),
{
    lemma_u32_bytes_at(b, at);
    lemma_u32_bytes_at(b, at + 4);
    crate::bytes::lemma_u64_bytes(u32_at(b, at), u32_at(b, at + 4));
    assert(b.subrange(at, at + 8) =~= b.subrange(at, at + 4) + b.subrange(at + 4, at + 8));
}

proof fn lemma_u128_bytes_at(b: Seq<u8>, at: int)
    requires
        0 <= at,
        at + 16 <= b.len(),
    ensures
        u128_be(u128_at(b, at)) == b.subrange(at, at + 16),
{
    lemma_u64_bytes_at(b, at);
    lemma_u64_bytes_at(b, at + 8);
    crate::bytes::lemma_u128_halves(u64_at(b, at), u64_at(b, at + 8));
    assert(b.subrange(at, at + 16) =~= b.subrange(at, at + 8) + b.subrange(at + 8, at + 16));
}

/// A text read is the text field of the bytes read.
pub proof fn lemma_text_parsed(b: Seq<u8>, at: int)
    requires
        parse_text(b, at) is Some,
    ensures
        ({
            let (t, next) = parse_text(b, at)->Some_0;
            &&& text_fits(t)
            &&& at + 4 <= next <= b.len()
            &&& b.subrange(at, next) == text_field(t)
        }),
{
    let n = u32_at(b, at) as int;
    let body = b.subrange(at + 4, at + 4 + n);
    vstd::utf8::decode_utf8_encode_utf8(body);
    lemma_u32_bytes_at(b, at);
    assert(b.subrange(at, at + 4 + n) =~= b.subrange(at, at + 4) + body);
}

proof fn lemma_texts_parsed(b: Seq<u8>, at: int, n: nat)
    requires
        parse_texts(b, at, n) is Some,
        0 <= at <= b.len(),
    ensures
        ({
            let (v, next) = parse_texts(b, at, n)->Some_0;
            &&& v.len() == n
            &&& forall|i: int| 0 <= i < v.len() ==> text_fits(#[trigger] v[i])
            &&& at <= next <= b.len()
            &&& b.subrange(at, next) == concat_text(v)
        }),
    decreases n,
{
    if n == 0 {
        assert(b.subrange(at, at) =~= Seq::<u8>::empty());
    } else {
        lemma_texts_parsed(b, at, (n - 1) as nat);
        let (acc, off) = parse_texts(b, at, (n - 1) as nat)->Some_0;
        lemma_text_parsed(b, off);
        let (t, next) = parse_text(b, off)->Some_0;
        let v = acc.push(t);
        assert(v.drop_last() =~= acc);
        assert(b.subrange(at, next) =~= b.subrange(at, off) + b.subrange(off, next));
        assert forall|i: int| 0 <= i < v.len() implies text_fits(#[trigger] v[i]) by {
            if i < acc.len() {
                assert(v[i] == acc[i]);
            }
        }
    }
}

proof fn lemma_fixed_items_parsed(b: Seq<u8>, at: int, n: nat)
    requires
        0 <= at,
        at + 32 * n <= b.len(),
    ensures
        concat_fixed(fixed_items(b, at, n)) == b.subrange(at, at + 32 * n),
        forall|i: int| 0 <= i < n ==> (#[trigger] fixed_items(b, at, n)[i]).len() == 32,
    decreases n,
{
    if n == 0 {
        assert(b.subrange(at, at) =~= Seq::<u8>::empty());
    } else {
        lemma_fixed_items_parsed(b, at, (n - 1) as nat);
        let v = fixed_items(b, at, n);
        assert(v.drop_last() =~= fixed_items(b, at, (n - 1) as nat));
        assert(b.subrange(at, at + 32 * n) =~= b.subrange(at, at + 32 * (n - 1)) + v.last());
    }
}

proof fn lemma_u32_items_parsed(b: Seq<u8>, at: int, n: nat)
    requires
        0 <= at,
        at + 4 * n <= b.len(),
    ensures
        concat_u32(u32_items(b, at, n)) == b.subrange(at, at + 4 * n),
    decreases n,
{
    if n == 0 {
        assert(b.subrange(at, at) =~= Seq::<u8>::empty());
    } else {
        lemma_u32_items_parsed(b, at, (n - 1) as nat);
        let v = u32_items(b, at, n);
        assert(v.drop_last() =~= u32_items(b, at, (n - 1) as nat));
        lemma_u32_bytes_at(b, at + 4 * (n - 1));
        assert(b.subrange(at, at + 4 * n) =~= b.subrange(at, at + 4 * (n - 1)) + b.subrange(
            at + 4 * (n - 1),
            at + 4 * n,
        ));
    }
}

/// A field read fits its kind and is the field's bytes.
#[verifier::spinoff_prover]
#[verifier::rlimit(40)]
pub proof fn lemma_field_parsed(k: FieldKind, b: Seq<u8>, at: int)
    requires
        parse_field(k, b, at) is Some,
    ensures
        ({
            let (f, next) = parse_field(k, b, at)->Some_0;
            &&& field_fits(k, f)
            &&& at <= next <= b.len()
            &&& b.subrange(at, next) == field_bytes(k, f)
        }),
{
    match k {
        FieldKind::U8 => {
            assert(b.subrange(at, at + 1) =~= seq![b[at]]);
        },
        FieldKind::U16 => {
            lemma_u16_bytes_of(b[at], b[at + 1]);
            assert(b.subrange(at, at + 2) =~= seq![b[at], b[at + 1]]);
        },
        FieldKind::U32 => {
            lemma_u32_bytes_at(b, at);
        },
        FieldKind::U64 => {
            lemma_u64_bytes_at(b, at);
        },
        FieldKind::U128 => {
            lemma_u128_bytes_at(b, at);
        },
        FieldKind::Fixed => {},
        FieldKind::Text => {
            lemma_text_parsed(b, at);
        },
        FieldKind::Fixeds(max) => {
            let n = u16_of(b[at], b[at + 1]) as int;
            lemma_u16_bytes_of(b[at], b[at + 1]);
            lemma_fixed_items_parsed(b, at + 2, n as nat);
            assert(b.subrange(at, at + 2 + 32 * n) =~= seq![b[at], b[at + 1]] + b.subrange(
                at + 2,
                at + 2 + 32 * n,
            ));
        },
        FieldKind::FixedsByte(max) => {
            let n = b[at] as int;
            lemma_fixed_items_parsed(b, at + 1, n as nat);
            assert(b.subrange(at, at + 1 + 32 * n) =~= seq![b[at]] + b.subrange(
                at + 1,
                at + 1 + 32 * n,
            ));
        },
        FieldKind::U32s(max) => {
            let n = u16_of(b[at], b[at + 1]) as int;
            lemma_u16_bytes_of(b[at], b[at + 1]);
            lemma_u32_items_parsed(b, at + 2, n as nat);
            assert(b.subrange(at, at + 2 + 4 * n) =~= seq![b[at], b[at + 1]] + b.subrange(
                at + 2,
                at + 2 + 4 * n,
            ));
        },
        FieldKind::Texts(max) => {
            let n = u16_of(b[at], b[at + 1]) as int;
            lemma_u16_bytes_of(b[at], b[at + 1]);
            lemma_texts_parsed(b, at + 2, n as nat);
            let (v, next) = parse_texts(b, at + 2, n as nat)->Some_0;
            assert(b.subrange(at, next) =~= seq![b[at], b[at + 1]] + b.subrange(at + 2, next));
        },
    }
}

/// Fields read fit their kinds and are the fields' bytes.
pub proof fn lemma_fields_parsed(ks: Seq<FieldKind>, b: Seq<u8>, at: int)
    requires
        parse_fields(ks, b, at) is Some,
        0 <= at <= b.len(),
    ensures
        ({
            let (fs, next) = parse_fields(ks, b, at)->Some_0;
            &&& fields_fit(ks, fs)
            &&& at <= next <= b.len()
            &&& b.subrange(at, next) == fields_bytes(ks, fs)
        }),
    decreases ks.len(),
{
    if ks.len() == 0 {
        assert(b.subrange(at, at) =~= Seq::<u8>::empty());
    } else {
        let dk = ks.drop_last();
        lemma_fields_parsed(dk, b, at);
        let (acc, off) = parse_fields(dk, b, at)->Some_0;
        lemma_field_parsed(ks.last(), b, off);
        let (f, next) = parse_field(ks.last(), b, off)->Some_0;
        let fs = acc.push(f);
        assert(fs.drop_last() =~= acc);
        assert(b.subrange(at, next) =~= b.subrange(at, off) + b.subrange(off, next));
        assert forall|i: int| 0 <= i < fs.len() implies field_fits(ks[i], #[trigger] fs[i]) by {
            if i < acc.len() {
                assert(fs[i] == acc[i] && ks[i] == dk[i]);
            }
        }
    }
}


// ---------------------------------------------------------------------------------------
// Executable reading and writing.

/// Reads a text field at `at`.
pub fn read_text(b: &[u8], at: usize) -> (r: Option<(String, usize)>)
    ensures
        match parse_text(b@, at as int) {
            None => r is None,
            Some((t, next)) => r matches Some((s, n)) && s@ == t && n == next,
        },
{
    if at > b.len() || b.len() - at < 4 {
        return None;
    }
    let n = read_u32(b, at) as usize;
    if n == 0 || n > MAX_TEXT_BYTES || b.len() - (at + 4) < n {
        return None;
    }
    let body = crate::bytes::copy_range(b, at + 4, n);
    match utf8_text(body.as_slice()) {
        None => None,
        Some(text) => {
            proof {
                vstd::utf8::encode_utf8_decode_utf8(text@);
            }
            Some((text, at + 4 + n))
        },
    }
}

fn read_fixed_list(b: &[u8], at: usize, n: usize) -> (r: Vec<[u8; 32]>)
    requires
        at + 32 * n <= b@.len(),
    ensures
        fixed_views(r@) == fixed_items(b@, at as int, n as nat),
{
    let mut out: Vec<[u8; 32]> = Vec::new();
    let mut i: usize = 0;
    let total = b.len();
    while i < n
        invariant
            total == b@.len(),
            i <= n,
            at + 32 * n <= b@.len(),
            fixed_views(out@) == fixed_items(b@, at as int, i as nat),
        decreases n - i,
    {
        assert(32 * i + 32 <= 32 * n) by (nonlinear_arith)
            requires
                i < n,
        ;
        let x = read_fixed(b, at + 32 * i);
        let ghost before = out@;
        out.push(x);
        proof {
            assert(fixed_views(out@) =~= fixed_items(b@, at as int, (i + 1) as nat)) by {
                assert(fixed_views(out@) =~= fixed_views(before).push(x@));
            }
        }
        i = i + 1;
    }
    out
}

fn read_u32_list(b: &[u8], at: usize, n: usize) -> (r: Vec<u32>)
    requires
        at + 4 * n <= b@.len(),
    ensures
        r@ == u32_items(b@, at as int, n as nat),
{
    let mut out: Vec<u32> = Vec::new();
    let mut i: usize = 0;
    let total = b.len();
    while i < n
        invariant
            total == b@.len(),
            i <= n,
            at + 4 * n <= b@.len(),
            out@ == u32_items(b@, at as int, i as nat),
        decreases n - i,
    {
        assert(4 * i + 4 <= 4 * n) by (nonlinear_arith)
            requires
                i < n,
        ;
        let x = read_u32(b, at + 4 * i);
        out.push(x);
        assert(out@ =~= u32_items(b@, at as int, (i + 1) as nat));
        i = i + 1;
    }
    out
}

fn read_text_list(b: &[u8], at: usize, n: usize) -> (r: Option<(Vec<String>, usize)>)
    ensures
        match parse_texts(b@, at as int, n as nat) {
            None => r is None,
            Some((v, next)) => r matches Some((w, m)) && string_views(w@) == v && m == next,
        },
{
    let mut out: Vec<String> = Vec::new();
    let mut off = at;
    let mut i: usize = 0;
    while i < n
        invariant
            i <= n,
            out@.len() == i,
            parse_texts(b@, at as int, i as nat) == Some((string_views(out@), off as int)),
        decreases n - i,
    {
        match read_text(b, off) {
            None => {
                proof {
                    lemma_texts_stay_none(b@, at as int, (i + 1) as nat, n as nat);
                }
                return None;
            },
            Some((t, next)) => {
                let ghost before = out@;
                out.push(t);
                assert(string_views(out@) =~= string_views(before).push(out@[i as int]@));
                off = next;
            },
        }
        i = i + 1;
    }
    Some((out, off))
}

proof fn lemma_texts_stay_none(b: Seq<u8>, at: int, m: nat, n: nat)
    requires
        m <= n,
        parse_texts(b, at, m) is None,
    ensures
        parse_texts(b, at, n) is None,
    decreases n - m,
{
    if m < n {
        lemma_texts_stay_none(b, at, m, (n - 1) as nat);
    }
}

/// Reads a field of kind `k` at `at`.
pub fn read_field(b: &[u8], at: usize, k: FieldKind) -> (r: Option<(FieldValue, usize)>)
    ensures
        match parse_field(k, b@, at as int) {
            None => r is None,
            Some((f, next)) => r matches Some((v, n)) && v@ == f && n == next,
        },
{
    let room = if at > b.len() {
        return None;
    } else {
        b.len() - at
    };
    match k {
        FieldKind::U8 => if room >= 1 {
            Some((FieldValue::U8(b[at]), at + 1))
        } else {
            None
        },
        FieldKind::U16 => if room >= 2 {
            Some((FieldValue::U16(((b[at] as u16) << 8) | (b[at + 1] as u16)), at + 2))
        } else {
            None
        },
        FieldKind::U32 => if room >= 4 {
            Some((FieldValue::U32(read_u32(b, at)), at + 4))
        } else {
            None
        },
        FieldKind::U64 => if room >= 8 {
            Some((FieldValue::U64(read_u64(b, at)), at + 8))
        } else {
            None
        },
        FieldKind::U128 => if room >= 16 {
            Some((FieldValue::U128(read_u128(b, at)), at + 16))
        } else {
            None
        },
        FieldKind::Fixed => if room >= 32 {
            Some((FieldValue::Fixed(read_fixed(b, at)), at + 32))
        } else {
            None
        },
        FieldKind::Text => match read_text(b, at) {
            None => None,
            Some((t, next)) => Some((FieldValue::Text(t), next)),
        },
        FieldKind::Fixeds(max) => {
            if room < 2 {
                return None;
            }
            let n = (((b[at] as u16) << 8) | (b[at + 1] as u16)) as usize;
            if n == 0 || n > max as usize || room - 2 < 32 * n {
                return None;
            }
            Some((FieldValue::Fixeds(read_fixed_list(b, at + 2, n)), at + 2 + 32 * n))
        },
        FieldKind::FixedsByte(max) => {
            if room < 1 {
                return None;
            }
            let n = b[at] as usize;
            if n == 0 || n > max as usize || room - 1 < 32 * n {
                return None;
            }
            Some((FieldValue::Fixeds(read_fixed_list(b, at + 1, n)), at + 1 + 32 * n))
        },
        FieldKind::U32s(max) => {
            if room < 2 {
                return None;
            }
            let n = (((b[at] as u16) << 8) | (b[at + 1] as u16)) as usize;
            if n == 0 || n > max as usize || room - 2 < 4 * n {
                return None;
            }
            Some((FieldValue::U32s(read_u32_list(b, at + 2, n)), at + 2 + 4 * n))
        },
        FieldKind::Texts(max) => {
            if room < 2 {
                return None;
            }
            let n = (((b[at] as u16) << 8) | (b[at + 1] as u16)) as usize;
            if n == 0 || n > max as usize {
                return None;
            }
            match read_text_list(b, at + 2, n) {
                None => None,
                Some((v, next)) => Some((FieldValue::Texts(v), next)),
            }
        },
    }
}

proof fn lemma_fields_stay_none(ks: Seq<FieldKind>, b: Seq<u8>, at: int, m: int)
    requires
        0 <= m <= ks.len(),
        parse_fields(ks.take(m), b, at) is None,
    ensures
        parse_fields(ks, b, at) is None,
    decreases ks.len() - m,
{
    if m < ks.len() {
        assert(ks.take(m + 1).drop_last() =~= ks.take(m));
        lemma_fields_stay_none(ks, b, at, m + 1);
    } else {
        assert(ks.take(m) =~= ks);
    }
}

/// Reads fields of the kinds `ks` from `at`.
pub fn read_fields(b: &[u8], at: usize, ks: &Vec<FieldKind>) -> (r: Option<(Vec<FieldValue>, usize)>)
    ensures
        match parse_fields(ks@, b@, at as int) {
            None => r is None,
            Some((fs, next)) => r matches Some((v, n)) && field_views(v@) == fs && n == next,
        },
{
    let mut out: Vec<FieldValue> = Vec::new();
    let mut off = at;
    let mut i: usize = 0;
    assert(ks@.take(0) =~= Seq::<FieldKind>::empty());
    while i < ks.len()
        invariant
            i <= ks@.len(),
            out@.len() == i,
            parse_fields(ks@.take(i as int), b@, at as int) == Some((field_views(out@), off as int)),
        decreases ks@.len() - i,
    {
        proof {
            assert(ks@.take(i + 1).drop_last() =~= ks@.take(i as int));
            assert(ks@.take(i + 1).last() == ks@[i as int]);
        }
        match read_field(b, off, ks[i]) {
            None => {
                proof {
                    lemma_fields_stay_none(ks@, b@, at as int, i + 1);
                }
                return None;
            },
            Some((f, next)) => {
                let ghost before = out@;
                out.push(f);
                assert(field_views(out@) =~= field_views(before).push(out@[i as int]@));
                off = next;
            },
        }
        i = i + 1;
    }
    assert(ks@.take(i as int) =~= ks@);
    Some((out, off))
}

/// Whether a value can be written as a field of a kind: it has the kind's shape, a text
/// holds 1 to 4096 UTF-8 bytes, and a list has no more entries than its count can say.
pub open spec fn field_writable(k: FieldKind, f: FieldView) -> bool {
    match k {
        FieldKind::U8 => f is U8,
        FieldKind::U16 => f is U16,
        FieldKind::U32 => f is U32,
        FieldKind::U64 => f is U64,
        FieldKind::U128 => f is U128,
        FieldKind::Fixed => f is Fixed,
        FieldKind::Text => f matches FieldView::Text(t) && text_fits(t),
        FieldKind::Fixeds(_) => f matches FieldView::Fixeds(v) && v.len() <= u16::MAX,
        FieldKind::FixedsByte(_) => f matches FieldView::Fixeds(v) && v.len() <= u8::MAX,
        FieldKind::U32s(_) => f matches FieldView::U32s(v) && v.len() <= u16::MAX,
        FieldKind::Texts(_) => f matches FieldView::Texts(v) && v.len() <= u16::MAX && forall|
            i: int,
        | 0 <= i < v.len() ==> text_fits(#[trigger] v[i]),
    }
}

/// Whether values can be written as fields of kinds, one for one.
pub open spec fn fields_writable(ks: Seq<FieldKind>, fs: Seq<FieldView>) -> bool {
    ks.len() == fs.len() && forall|i: int|
        0 <= i < fs.len() ==> field_writable(ks[i], #[trigger] fs[i])
}

/// Appends a text field; refused when the text is empty or longer than 4096 bytes.
pub fn write_text(out: &mut Vec<u8>, t: &str) -> (r: bool)
    ensures
        r == text_fits(t@),
        r ==> final(out)@ == old(out)@ + text_field(t@),
{
    let bytes = t.as_bytes();
    if bytes.len() == 0 || bytes.len() > MAX_TEXT_BYTES {
        return false;
    }
    push_u32(out, bytes.len() as u32);
    push_all(out, bytes);
    assert(final(out)@ =~= old(out)@ + text_field(t@));
    true
}

fn write_fixed_list(out: &mut Vec<u8>, v: &Vec<[u8; 32]>)
    ensures
        final(out)@ == old(out)@ + concat_fixed(fixed_views(v@)),
{
    let ghost start = out@;
    let mut i: usize = 0;
    while i < v.len()
        invariant
            i <= v@.len(),
            out@ == start + concat_fixed(fixed_views(v@.take(i as int))),
        decreases v@.len() - i,
    {
        push_all(out, &v[i]);
        proof {
            assert(fixed_views(v@.take(i + 1)).drop_last() =~= fixed_views(v@.take(i as int)));
            assert(out@ =~= start + concat_fixed(fixed_views(v@.take(i + 1))));
        }
        i = i + 1;
    }
    assert(v@.take(i as int) =~= v@);
}

fn write_u32_list(out: &mut Vec<u8>, v: &Vec<u32>)
    ensures
        final(out)@ == old(out)@ + concat_u32(v@),
{
    let ghost start = out@;
    let mut i: usize = 0;
    while i < v.len()
        invariant
            i <= v@.len(),
            out@ == start + concat_u32(v@.take(i as int)),
        decreases v@.len() - i,
    {
        push_u32(out, v[i]);
        proof {
            assert(v@.take(i + 1).drop_last() =~= v@.take(i as int));
            assert(out@ =~= start + concat_u32(v@.take(i + 1)));
        }
        i = i + 1;
    }
    assert(v@.take(i as int) =~= v@);
}

fn write_text_list(out: &mut Vec<u8>, v: &Vec<String>) -> (r: bool)
    ensures
        r == forall|i: int| 0 <= i < v@.len() ==> text_fits(#[trigger] string_views(v@)[i]),
        r ==> final(out)@ == old(out)@ + concat_text(string_views(v@)),
{
    let ghost start = out@;
    let mut i: usize = 0;
    while i < v.len()
        invariant
            i <= v@.len(),
            out@ == start + concat_text(string_views(v@.take(i as int))),
            forall|q: int| 0 <= q < i ==> text_fits(#[trigger] string_views(v@)[q]),
        decreases v@.len() - i,
    {
        if !write_text(out, v[i].as_str()) {
            assert(!text_fits(string_views(v@)[i as int]));
            return false;
        }
        proof {
            assert(string_views(v@.take(i + 1)).drop_last() =~= string_views(v@.take(i as int)));
            assert(out@ =~= start + concat_text(string_views(v@.take(i + 1))));
        }
        i = i + 1;
    }
    assert(v@.take(i as int) =~= v@);
    true
}

/// Appends a field of kind `k`; refused when the value cannot be written as that kind.
/// A refusal may leave part of the field written.
pub fn write_field(out: &mut Vec<u8>, k: FieldKind, f: &FieldValue) -> (r: bool)
    ensures
        r == field_writable(k, f@),
        r ==> final(out)@ == old(out)@ + field_bytes(k, f@),
{
    match (k, f) {
        (FieldKind::U8, FieldValue::U8(x)) => {
            out.push(*x);
            assert(final(out)@ =~= old(out)@ + field_bytes(k, f@));
            true
        },
        (FieldKind::U16, FieldValue::U16(x)) => {
            push_u16(out, *x);
            true
        },
        (FieldKind::U32, FieldValue::U32(x)) => {
            push_u32(out, *x);
            true
        },
        (FieldKind::U64, FieldValue::U64(x)) => {
            push_u64(out, *x);
            true
        },
        (FieldKind::U128, FieldValue::U128(x)) => {
            push_u128(out, *x);
            true
        },
        (FieldKind::Fixed, FieldValue::Fixed(a)) => {
            push_all(out, a);
            true
        },
        (FieldKind::Text, FieldValue::Text(t)) => write_text(out, t.as_str()),
        (FieldKind::Fixeds(_), FieldValue::Fixeds(v)) => {
            if v.len() > 65535 {
                return false;
            }
            push_u16(out, v.len() as u16);
            write_fixed_list(out, v);
            assert(final(out)@ =~= old(out)@ + field_bytes(k, f@));
            true
        },
        (FieldKind::FixedsByte(_), FieldValue::Fixeds(v)) => {
            if v.len() > 255 {
                return false;
            }
            out.push(v.len() as u8);
            write_fixed_list(out, v);
            assert(final(out)@ =~= old(out)@ + field_bytes(k, f@));
            true
        },
        (FieldKind::U32s(_), FieldValue::U32s(v)) => {
            if v.len() > 65535 {
                return false;
            }
            push_u16(out, v.len() as u16);
            write_u32_list(out, v);
            assert(final(out)@ =~= old(out)@ + field_bytes(k, f@));
            true
        },
        (FieldKind::Texts(_), FieldValue::Texts(v)) => {
            if v.len() > 65535 {
                return false;
            }
            push_u16(out, v.len() as u16);
            if !write_text_list(out, v) {
                return false;
            }
            assert(final(out)@ =~= old(out)@ + field_bytes(k, f@));
            true
        },
        _ => false,
    }
}

/// Appends fields of the kinds `ks`; refused when a value cannot be written as its kind.
/// A refusal may leave part of the fields written.
pub fn write_fields(out: &mut Vec<u8>, ks: &Vec<FieldKind>, fs: &Vec<FieldValue>) -> (r: bool)
    requires
        ks@.len() == fs@.len(),
    ensures
        r == fields_writable(ks@, field_views(fs@)),
        r ==> final(out)@ == old(out)@ + fields_bytes(ks@, field_views(fs@)),
{
    let ghost start = out@;
    let mut i: usize = 0;
    while i < fs.len()
        invariant
            i <= fs@.len(),
            ks@.len() == fs@.len(),
            out@ == start + fields_bytes(ks@.take(i as int), field_views(fs@.take(i as int))),
            forall|q: int| 0 <= q < i ==> field_writable(ks@[q], #[trigger] field_views(fs@)[q]),
        decreases fs@.len() - i,
    {
        if !write_field(out, ks[i], &fs[i]) {
            assert(!field_writable(ks@[i as int], field_views(fs@)[i as int]));
            return false;
        }
        proof {
            assert(ks@.take(i + 1).drop_last() =~= ks@.take(i as int));
            assert(field_views(fs@.take(i + 1)).drop_last() =~= field_views(fs@.take(i as int)));
            assert(out@ =~= start + fields_bytes(ks@.take(i + 1), field_views(fs@.take(i + 1))));
        }
        i = i + 1;
    }
    assert(ks@.take(i as int) =~= ks@);
    assert(fs@.take(i as int) =~= fs@);
    true
}

fn fixed_lists_equal(a: &Vec<[u8; 32]>, b: &Vec<[u8; 32]>) -> (r: bool)
    ensures
        r == (fixed_views(a@) == fixed_views(b@)),
{
    if a.len() != b.len() {
        assert(fixed_views(a@).len() != fixed_views(b@).len());
        return false;
    }
    let mut i: usize = 0;
    while i < a.len()
        invariant
            i <= a@.len(),
            a@.len() == b@.len(),
            forall|q: int| 0 <= q < i ==> a@[q]@ == b@[q]@,
        decreases a@.len() - i,
    {
        if !crate::bytes::fixed_equal(&a[i], &b[i]) {
            assert(fixed_views(a@)[i as int] != fixed_views(b@)[i as int]);
            return false;
        }
        i = i + 1;
    }
    assert(fixed_views(a@) =~= fixed_views(b@));
    true
}

fn u32_lists_equal(a: &Vec<u32>, b: &Vec<u32>) -> (r: bool)
    ensures
        r == (a@ == b@),
{
    if a.len() != b.len() {
        return false;
    }
    let mut i: usize = 0;
    while i < a.len()
        invariant
            i <= a@.len(),
            a@.len() == b@.len(),
            forall|q: int| 0 <= q < i ==> a@[q] == b@[q],
        decreases a@.len() - i,
    {
        if a[i] != b[i] {
            return false;
        }
        i = i + 1;
    }
    assert(a@ =~= b@);
    true
}

fn text_lists_equal(a: &Vec<String>, b: &Vec<String>) -> (r: bool)
    ensures
        r == (string_views(a@) == string_views(b@)),
{
    if a.len() != b.len() {
        assert(string_views(a@).len() != string_views(b@).len());
        return false;
    }
    let mut i: usize = 0;
    while i < a.len()
        invariant
            i <= a@.len(),
            a@.len() == b@.len(),
            forall|q: int| 0 <= q < i ==> a@[q]@ == b@[q]@,
        decreases a@.len() - i,
    {
        if !crate::text::same_text(a[i].as_str(), b[i].as_str()) {
            assert(string_views(a@)[i as int] != string_views(b@)[i as int]);
            return false;
        }
        i = i + 1;
    }
    assert(string_views(a@) =~= string_views(b@));
    true
}

/// Whether two fields hold the same value.
pub fn field_equal(a: &FieldValue, b: &FieldValue) -> (r: bool)
    ensures
        r == (a@ == b@),
{
    match (a, b) {
        (FieldValue::U8(x), FieldValue::U8(y)) => *x == *y,
        (FieldValue::U16(x), FieldValue::U16(y)) => *x == *y,
        (FieldValue::U32(x), FieldValue::U32(y)) => *x == *y,
        (FieldValue::U64(x), FieldValue::U64(y)) => *x == *y,
        (FieldValue::U128(x), FieldValue::U128(y)) => *x == *y,
        (FieldValue::Fixed(x), FieldValue::Fixed(y)) => crate::bytes::fixed_equal(x, y),
        (FieldValue::Text(x), FieldValue::Text(y)) => crate::text::same_text(x.as_str(), y.as_str()),
        (FieldValue::Fixeds(x), FieldValue::Fixeds(y)) => fixed_lists_equal(x, y),
        (FieldValue::U32s(x), FieldValue::U32s(y)) => u32_lists_equal(x, y),
        (FieldValue::Texts(x), FieldValue::Texts(y)) => text_lists_equal(x, y),
        _ => false,
    }
}

/// Whether two field lists hold the same values.
pub fn fields_equal(a: &Vec<FieldValue>, b: &Vec<FieldValue>) -> (r: bool)
    ensures
        r == (field_views(a@) == field_views(b@)),
{
    if a.len() != b.len() {
        assert(field_views(a@).len() != field_views(b@).len());
        return false;
    }
    let mut i: usize = 0;
    while i < a.len()
        invariant
            i <= a@.len(),
            a@.len() == b@.len(),
            forall|q: int| 0 <= q < i ==> a@[q]@ == b@[q]@,
        decreases a@.len() - i,
    {
        if !field_equal(&a[i], &b[i]) {
            assert(field_views(a@)[i as int] != field_views(b@)[i as int]);
            return false;
        }
        i = i + 1;
    }
    assert(field_views(a@) =~= field_views(b@));
    true
}

} // verus!
