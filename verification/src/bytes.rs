//! Byte-sequence helpers shared by the durable encodings: lexicographic order,
//! prefix tests, identifier validation and big-endian integers.
use vstd::prelude::*;

verus! {

/// Result of a three-way comparison of two byte strings.
#[derive(Clone, Copy, Debug, PartialEq, Eq)]
pub enum Precedence {
    Before,
    Same,
    After,
}

/// Strict lexicographic order on byte strings (a proper prefix sorts first).
pub open spec fn lex_lt(a: Seq<u8>, b: Seq<u8>) -> bool
    decreases a.len(),
{
    if a.len() == 0 {
        b.len() > 0
    } else if b.len() == 0 {
        false
    } else if a[0] != b[0] {
        a[0] < b[0]
    } else {
        lex_lt(a.drop_first(), b.drop_first())
    }
}

pub proof fn lemma_lex_irreflexive(a: Seq<u8>)
    ensures
        !lex_lt(a, a),
    decreases a.len(),
{
    if a.len() > 0 {
        lemma_lex_irreflexive(a.drop_first());
    }
}

pub proof fn lemma_lex_asymmetric(a: Seq<u8>, b: Seq<u8>)
    ensures
        !(lex_lt(a, b) && lex_lt(b, a)),
    decreases a.len(),
{
    if a.len() > 0 && b.len() > 0 && a[0] == b[0] {
        lemma_lex_asymmetric(a.drop_first(), b.drop_first());
    }
}

pub proof fn lemma_lex_transitive(a: Seq<u8>, b: Seq<u8>, c: Seq<u8>)
    requires
        lex_lt(a, b),
        lex_lt(b, c),
    ensures
        lex_lt(a, c),
    decreases a.len(),
{
    if a.len() > 0 && b.len() > 0 && c.len() > 0 && a[0] == b[0] && b[0] == c[0] {
        lemma_lex_transitive(a.drop_first(), b.drop_first(), c.drop_first());
    }
}

pub proof fn lemma_lex_total(a: Seq<u8>, b: Seq<u8>)
    ensures
        a =~= b || lex_lt(a, b) || lex_lt(b, a),
    decreases a.len(),
{
    if a.len() > 0 && b.len() > 0 && a[0] == b[0] {
        lemma_lex_total(a.drop_first(), b.drop_first());
        if a.drop_first() =~= b.drop_first() {
            assert(a =~= seq![a[0]] + a.drop_first());
            assert(b =~= seq![b[0]] + b.drop_first());
        }
    }
}

proof fn lemma_lex_skip(a: Seq<u8>, b: Seq<u8>, i: int)
    requires
        0 <= i <= a.len(),
        i <= b.len(),
        a.take(i) =~= b.take(i),
    ensures
        lex_lt(a, b) == lex_lt(a.skip(i), b.skip(i)),
    decreases i,
{
    if i > 0 {
        assert(a[0] == a.take(i)[0]);
        assert(b[0] == b.take(i)[0]);
        assert(a.drop_first().take(i - 1) =~= b.drop_first().take(i - 1)) by {
            assert forall|k: int| 0 <= k < i - 1 implies #[trigger] a.drop_first().take(i - 1)[k]
                == b.drop_first().take(i - 1)[k] by {
                assert(a.take(i)[k + 1] == b.take(i)[k + 1]);
            }
        }
        lemma_lex_skip(a.drop_first(), b.drop_first(), i - 1);
        assert(a.drop_first().skip(i - 1) =~= a.skip(i));
        assert(b.drop_first().skip(i - 1) =~= b.skip(i));
    } else {
        assert(a.skip(0) =~= a);
        assert(b.skip(0) =~= b);
    }
}

/// Three-way lexicographic comparison of two byte strings.
pub fn compare_bytes(a: &[u8], b: &[u8]) -> (r: Precedence)
    ensures
        r == Precedence::Same <==> a@ =~= b@,
        r == Precedence::Before <==> lex_lt(a@, b@),
        r == Precedence::After <==> lex_lt(b@, a@),
{
    proof {
        lemma_lex_asymmetric(a@, b@);
        lemma_lex_irreflexive(a@);
        lemma_lex_total(a@, b@);
    }
    let mut i: usize = 0;
    while i < a.len() && i < b.len()
        invariant
            i <= a.len(),
            i <= b.len(),
            a@.take(i as int) =~= b@.take(i as int),
        decreases a.len() - i,
    {
        if a[i] != b[i] {
            proof {
                lemma_lex_skip(a@, b@, i as int);
                lemma_lex_skip(b@, a@, i as int);
                assert(a@.skip(i as int)[0] == a@[i as int]);
                assert(b@.skip(i as int)[0] == b@[i as int]);
            }
            if a[i] < b[i] {
                return Precedence::Before;
            } else {
                return Precedence::After;
            }
        }
        assert(a@.take(i + 1) =~= a@.take(i as int).push(a@[i as int]));
        assert(b@.take(i + 1) =~= b@.take(i as int).push(b@[i as int]));
        i = i + 1;
    }
    proof {
        lemma_lex_skip(a@, b@, i as int);
        lemma_lex_skip(b@, a@, i as int);
    }
    if a.len() == b.len() {
        assert(a@ =~= a@.take(i as int));
        assert(b@ =~= b@.take(i as int));
        Precedence::Same
    } else if a.len() < b.len() {
        Precedence::Before
    } else {
        Precedence::After
    }
}

/// Whether `bytes` begins with `prefix`.
pub open spec fn has_prefix(bytes: Seq<u8>, prefix: Seq<u8>) -> bool {
    prefix.len() <= bytes.len() && bytes.take(prefix.len() as int) =~= prefix
}

/// Prefix test on byte strings.
pub fn starts_with(bytes: &[u8], prefix: &[u8]) -> (r: bool)
    ensures
        r == has_prefix(bytes@, prefix@),
{
    if prefix.len() > bytes.len() {
        return false;
    }
    let mut i: usize = 0;
    while i < prefix.len()
        invariant
            prefix.len() <= bytes.len(),
            i <= prefix.len(),
            forall|k: int| 0 <= k < i ==> bytes@[k] == prefix@[k],
        decreases prefix.len() - i,
    {
        if bytes[i] != prefix[i] {
            assert(bytes@.take(prefix.len() as int)[i as int] != prefix@[i as int]);
            return false;
        }
        i = i + 1;
    }
    assert(bytes@.take(prefix.len() as int) =~= prefix@);
    true
}

/// Equality of two byte strings.
pub fn bytes_equal(a: &[u8], b: &[u8]) -> (r: bool)
    ensures
        r == (a@ =~= b@),
{
    if a.len() != b.len() {
        return false;
    }
    let mut i: usize = 0;
    while i < a.len()
        invariant
            a.len() == b.len(),
            i <= a.len(),
            forall|k: int| 0 <= k < i ==> a@[k] == b@[k],
        decreases a.len() - i,
    {
        if a[i] != b[i] {
            return false;
        }
        i = i + 1;
    }
    assert(a@ =~= b@);
    true
}

/// Whether a byte string holds a zero byte.
pub fn contains_zero(bytes: &[u8]) -> (r: bool)
    ensures
        r == bytes@.contains(0u8),
{
    let mut i: usize = 0;
    while i < bytes.len()
        invariant
            i <= bytes.len(),
            forall|k: int| 0 <= k < i ==> bytes@[k] != 0u8,
        decreases bytes.len() - i,
    {
        if bytes[i] == 0 {
            assert(bytes@[i as int] == 0u8);
            return true;
        }
        i = i + 1;
    }
    false
}

/// The UTF-8 bytes of a text value.
pub open spec fn text_bytes(text: Seq<char>) -> Seq<u8> {
    vstd::utf8::encode_utf8(text)
}

/// A bounded, non-empty, NUL-free identifier (measured in UTF-8 bytes).
pub open spec fn valid_identifier(text: Seq<char>) -> bool {
    let bytes = text_bytes(text);
    &&& bytes.len() > 0
    &&& bytes.len() <= 255
    &&& !bytes.contains(0u8)
}

/// Checks the shared identifier rule: non-empty, at most 255 bytes, no NUL byte.
pub fn is_valid_identifier(text: &str) -> (r: bool)
    ensures
        r == valid_identifier(text@),
{
    let bytes = text.as_bytes();
    bytes.len() > 0 && bytes.len() <= 255 && !contains_zero(bytes)
}

/// Big-endian encoding of a `u16`.
pub open spec fn u16_be(v: u16) -> Seq<u8> {
    seq![(v >> 8u16) as u8, v as u8]
}

/// Big-endian encoding of a `u32`.
pub open spec fn u32_be(v: u32) -> Seq<u8> {
    seq![(v >> 24u32) as u8, (v >> 16u32) as u8, (v >> 8u32) as u8, v as u8]
}

/// Big-endian encoding of a `u64`.
pub open spec fn u64_be(v: u64) -> Seq<u8> {
    seq![
        (v >> 56u64) as u8,
        (v >> 48u64) as u8,
        (v >> 40u64) as u8,
        (v >> 32u64) as u8,
        (v >> 24u64) as u8,
        (v >> 16u64) as u8,
        (v >> 8u64) as u8,
        v as u8,
    ]
}

/// Big-endian encoding of a `u128`, as two `u64` halves.
pub open spec fn u128_be(v: u128) -> Seq<u8> {
    u64_be((v >> 64u128) as u64) + u64_be(v as u64)
}

/// The `u16` whose big-endian encoding is `b0 b1`.
pub open spec fn u16_of(b0: u8, b1: u8) -> u16 {
    ((b0 as u16) << 8u16) | (b1 as u16)
}

/// The `u32` whose big-endian encoding is `b0 b1 b2 b3`.
pub open spec fn u32_of(b0: u8, b1: u8, b2: u8, b3: u8) -> u32 {
    ((b0 as u32) << 24u32) | ((b1 as u32) << 16u32) | ((b2 as u32) << 8u32) | (b3 as u32)
}

/// The `u64` whose big-endian encoding is `hi` followed by `lo`.
pub open spec fn u64_of(hi: u32, lo: u32) -> u64 {
    ((hi as u64) << 32u64) | (lo as u64)
}

/// Decodes four big-endian bytes at `at`.
pub open spec fn u32_at(bytes: Seq<u8>, at: int) -> u32 {
    u32_of(bytes[at], bytes[at + 1], bytes[at + 2], bytes[at + 3])
}

/// Decodes eight big-endian bytes at `at`.
pub open spec fn u64_at(bytes: Seq<u8>, at: int) -> u64 {
    u64_of(u32_at(bytes, at), u32_at(bytes, at + 4))
}

/// Decodes sixteen big-endian bytes at `at`.
pub open spec fn u128_at(bytes: Seq<u8>, at: int) -> u128 {
    ((u64_at(bytes, at) as u128) << 64u128) | (u64_at(bytes, at + 8) as u128)
}

pub proof fn lemma_u16_roundtrip(v: u16, b0: u8, b1: u8)
    ensures
        u16_of((v >> 8u16) as u8, v as u8) == v,
        (u16_of(b0, b1) >> 8u16) as u8 == b0,
        u16_of(b0, b1) as u8 == b1,
{
    assert(u16_of((v >> 8u16) as u8, v as u8) == v) by (bit_vector);
    assert((u16_of(b0, b1) >> 8u16) as u8 == b0 && u16_of(b0, b1) as u8 == b1) by (bit_vector);
}

pub proof fn lemma_u32_roundtrip(v: u32)
    ensures
        u32_of((v >> 24u32) as u8, (v >> 16u32) as u8, (v >> 8u32) as u8, v as u8) == v,
{
    assert(u32_of((v >> 24u32) as u8, (v >> 16u32) as u8, (v >> 8u32) as u8, v as u8) == v)
        by (bit_vector);
}

pub proof fn lemma_u32_bytes(b0: u8, b1: u8, b2: u8, b3: u8)
    ensures
        u32_be(u32_of(b0, b1, b2, b3)) =~= seq![b0, b1, b2, b3],
{
    let v = u32_of(b0, b1, b2, b3);
    assert((v >> 24u32) as u8 == b0 && (v >> 16u32) as u8 == b1 && (v >> 8u32) as u8 == b2
        && v as u8 == b3) by (bit_vector)
        requires
            v == u32_of(b0, b1, b2, b3),
    ;
}

pub proof fn lemma_u64_split(v: u64)
    ensures
        u64_of(
            u32_of((v >> 56u64) as u8, (v >> 48u64) as u8, (v >> 40u64) as u8, (v >> 32u64) as u8),
            u32_of((v >> 24u64) as u8, (v >> 16u64) as u8, (v >> 8u64) as u8, v as u8),
        ) == v,
{
    assert(u64_of(
        u32_of((v >> 56u64) as u8, (v >> 48u64) as u8, (v >> 40u64) as u8, (v >> 32u64) as u8),
        u32_of((v >> 24u64) as u8, (v >> 16u64) as u8, (v >> 8u64) as u8, v as u8),
    ) == v) by (bit_vector);
}

pub proof fn lemma_u64_bytes(hi: u32, lo: u32)
    ensures
        u64_be(u64_of(hi, lo)) =~= u32_be(hi) + u32_be(lo),
{
    let v = u64_of(hi, lo);
    assert((v >> 56u64) as u8 == (hi >> 24u32) as u8 && (v >> 48u64) as u8 == (hi >> 16u32) as u8
        && (v >> 40u64) as u8 == (hi >> 8u32) as u8 && (v >> 32u64) as u8 == hi as u8 && (v
        >> 24u64) as u8 == (lo >> 24u32) as u8 && (v >> 16u64) as u8 == (lo >> 16u32) as u8 && (v
        >> 8u64) as u8 == (lo >> 8u32) as u8 && v as u8 == lo as u8) by (bit_vector)
        requires
            v == u64_of(hi, lo),
    ;
}

pub proof fn lemma_u128_split(v: u128)
    ensures
        ((((v >> 64u128) as u64) as u128) << 64u128) | ((v as u64) as u128) == v,
{
    assert(((((v >> 64u128) as u64) as u128) << 64u128) | ((v as u64) as u128) == v)
        by (bit_vector);
}

pub proof fn lemma_u128_halves(hi: u64, lo: u64)
    ensures
        ((((hi as u128) << 64u128) | (lo as u128)) >> 64u128) as u64 == hi,
        (((hi as u128) << 64u128) | (lo as u128)) as u64 == lo,
{
    assert(((((hi as u128) << 64u128) | (lo as u128)) >> 64u128) as u64 == hi) by (bit_vector);
    assert((((hi as u128) << 64u128) | (lo as u128)) as u64 == lo) by (bit_vector);
}

/// Decoding eight encoded bytes gives back the value.
pub proof fn lemma_u64_at_be(prefix: Seq<u8>, v: u64, suffix: Seq<u8>)
    ensures
        u64_at(prefix + u64_be(v) + suffix, prefix.len() as int) == v,
{
    let s = prefix + u64_be(v) + suffix;
    let at = prefix.len() as int;
    assert(s[at] == (v >> 56u64) as u8);
    assert(s[at + 7] == v as u8);
    lemma_u64_split(v);
}

/// Decoding four encoded bytes gives back the value.
pub proof fn lemma_u32_at_be(prefix: Seq<u8>, v: u32, suffix: Seq<u8>)
    ensures
        u32_at(prefix + u32_be(v) + suffix, prefix.len() as int) == v,
{
    let s = prefix + u32_be(v) + suffix;
    let at = prefix.len() as int;
    assert(s[at] == (v >> 24u32) as u8);
    assert(s[at + 3] == v as u8);
    lemma_u32_roundtrip(v);
}

/// Appends the big-endian encoding of a `u16`.
pub fn push_u16(output: &mut Vec<u8>, value: u16)
    ensures
        final(output)@ == old(output)@ + u16_be(value),
{
    output.push((value >> 8) as u8);
    output.push(value as u8);
    assert(final(output)@ =~= old(output)@ + u16_be(value));
}

/// Appends the big-endian encoding of a `u32`.
pub fn push_u32(output: &mut Vec<u8>, value: u32)
    ensures
        final(output)@ == old(output)@ + u32_be(value),
{
    output.push((value >> 24) as u8);
    output.push((value >> 16) as u8);
    output.push((value >> 8) as u8);
    output.push(value as u8);
    assert(final(output)@ =~= old(output)@ + u32_be(value));
}

/// Appends the big-endian encoding of a `u64`.
pub fn push_u64(output: &mut Vec<u8>, value: u64)
    ensures
        final(output)@ == old(output)@ + u64_be(value),
{
    output.push((value >> 56) as u8);
    output.push((value >> 48) as u8);
    output.push((value >> 40) as u8);
    output.push((value >> 32) as u8);
    output.push((value >> 24) as u8);
    output.push((value >> 16) as u8);
    output.push((value >> 8) as u8);
    output.push(value as u8);
    assert(final(output)@ =~= old(output)@ + u64_be(value));
}

/// Appends the big-endian encoding of a `u128`.
pub fn push_u128(output: &mut Vec<u8>, value: u128)
    ensures
        final(output)@ == old(output)@ + u128_be(value),
{
    push_u64(output, (value >> 64) as u64);
    push_u64(output, value as u64);
    assert(final(output)@ =~= old(output)@ + u128_be(value));
}

/// Appends every byte of `bytes`.
pub fn push_all(output: &mut Vec<u8>, bytes: &[u8])
    ensures
        final(output)@ == old(output)@ + bytes@,
{
    let mut i: usize = 0;
    while i < bytes.len()
        invariant
            i <= bytes.len(),
            output@ =~= old(output)@ + bytes@.take(i as int),
        decreases bytes.len() - i,
    {
        output.push(bytes[i]);
        assert(bytes@.take(i + 1) =~= bytes@.take(i as int).push(bytes@[i as int]));
        i = i + 1;
    }
    assert(bytes@.take(i as int) =~= bytes@);
}

/// Reads four big-endian bytes at `at`.
pub fn read_u32(bytes: &[u8], at: usize) -> (r: u32)
    requires
        at + 4 <= bytes.len(),
    ensures
        r == u32_at(bytes@, at as int),
{
    ((bytes[at] as u32) << 24) | ((bytes[at + 1] as u32) << 16) | ((bytes[at + 2] as u32) << 8)
        | (bytes[at + 3] as u32)
}

/// Reads eight big-endian bytes at `at`.
pub fn read_u64(bytes: &[u8], at: usize) -> (r: u64)
    requires
        at + 8 <= bytes.len(),
    ensures
        r == u64_at(bytes@, at as int),
{
    let hi = read_u32(bytes, at);
    let lo = read_u32(bytes, at + 4);
    ((hi as u64) << 32) | (lo as u64)
}

/// Reads sixteen big-endian bytes at `at`.
pub fn read_u128(bytes: &[u8], at: usize) -> (r: u128)
    requires
        at + 16 <= bytes.len(),
    ensures
        r == u128_at(bytes@, at as int),
{
    let hi = read_u64(bytes, at);
    let lo = read_u64(bytes, at + 8);
    ((hi as u128) << 64) | (lo as u128)
}

/// Copies `length` bytes starting at `at`.
pub fn copy_range(bytes: &[u8], at: usize, length: usize) -> (r: Vec<u8>)
    requires
        at + length <= bytes.len(),
    ensures
        r@ =~= bytes@.subrange(at as int, at + length),
{
    let mut out: Vec<u8> = Vec::new();
    let mut i: usize = 0;
    while i < length
        invariant
            at + length <= bytes.len(),
            i <= length,
            out@ =~= bytes@.subrange(at as int, at + i),
        decreases length - i,
    {
        out.push(bytes[at + i]);
        i = i + 1;
    }
    out
}

/// Copies the 32 bytes starting at `at` into a fixed array.
pub fn read_fixed(bytes: &[u8], at: usize) -> (r: [u8; 32])
    requires
        at + 32 <= bytes.len(),
    ensures
        r@ =~= bytes@.subrange(at as int, at + 32),
{
    let mut out = [0u8; 32];
    let mut i: usize = 0;
    while i < 32
        invariant
            at + 32 <= bytes.len(),
            i <= 32,
            out@.len() == 32,
            forall|k: int| 0 <= k < i ==> out@[k] == bytes@[at + k],
        decreases 32 - i,
    {
        out[i] = bytes[at + i];
        i = i + 1;
    }
    out
}

/// Whether all 32 bytes are zero.
pub fn is_zero32(value: &[u8; 32]) -> (r: bool)
    ensures
        r == (value@ =~= Seq::new(32, |_i: int| 0u8)),
{
    let mut i: usize = 0;
    while i < 32
        invariant
            i <= 32,
            value@.len() == 32,
            forall|k: int| 0 <= k < i ==> value@[k] == 0u8,
        decreases 32 - i,
    {
        if value[i] != 0 {
            assert(value@[i as int] != Seq::new(32, |_i: int| 0u8)[i as int]);
            return false;
        }
        i = i + 1;
    }
    true
}

/// Equality of two 32-byte values.
pub fn fixed_equal(a: &[u8; 32], b: &[u8; 32]) -> (r: bool)
    ensures
        r == (a@ =~= b@),
{
    let mut i: usize = 0;
    while i < 32
        invariant
            i <= 32,
            a@.len() == 32,
            b@.len() == 32,
            forall|k: int| 0 <= k < i ==> a@[k] == b@[k],
        decreases 32 - i,
    {
        if a[i] != b[i] {
            return false;
        }
        i = i + 1;
    }
    true
}

/// A length-prefixed field: the body's length as a big-endian `u32`, then the body.
pub open spec fn sized(body: Seq<u8>) -> Seq<u8> {
    u32_be(body.len() as u32) + body
}

/// Reads a length-prefixed field at `at`: its body and the offset just past it.
pub open spec fn parse_sized(bytes: Seq<u8>, at: int) -> Option<(Seq<u8>, int)> {
    if 0 <= at && at + 4 <= bytes.len() {
        let n = u32_at(bytes, at) as int;
        if at + 4 + n <= bytes.len() {
            Some((bytes.subrange(at + 4, at + 4 + n), at + 4 + n))
        } else {
            None
        }
    } else {
        None
    }
}

/// A length-prefixed field is read back whole, whatever precedes and follows it.
pub proof fn lemma_parse_sized(prefix: Seq<u8>, body: Seq<u8>, suffix: Seq<u8>)
    requires
        body.len() <= u32::MAX,
    ensures
        parse_sized(prefix + sized(body) + suffix, prefix.len() as int) == Some(
            (body, (prefix.len() + 4 + body.len()) as int),
        ),
{
    let s = prefix + sized(body) + suffix;
    let at = prefix.len() as int;
    assert(s =~= prefix + u32_be(body.len() as u32) + (body + suffix));
    lemma_u32_at_be(prefix, body.len() as u32, body + suffix);
    assert(s.subrange(at + 4, at + 4 + body.len()) =~= body);
}

/// Appends a length-prefixed field; refused, leaving `output` unchanged, when the body is
/// longer than a `u32` can count.
pub fn push_sized(output: &mut Vec<u8>, body: &[u8]) -> (r: bool)
    ensures
        r == (body@.len() <= u32::MAX),
        r ==> final(output)@ == old(output)@ + sized(body@),
        !r ==> final(output)@ == old(output)@,
{
    if body.len() > 4294967295usize {
        return false;
    }
    push_u32(output, body.len() as u32);
    push_all(output, body);
    assert(final(output)@ =~= old(output)@ + sized(body@));
    true
}

/// Locates the length-prefixed field at `at`: the start and end of its body.
pub fn read_sized(bytes: &[u8], at: usize) -> (r: Option<(usize, usize)>)
    ensures
        r is Some <==> parse_sized(bytes@, at as int) is Some,
        r matches Some((start, end)) ==> start == at + 4 && start <= end <= bytes@.len()
            && parse_sized(bytes@, at as int) == Some((bytes@.subrange(start as int, end as int), end as int)),
{
    if at > bytes.len() || bytes.len() - at < 4 {
        return None;
    }
    let n = read_u32(bytes, at) as usize;
    let start = at + 4;
    if n > bytes.len() - start {
        return None;
    }
    Some((start, start + n))
}

} // verus!
