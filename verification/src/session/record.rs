//! The durable encoding of a session record.
use vstd::prelude::*;

use crate::bytes::{
    lemma_u128_split, lemma_u16_roundtrip, lemma_u64_at_be, push_all, push_u128, push_u16,
    push_u64, read_fixed, read_u128, read_u64, text_bytes, u128_at, u128_be, u16_be, u16_of,
    u64_at, u64_be,
};
use crate::identity::{authority_id, authority_kind, ProtocolAuthority};
use crate::session::sets::{
    ascending_texts, ascending_u16, insert_text, insert_u16, lemma_push_members, string_texts,
};
use crate::session::registry::with_open;
use crate::session::{OpenRequest, SessionError, SessionId, SessionRecord};
use crate::store::TenantId;
use crate::text::utf8_text;

verus! {

/// The six magic bytes `LXSR02`.
pub open spec fn session_magic() -> Seq<u8> {
    seq![76u8, 88u8, 83u8, 82u8, 48u8, 50u8]
}

/// The two big-endian bytes at `at` as a `u16`.
pub open spec fn u16_at(b: Seq<u8>, at: int) -> u16 {
    u16_of(b[at], b[at + 1])
}

/// A text with a two-byte length prefix.
pub open spec fn text16(t: Seq<char>) -> Seq<u8> {
    u16_be(text_bytes(t).len() as u16) + text_bytes(t)
}

/// Activity types, two bytes each.
pub open spec fn activity_bytes(a: Seq<u16>) -> Seq<u8>
    decreases a.len(),
{
    if a.len() == 0 {
        Seq::empty()
    } else {
        activity_bytes(a.drop_last()) + u16_be(a.last())
    }
}

/// Scopes, each with a two-byte length prefix.
pub open spec fn scope_bytes(s: Seq<Seq<char>>) -> Seq<u8>
    decreases s.len(),
{
    if s.len() == 0 {
        Seq::empty()
    } else {
        scope_bytes(s.drop_last()) + text16(s.last())
    }
}

/// A session record as plain values.
pub struct SessionView {
    pub session_id: Seq<u8>,
    pub token_id: Seq<u8>,
    pub expiry_sequence: u64,
    pub open: bool,
    pub sequence: u64,
    pub budget_reserved: u128,
    pub subscription_cursor: u64,
    pub opening_client: Seq<char>,
    pub policy_version: Seq<char>,
    pub agent: Seq<char>,
    pub authority_kind: u8,
    pub authority_id: Seq<u8>,
    pub activity_types: Seq<u16>,
    pub scopes: Seq<Seq<char>>,
}

/// What a record holds, its tenant aside.
pub open spec fn session_view(r: SessionRecord) -> SessionView {
    SessionView {
        session_id: r.request.session_id.0@,
        token_id: r.request.token_id@,
        expiry_sequence: r.request.expiry_sequence,
        open: r.open,
        sequence: r.sequence,
        budget_reserved: r.budget_reserved,
        subscription_cursor: r.subscription_cursor,
        opening_client: r.request.opening_client@,
        policy_version: r.request.policy_version@,
        agent: r.request.agent@,
        authority_kind: authority_kind(r.request.authority),
        authority_id: authority_id(r.request.authority),
        activity_types: r.request.permitted_activity_types@,
        scopes: string_texts(r.request.scopes@),
    }
}

/// The encoding of a record.
pub open spec fn session_bytes(v: SessionView) -> Seq<u8> {
    session_magic() + v.session_id + v.token_id + u64_be(v.expiry_sequence) + seq![
        if v.open {
            1u8
        } else {
            0u8
        },
    ] + u64_be(v.sequence) + u128_be(v.budget_reserved) + u64_be(v.subscription_cursor) + text16(
        v.opening_client,
    ) + text16(v.policy_version) + text16(v.agent) + seq![v.authority_kind] + v.authority_id
        + u16_be(v.activity_types.len() as u16) + activity_bytes(v.activity_types) + u16_be(
        v.scopes.len() as u16,
    ) + scope_bytes(v.scopes)
}

/// Whether every scope fits a two-byte length.
pub open spec fn scopes_fit(s: Seq<Seq<char>>) -> bool {
    forall|i: int| 0 <= i < s.len() ==> text_bytes(#[trigger] s[i]).len() <= u16::MAX
}

/// The field an encoding refuses, if any: a text, the DID, a set or a scope longer than a
/// two-byte length can count.
pub open spec fn encode_fault(v: SessionView) -> Option<Seq<char>> {
    if text_bytes(v.opening_client).len() > u16::MAX {
        Some("opening_client"@)
    } else if text_bytes(v.policy_version).len() > u16::MAX {
        Some("policy_version"@)
    } else if text_bytes(v.agent).len() > u16::MAX {
        Some("agent"@)
    } else if v.activity_types.len() > u16::MAX {
        Some("permitted_activity_types"@)
    } else if v.scopes.len() > u16::MAX || !scopes_fit(v.scopes) {
        Some("scopes"@)
    } else {
        None
    }
}

fn push_text16(out: &mut Vec<u8>, t: &str)
    requires
        text_bytes(t@).len() <= u16::MAX,
    ensures
        final(out)@ == old(out)@ + text16(t@),
{
    let b = t.as_bytes();
    push_u16(out, b.len() as u16);
    push_all(out, b);
    assert(final(out)@ =~= old(out)@ + text16(t@));
}

/// Encodes a session record for durable storage.
///
/// # Errors
///
/// `MissingField` naming the opening client, policy version, agent, activity types or scopes
/// when its length or count exceeds a `u16`.
pub fn encode_session(record: &SessionRecord) -> (r: Result<Vec<u8>, SessionError>)
    ensures
        match encode_fault(session_view(*record)) {
            Some(f) => r matches Err(SessionError::MissingField(x)) && x@ == f,
            None => r matches Ok(b) && b@ == session_bytes(session_view(*record)),
        },
{
    assert(with_open(*record, record.open) == *record);
    encode_session_as(record, record.open)
}

/// Encodes a record as it would be with `open` set.
///
/// # Errors
///
/// As `encode_session`.
pub fn encode_session_as(record: &SessionRecord, open: bool) -> (r: Result<Vec<u8>, SessionError>)
    ensures
        match encode_fault(session_view(with_open(*record, open))) {
            Some(f) => r matches Err(SessionError::MissingField(x)) && x@ == f,
            None => r matches Ok(b) && b@ == session_bytes(session_view(with_open(*record, open))),
        },
{
    let request = &record.request;
    if request.opening_client.as_str().as_bytes().len() > 65535 {
        return Err(SessionError::MissingField("opening_client"));
    }
    if request.policy_version.as_str().as_bytes().len() > 65535 {
        return Err(SessionError::MissingField("policy_version"));
    }
    if request.agent.as_str().as_bytes().len() > 65535 {
        return Err(SessionError::MissingField("agent"));
    }
    if request.permitted_activity_types.len() > 65535 {
        return Err(SessionError::MissingField("permitted_activity_types"));
    }
    if request.scopes.len() > 65535 {
        return Err(SessionError::MissingField("scopes"));
    }
    let ghost v = session_view(with_open(*record, open));
    let mut out: Vec<u8> = Vec::new();
    out.push(76u8);
    out.push(88u8);
    out.push(83u8);
    out.push(82u8);
    out.push(48u8);
    out.push(50u8);
    push_all(&mut out, &request.session_id.0);
    push_all(&mut out, &request.token_id);
    push_u64(&mut out, request.expiry_sequence);
    out.push(if open {
        1u8
    } else {
        0u8
    });
    push_u64(&mut out, record.sequence);
    push_u128(&mut out, record.budget_reserved);
    push_u64(&mut out, record.subscription_cursor);
    push_text16(&mut out, request.opening_client.as_str());
    push_text16(&mut out, request.policy_version.as_str());
    push_text16(&mut out, request.agent.as_str());
    let (kind, id) = request.authority.parts();
    out.push(kind);
    push_all(&mut out, &id);
    push_u16(&mut out, request.permitted_activity_types.len() as u16);
    let ghost head = out@;
    assert(head =~= session_magic() + v.session_id + v.token_id + u64_be(v.expiry_sequence) + seq![
        if v.open {
            1u8
        } else {
            0u8
        },
    ] + u64_be(v.sequence) + u128_be(v.budget_reserved) + u64_be(v.subscription_cursor) + text16(
        v.opening_client,
    ) + text16(v.policy_version) + text16(v.agent) + seq![v.authority_kind] + v.authority_id
        + u16_be(v.activity_types.len() as u16));
    let mut i: usize = 0;
    while i < request.permitted_activity_types.len()
        invariant
            i <= request.permitted_activity_types@.len(),
            out@ == head + activity_bytes(request.permitted_activity_types@.take(i as int)),
        decreases request.permitted_activity_types@.len() - i,
    {
        push_u16(&mut out, request.permitted_activity_types[i]);
        let ghost a = request.permitted_activity_types@;
        assert(a.take(i + 1).drop_last() =~= a.take(i as int));
        i = i + 1;
    }
    assert(request.permitted_activity_types@.take(i as int) =~= request.permitted_activity_types@);
    push_u16(&mut out, request.scopes.len() as u16);
    let ghost middle = out@;
    let mut j: usize = 0;
    while j < request.scopes.len()
        invariant
            j <= request.scopes@.len(),
            out@ == middle + scope_bytes(string_texts(request.scopes@.take(j as int))),
            request == &record.request,
            v == session_view(with_open(*record, open)),
            text_bytes(v.opening_client).len() <= u16::MAX,
            text_bytes(v.policy_version).len() <= u16::MAX,
            text_bytes(v.agent).len() <= u16::MAX,
            v.activity_types.len() <= u16::MAX,
            v.scopes.len() <= u16::MAX,
            forall|q: int| 0 <= q < j ==> text_bytes(#[trigger] request.scopes@[q]@).len() <= u16::MAX,
        decreases request.scopes@.len() - j,
    {
        let scope = request.scopes[j].as_str();
        if scope.as_bytes().len() > 65535 {
            proof {
                assert(string_texts(request.scopes@)[j as int] == scope@);
                assert(!scopes_fit(string_texts(request.scopes@)));
            }
            return Err(SessionError::MissingField("scopes"));
        }
        push_text16(&mut out, scope);
        proof {
            let s = request.scopes@;
            assert(string_texts(s.take(j + 1)).drop_last() =~= string_texts(s.take(j as int)));
            assert(string_texts(s.take(j + 1)).last() == s[j as int]@);
        }
        j = j + 1;
    }
    proof {
        assert(request.scopes@.take(j as int) =~= request.scopes@);
        assert forall|q: int| 0 <= q < v.scopes.len() implies text_bytes(#[trigger] v.scopes[q]).len() <= u16::MAX by {
            assert(v.scopes[q] == request.scopes@[q]@);
        }
        assert(out@ =~= session_bytes(v));
    }
    Ok(out)
}

/// A text field at `at`: a two-byte length, then UTF-8. Too few bytes are refused as
/// `record`; bytes that are not UTF-8 as `bad`.
pub open spec fn parse_text16(b: Seq<u8>, at: int, bad: Seq<char>) -> Result<(Seq<char>, int), Seq<char>> {
    if at < 0 || at + 2 > b.len() {
        Err("record"@)
    } else {
        let n = u16_at(b, at) as int;
        if at + 2 + n > b.len() {
            Err("record"@)
        } else {
            let body = b.subrange(at + 2, at + 2 + n);
            if !vstd::utf8::valid_utf8(body) {
                Err(bad)
            } else {
                Ok((vstd::utf8::decode_utf8(body), at + 2 + n))
            }
        }
    }
}

/// `n` activity types from `at`.
pub open spec fn parse_activities(b: Seq<u8>, at: int, n: nat) -> Option<(Seq<u16>, int)>
    decreases n,
{
    if n == 0 {
        Some((Seq::empty(), at))
    } else {
        match parse_activities(b, at, (n - 1) as nat) {
            None => None,
            Some((acc, off)) => if off < 0 || off + 2 > b.len() {
                None
            } else {
                Some((acc.push(u16_at(b, off)), off + 2))
            },
        }
    }
}

/// `n` scopes from `at`.
pub open spec fn parse_scopes(b: Seq<u8>, at: int, n: nat) -> Result<(Seq<Seq<char>>, int), Seq<char>>
    decreases n,
{
    if n == 0 {
        Ok((Seq::empty(), at))
    } else {
        match parse_scopes(b, at, (n - 1) as nat) {
            Err(e) => Err(e),
            Ok((acc, off)) => match parse_text16(b, off, "text"@) {
                Err(e) => Err(e),
                Ok((t, next)) => Ok((acc.push(t), next)),
            },
        }
    }
}

proof fn lemma_activities_stay_short(b: Seq<u8>, at: int, n: nat, m: nat)
    requires
        n <= m,
        parse_activities(b, at, n) is None,
    ensures
        parse_activities(b, at, m) is None,
    decreases m - n,
{
    if n < m {
        lemma_activities_stay_short(b, at, n, (m - 1) as nat);
    }
}

proof fn lemma_scopes_stay_refused(b: Seq<u8>, at: int, n: nat, m: nat, e: Seq<char>)
    requires
        n <= m,
        parse_scopes(b, at, n) == Err::<(Seq<Seq<char>>, int), Seq<char>>(e),
    ensures
        parse_scopes(b, at, m) == Err::<(Seq<Seq<char>>, int), Seq<char>>(e),
    decreases m - n,
{
    if n < m {
        lemma_scopes_stay_refused(b, at, n, (m - 1) as nat, e);
    }
}

/// Reads a session record, with its sets as read; or the field it is refused on.
#[verifier::opaque]
pub open spec fn parse_session(b: Seq<u8>) -> Result<SessionView, Seq<char>> {
    if b.len() < 6 {
        Err("record"@)
    } else if b.subrange(0, 6) != session_magic() {
        Err("record_version"@)
    } else if b.len() < 79 {
        Err("record"@)
    } else if b[78] > 1 {
        Err("open"@)
    } else if b.len() < 111 {
        Err("record"@)
    } else {
        match parse_text16(b, 111, "text"@) {
            Err(e) => Err(e),
            Ok((client, a1)) => match parse_text16(b, a1, "text"@) {
                Err(e) => Err(e),
                Ok((policy, a2)) => match parse_text16(b, a2, "agent"@) {
                    Err(e) => Err(e),
                    Ok((agent, a3)) => if a3 + 33 > b.len() {
                        Err("record"@)
                    } else if !(1 <= b[a3] <= 3) {
                        Err("authority"@)
                    } else if a3 + 35 > b.len() {
                        Err("record"@)
                    } else {
                        match parse_activities(b, a3 + 35, u16_at(b, a3 + 33) as nat) {
                            None => Err("record"@),
                            Some((acts, a4)) => if a4 + 2 > b.len() {
                                Err("record"@)
                            } else {
                                match parse_scopes(b, a4 + 2, u16_at(b, a4) as nat) {
                                    Err(e) => Err(e),
                                    Ok((scopes, a5)) => if a5 != b.len() || acts.len() == 0
                                        || scopes.len() == 0 {
                                        Err("record"@)
                                    } else {
                                        Ok(
                                            SessionView {
                                                session_id: b.subrange(6, 38),
                                                token_id: b.subrange(38, 70),
                                                expiry_sequence: u64_at(b, 70),
                                                open: b[78] == 1,
                                                sequence: u64_at(b, 79),
                                                budget_reserved: u128_at(b, 87),
                                                subscription_cursor: u64_at(b, 103),
                                                opening_client: client,
                                                policy_version: policy,
                                                agent,
                                                authority_kind: b[a3],
                                                authority_id: b.subrange(a3 + 1, a3 + 33),
                                                activity_types: acts,
                                                scopes,
                                            },
                                        )
                                    }
                                }
                            },
                        }
                    },
                },
            },
        }
    }
}

/// The encoding of `n` activity types is two bytes each.
proof fn lemma_activity_bytes_len(a: Seq<u16>)
    ensures
        activity_bytes(a).len() == 2 * a.len(),
    decreases a.len(),
{
    if a.len() > 0 {
        lemma_activity_bytes_len(a.drop_last());
    }
}

/// A text field is read back whole, whatever precedes and follows it.
proof fn lemma_text16_read(prefix: Seq<u8>, t: Seq<char>, suffix: Seq<u8>, bad: Seq<char>)
    requires
        text_bytes(t).len() <= u16::MAX,
    ensures
        parse_text16(prefix + text16(t) + suffix, prefix.len() as int, bad) == Ok::<
            (Seq<char>, int),
            Seq<char>,
        >((t, (prefix.len() + text16(t).len()) as int)),
{
    let b = prefix + text16(t) + suffix;
    let at = prefix.len() as int;
    let n = text_bytes(t).len();
    assert(b[at] == ((n as u16) >> 8u16) as u8);
    assert(b[at + 1] == (n as u16) as u8);
    lemma_u16_roundtrip(n as u16, 0, 0);
    assert(b.subrange(at + 2, at + 2 + n) =~= text_bytes(t));
    vstd::utf8::encode_utf8_valid_utf8(t);
    vstd::utf8::encode_utf8_decode_utf8(t);
}

/// Encoded activity types are read back, whatever precedes and follows them.
proof fn lemma_activities_read(prefix: Seq<u8>, a: Seq<u16>, suffix: Seq<u8>)
    ensures
        parse_activities(prefix + activity_bytes(a) + suffix, prefix.len() as int, a.len())
            == Some((a, (prefix.len() + 2 * a.len()) as int)),
    decreases a.len(),
{
    if a.len() == 0 {
        assert(a =~= Seq::<u16>::empty());
    } else {
        let d = a.drop_last();
        let x = a.last();
        let tail = u16_be(x) + suffix;
        let b = prefix + activity_bytes(a) + suffix;
        assert(b =~= prefix + activity_bytes(d) + tail);
        lemma_activities_read(prefix, d, tail);
        lemma_activity_bytes_len(d);
        let off = (prefix.len() + 2 * d.len()) as int;
        assert(b[off] == (x >> 8u16) as u8);
        assert(b[off + 1] == x as u8);
        lemma_u16_roundtrip(x, 0, 0);
        assert(d.push(x) =~= a);
    }
}

/// Encoded scopes are read back, whatever precedes and follows them.
proof fn lemma_scopes_read(prefix: Seq<u8>, s: Seq<Seq<char>>, suffix: Seq<u8>)
    requires
        scopes_fit(s),
    ensures
        parse_scopes(prefix + scope_bytes(s) + suffix, prefix.len() as int, s.len()) == Ok::<
            (Seq<Seq<char>>, int),
            Seq<char>,
        >((s, (prefix.len() + scope_bytes(s).len()) as int)),
    decreases s.len(),
{
    if s.len() == 0 {
        assert(s =~= Seq::<Seq<char>>::empty());
    } else {
        let d = s.drop_last();
        let t = s.last();
        let tail = text16(t) + suffix;
        let b = prefix + scope_bytes(s) + suffix;
        assert(b =~= prefix + scope_bytes(d) + tail);
        assert(scopes_fit(d)) by {
            assert forall|i: int| 0 <= i < d.len() implies text_bytes(#[trigger] d[i]).len()
                <= u16::MAX by {
                assert(d[i] == s[i]);
            }
        }
        lemma_scopes_read(prefix, d, tail);
        assert(text_bytes(s[s.len() - 1]).len() <= u16::MAX);
        assert(b =~= (prefix + scope_bytes(d)) + text16(t) + suffix);
        lemma_text16_read(prefix + scope_bytes(d), t, suffix, "text"@);
        assert(d.push(t) =~= s);
    }
}

/// A record that encodes, with 32-byte identifiers, a known authority kind and non-empty
/// sets.
pub open spec fn storable(v: SessionView) -> bool {
    &&& v.session_id.len() == 32
    &&& v.token_id.len() == 32
    &&& v.authority_id.len() == 32
    &&& 1 <= v.authority_kind <= 3
    &&& v.activity_types.len() > 0
    &&& v.scopes.len() > 0
    &&& encode_fault(v) is None
}

/// The fixed-width head of an encoding: magic, identifiers, expiry, state and counters.
spec fn head_bytes(v: SessionView) -> Seq<u8> {
    session_magic() + v.session_id + v.token_id + u64_be(v.expiry_sequence) + seq![
        if v.open {
            1u8
        } else {
            0u8
        },
    ] + u64_be(v.sequence) + u128_be(v.budget_reserved) + u64_be(v.subscription_cursor)
}

proof fn lemma_head_read(v: SessionView, rest: Seq<u8>)
    requires
        v.session_id.len() == 32,
        v.token_id.len() == 32,
    ensures
        head_bytes(v).len() == 111,
        ({
            let b = head_bytes(v) + rest;
            &&& b.subrange(0, 6) == session_magic()
            &&& b.subrange(6, 38) == v.session_id
            &&& b.subrange(38, 70) == v.token_id
            &&& u64_at(b, 70) == v.expiry_sequence
            &&& b[78] == (if v.open {
                1u8
            } else {
                0u8
            })
            &&& u64_at(b, 79) == v.sequence
            &&& u128_at(b, 87) == v.budget_reserved
            &&& u64_at(b, 103) == v.subscription_cursor
        }),
{
    let b = head_bytes(v) + rest;
    let o = seq![
        if v.open {
            1u8
        } else {
            0u8
        },
    ];
    let hi = (v.budget_reserved >> 64u128) as u64;
    let lo = v.budget_reserved as u64;
    assert(b.subrange(0, 6) =~= session_magic());
    assert(b.subrange(6, 38) =~= v.session_id);
    assert(b.subrange(38, 70) =~= v.token_id);
    let pre70 = session_magic() + v.session_id + v.token_id;
    assert(b =~= pre70 + u64_be(v.expiry_sequence) + (o + u64_be(v.sequence) + u128_be(
        v.budget_reserved,
    ) + u64_be(v.subscription_cursor) + rest));
    lemma_u64_at_be(pre70, v.expiry_sequence, o + u64_be(v.sequence) + u128_be(v.budget_reserved)
        + u64_be(v.subscription_cursor) + rest);
    let pre79 = pre70 + u64_be(v.expiry_sequence) + o;
    assert(b =~= pre79 + u64_be(v.sequence) + (u128_be(v.budget_reserved) + u64_be(
        v.subscription_cursor,
    ) + rest));
    lemma_u64_at_be(pre79, v.sequence, u128_be(v.budget_reserved) + u64_be(v.subscription_cursor)
        + rest);
    let pre87 = pre79 + u64_be(v.sequence);
    assert(b =~= pre87 + u64_be(hi) + (u64_be(lo) + u64_be(v.subscription_cursor) + rest));
    lemma_u64_at_be(pre87, hi, u64_be(lo) + u64_be(v.subscription_cursor) + rest);
    assert(b =~= (pre87 + u64_be(hi)) + u64_be(lo) + (u64_be(v.subscription_cursor) + rest));
    lemma_u64_at_be(pre87 + u64_be(hi), lo, u64_be(v.subscription_cursor) + rest);
    lemma_u128_split(v.budget_reserved);
    let pre103 = pre87 + u64_be(hi) + u64_be(lo);
    assert(b =~= pre103 + u64_be(v.subscription_cursor) + rest);
    lemma_u64_at_be(pre103, v.subscription_cursor, rest);
}

/// What follows the texts in an encoding: the authority, then the sets.
spec fn tail_bytes(v: SessionView) -> Seq<u8> {
    seq![v.authority_kind] + v.authority_id + u16_be(v.activity_types.len() as u16)
        + activity_bytes(v.activity_types) + u16_be(v.scopes.len() as u16) + scope_bytes(v.scopes)
}

/// The texts of an encoding.
spec fn texts_bytes(v: SessionView) -> Seq<u8> {
    text16(v.opening_client) + text16(v.policy_version) + text16(v.agent)
}

proof fn lemma_session_parts(v: SessionView)
    ensures
        session_bytes(v) == head_bytes(v) + texts_bytes(v) + tail_bytes(v),
{
    assert(session_bytes(v) =~= head_bytes(v) + texts_bytes(v) + tail_bytes(v));
}

proof fn lemma_texts_read(v: SessionView, b: Seq<u8>)
    requires
        storable(v),
        b == head_bytes(v) + texts_bytes(v) + tail_bytes(v),
    ensures
        ({
            let a1 = (111 + text16(v.opening_client).len()) as int;
            let a2 = (a1 + text16(v.policy_version).len()) as int;
            let a3 = (a2 + text16(v.agent).len()) as int;
            &&& parse_text16(b, 111, "text"@) == Ok::<(Seq<char>, int), Seq<char>>((v.opening_client, a1))
            &&& parse_text16(b, a1, "text"@) == Ok::<(Seq<char>, int), Seq<char>>((v.policy_version, a2))
            &&& parse_text16(b, a2, "agent"@) == Ok::<(Seq<char>, int), Seq<char>>((v.agent, a3))
        }),
{
    lemma_head_read(v, texts_bytes(v) + tail_bytes(v));
    let h = head_bytes(v);
    let c = text16(v.opening_client);
    let p = text16(v.policy_version);
    let g = text16(v.agent);
    let t = tail_bytes(v);
    assert(b =~= h + c + (p + g + t));
    lemma_text16_read(h, v.opening_client, p + g + t, "text"@);
    assert(b =~= (h + c) + p + (g + t));
    lemma_text16_read(h + c, v.policy_version, g + t, "text"@);
    assert(b =~= (h + c + p) + g + t);
    lemma_text16_read(h + c + p, v.agent, t, "agent"@);
}

proof fn lemma_tail_read(v: SessionView, front: Seq<u8>)
    requires
        storable(v),
    ensures
        ({
            let b = front + tail_bytes(v);
            let a3 = front.len() as int;
            let a4 = a3 + 35 + 2 * v.activity_types.len();
            &&& b.len() == a4 + 2 + scope_bytes(v.scopes).len()
            &&& b[a3] == v.authority_kind
            &&& b.subrange(a3 + 1, a3 + 33) == v.authority_id
            &&& u16_at(b, a3 + 33) == v.activity_types.len()
            &&& parse_activities(b, a3 + 35, v.activity_types.len()) == Some((v.activity_types, a4))
            &&& u16_at(b, a4) == v.scopes.len()
            &&& parse_scopes(b, a4 + 2, v.scopes.len()) == Ok::<(Seq<Seq<char>>, int), Seq<char>>(
                (v.scopes, b.len() as int),
            )
        }),
{
    let b = front + tail_bytes(v);
    let a3 = front.len() as int;
    let n = v.activity_types.len() as u16;
    let m = v.scopes.len() as u16;
    let p4 = front + seq![v.authority_kind] + v.authority_id + u16_be(n);
    let acts = activity_bytes(v.activity_types);
    let p6 = p4 + acts + u16_be(m);
    lemma_activity_bytes_len(v.activity_types);
    assert(b =~= p4 + acts + (u16_be(m) + scope_bytes(v.scopes)));
    assert(b.subrange(a3 + 1, a3 + 33) =~= v.authority_id);
    assert(b[a3 + 33] == (n >> 8u16) as u8);
    assert(b[a3 + 34] == n as u8);
    lemma_u16_roundtrip(n, 0, 0);
    lemma_activities_read(p4, v.activity_types, u16_be(m) + scope_bytes(v.scopes));
    let a4 = (p4.len() + acts.len()) as int;
    assert(b[a4] == (m >> 8u16) as u8);
    assert(b[a4 + 1] == m as u8);
    lemma_u16_roundtrip(m, 0, 0);
    assert(b =~= p6 + scope_bytes(v.scopes) + Seq::<u8>::empty());
    lemma_scopes_read(p6, v.scopes, Seq::<u8>::empty());
}

/// Bytes whose fields read as a storable record's parse as that record.
#[verifier::rlimit(40)]
proof fn lemma_parse_fields(b: Seq<u8>, v: SessionView, a1: int, a2: int, a3: int, a4: int)
    requires
        storable(v),
        b.len() >= 111,
        b.subrange(0, 6) == session_magic(),
        b.subrange(6, 38) == v.session_id,
        b.subrange(38, 70) == v.token_id,
        u64_at(b, 70) == v.expiry_sequence,
        b[78] == (if v.open {
            1u8
        } else {
            0u8
        }),
        u64_at(b, 79) == v.sequence,
        u128_at(b, 87) == v.budget_reserved,
        u64_at(b, 103) == v.subscription_cursor,
        parse_text16(b, 111, "text"@) == Ok::<(Seq<char>, int), Seq<char>>((v.opening_client, a1)),
        parse_text16(b, a1, "text"@) == Ok::<(Seq<char>, int), Seq<char>>((v.policy_version, a2)),
        parse_text16(b, a2, "agent"@) == Ok::<(Seq<char>, int), Seq<char>>((v.agent, a3)),
        a4 == a3 + 35 + 2 * v.activity_types.len(),
        b.len() >= a4 + 2,
        b[a3] == v.authority_kind,
        b.subrange(a3 + 1, a3 + 33) == v.authority_id,
        u16_at(b, a3 + 33) == v.activity_types.len(),
        parse_activities(b, a3 + 35, v.activity_types.len()) == Some((v.activity_types, a4)),
        u16_at(b, a4) == v.scopes.len(),
        parse_scopes(b, a4 + 2, v.scopes.len()) == Ok::<(Seq<Seq<char>>, int), Seq<char>>(
            (v.scopes, b.len() as int),
        ),
    ensures
        parse_session(b) == Ok::<SessionView, Seq<char>>(v),
{
    reveal(parse_session);
}

/// The fields of a storable record's encoding, read at their offsets.
proof fn lemma_fields_read(v: SessionView, b: Seq<u8>)
    requires
        storable(v),
        b == head_bytes(v) + texts_bytes(v) + tail_bytes(v),
    ensures
        parse_session(b) == Ok::<SessionView, Seq<char>>(v),
{
    lemma_head_read(v, texts_bytes(v) + tail_bytes(v));
    assert(b =~= head_bytes(v) + (texts_bytes(v) + tail_bytes(v)));
    lemma_texts_read(v, b);
    let front = head_bytes(v) + texts_bytes(v);
    assert(b =~= front + tail_bytes(v));
    lemma_tail_read(v, front);
    let a1 = (111 + text16(v.opening_client).len()) as int;
    let a2 = (a1 + text16(v.policy_version).len()) as int;
    let a3 = (a2 + text16(v.agent).len()) as int;
    assert(front.len() == a3);
    lemma_parse_fields(b, v, a1, a2, a3, a3 + 35 + 2 * v.activity_types.len());
}

/// Reading the encoding of a storable record gives the record back.
pub proof fn lemma_session_roundtrip(v: SessionView)
    requires
        storable(v),
    ensures
        parse_session(session_bytes(v)) == Ok::<SessionView, Seq<char>>(v),
{
    lemma_session_parts(v);
    lemma_fields_read(v, session_bytes(v));
}

/// A decoded record holds what was read: the same fields, and its sets hold the same
/// members in ascending order.
pub open spec fn holds_read(v: SessionView, p: SessionView) -> bool {
    &&& v.session_id == p.session_id
    &&& v.token_id == p.token_id
    &&& v.expiry_sequence == p.expiry_sequence
    &&& v.open == p.open
    &&& v.sequence == p.sequence
    &&& v.budget_reserved == p.budget_reserved
    &&& v.subscription_cursor == p.subscription_cursor
    &&& v.opening_client == p.opening_client
    &&& v.policy_version == p.policy_version
    &&& v.agent == p.agent
    &&& v.authority_kind == p.authority_kind
    &&& v.authority_id == p.authority_id
    &&& ascending_u16(v.activity_types)
    &&& v.activity_types.to_set() == p.activity_types.to_set()
    &&& ascending_texts(v.scopes)
    &&& v.scopes.to_set() == p.scopes.to_set()
}

fn read_u16_at(bytes: &[u8], at: usize) -> (r: u16)
    requires
        at + 2 <= bytes@.len(),
    ensures
        r == u16_at(bytes@, at as int),
{
    ((bytes[at] as u16) << 8) | (bytes[at + 1] as u16)
}

fn read_text16(bytes: &[u8], at: usize, bad: &'static str) -> (r: Result<(String, usize), SessionError>)
    ensures
        match parse_text16(bytes@, at as int, bad@) {
            Err(f) => r matches Err(SessionError::MissingField(x)) && x@ == f,
            Ok((t, n)) => r matches Ok((s, m)) && s@ == t && m == n,
        },
{
    if at > bytes.len() || bytes.len() - at < 2 {
        return Err(SessionError::MissingField("record"));
    }
    let n = read_u16_at(bytes, at) as usize;
    if bytes.len() - (at + 2) < n {
        return Err(SessionError::MissingField("record"));
    }
    let body = crate::bytes::copy_range(bytes, at + 2, n);
    match utf8_text(body.as_slice()) {
        None => Err(SessionError::MissingField(bad)),
        Some(text) => {
            proof {
                vstd::utf8::encode_utf8_decode_utf8(text@);
            }
            Ok((text, at + 2 + n))
        },
    }
}

fn authority_from(kind: u8, id: [u8; 32]) -> (r: ProtocolAuthority)
    requires
        1 <= kind <= 3,
    ensures
        authority_kind(r) == kind,
        authority_id(r) == id@,
{
    if kind == 1 {
        ProtocolAuthority::PrimaryKey(id)
    } else if kind == 2 {
        ProtocolAuthority::SessionKey(id)
    } else {
        ProtocolAuthority::CapabilityGrant(id)
    }
}

/// Decodes a durable session record of `tenant`.
///
/// # Errors
///
/// `MissingField` naming the first field that does not read: `record` for missing or
/// trailing bytes or an empty set, `record_version`, `open`, `text`, `agent` or `authority`.
#[verifier::loop_isolation(false)]
pub fn decode_session(bytes: &[u8], tenant: TenantId) -> (r: Result<SessionRecord, SessionError>)
    ensures
        match parse_session(bytes@) {
            Err(f) => r matches Err(SessionError::MissingField(x)) && x@ == f,
            Ok(p) => r matches Ok(rec) && rec.request.tenant@ == tenant@ && holds_read(session_view(rec), p),
        },
{
    reveal(parse_session);
    if bytes.len() < 6 {
        return Err(SessionError::MissingField("record"));
    }
    if bytes[0] != 76 || bytes[1] != 88 || bytes[2] != 83 || bytes[3] != 82 || bytes[4] != 48
        || bytes[5] != 50 {
        proof {
            if bytes@.subrange(0, 6) == session_magic() {
                assert(bytes@[0] == bytes@.subrange(0, 6)[0]);
                assert(bytes@[1] == bytes@.subrange(0, 6)[1]);
                assert(bytes@[2] == bytes@.subrange(0, 6)[2]);
                assert(bytes@[3] == bytes@.subrange(0, 6)[3]);
                assert(bytes@[4] == bytes@.subrange(0, 6)[4]);
                assert(bytes@[5] == bytes@.subrange(0, 6)[5]);
            }
        }
        return Err(SessionError::MissingField("record_version"));
    }
    assert(bytes@.subrange(0, 6) =~= session_magic());
    if bytes.len() < 79 {
        return Err(SessionError::MissingField("record"));
    }
    let open = if bytes[78] == 0 {
        false
    } else if bytes[78] == 1 {
        true
    } else {
        return Err(SessionError::MissingField("open"));
    };
    if bytes.len() < 111 {
        return Err(SessionError::MissingField("record"));
    }
    let session_id = read_fixed(bytes, 6);
    let token_id = read_fixed(bytes, 38);
    let expiry_sequence = read_u64(bytes, 70);
    let sequence = read_u64(bytes, 79);
    let budget_reserved = read_u128(bytes, 87);
    let subscription_cursor = read_u64(bytes, 103);
    let (opening_client, a1) = match read_text16(bytes, 111, "text") {
        Err(e) => {
            return Err(e);
        },
        Ok(x) => x,
    };
    let (policy_version, a2) = match read_text16(bytes, a1, "text") {
        Err(e) => {
            return Err(e);
        },
        Ok(x) => x,
    };
    let (agent, a3) = match read_text16(bytes, a2, "agent") {
        Err(e) => {
            return Err(e);
        },
        Ok(x) => x,
    };
    if bytes.len() - a3 < 33 {
        return Err(SessionError::MissingField("record"));
    }
    let kind = bytes[a3];
    if kind < 1 || kind > 3 {
        return Err(SessionError::MissingField("authority"));
    }
    let authority = authority_from(kind, read_fixed(bytes, a3 + 1));
    if bytes.len() - a3 < 35 {
        return Err(SessionError::MissingField("record"));
    }
    let activity_count = read_u16_at(bytes, a3 + 33);
    let mut permitted_activity_types: Vec<u16> = Vec::new();
    let mut at: usize = a3 + 35;
    let mut k: u16 = 0;
    let ghost mut acts: Seq<u16> = Seq::empty();
    while k < activity_count
        invariant
            k <= activity_count,
            a3 + 35 <= at,
            parse_activities(bytes@, a3 + 35, k as nat) == Some((acts, at as int)),
            ascending_u16(permitted_activity_types@),
            permitted_activity_types@.to_set() == acts.to_set(),
        decreases activity_count - k,
    {
        if at > bytes.len() || bytes.len() - at < 2 {
            proof {
                lemma_activities_stay_short(bytes@, a3 + 35, (k + 1) as nat, activity_count as nat);
            }
            return Err(SessionError::MissingField("record"));
        }
        let value = read_u16_at(bytes, at);
        insert_u16(&mut permitted_activity_types, value);
        proof {
            lemma_push_members(acts, value);
            acts = acts.push(value);
        }
        at = at + 2;
        k = k + 1;
    }
    let a4 = at;
    if bytes.len() - a4 < 2 {
        return Err(SessionError::MissingField("record"));
    }
    let scope_count = read_u16_at(bytes, a4);
    let mut scopes: Vec<String> = Vec::new();
    at = a4 + 2;
    let mut k: u16 = 0;
    let ghost mut read: Seq<Seq<char>> = Seq::empty();
    assert(string_texts(scopes@) =~= Seq::<Seq<char>>::empty());
    while k < scope_count
        invariant
            k <= scope_count,
            a4 + 2 <= at,
            parse_scopes(bytes@, a4 + 2, k as nat) == Ok::<(Seq<Seq<char>>, int), Seq<char>>((read, at as int)),
            ascending_texts(string_texts(scopes@)),
            string_texts(scopes@).to_set() == read.to_set(),
        decreases scope_count - k,
    {
        let (scope, next) = match read_text16(bytes, at, "text") {
            Err(e) => {
                proof {
                    let f = parse_text16(bytes@, at as int, "text"@)->Err_0;
                    lemma_scopes_stay_refused(bytes@, a4 + 2, (k + 1) as nat, scope_count as nat, f);
                }
                return Err(e);
            },
            Ok(x) => x,
        };
        let ghost t = scope@;
        insert_text(&mut scopes, scope);
        proof {
            lemma_push_members(read, t);
            read = read.push(t);
        }
        at = next;
        k = k + 1;
    }
    if at != bytes.len() || permitted_activity_types.len() == 0 || scopes.len() == 0 {
        proof {
            if permitted_activity_types@.len() == 0 {
                assert(permitted_activity_types@.to_set() =~= Set::<u16>::empty());
                if acts.len() > 0 {
                    assert(acts.to_set().contains(acts[0]));
                }
            }
            if scopes@.len() == 0 {
                assert(string_texts(scopes@).to_set() =~= Set::<Seq<char>>::empty());
                if read.len() > 0 {
                    assert(read.to_set().contains(read[0]));
                }
            }
        }
        return Err(SessionError::MissingField("record"));
    }
    proof {
        if acts.len() == 0 {
            assert(permitted_activity_types@.to_set().contains(permitted_activity_types@[0]));
        }
        if read.len() == 0 {
            assert(string_texts(scopes@).to_set().contains(string_texts(scopes@)[0]));
        }
    }
    let request = OpenRequest {
        session_id: SessionId(session_id),
        token_id,
        tenant,
        agent,
        authority,
        permitted_activity_types,
        scopes,
        expiry_sequence,
        opening_client,
        policy_version,
    };
    Ok(SessionRecord { request, open, sequence, budget_reserved, subscription_cursor })
}

} // verus!
