//! The durable encoding of a submission status.
use vstd::prelude::*;

use crate::bytes::{
    copy_range, lemma_parse_sized, lemma_u32_at_be, parse_sized, push_all, push_sized, push_u32,
    read_fixed, read_sized, read_u32, sized, text_bytes, u32_at, u32_be,
};
use crate::outbox::{
    evidence_view, state_code, state_of, OutboxError, ReceiptEvidence, StateTransition,
    StatusView, SubmissionState, SubmissionStatus, TransitionView,
};
use crate::text::utf8_text;

verus! {

/// The four magic bytes `LXOB`.
pub open spec fn outbox_magic() -> Seq<u8> {
    seq![76u8, 88u8, 79u8, 66u8]
}

/// The most transitions a stored status may list.
pub const MAX_TRANSITIONS: u32 = 1024;

/// The longest stored cause, in bytes.
pub const MAX_CAUSE_BYTES: u32 = 1048576;

/// The encoding of optional receipt evidence.
pub open spec fn evidence_bytes(e: Option<Seq<u8>>) -> Seq<u8> {
    match e {
        None => seq![0u8],
        Some(r) => seq![1u8] + r,
    }
}

/// The encoding of one transition.
pub open spec fn transition_bytes(t: TransitionView) -> Seq<u8> {
    seq![state_code(t.from), state_code(t.to)] + sized(text_bytes(t.cause)) + evidence_bytes(
        t.receipt,
    )
}

/// The encodings of transitions, in order.
pub open spec fn transitions_bytes(ts: Seq<TransitionView>) -> Seq<u8>
    decreases ts.len(),
{
    if ts.len() == 0 {
        Seq::empty()
    } else {
        transitions_bytes(ts.drop_last()) + transition_bytes(ts.last())
    }
}

/// The encoding of a status.
pub open spec fn status_bytes(s: StatusView) -> Seq<u8> {
    outbox_magic() + seq![2u8] + s.submission_id + seq![state_code(s.state)] + s.activity_id
        + evidence_bytes(s.evidence) + u32_be(s.transitions.len() as u32) + transitions_bytes(
        s.transitions,
    )
}

/// A status whose lengths fit the encoding's `u32` fields.
pub open spec fn status_fits(s: StatusView) -> bool {
    &&& s.transitions.len() <= u32::MAX
    &&& forall|i: int| 0 <= i < s.transitions.len() ==> text_bytes((#[trigger] s.transitions[i]).cause).len() <= u32::MAX
}

/// A status that reads back: at most 1024 transitions, each cause at most 1 MiB.
pub open spec fn status_storable(s: StatusView) -> bool {
    &&& s.submission_id.len() == 32
    &&& s.activity_id.len() == 32
    &&& (s.evidence matches Some(r) ==> r.len() == 32)
    &&& s.transitions.len() <= MAX_TRANSITIONS
    &&& forall|i: int| 0 <= i < s.transitions.len() ==> {
        let t = #[trigger] s.transitions[i];
        &&& text_bytes(t.cause).len() <= MAX_CAUSE_BYTES
        &&& (t.receipt matches Some(r) ==> r.len() == 32)
    }
}

/// Reads receipt evidence at `at`.
pub open spec fn parse_evidence(b: Seq<u8>, at: int) -> Option<(Option<Seq<u8>>, int)> {
    if at < 0 || at >= b.len() {
        None
    } else if b[at] == 0 {
        Some((None, at + 1))
    } else if b[at] == 1 && at + 33 <= b.len() {
        Some((Some(b.subrange(at + 1, at + 33)), at + 33))
    } else {
        None
    }
}

/// Reads one transition at `at`.
#[verifier::opaque]
pub open spec fn parse_transition(b: Seq<u8>, at: int) -> Option<(TransitionView, int)> {
    if at < 0 || at + 2 > b.len() || !(1 <= b[at] <= 10) || !(1 <= b[at + 1] <= 10) {
        None
    } else {
        match parse_sized(b, at + 2) {
            None => None,
            Some((cause, a1)) => {
                if cause.len() > MAX_CAUSE_BYTES || !vstd::utf8::valid_utf8(cause) {
                    None
                } else {
                    match parse_evidence(b, a1) {
                        None => None,
                        Some((receipt, a2)) => Some(
                            (
                                TransitionView {
                                    from: state_of(b[at]),
                                    to: state_of(b[at + 1]),
                                    cause: vstd::utf8::decode_utf8(cause),
                                    receipt,
                                },
                                a2,
                            ),
                        ),
                    }
                }
            },
        }
    }
}

/// Reads `n` consecutive transitions starting at `at`.
pub open spec fn parse_transitions(b: Seq<u8>, at: int, n: nat) -> Option<(Seq<TransitionView>, int)>
    decreases n,
{
    if n == 0 {
        Some((Seq::empty(), at))
    } else {
        match parse_transitions(b, at, (n - 1) as nat) {
            None => None,
            Some((acc, off)) => match parse_transition(b, off) {
                None => None,
                Some((t, next)) => Some((acc.push(t), next)),
            },
        }
    }
}

/// Reads a whole status record.
pub open spec fn parse_status(b: Seq<u8>) -> Option<StatusView> {
    if b.len() < 70 || b.subrange(0, 4) != outbox_magic() || b[4] != 2 || !(1 <= b[37] <= 10) {
        None
    } else {
        match parse_evidence(b, 70) {
            None => None,
            Some((evidence, a1)) => {
                if a1 + 4 > b.len() || u32_at(b, a1) > MAX_TRANSITIONS {
                    None
                } else {
                    match parse_transitions(b, a1 + 4, u32_at(b, a1) as nat) {
                        None => None,
                        Some((ts, end)) => {
                            if end != b.len() {
                                None
                            } else {
                                Some(
                                    StatusView {
                                        submission_id: b.subrange(5, 37),
                                        state: state_of(b[37]),
                                        activity_id: b.subrange(38, 70),
                                        evidence,
                                        transitions: ts,
                                    },
                                )
                            }
                        },
                    }
                }
            },
        }
    }
}

fn push_evidence(out: &mut Vec<u8>, e: Option<ReceiptEvidence>)
    ensures
        final(out)@ == old(out)@ + evidence_bytes(evidence_view(e)),
{
    match e {
        None => {
            out.push(0u8);
        },
        Some(r) => {
            out.push(1u8);
            let bytes = r.receipt_ref();
            push_all(out, &bytes);
        },
    }
    assert(final(out)@ =~= old(out)@ + evidence_bytes(evidence_view(e)));
}

/// Encodes a status for durable storage.
///
/// # Errors
///
/// Returns `Corrupt` when the transition count or a cause length exceeds a `u32`.
pub fn encode_status(status: &SubmissionStatus) -> (r: Result<Vec<u8>, OutboxError>)
    ensures
        r is Ok <==> status_fits(status@),
        r matches Ok(b) ==> b@ == status_bytes(status@),
        r matches Err(e) ==> e is Corrupt,
{
    let ghost s = status@;
    let mut out: Vec<u8> = vec![76u8, 88u8, 79u8, 66u8, 2u8];
    push_all(&mut out, &status.submission_id);
    out.push(status.state.code());
    push_all(&mut out, &status.activity_id);
    push_evidence(&mut out, status.evidence);
    let n = status.transitions.len();
    if n > 4294967295usize {
        return Err(OutboxError::Corrupt);
    }
    push_u32(&mut out, n as u32);
    let ghost head = out@;
    assert(head =~= outbox_magic() + seq![2u8] + s.submission_id + seq![state_code(s.state)]
        + s.activity_id + evidence_bytes(s.evidence) + u32_be(n as u32));
    let mut i: usize = 0;
    while i < n
        invariant
            i <= n,
            n == status.transitions.len(),
            s == status@,
            out@ == head + transitions_bytes(s.transitions.take(i as int)),
            forall|j: int| 0 <= j < i ==> text_bytes((#[trigger] s.transitions[j]).cause).len() <= u32::MAX,
        decreases n - i,
    {
        let t = &status.transitions[i];
        let ghost tv = s.transitions[i as int];
        assert(tv == t@);
        let ghost before = out@;
        out.push(t.from.code());
        out.push(t.to.code());
        if !push_sized(&mut out, t.cause.as_str().as_bytes()) {
            return Err(OutboxError::Corrupt);
        }
        push_evidence(&mut out, t.receipt);
        proof {
            assert(out@ =~= before + transition_bytes(tv));
            assert(s.transitions.take(i + 1).drop_last() =~= s.transitions.take(i as int));
            assert(s.transitions.take(i + 1).last() == tv);
        }
        i = i + 1;
    }
    assert(s.transitions.take(n as int) =~= s.transitions);
    Ok(out)
}

fn read_evidence(bytes: &[u8], at: usize) -> (r: Option<(Option<ReceiptEvidence>, usize)>)
    ensures
        r is Some <==> parse_evidence(bytes@, at as int) is Some,
        r matches Some((e, next)) ==> parse_evidence(bytes@, at as int) == Some((evidence_view(e), next as int)),
{
    if at >= bytes.len() {
        return None;
    }
    if bytes[at] == 0 {
        return Some((None, at + 1));
    }
    if bytes[at] == 1 && bytes.len() - at >= 33 {
        let reference = read_fixed(bytes, at + 1);
        return Some((Some(ReceiptEvidence::new(reference)), at + 33));
    }
    None
}

fn read_transition(bytes: &[u8], at: usize) -> (r: Option<(StateTransition, usize)>)
    ensures
        r is Some <==> parse_transition(bytes@, at as int) is Some,
        r matches Some((t, next)) ==> parse_transition(bytes@, at as int) == Some((t@, next as int)),
{
    proof {
        reveal(parse_transition);
    }
    if at > bytes.len() || bytes.len() - at < 2 {
        return None;
    }
    let from = match SubmissionState::from_code(bytes[at]) {
        Some(s) => s,
        None => {
            return None;
        },
    };
    let to = match SubmissionState::from_code(bytes[at + 1]) {
        Some(s) => s,
        None => {
            return None;
        },
    };
    let (cs, ce) = match read_sized(bytes, at + 2) {
        Some(span) => span,
        None => {
            return None;
        },
    };
    if ce - cs > 1048576 {
        return None;
    }
    let cause_bytes = copy_range(bytes, cs, ce - cs);
    let cause = match utf8_text(cause_bytes.as_slice()) {
        Some(text) => text,
        None => {
            return None;
        },
    };
    proof {
        vstd::utf8::encode_utf8_decode_utf8(cause@);
    }
    let (receipt, next) = match read_evidence(bytes, ce) {
        Some(p) => p,
        None => {
            return None;
        },
    };
    Some((StateTransition { from, to, cause, receipt }, next))
}

/// Reading `m` transitions fails whenever reading fewer of them fails.
proof fn lemma_transitions_stuck(b: Seq<u8>, at: int, m: nat, n: nat)
    requires
        m <= n,
        parse_transitions(b, at, m) is None,
    ensures
        parse_transitions(b, at, n) is None,
    decreases n,
{
    if m < n {
        lemma_transitions_stuck(b, at, m, (n - 1) as nat);
    }
}

/// Decodes a stored status.
///
/// # Errors
///
/// Returns `Corrupt` for bytes that are not a whole status record.
pub fn decode_status(bytes: &[u8]) -> (r: Result<SubmissionStatus, OutboxError>)
    ensures
        r is Ok <==> parse_status(bytes@) is Some,
        r matches Ok(s) ==> s@ == parse_status(bytes@).unwrap(),
        r matches Err(e) ==> e is Corrupt,
{
    if bytes.len() < 70 || bytes[0] != 76u8 || bytes[1] != 88u8 || bytes[2] != 79u8 || bytes[3]
        != 66u8 || bytes[4] != 2u8 {
        proof {
            if bytes.len() >= 70 && bytes@[4] == 2 {
                assert(bytes@.subrange(0, 4) != outbox_magic()) by {
                    assert(bytes@.subrange(0, 4)[0] == bytes@[0]);
                    assert(bytes@.subrange(0, 4)[1] == bytes@[1]);
                    assert(bytes@.subrange(0, 4)[2] == bytes@[2]);
                    assert(bytes@.subrange(0, 4)[3] == bytes@[3]);
                }
            }
        }
        return Err(OutboxError::Corrupt);
    }
    assert(bytes@.subrange(0, 4) =~= outbox_magic());
    let submission_id = read_fixed(bytes, 5);
    let state = match SubmissionState::from_code(bytes[37]) {
        Some(s) => s,
        None => {
            return Err(OutboxError::Corrupt);
        },
    };
    let activity_id = read_fixed(bytes, 38);
    let (evidence, a1) = match read_evidence(bytes, 70) {
        Some(p) => p,
        None => {
            return Err(OutboxError::Corrupt);
        },
    };
    if bytes.len() - a1 < 4 {
        return Err(OutboxError::Corrupt);
    }
    let count = read_u32(bytes, a1);
    if count > MAX_TRANSITIONS {
        return Err(OutboxError::Corrupt);
    }
    let mut transitions: Vec<StateTransition> = Vec::new();
    let mut offset: usize = a1 + 4;
    let mut i: u32 = 0;
    while i < count
        invariant
            i <= count,
            count == u32_at(bytes@, a1 as int),
            count <= MAX_TRANSITIONS,
            a1 + 4 <= bytes.len(),
            bytes@.len() >= 70,
            bytes@.subrange(0, 4) == outbox_magic(),
            bytes@[4] == 2,
            1 <= bytes@[37] <= 10,
            parse_evidence(bytes@, 70) == Some((evidence_view(evidence), a1 as int)),
            parse_transitions(bytes@, a1 + 4, i as nat) == Some(
                (transitions@.map_values(|t: StateTransition| t@), offset as int),
            ),
        decreases count - i,
    {
        match read_transition(bytes, offset) {
            None => {
                proof {
                    lemma_transitions_stuck(bytes@, a1 + 4, (i + 1) as nat, count as nat);
                }
                return Err(OutboxError::Corrupt);
            },
            Some((t, next)) => {
                let ghost before = transitions@;
                transitions.push(t);
                proof {
                    assert(transitions@.map_values(|t: StateTransition| t@) =~= before.map_values(
                        |t: StateTransition| t@,
                    ).push(t@));
                }
                offset = next;
                i = i + 1;
            },
        }
    }
    if offset != bytes.len() {
        return Err(OutboxError::Corrupt);
    }
    let status = SubmissionStatus { submission_id, state, activity_id, evidence, transitions };
    assert(status@.submission_id =~= bytes@.subrange(5, 37));
    assert(status@.activity_id =~= bytes@.subrange(38, 70));
    Ok(status)
}

/// The fields of an encoded transition sit where the reader looks for them.
#[verifier::rlimit(40)]
#[verifier::spinoff_prover]
proof fn lemma_transition_fields(prefix: Seq<u8>, t: TransitionView, suffix: Seq<u8>)
    requires
        text_bytes(t.cause).len() <= MAX_CAUSE_BYTES,
        t.receipt matches Some(r) ==> r.len() == 32,
    ensures
        ({
            let s = prefix + transition_bytes(t) + suffix;
            let p = prefix.len() as int;
            let c = text_bytes(t.cause);
            let a1 = p + 2 + 4 + c.len();
            &&& p + 2 <= s.len()
            &&& s[p] == state_code(t.from)
            &&& s[p + 1] == state_code(t.to)
            &&& parse_sized(s, p + 2) == Some((c, a1))
            &&& parse_evidence(s, a1) == Some((t.receipt, (prefix.len() + transition_bytes(t).len()) as int))
        }),
{
    let c = text_bytes(t.cause);
    let codes = seq![state_code(t.from), state_code(t.to)];
    let s = prefix + transition_bytes(t) + suffix;
    let p = prefix.len() as int;
    let ev = evidence_bytes(t.receipt);
    assert(s =~= (prefix + codes) + sized(c) + (ev + suffix));
    lemma_parse_sized(prefix + codes, c, ev + suffix);
    assert(s[p] == codes[0]);
    assert(s[p + 1] == codes[1]);
    let a1 = p + 2 + 4 + c.len();
    assert(s =~= (prefix + codes + sized(c)) + ev + suffix);
    match t.receipt {
        None => {
            assert(s[a1] == 0);
        },
        Some(r) => {
            assert(s[a1] == 1);
            assert(s.subrange(a1 + 1, a1 + 33) =~= r);
        },
    }
}

/// A transition is read back whole from its encoding, whatever precedes and follows it.
proof fn lemma_parse_transition_bytes(prefix: Seq<u8>, t: TransitionView, suffix: Seq<u8>)
    requires
        text_bytes(t.cause).len() <= MAX_CAUSE_BYTES,
        t.receipt matches Some(r) ==> r.len() == 32,
    ensures
        parse_transition(prefix + transition_bytes(t) + suffix, prefix.len() as int) == Some(
            (t, (prefix.len() + transition_bytes(t).len()) as int),
        ),
{
    lemma_transition_fields(prefix, t, suffix);
    vstd::utf8::encode_utf8_valid_utf8(t.cause);
    vstd::utf8::encode_utf8_decode_utf8(t.cause);
    assert(state_of(state_code(t.from)) == t.from);
    assert(state_of(state_code(t.to)) == t.to);
    reveal(parse_transition);
}

/// Transitions are read back whole from their encoding.
proof fn lemma_parse_transitions_bytes(prefix: Seq<u8>, ts: Seq<TransitionView>, suffix: Seq<u8>)
    requires
        forall|i: int| 0 <= i < ts.len() ==> {
            let t = #[trigger] ts[i];
            &&& text_bytes(t.cause).len() <= MAX_CAUSE_BYTES
            &&& (t.receipt matches Some(r) ==> r.len() == 32)
        },
    ensures
        parse_transitions(prefix + transitions_bytes(ts) + suffix, prefix.len() as int, ts.len())
            == Some((ts, (prefix.len() + transitions_bytes(ts).len()) as int)),
    decreases ts.len(),
{
    if ts.len() > 0 {
        let init = ts.drop_last();
        let last = ts.last();
        let s = prefix + transitions_bytes(ts) + suffix;
        assert(s =~= prefix + transitions_bytes(init) + (transition_bytes(last) + suffix));
        assert forall|i: int| 0 <= i < init.len() implies {
            let t = #[trigger] init[i];
            &&& text_bytes(t.cause).len() <= MAX_CAUSE_BYTES
            &&& (t.receipt matches Some(r) ==> r.len() == 32)
        } by {
            assert(init[i] == ts[i]);
        }
        lemma_parse_transitions_bytes(prefix, init, transition_bytes(last) + suffix);
        assert(s =~= (prefix + transitions_bytes(init)) + transition_bytes(last) + suffix);
        let lt = ts[ts.len() - 1];
        assert(text_bytes(lt.cause).len() <= MAX_CAUSE_BYTES);
        lemma_parse_transition_bytes(prefix + transitions_bytes(init), last, suffix);
        assert(init.push(last) =~= ts);
    } else {
        assert(prefix + transitions_bytes(ts) + suffix =~= prefix + suffix);
    }
}

/// Law: a storable status reads back exactly from its encoding.
pub proof fn lemma_status_roundtrip(s: StatusView)
    requires
        status_storable(s),
        1 <= state_code(s.state) <= 10,
    ensures
        parse_status(status_bytes(s)) == Some(s),
{
    let b = status_bytes(s);
    let head = outbox_magic() + seq![2u8] + s.submission_id + seq![state_code(s.state)]
        + s.activity_id;
    assert(head.len() == 70);
    let ev = evidence_bytes(s.evidence);
    let n = s.transitions.len() as u32;
    let tb = transitions_bytes(s.transitions);
    assert(b =~= head + ev + u32_be(n) + tb);
    assert(b.subrange(0, 4) =~= outbox_magic());
    assert(b[4] == 2);
    assert(b[37] == state_code(s.state));
    assert(b.subrange(5, 37) =~= s.submission_id);
    assert(b.subrange(38, 70) =~= s.activity_id);
    match s.evidence {
        None => {
            assert(b[70] == 0);
        },
        Some(r) => {
            assert(b[70] == 1);
            assert(b.subrange(71, 103) =~= r);
        },
    }
    let a1 = 70 + ev.len();
    assert(b =~= (head + ev) + u32_be(n) + tb);
    lemma_u32_at_be(head + ev, n, tb);
    assert(b =~= (head + ev + u32_be(n)) + tb + Seq::<u8>::empty());
    lemma_parse_transitions_bytes(head + ev + u32_be(n), s.transitions, Seq::<u8>::empty());
    assert(state_of(state_code(s.state)) == s.state);
}

/// Every transition read from bytes has a cause of at most 1 MiB.
proof fn lemma_parsed_transitions_fit(b: Seq<u8>, at: int, n: nat)
    requires
        parse_transitions(b, at, n) is Some,
    ensures
        parse_transitions(b, at, n).unwrap().0.len() == n,
        forall|i: int| 0 <= i < n ==> text_bytes((#[trigger] parse_transitions(b, at, n).unwrap().0[i]).cause).len() <= MAX_CAUSE_BYTES,
    decreases n,
{
    if n > 0 {
        lemma_parsed_transitions_fit(b, at, (n - 1) as nat);
        let (acc, off) = parse_transitions(b, at, (n - 1) as nat).unwrap();
        reveal(parse_transition);
        let (tr, next) = parse_transition(b, off).unwrap();
        let c = parse_sized(b, off + 2).unwrap().0;
        vstd::utf8::decode_utf8_encode_utf8(c);
        assert(text_bytes(tr.cause) == c);
        let full = parse_transitions(b, at, n).unwrap().0;
        assert(full == acc.push(tr));
        assert forall|i: int| 0 <= i < n implies text_bytes((#[trigger] full[i]).cause).len() <= MAX_CAUSE_BYTES by {
            if i < n - 1 {
                assert(full[i] == acc[i]);
            }
        }
    }
}

/// A status read from bytes fits the encoding again.
pub proof fn lemma_parsed_status_fits(b: Seq<u8>)
    ensures
        parse_status(b) matches Some(s) ==> status_fits(s) && s.transitions.len() <= MAX_TRANSITIONS,
{
    if parse_status(b) is Some {
        let (_, a1) = parse_evidence(b, 70).unwrap();
        lemma_parsed_transitions_fit(b, a1 + 4, u32_at(b, a1) as nat);
    }
}

} // verus!
