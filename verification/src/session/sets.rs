//! Sets held as strictly ascending vectors: activity types by value, scopes by their bytes.
use vstd::prelude::*;

use crate::bytes::{
    compare_bytes, lemma_lex_irreflexive, lemma_lex_transitive, lex_lt, text_bytes, Precedence,
};

verus! {

/// Values in strictly ascending order (so without repeats).
pub open spec fn ascending_u16(s: Seq<u16>) -> bool {
    forall|i: int, j: int| #![trigger s[i], s[j]] 0 <= i < j < s.len() ==> s[i] < s[j]
}

/// Texts in strictly ascending order of their UTF-8 bytes (so without repeats).
pub open spec fn ascending_texts(s: Seq<Seq<char>>) -> bool {
    forall|i: int, j: int|
        #![trigger s[i], s[j]]
        0 <= i < j < s.len() ==> lex_lt(text_bytes(s[i]), text_bytes(s[j]))
}

/// The texts held by a vector of strings.
pub open spec fn string_texts(v: Seq<String>) -> Seq<Seq<char>> {
    v.map_values(|s: String| s@)
}

/// The members of a sequence after a push: those before, and the pushed value.
pub proof fn lemma_push_members<A>(s: Seq<A>, x: A)
    ensures
        s.push(x).to_set() == s.to_set().insert(x),
{
    assert forall|y: A| #[trigger] s.push(x).to_set().contains(y) <==> s.to_set().insert(x).contains(y) by {
        if s.contains(y) {
            let i = choose|i: int| 0 <= i < s.len() && s[i] == y;
            assert(s.push(x)[i] == y);
        }
        if y == x {
            assert(s.push(x)[s.len() as int] == x);
        }
        if s.push(x).contains(y) {
            let i = choose|i: int| 0 <= i < s.push(x).len() && s.push(x)[i] == y;
            if i < s.len() {
                assert(s[i] == y);
            }
        }
    }
    assert(s.push(x).to_set() =~= s.to_set().insert(x));
}

/// Adds a value to an ascending vector, keeping it ascending; a present value is not repeated.
pub fn insert_u16(v: &mut Vec<u16>, x: u16)
    requires
        ascending_u16(old(v)@),
    ensures
        ascending_u16(final(v)@),
        final(v)@.to_set() == old(v)@.to_set().insert(x),
{
    let ghost before = v@;
    let mut p: usize = 0;
    while p < v.len() && v[p] < x
        invariant
            p <= v@.len(),
            v@ == before,
            ascending_u16(before),
            forall|q: int| 0 <= q < p ==> #[trigger] before[q] < x,
        decreases v@.len() - p,
    {
        p = p + 1;
    }
    if p < v.len() && v[p] == x {
        assert(before.to_set() =~= before.to_set().insert(x)) by {
            assert(before.contains(x)) by {
                assert(before[p as int] == x);
            }
        }
        return;
    }
    v.insert(p, x);
    proof {
        let after = v@;
        assert forall|i: int, j: int| 0 <= i < j < after.len() implies after[i] < after[j] by {
            if j < p {
                assert(after[i] == before[i] && after[j] == before[j]);
            } else if j == p {
                assert(after[i] == before[i]);
            } else if i == p {
                assert(after[j] == before[j - 1]);
                if j - 1 > p {
                    assert(before[p as int] < before[j - 1]);
                }
            } else if i < p {
                assert(after[i] == before[i] && after[j] == before[j - 1]);
            } else {
                assert(after[i] == before[i - 1] && after[j] == before[j - 1]);
            }
        }
        assert(after.to_set() =~= before.to_set().insert(x)) by {
            assert forall|y: u16| after.to_set().contains(y) implies before.to_set().insert(x).contains(y) by {
                let k = choose|k: int| 0 <= k < after.len() && after[k] == y;
                if k < p {
                    assert(before[k] == y);
                } else if k > p {
                    assert(before[k - 1] == y);
                }
            }
            assert forall|y: u16| before.to_set().insert(x).contains(y) implies after.to_set().contains(y) by {
                if y == x {
                    assert(after[p as int] == x);
                } else {
                    let k = choose|k: int| 0 <= k < before.len() && before[k] == y;
                    if k < p {
                        assert(after[k] == y);
                    } else {
                        assert(after[k + 1] == y);
                    }
                }
            }
        }
    }
}

proof fn lemma_text_order(a: Seq<char>, b: Seq<char>)
    ensures
        text_bytes(a) == text_bytes(b) ==> a == b,
{
    vstd::utf8::encode_utf8_decode_utf8(a);
    vstd::utf8::encode_utf8_decode_utf8(b);
}

/// Adds a text to an ascending vector, keeping it ascending; a present text is not repeated.
pub fn insert_text(v: &mut Vec<String>, x: String)
    requires
        ascending_texts(string_texts(old(v)@)),
    ensures
        ascending_texts(string_texts(final(v)@)),
        string_texts(final(v)@).to_set() == string_texts(old(v)@).to_set().insert(x@),
{
    let ghost before = string_texts(v@);
    let ghost xs = x@;
    let mut p: usize = 0;
    let mut found = false;
    while p < v.len()
        invariant_except_break
            p <= v@.len(),
            string_texts(v@) == before,
            ascending_texts(before),
            xs == x@,
            !found,
            forall|q: int| 0 <= q < p ==> lex_lt(text_bytes(#[trigger] before[q]), text_bytes(xs)),
        ensures
            p <= v@.len(),
            string_texts(v@) == before,
            forall|q: int| 0 <= q < p ==> lex_lt(text_bytes(#[trigger] before[q]), text_bytes(xs)),
            found ==> p < v@.len() && before[p as int] == xs,
            !found ==> p < v@.len() ==> lex_lt(text_bytes(xs), text_bytes(before[p as int])),
        decreases v@.len() - p,
    {
        assert(before[p as int] == v@[p as int]@);
        match compare_bytes(v[p].as_str().as_bytes(), x.as_str().as_bytes()) {
            Precedence::Before => {},
            Precedence::Same => {
                proof {
                    lemma_text_order(before[p as int], xs);
                }
                found = true;
                break;
            },
            Precedence::After => {
                break;
            },
        }
        p = p + 1;
    }
    if found {
        assert(before.to_set() =~= before.to_set().insert(xs)) by {
            assert(before.contains(xs));
        }
        return;
    }
    let ghost old_v = v@;
    v.insert(p, x);
    proof {
        let after = string_texts(v@);
        assert(after =~= before.insert(p as int, xs)) by {
            assert forall|k: int| 0 <= k < after.len() implies after[k] == before.insert(p as int, xs)[k] by {
                if k < p {
                    assert(v@[k] == old_v[k]);
                } else if k > p {
                    assert(v@[k] == old_v[k - 1]);
                }
            }
        }
        assert forall|i: int, j: int| 0 <= i < j < after.len() implies lex_lt(
            text_bytes(after[i]),
            text_bytes(after[j]),
        ) by {
            if j < p {
                assert(after[i] == before[i] && after[j] == before[j]);
            } else if j == p {
                assert(after[i] == before[i]);
            } else if i == p {
                assert(after[j] == before[j - 1]);
                if j - 1 > p {
                    assert(lex_lt(text_bytes(before[p as int]), text_bytes(before[j - 1])));
                    lemma_lex_transitive(text_bytes(xs), text_bytes(before[p as int]), text_bytes(before[j - 1]));
                }
            } else if i < p {
                assert(after[i] == before[i] && after[j] == before[j - 1]);
            } else {
                assert(after[i] == before[i - 1] && after[j] == before[j - 1]);
            }
        }
        assert(after.to_set() =~= before.to_set().insert(xs)) by {
            assert forall|y: Seq<char>| after.to_set().contains(y) implies before.to_set().insert(xs).contains(y) by {
                let k = choose|k: int| 0 <= k < after.len() && after[k] == y;
                if k < p {
                    assert(before[k] == y);
                } else if k > p {
                    assert(before[k - 1] == y);
                }
            }
            assert forall|y: Seq<char>| before.to_set().insert(xs).contains(y) implies after.to_set().contains(y) by {
                if y == xs {
                    assert(after[p as int] == xs);
                } else {
                    let k = choose|k: int| 0 <= k < before.len() && before[k] == y;
                    if k < p {
                        assert(after[k] == y);
                    } else {
                        assert(after[k + 1] == y);
                    }
                }
            }
        }
    }
}

/// An ascending vector holding the values of `v`.
pub fn ascending_copy_u16(v: &Vec<u16>) -> (r: Vec<u16>)
    ensures
        ascending_u16(r@),
        r@.to_set() == v@.to_set(),
{
    let mut out: Vec<u16> = Vec::new();
    let mut i: usize = 0;
    assert(out@.to_set() =~= v@.take(0).to_set());
    while i < v.len()
        invariant
            i <= v@.len(),
            ascending_u16(out@),
            out@.to_set() == v@.take(i as int).to_set(),
        decreases v@.len() - i,
    {
        insert_u16(&mut out, v[i]);
        proof {
            assert(v@.take(i + 1) =~= v@.take(i as int).push(v@[i as int]));
            lemma_push_members(v@.take(i as int), v@[i as int]);
        }
        i = i + 1;
    }
    assert(v@.take(i as int) =~= v@);
    out
}

/// An ascending vector holding the texts of `v`.
pub fn ascending_copy_texts(v: &Vec<String>) -> (r: Vec<String>)
    ensures
        ascending_texts(string_texts(r@)),
        string_texts(r@).to_set() == string_texts(v@).to_set(),
{
    let mut out: Vec<String> = Vec::new();
    let mut i: usize = 0;
    assert(string_texts(out@).to_set() =~= string_texts(v@.take(0)).to_set());
    while i < v.len()
        invariant
            i <= v@.len(),
            ascending_texts(string_texts(out@)),
            string_texts(out@).to_set() == string_texts(v@.take(i as int)).to_set(),
        decreases v@.len() - i,
    {
        let t = v[i].clone();
        insert_text(&mut out, t);
        proof {
            assert(string_texts(v@.take(i + 1)) =~= string_texts(v@.take(i as int)).push(v@[i as int]@));
            lemma_push_members(string_texts(v@.take(i as int)), v@[i as int]@);
        }
        i = i + 1;
    }
    assert(v@.take(i as int) =~= v@);
    out
}

/// An ascending sequence has as many entries as members.
pub proof fn lemma_ascending_u16_count(s: Seq<u16>)
    requires
        ascending_u16(s),
    ensures
        s.len() == s.to_set().len(),
{
    assert forall|i: int, j: int| 0 <= i < s.len() && 0 <= j < s.len() && i != j implies s[i] != s[j] by {
        if i < j {
            assert(s[i] < s[j]);
        } else {
            assert(s[j] < s[i]);
        }
    }
    assert(s.no_duplicates());
    s.unique_seq_to_set();
}

/// Ascending texts have as many entries as members.
pub proof fn lemma_ascending_texts_count(s: Seq<Seq<char>>)
    requires
        ascending_texts(s),
    ensures
        s.len() == s.to_set().len(),
{
    assert forall|i: int, j: int| 0 <= i < s.len() && 0 <= j < s.len() && i != j implies s[i] != s[j] by {
        lemma_lex_irreflexive(text_bytes(s[i]));
        if i < j {
            assert(lex_lt(text_bytes(s[i]), text_bytes(s[j])));
        } else {
            assert(lex_lt(text_bytes(s[j]), text_bytes(s[i])));
        }
    }
    assert(s.no_duplicates());
    s.unique_seq_to_set();
}

} // verus!
