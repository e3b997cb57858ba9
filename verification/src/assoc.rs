//! Records keyed by `u64` held in strictly ascending key order, viewed as a map.
use vstd::prelude::*;

verus! {

/// Keys strictly ascending (hence distinct).
pub open spec fn ascending<V>(s: Seq<(u64, V)>) -> bool {
    forall|i: int, j: int| 0 <= i < j < s.len() ==> #[trigger] s[i].0 < #[trigger] s[j].0
}

/// Whether some record has key `k`.
pub open spec fn has_key<V>(s: Seq<(u64, V)>, k: u64) -> bool {
    exists|i: int| 0 <= i < s.len() && #[trigger] s[i].0 == k
}

/// The position of the record with key `k`.
pub open spec fn index_of<V>(s: Seq<(u64, V)>, k: u64) -> int {
    choose|i: int| 0 <= i < s.len() && #[trigger] s[i].0 == k
}

/// The map the records describe.
pub open spec fn as_map<V>(s: Seq<(u64, V)>) -> Map<u64, V> {
    Map::new(|k: u64| has_key(s, k), |k: u64| s[index_of(s, k)].1)
}

/// The keys of the records, in order.
pub open spec fn keys_of<V>(s: Seq<(u64, V)>) -> Seq<u64> {
    s.map_values(|e: (u64, V)| e.0)
}

pub proof fn lemma_at<V>(s: Seq<(u64, V)>, i: int)
    requires
        ascending(s),
        0 <= i < s.len(),
    ensures
        as_map(s).contains_key(s[i].0),
        as_map(s)[s[i].0] == s[i].1,
        index_of(s, s[i].0) == i,
{
    assert(has_key(s, s[i].0));
    let c = index_of(s, s[i].0);
    if c < i {
        assert(s[c].0 < s[i].0);
    } else if c > i {
        assert(s[i].0 < s[c].0);
    }
}

pub proof fn lemma_absent<V>(s: Seq<(u64, V)>, k: u64, p: int)
    requires
        ascending(s),
        0 <= p <= s.len(),
        forall|j: int| 0 <= j < p ==> #[trigger] s[j].0 < k,
        forall|j: int| p <= j < s.len() ==> k < #[trigger] s[j].0,
    ensures
        !as_map(s).contains_key(k),
{
    if has_key(s, k) {
        let c = index_of(s, k);
        if c < p {
            assert(s[c].0 < k);
        } else {
            assert(k < s[c].0);
        }
    }
}

pub proof fn lemma_insert<V>(s: Seq<(u64, V)>, p: int, k: u64, v: V)
    requires
        ascending(s),
        0 <= p <= s.len(),
        forall|j: int| 0 <= j < p ==> #[trigger] s[j].0 < k,
        forall|j: int| p <= j < s.len() ==> k < #[trigger] s[j].0,
    ensures
        ascending(s.insert(p, (k, v))),
        as_map(s.insert(p, (k, v))) == as_map(s).insert(k, v),
{
    let n = s.insert(p, (k, v));
    assert forall|i: int, j: int| 0 <= i < j < n.len() implies #[trigger] n[i].0 < #[trigger] n[j].0 by {
        if i < p && j > p {
            assert(s[i].0 < k && k < s[j - 1].0);
        } else if i < p && j < p {
            assert(s[i].0 < s[j].0);
        } else if i > p {
            assert(s[i - 1].0 < s[j - 1].0);
        }
    }
    let m = as_map(s).insert(k, v);
    assert forall|key: u64| as_map(n).contains_key(key) <==> m.contains_key(key) by {
        if m.contains_key(key) && key != k {
            let j = index_of(s, key);
            if j < p {
                assert(n[j].0 == key);
            } else {
                assert(n[j + 1].0 == key);
            }
        }
        if as_map(n).contains_key(key) && key != k {
            let j = index_of(n, key);
            if j < p {
                assert(s[j].0 == key);
            } else {
                assert(s[j - 1].0 == key);
            }
        }
        if key == k {
            assert(n[p].0 == key);
        }
    }
    assert forall|key: u64| #[trigger] as_map(n).contains_key(key) implies as_map(n)[key] == m[key] by {
        let j = index_of(n, key);
        lemma_at(n, j);
        if j < p {
            lemma_at(s, j);
        } else if j > p {
            lemma_at(s, j - 1);
        }
    }
    assert(as_map(n) =~= m);
}

pub proof fn lemma_update<V>(s: Seq<(u64, V)>, i: int, v: V)
    requires
        ascending(s),
        0 <= i < s.len(),
    ensures
        ascending(s.update(i, (s[i].0, v))),
        as_map(s.update(i, (s[i].0, v))) == as_map(s).insert(s[i].0, v),
{
    let k = s[i].0;
    let n = s.update(i, (k, v));
    assert forall|a: int, b: int| 0 <= a < b < n.len() implies #[trigger] n[a].0 < #[trigger] n[b].0 by {
        assert(s[a].0 < s[b].0);
    }
    let m = as_map(s).insert(k, v);
    assert forall|key: u64| as_map(n).contains_key(key) <==> m.contains_key(key) by {
        if m.contains_key(key) && key != k {
            let j = index_of(s, key);
            assert(n[j].0 == key);
        }
        if as_map(n).contains_key(key) {
            let j = index_of(n, key);
            assert(s[j].0 == key);
        }
        if key == k {
            assert(n[i].0 == key);
        }
    }
    assert forall|key: u64| #[trigger] as_map(n).contains_key(key) implies as_map(n)[key] == m[key] by {
        let j = index_of(n, key);
        lemma_at(n, j);
        if j != i {
            lemma_at(s, j);
        }
    }
    assert(as_map(n) =~= m);
}

pub proof fn lemma_remove<V>(s: Seq<(u64, V)>, i: int)
    requires
        ascending(s),
        0 <= i < s.len(),
    ensures
        ascending(s.remove(i)),
        as_map(s.remove(i)) == as_map(s).remove(s[i].0),
{
    let k = s[i].0;
    let n = s.remove(i);
    assert forall|a: int, b: int| 0 <= a < b < n.len() implies #[trigger] n[a].0 < #[trigger] n[b].0 by {
        if b < i {
            assert(s[a].0 < s[b].0);
        } else if a < i {
            assert(s[a].0 < s[b + 1].0);
        } else {
            assert(s[a + 1].0 < s[b + 1].0);
        }
    }
    let m = as_map(s).remove(k);
    assert forall|key: u64| as_map(n).contains_key(key) <==> m.contains_key(key) by {
        if m.contains_key(key) {
            let j = index_of(s, key);
            if j < i {
                assert(n[j].0 == key);
            } else {
                assert(n[j - 1].0 == key);
            }
        }
        if as_map(n).contains_key(key) {
            let j = index_of(n, key);
            if j < i {
                assert(s[j].0 == key);
                assert(s[j].0 < s[i].0);
            } else {
                assert(s[j + 1].0 == key);
                assert(s[i].0 < s[j + 1].0);
            }
        }
    }
    assert forall|key: u64| #[trigger] as_map(n).contains_key(key) implies as_map(n)[key] == m[key] by {
        let j = index_of(n, key);
        lemma_at(n, j);
        if j < i {
            lemma_at(s, j);
        } else {
            lemma_at(s, j + 1);
        }
    }
    assert(as_map(n) =~= m);
}

/// Locates `k` in ascending records: `Ok(i)` at its record or `Err(p)` at its insertion point.
pub fn find_key<V>(s: &Vec<(u64, V)>, k: u64) -> (r: Result<usize, usize>)
    requires
        ascending(s@),
    ensures
        r matches Ok(i) ==> i < s@.len() && s@[i as int].0 == k,
        r matches Err(p) ==> p <= s@.len() && (forall|j: int| 0 <= j < p ==> #[trigger] s@[j].0 < k)
            && (forall|j: int| p <= j < s@.len() ==> k < #[trigger] s@[j].0),
{
    let mut i: usize = 0;
    while i < s.len()
        invariant
            ascending(s@),
            i <= s@.len(),
            forall|j: int| 0 <= j < i ==> #[trigger] s@[j].0 < k,
        decreases s@.len() - i,
    {
        if s[i].0 == k {
            return Ok(i);
        }
        if s[i].0 > k {
            assert forall|j: int| i <= j < s@.len() implies k < #[trigger] s@[j].0 by {
                if j > i {
                    assert(s@[i as int].0 < s@[j].0);
                }
            }
            return Err(i);
        }
        i = i + 1;
    }
    Err(i)
}

} // verus!
