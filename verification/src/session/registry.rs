//! The in-memory index of session records, ordered by session identifier.
use vstd::prelude::*;

use crate::bytes::{compare_bytes, lemma_lex_irreflexive, lemma_lex_transitive, lex_lt, Precedence};
use crate::session::{SessionId, SessionRecord};

verus! {

/// The identifier bytes of a record.
pub open spec fn record_id(r: SessionRecord) -> Seq<u8> {
    r.request.session_id.0@
}

/// Records in strictly ascending order of their identifiers, so no identifier twice.
pub open spec fn ordered_records(s: Seq<SessionRecord>) -> bool {
    forall|i: int, j: int|
        #![trigger s[i], s[j]]
        0 <= i < j < s.len() ==> lex_lt(record_id(s[i]), record_id(s[j]))
}

/// Whether some record carries the identifier `id`.
pub open spec fn holds_id(s: Seq<SessionRecord>, id: Seq<u8>) -> bool {
    exists|i: int| 0 <= i < s.len() && record_id(#[trigger] s[i]) == id
}

/// The record carrying the identifier `id`, if any.
pub open spec fn record_of(s: Seq<SessionRecord>, id: Seq<u8>) -> Option<SessionRecord> {
    if holds_id(s, id) {
        Some(s[choose|i: int| 0 <= i < s.len() && record_id(#[trigger] s[i]) == id])
    } else {
        None
    }
}

/// The records as a map from identifier to record.
pub open spec fn records_by_id(s: Seq<SessionRecord>) -> Map<Seq<u8>, SessionRecord> {
    Map::new(|id: Seq<u8>| holds_id(s, id), |id: Seq<u8>| record_of(s, id)->Some_0)
}

/// The number of open records.
pub open spec fn open_records(s: Seq<SessionRecord>) -> nat
    decreases s.len(),
{
    if s.len() == 0 {
        0
    } else {
        open_records(s.drop_last()) + if s.last().open {
            1nat
        } else {
            0nat
        }
    }
}

/// In ordered records, a record is the one its identifier names.
pub proof fn lemma_record_of_at(s: Seq<SessionRecord>, i: int)
    requires
        ordered_records(s),
        0 <= i < s.len(),
    ensures
        holds_id(s, record_id(s[i])),
        record_of(s, record_id(s[i])) == Some(s[i]),
{
    let id = record_id(s[i]);
    assert(record_id(s[i]) == id);
    let j = choose|j: int| 0 <= j < s.len() && record_id(#[trigger] s[j]) == id;
    lemma_lex_irreflexive(id);
    if j < i {
        assert(lex_lt(record_id(s[j]), record_id(s[i])));
    } else if i < j {
        assert(lex_lt(record_id(s[i]), record_id(s[j])));
    }
}

/// The same record with `open` set.
pub open spec fn with_open(r: SessionRecord, open: bool) -> SessionRecord {
    SessionRecord {
        request: r.request,
        open,
        sequence: r.sequence,
        budget_reserved: r.budget_reserved,
        subscription_cursor: r.subscription_cursor,
    }
}

/// In-memory index backed by the tenant-scoped durable store.
pub struct SessionRegistry {
    records: Vec<SessionRecord>,
}

impl View for SessionRegistry {
    type V = Map<Seq<u8>, SessionRecord>;

    open spec fn view(&self) -> Map<Seq<u8>, SessionRecord> {
        records_by_id(self.sessions())
    }
}

impl SessionRegistry {
    /// The records, in ascending order of identifier.
    pub closed spec fn sessions(&self) -> Seq<SessionRecord> {
        self.records@
    }

    /// The registry's invariant: records ordered by identifier.
    pub open spec fn wf(&self) -> bool {
        ordered_records(self.sessions())
    }

    /// An empty registry.
    pub fn new() -> (r: Self)
        ensures
            r.wf(),
            r.sessions().len() == 0,
            r@ == Map::<Seq<u8>, SessionRecord>::empty(),
    {
        let r = SessionRegistry { records: Vec::new() };
        assert(r@ =~= Map::<Seq<u8>, SessionRecord>::empty());
        r
    }

    /// Locates `id`: `Ok(i)` at its record, or `Err(p)` at its insertion point.
    fn locate(&self, id: &SessionId) -> (r: Result<usize, usize>)
        requires
            self.wf(),
        ensures
            r matches Ok(i) ==> i < self.sessions().len() && record_id(self.sessions()[i as int])
                == id.0@,
            r matches Err(p) ==> p <= self.sessions().len() && (forall|j: int|
                0 <= j < p ==> lex_lt(record_id(#[trigger] self.sessions()[j]), id.0@)) && (forall|
                j: int,
            |
                p <= j < self.sessions().len() ==> lex_lt(
                    id.0@,
                    record_id(#[trigger] self.sessions()[j]),
                )),
    {
        let ghost s = self.sessions();
        let mut i: usize = 0;
        while i < self.records.len()
            invariant
                s == self.sessions(),
                ordered_records(s),
                i <= s.len(),
                s.len() == self.records@.len(),
                forall|j: int| 0 <= j < i ==> lex_lt(record_id(#[trigger] s[j]), id.0@),
            decreases s.len() - i,
        {
            match compare_bytes(&self.records[i].request.session_id.0, &id.0) {
                Precedence::Same => {
                    return Ok(i);
                },
                Precedence::After => {
                    assert forall|j: int| i <= j < s.len() implies lex_lt(
                        id.0@,
                        record_id(#[trigger] s[j]),
                    ) by {
                        if j > i {
                            lemma_lex_transitive(id.0@, record_id(s[i as int]), record_id(s[j]));
                        }
                    }
                    return Err(i);
                },
                Precedence::Before => {},
            }
            i = i + 1;
        }
        Err(i)
    }

    /// The record of a session, if the registry holds it.
    pub fn get(&self, id: SessionId) -> (r: Option<&SessionRecord>)
        requires
            self.wf(),
        ensures
            r is Some <==> self@.contains_key(id.0@),
            r matches Some(x) ==> *x == self@[id.0@],
    {
        match self.locate(&id) {
            Ok(i) => {
                proof {
                    lemma_record_of_at(self.sessions(), i as int);
                }
                Some(&self.records[i])
            },
            Err(p) => {
                proof {
                    let s = self.sessions();
                    if holds_id(s, id.0@) {
                        let j = choose|j: int| 0 <= j < s.len() && record_id(#[trigger] s[j]) == id.0@;
                        lemma_lex_irreflexive(id.0@);
                        if j < p {
                            assert(lex_lt(record_id(s[j]), id.0@));
                        } else {
                            assert(lex_lt(id.0@, record_id(s[j])));
                        }
                    }
                }
                None
            },
        }
    }

    /// The number of open sessions.
    pub fn open_count(&self) -> (r: usize)
        ensures
            r == open_records(self.sessions()),
    {
        let ghost s = self.sessions();
        let mut count: usize = 0;
        let mut i: usize = 0;
        while i < self.records.len()
            invariant
                s == self.sessions(),
                i <= s.len(),
                s.len() == self.records@.len(),
                count == open_records(s.take(i as int)),
                count <= i,
            decreases s.len() - i,
        {
            assert(s.take(i + 1).drop_last() =~= s.take(i as int));
            if self.records[i].open {
                count = count + 1;
            }
            i = i + 1;
        }
        assert(s.take(i as int) =~= s);
        count
    }

    /// The number of records.
    pub(crate) fn record_count(&self) -> (r: usize)
        ensures
            r == self.sessions().len(),
    {
        self.records.len()
    }

    /// The record at a position of identifier order.
    pub(crate) fn record_at(&self, i: usize) -> (r: &SessionRecord)
        requires
            i < self.sessions().len(),
        ensures
            *r == self.sessions()[i as int],
    {
        &self.records[i]
    }

    /// Marks the record of a held session open or closed.
    pub(crate) fn set_open(&mut self, id: &SessionId, open: bool)
        requires
            old(self).wf(),
            old(self)@.contains_key(id.0@),
        ensures
            final(self).wf(),
            final(self)@ == old(self)@.insert(id.0@, with_open(old(self)@[id.0@], open)),
    {
        let ghost s = self.sessions();
        match self.locate(id) {
            Ok(i) => {
                let mut rec = self.records.remove(i);
                rec.open = open;
                self.records.insert(i, rec);
                proof {
                    let n = self.sessions();
                    lemma_record_of_at(s, i as int);
                    assert(n =~= s.update(i as int, with_open(s[i as int], open)));
                    assert forall|a: int, b: int| 0 <= a < b < n.len() implies lex_lt(
                        record_id(#[trigger] n[a]),
                        record_id(#[trigger] n[b]),
                    ) by {
                        assert(lex_lt(record_id(s[a]), record_id(s[b])));
                    }
                    lemma_update_view(s, n, i as int, with_open(s[i as int], open));
                }
            },
            Err(p) => {
                proof {
                    let j = choose|j: int| 0 <= j < s.len() && record_id(#[trigger] s[j]) == id.0@;
                    lemma_lex_irreflexive(id.0@);
                    if j < p {
                        assert(lex_lt(record_id(s[j]), id.0@));
                    } else {
                        assert(lex_lt(id.0@, record_id(s[j])));
                    }
                }
            },
        }
    }

    /// Stores a record under its identifier, replacing any record already there.
    pub(crate) fn upsert(&mut self, record: SessionRecord)
        requires
            old(self).wf(),
        ensures
            final(self).wf(),
            final(self)@ == old(self)@.insert(record_id(record), record),
    {
        let ghost s = self.sessions();
        let ghost id = record_id(record);
        match self.locate(&record.request.session_id) {
            Ok(i) => {
                self.records.set(i, record);
                proof {
                    let n = self.sessions();
                    assert(n == s.update(i as int, record));
                    assert forall|a: int, b: int| 0 <= a < b < n.len() implies lex_lt(
                        record_id(#[trigger] n[a]),
                        record_id(#[trigger] n[b]),
                    ) by {
                        assert(lex_lt(record_id(s[a]), record_id(s[b])));
                    }
                    lemma_update_view(s, n, i as int, record);
                }
            },
            Err(p) => {
                self.records.insert(p, record);
                proof {
                    let n = self.sessions();
                    assert(n == s.insert(p as int, record));
                    assert forall|a: int, b: int| 0 <= a < b < n.len() implies lex_lt(
                        record_id(#[trigger] n[a]),
                        record_id(#[trigger] n[b]),
                    ) by {
                        if b < p {
                            assert(lex_lt(record_id(s[a]), record_id(s[b])));
                        } else if b == p {
                            assert(lex_lt(record_id(s[a]), id));
                        } else if a == p {
                            assert(lex_lt(id, record_id(s[b - 1])));
                        } else if a < p {
                            assert(lex_lt(record_id(s[a]), id));
                            assert(lex_lt(id, record_id(s[b - 1])));
                            lemma_lex_transitive(record_id(s[a]), id, record_id(s[b - 1]));
                        } else {
                            assert(lex_lt(record_id(s[a - 1]), record_id(s[b - 1])));
                        }
                    }
                    lemma_insert_view(s, n, p as int, record);
                }
            },
        }
    }
}

proof fn lemma_update_view(s: Seq<SessionRecord>, n: Seq<SessionRecord>, i: int, record: SessionRecord)
    requires
        ordered_records(s),
        ordered_records(n),
        0 <= i < s.len(),
        record_id(s[i]) == record_id(record),
        n == s.update(i, record),
    ensures
        records_by_id(n) == records_by_id(s).insert(record_id(record), record),
{
    let id = record_id(record);
    assert forall|k: Seq<u8>| #[trigger] holds_id(n, k) <==> (holds_id(s, k) || k == id) by {
        if holds_id(n, k) {
            let j = choose|j: int| 0 <= j < n.len() && record_id(#[trigger] n[j]) == k;
            if j != i {
                assert(record_id(s[j]) == k);
            }
        }
        if holds_id(s, k) {
            let j = choose|j: int| 0 <= j < s.len() && record_id(#[trigger] s[j]) == k;
            if j != i {
                assert(record_id(n[j]) == k);
            } else {
                assert(record_id(n[i]) == k);
            }
        }
        if k == id {
            assert(record_id(n[i]) == k);
        }
    }
    assert forall|k: Seq<u8>| holds_id(n, k) implies #[trigger] record_of(n, k) == (if k == id {
        Some(record)
    } else {
        record_of(s, k)
    }) by {
        let j = choose|j: int| 0 <= j < n.len() && record_id(#[trigger] n[j]) == k;
        lemma_record_of_at(n, j);
        lemma_record_of_at(n, i);
        if k != id {
            assert(j != i);
            assert(n[j] == s[j]);
            lemma_record_of_at(s, j);
        }
    }
    assert(records_by_id(n) =~= records_by_id(s).insert(id, record));
}

proof fn lemma_insert_view(s: Seq<SessionRecord>, n: Seq<SessionRecord>, p: int, record: SessionRecord)
    requires
        ordered_records(s),
        ordered_records(n),
        0 <= p <= s.len(),
        n == s.insert(p, record),
    ensures
        records_by_id(n) == records_by_id(s).insert(record_id(record), record),
{
    let id = record_id(record);
    assert forall|k: Seq<u8>| #[trigger] holds_id(n, k) <==> (holds_id(s, k) || k == id) by {
        if holds_id(n, k) {
            let j = choose|j: int| 0 <= j < n.len() && record_id(#[trigger] n[j]) == k;
            if j < p {
                assert(record_id(s[j]) == k);
            } else if j > p {
                assert(record_id(s[j - 1]) == k);
            }
        }
        if holds_id(s, k) {
            let j = choose|j: int| 0 <= j < s.len() && record_id(#[trigger] s[j]) == k;
            if j < p {
                assert(record_id(n[j]) == k);
            } else {
                assert(record_id(n[j + 1]) == k);
            }
        }
        if k == id {
            assert(record_id(n[p]) == k);
        }
    }
    assert forall|k: Seq<u8>| holds_id(n, k) implies #[trigger] record_of(n, k) == (if k == id {
        Some(record)
    } else {
        record_of(s, k)
    }) by {
        let j = choose|j: int| 0 <= j < n.len() && record_id(#[trigger] n[j]) == k;
        lemma_record_of_at(n, j);
        lemma_record_of_at(n, p);
        if k != id {
            if j < p {
                assert(n[j] == s[j]);
                lemma_record_of_at(s, j);
            } else {
                assert(j != p);
                assert(n[j] == s[j - 1]);
                lemma_record_of_at(s, j - 1);
            }
        }
    }
    assert(records_by_id(n) =~= records_by_id(s).insert(id, record));
}

} // verus!
