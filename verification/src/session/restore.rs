//! Rebuilding the session index of one tenant from the durable store.
use vstd::prelude::*;

use crate::bytes::{lemma_lex_irreflexive, lex_lt, push_all};
use crate::session::record::{decode_session, holds_read, parse_session, session_view, SessionView};
use crate::session::registry::{record_id, SessionRegistry};
use crate::session::{session_key, SessionError};
use crate::store::{ids_contain, kind_ids, ObjectKind, Store, StoreView, TenantId, TenantKey};

verus! {

/// What the session object `id` of `tenant` reads as.
pub open spec fn read_object(view: StoreView, tenant: Seq<char>, id: Seq<u8>) -> Result<SessionView, Seq<char>> {
    parse_session(view[session_key(tenant, id)].1)
}

/// The session identifier a readable object records.
pub open spec fn object_session(view: StoreView, tenant: Seq<char>, id: Seq<u8>) -> Seq<u8> {
    read_object(view, tenant, id)->Ok_0.session_id
}

/// Whether every session object of `tenant` reads.
pub open spec fn all_read(view: StoreView, tenant: Seq<char>) -> bool {
    forall|a: Seq<u8>|
        #[trigger] kind_ids(view, tenant, ObjectKind::Session).contains(a) ==> read_object(
            view,
            tenant,
            a,
        ) is Ok
}

/// Whether a readable session object of `tenant` records a session identifier that the
/// registry already holds, or that another readable object records too.
pub open spec fn restore_collides(held: Set<Seq<u8>>, view: StoreView, tenant: Seq<char>) -> bool {
    exists|a: Seq<u8>|
        #[trigger] kind_ids(view, tenant, ObjectKind::Session).contains(a) && read_object(
            view,
            tenant,
            a,
        ) is Ok && (held.contains(object_session(view, tenant, a)) || exists|b: Seq<u8>|
            b != a && #[trigger] kind_ids(view, tenant, ObjectKind::Session).contains(b)
                && read_object(view, tenant, b) is Ok && object_session(view, tenant, b)
                == object_session(view, tenant, a))
}

impl SessionRegistry {
    /// Loads every session record the store holds for `tenant`, in object order.
    ///
    /// # Errors
    ///
    /// `MissingField` naming the field a stored record is refused on, or `IdentityMismatch`
    /// when a record's session is already held, by the registry or by an earlier record.
    /// Records read before the error stay loaded.
    #[verifier::loop_isolation(false)]
    pub fn restore_tenant(&mut self, store: &Store, tenant: &TenantId) -> (r: Result<(), SessionError>)
        requires
            old(self).wf(),
            store.wf(),
        ensures
            final(self).wf(),
            r is Ok <==> all_read(store.view(), tenant@) && !restore_collides(
                old(self)@.dom(),
                store.view(),
                tenant@,
            ),
            r matches Err(e) ==> (e matches SessionError::MissingField(x) && exists|a: Seq<u8>|
                #[trigger] kind_ids(store.view(), tenant@, ObjectKind::Session).contains(a)
                    && read_object(store.view(), tenant@, a) == Err::<SessionView, Seq<char>>(x@))
                || e is IdentityMismatch,
            r is Ok ==> forall|k: Seq<u8>|
                #[trigger] old(self)@.contains_key(k) ==> final(self)@.contains_key(k)
                    && final(self)@[k] == old(self)@[k],
            r is Ok ==> forall|a: Seq<u8>|
                #[trigger] kind_ids(store.view(), tenant@, ObjectKind::Session).contains(a) ==> {
                    let p = read_object(store.view(), tenant@, a)->Ok_0;
                    &&& final(self)@.contains_key(p.session_id)
                    &&& final(self)@[p.session_id].request.tenant@ == tenant@
                    &&& holds_read(session_view(final(self)@[p.session_id]), p)
                },
            r is Ok ==> forall|k: Seq<u8>|
                #[trigger] final(self)@.contains_key(k) ==> old(self)@.contains_key(k) || exists|
                    a: Seq<u8>,
                |
                    #[trigger] kind_ids(store.view(), tenant@, ObjectKind::Session).contains(a)
                        && object_session(store.view(), tenant@, a) == k,
    {
        let ghost view = store.view();
        let ghost held = self@;
        let ghost t = tenant@;
        let ids = store.list_object_ids(tenant, ObjectKind::Session);
        let mut i: usize = 0;
        while i < ids.len()
            invariant
                self.wf(),
                i <= ids@.len(),
                forall|q: int| 0 <= q < i ==> read_object(view, t, #[trigger] ids@[q]@) is Ok,
                forall|q: int|
                    0 <= q < i ==> !held.contains_key(object_session(view, t, #[trigger] ids@[q]@)),
                forall|q1: int, q2: int|
                    0 <= q1 < q2 < i ==> object_session(view, t, #[trigger] ids@[q1]@)
                        != object_session(view, t, #[trigger] ids@[q2]@),
                forall|k: Seq<u8>|
                    #[trigger] self@.contains_key(k) <==> held.contains_key(k) || exists|q: int|
                        0 <= q < i && object_session(view, t, #[trigger] ids@[q]@) == k,
                forall|k: Seq<u8>| #[trigger] held.contains_key(k) ==> self@[k] == held[k],
                forall|q: int|
                    0 <= q < i ==> {
                        let p = read_object(view, t, #[trigger] ids@[q]@)->Ok_0;
                        &&& self@[p.session_id].request.tenant@ == t
                        &&& holds_read(session_view(self@[p.session_id]), p)
                    },
            decreases ids@.len() - i,
        {
            let ghost a = ids@[i as int]@;
            assert(ids_contain(ids@, a));
            let ghost k = session_key(t, a);
            proof {
                store.lemma_view_key_valid(k);
            }
            let mut object_id: Vec<u8> = Vec::new();
            push_all(&mut object_id, ids[i].as_slice());
            let key = match TenantKey::new(tenant.clone(), ObjectKind::Session, object_id) {
                Ok(key) => key,
                Err(e) => {
                    return Err(SessionError::Store(e));
                },
            };
            assert(key@ == k);
            let value = match store.get(&key) {
                Some(v) => v,
                None => {
                    return Err(SessionError::NotFound);
                },
            };
            let record = match decode_session(value.bytes(), tenant.clone()) {
                Err(e) => {
                    proof {
                        assert(kind_ids(view, t, ObjectKind::Session).contains(a));
                    }
                    return Err(e);
                },
                Ok(record) => record,
            };
            let ghost pid = record_id(record);
            let existed = self.get(record.request.session_id).is_some();
            let ghost before = self@;
            self.upsert(record);
            if existed {
                proof {
                    assert(pid == object_session(view, t, a));
                    assert(kind_ids(view, t, ObjectKind::Session).contains(a));
                    if !held.contains_key(pid) {
                        let q = choose|q: int| 0 <= q < i && object_session(view, t, #[trigger] ids@[q]@) == pid;
                        let b = ids@[q]@;
                        assert(ids_contain(ids@, b));
                        assert(kind_ids(view, t, ObjectKind::Session).contains(b));
                        lemma_lex_irreflexive(a);
                        assert(lex_lt(ids@[q]@, ids@[i as int]@));
                        assert(b != a);
                    }
                }
                return Err(SessionError::IdentityMismatch);
            }
            proof {
                assert(pid == object_session(view, t, a));
                assert forall|k2: Seq<u8>| #[trigger] self@.contains_key(k2) <==> held.contains_key(
                    k2,
                ) || exists|q: int| 0 <= q < i + 1 && object_session(view, t, #[trigger] ids@[q]@)
                    == k2 by {
                    if k2 == pid {
                        assert(object_session(view, t, ids@[i as int]@) == k2);
                    }
                }
            }
            i = i + 1;
        }
        proof {
            assert forall|a: Seq<u8>|
                #[trigger] kind_ids(view, t, ObjectKind::Session).contains(a) implies exists|q: int|
                0 <= q < ids@.len() && ids@[q]@ == a by {
                assert(ids_contain(ids@, a));
            }
            assert forall|k: Seq<u8>| #[trigger] self@.contains_key(k) && !held.contains_key(k) implies exists|
                a: Seq<u8>,
            | #[trigger] kind_ids(view, t, ObjectKind::Session).contains(a) && object_session(view, t, a) == k by {
                let q = choose|q: int| 0 <= q < i && object_session(view, t, #[trigger] ids@[q]@) == k;
                assert(ids_contain(ids@, ids@[q]@));
                assert(kind_ids(view, t, ObjectKind::Session).contains(ids@[q]@));
            }
            if restore_collides(held.dom(), view, t) {
                let a = choose|a: Seq<u8>|
                    #[trigger] kind_ids(view, t, ObjectKind::Session).contains(a) && read_object(
                        view,
                        t,
                        a,
                    ) is Ok && (held.dom().contains(object_session(view, t, a)) || exists|b: Seq<u8>|
                        b != a && #[trigger] kind_ids(view, t, ObjectKind::Session).contains(b)
                            && read_object(view, t, b) is Ok && object_session(view, t, b)
                            == object_session(view, t, a));
                let qa = choose|q: int| 0 <= q < ids@.len() && ids@[q]@ == a;
                assert(!held.contains_key(object_session(view, t, ids@[qa]@)));
                if !held.dom().contains(object_session(view, t, a)) {
                    let b = choose|b: Seq<u8>|
                        b != a && #[trigger] kind_ids(view, t, ObjectKind::Session).contains(b)
                            && read_object(view, t, b) is Ok && object_session(view, t, b)
                            == object_session(view, t, a);
                    let qb = choose|q: int| 0 <= q < ids@.len() && ids@[q]@ == b;
                    assert(qa != qb);
                    if qa < qb {
                        assert(object_session(view, t, ids@[qa]@) != object_session(view, t, ids@[qb]@));
                    } else {
                        assert(object_session(view, t, ids@[qb]@) != object_session(view, t, ids@[qa]@));
                    }
                }
            }
        }
        Ok(())
    }
}

} // verus!
