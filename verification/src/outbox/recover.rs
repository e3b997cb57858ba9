//! Fail-closed restart recovery of durable submissions.
//!
//! Budget and ceiling accounting are rebuilt by their own components; recovery takes
//! whether each reconciled and admits writes only when both did and every durable
//! submission was restored.
use vstd::prelude::*;

use crate::bytes::lex_lt;
use crate::outbox::codec::{parse_status, status_bytes, status_fits};
use crate::outbox::{
    outbox_key, signed_key, transitioned, EntryView, Outbox, OutboxError, StatusView,
    SubmissionState,
};
use crate::store::{
    ids_contain, kind_ids, strictly_ascending, KeyView, ObjectKind, StorageClass, Store,
    StoreError, StoreView, TenantId,
};

verus! {

/// A ceiling reservation held for a submission whose outcome is unknown.
#[derive(Clone, Copy, Debug, PartialEq, Eq)]
pub struct UnknownCeilingReservation {
    pub id: [u8; 32],
    pub expected_activity_id: [u8; 32],
    pub amount: u128,
    pub expiry_sequence: u64,
}

/// The outcome of the spend controls rebuilt before recovery.
#[derive(Clone, Copy, Debug, PartialEq, Eq, Structural)]
pub struct RecoveryInputs {
    pub budget_reconciled: bool,
    pub ceiling_reconciled: bool,
}

/// The recovered outbox and the work it leaves.
#[derive(Debug)]
pub struct RecoveredOutbox {
    pub outbox: Outbox,
    pub queued_for_transmission: Vec<[u8; 32]>,
    pub awaiting_receipt_resolution: Vec<[u8; 32]>,
    pub budget_reconciled: bool,
    pub ceiling_reconciled: bool,
    recovery_complete: bool,
}

/// Refusals of recovery.
#[derive(Debug)]
pub enum RecoveryError {
    Outbox(OutboxError),
    Store(StoreError),
    Budget,
    Ceiling,
    Corrupt,
    WritesBlocked,
}

impl RecoveredOutbox {
    /// Whether recovery ran to completion.
    pub closed spec fn complete(&self) -> bool {
        self.recovery_complete
    }

    /// The recovered outbox.
    pub closed spec fn recovered(&self) -> Outbox {
        self.outbox
    }

    /// Submissions queued for transmission.
    pub closed spec fn queued(&self) -> Seq<[u8; 32]> {
        self.queued_for_transmission@
    }

    /// Submissions awaiting receipt resolution.
    pub closed spec fn awaiting(&self) -> Seq<[u8; 32]> {
        self.awaiting_receipt_resolution@
    }

    /// Whether budget accounting reconciled.
    pub closed spec fn budget_ok(&self) -> bool {
        self.budget_reconciled
    }

    /// Whether ceiling accounting reconciled.
    pub closed spec fn ceiling_ok(&self) -> bool {
        self.ceiling_reconciled
    }

    /// Admits writes only once recovery and every spend control have reconciled.
    ///
    /// # Errors
    ///
    /// Returns `WritesBlocked` while recovery is incomplete or budget or ceiling accounting
    /// is unreconciled.
    pub fn require_write_ready(&self) -> (r: Result<(), RecoveryError>)
        ensures
            r is Ok <==> self.complete() && self.budget_ok() && self.ceiling_ok(),
            r matches Err(e) ==> e is WritesBlocked,
    {
        if !self.recovery_complete || !self.budget_reconciled || !self.ceiling_reconciled {
            return Err(RecoveryError::WritesBlocked);
        }
        Ok(())
    }
}

/// The cause recorded when a restart leaves a transport outcome indeterminate.
pub open spec fn restart_cause() -> Seq<char> {
    "restart made transport outcome indeterminate"@
}

/// The status stored for submission `id` of `tenant`, when it restores.
pub open spec fn stored_status(view: StoreView, tenant: Seq<char>, id: Seq<u8>) -> Option<StatusView> {
    let ok = outbox_key(tenant, id);
    let sk = signed_key(tenant, id);
    if view.contains_key(ok) && view.contains_key(sk) && parse_status(view[ok].1) is Some && parse_status(view[ok].1).unwrap().submission_id == id {
        parse_status(view[ok].1)
    } else {
        None
    }
}

/// A state a restart interrupts in transport.
pub open spec fn in_transport(s: SubmissionState) -> bool {
    s == SubmissionState::Submitted || s == SubmissionState::Acknowledged
}

/// A stored submission interrupted in transport.
pub open spec fn interrupted(view: StoreView, tenant: Seq<char>, id: Seq<u8>) -> bool {
    stored_status(view, tenant, id) is Some && in_transport(stored_status(view, tenant, id).unwrap().state)
}

/// The status a submission has after recovery.
pub open spec fn recovered_status(s: StatusView) -> StatusView {
    if in_transport(s.state) {
        transitioned(s, SubmissionState::Unknown, restart_cause(), None)
    } else {
        s
    }
}

/// A durable submission that recovery can restore.
pub open spec fn recoverable(view: StoreView, tenant: Seq<char>, id: Seq<u8>) -> bool {
    &&& id.len() == 32
    &&& stored_status(view, tenant, id) matches Some(s)
    &&& s.state != SubmissionState::Prepared
    &&& s.state != SubmissionState::Signed
    &&& status_fits(recovered_status(s))
}

/// The store after recovery: every interrupted submission's record moved to `Unknown`.
pub open spec fn recovered_view(view: StoreView, tenant: Seq<char>) -> StoreView {
    Map::new(
        |k: KeyView| view.contains_key(k),
        |k: KeyView| if k.tenant == tenant && k.kind == ObjectKind::Outbox && interrupted(view, tenant, k.object_id) {
            (StorageClass::LocalOnly, status_bytes(recovered_status(stored_status(view, tenant, k.object_id).unwrap())))
        } else {
            view[k]
        },
    )
}

/// Identifiers in strictly increasing byte order.
pub open spec fn ids_ascending(ids: Seq<[u8; 32]>) -> bool {
    forall|a: int, b: int| 0 <= a < b < ids.len() ==> lex_lt((#[trigger] ids[a])@, (#[trigger] ids[b])@)
}

/// Whether a list of identifiers holds `id`.
pub open spec fn ids_hold(ids: Seq<[u8; 32]>, id: Seq<u8>) -> bool {
    exists|a: int| 0 <= a < ids.len() && (#[trigger] ids[a])@ == id
}

fn as_fixed(id: &Vec<u8>) -> (r: Option<[u8; 32]>)
    ensures
        r is Some <==> id@.len() == 32,
        r matches Some(f) ==> f@ == id@,
{
    if id.len() != 32 {
        return None;
    }
    let f = crate::bytes::read_fixed(id.as_slice(), 0);
    assert(f@ =~= id@);
    Some(f)
}

/// Restores every durable outbox record of `tenant` and moves submissions interrupted in
/// transport to `Unknown`, listing queued submissions and those awaiting receipt
/// resolution in identifier order.
///
/// # Errors
///
/// `Corrupt` for an identifier that is not 32 bytes or a record restored as `Prepared` or
/// `Signed`, and `Outbox` when a record does not restore or its move is refused.
#[verifier::rlimit(80)]
pub fn recover(store: &mut Store, tenant: &TenantId, inputs: &RecoveryInputs) -> (r: Result<RecoveredOutbox, RecoveryError>)
    requires
        old(store).wf(),
    ensures
        final(store).wf(),
        ({
            let view = old(store).view();
            let t = tenant@;
            &&& r is Ok <==> forall|id: Seq<u8>| #[trigger] kind_ids(view, t, ObjectKind::Outbox).contains(id) ==> recoverable(view, t, id)
            &&& r matches Ok(rec) ==> {
                &&& rec.recovered().wf()
                &&& rec.complete()
                &&& rec.budget_ok() == inputs.budget_reconciled
                &&& rec.ceiling_ok() == inputs.ceiling_reconciled
                &&& final(store).view() == recovered_view(view, t)
                &&& forall|id: Seq<u8>| #[trigger] rec.recovered().entry(id) == if kind_ids(view, t, ObjectKind::Outbox).contains(id) {
                    Some(EntryView { tenant: t, status: recovered_status(stored_status(view, t, id).unwrap()), bytes: view[signed_key(t, id)].1 })
                } else {
                    None::<EntryView>
                }
                &&& ids_ascending(rec.queued())
                &&& ids_ascending(rec.awaiting())
                &&& forall|id: Seq<u8>| #[trigger] ids_hold(rec.queued(), id) <==> kind_ids(view, t, ObjectKind::Outbox).contains(id) && stored_status(view, t, id).unwrap().state == SubmissionState::Queued
                &&& forall|id: Seq<u8>| #[trigger] ids_hold(rec.awaiting(), id) <==> kind_ids(view, t, ObjectKind::Outbox).contains(id) && (in_transport(stored_status(view, t, id).unwrap().state) || stored_status(view, t, id).unwrap().state == SubmissionState::Unknown)
            }
        }),
{
    let ghost view = store.view();
    let ghost t = tenant@;
    let identifiers = store.list_object_ids(tenant, ObjectKind::Outbox);
    let mut outbox = Outbox::new();
    let mut queued: Vec<[u8; 32]> = Vec::new();
    let mut awaiting: Vec<[u8; 32]> = Vec::new();
    let mut i: usize = 0;
    while i < identifiers.len()
        invariant
            store.wf(),
            outbox.wf(),
            t == tenant@,
            view == old(store).view(),
            i <= identifiers.len(),
            strictly_ascending(identifiers@),
            forall|id: Seq<u8>| #[trigger] ids_contain(identifiers@, id) <==> view.contains_key(outbox_key(t, id)),
            forall|a: int| 0 <= a < i ==> recoverable(view, t, (#[trigger] identifiers@[a])@),
            forall|k: KeyView| #[trigger] store.view().contains_key(k) == view.contains_key(k),
            forall|k: KeyView| #[trigger] store.view().contains_key(k) ==> store.view()[k] == if k.tenant == t && k.kind == ObjectKind::Outbox && (exists|a: int| 0 <= a < i && (#[trigger] identifiers@[a])@ == k.object_id) && interrupted(view, t, k.object_id) {
                (StorageClass::LocalOnly, status_bytes(recovered_status(stored_status(view, t, k.object_id).unwrap())))
            } else {
                view[k]
            },
            forall|id: Seq<u8>| #[trigger] outbox.entry(id) == if exists|a: int| 0 <= a < i && (#[trigger] identifiers@[a])@ == id {
                Some(EntryView { tenant: t, status: recovered_status(stored_status(view, t, id).unwrap()), bytes: view[signed_key(t, id)].1 })
            } else {
                None::<EntryView>
            },
            ids_ascending(queued@),
            ids_ascending(awaiting@),
            forall|a: int, j: int| 0 <= a < queued@.len() && i <= j < identifiers@.len() ==> lex_lt((#[trigger] queued@[a])@, (#[trigger] identifiers@[j])@),
            forall|a: int, j: int| 0 <= a < awaiting@.len() && i <= j < identifiers@.len() ==> lex_lt((#[trigger] awaiting@[a])@, (#[trigger] identifiers@[j])@),
            forall|id: Seq<u8>| #[trigger] ids_hold(queued@, id) <==> (exists|a: int| 0 <= a < i && (#[trigger] identifiers@[a])@ == id) && stored_status(view, t, id).unwrap().state == SubmissionState::Queued,
            forall|id: Seq<u8>| #[trigger] ids_hold(awaiting@, id) <==> (exists|a: int| 0 <= a < i && (#[trigger] identifiers@[a])@ == id) && (in_transport(stored_status(view, t, id).unwrap().state) || stored_status(view, t, id).unwrap().state == SubmissionState::Unknown),
        decreases identifiers.len() - i,
    {
        let id_vec = &identifiers[i];
        let ghost idv = id_vec@;
        proof {
            assert(ids_contain(identifiers@, idv));
            assert(kind_ids(view, t, ObjectKind::Outbox).contains(idv));
            assert forall|a: int| 0 <= a < i implies (#[trigger] identifiers@[a])@ != idv by {
                assert(lex_lt(identifiers@[a]@, identifiers@[i as int]@));
                crate::bytes::lemma_lex_irreflexive(idv);
            }
        }
        let submission_id = match as_fixed(id_vec) {
            Some(f) => f,
            None => {
                assert(!recoverable(view, t, idv));
                return Err(RecoveryError::Corrupt);
            },
        };
        let ghost pre_store = store.view();
        let ghost pre_outbox = outbox;
        proof {
            assert(pre_store.contains_key(outbox_key(t, idv)) == view.contains_key(outbox_key(t, idv)));
            if pre_store.contains_key(outbox_key(t, idv)) {
                assert(pre_store[outbox_key(t, idv)] == view[outbox_key(t, idv)]);
            }
            assert(pre_store.contains_key(signed_key(t, idv)) == view.contains_key(signed_key(t, idv)));
            if pre_store.contains_key(signed_key(t, idv)) {
                assert(pre_store[signed_key(t, idv)] == view[signed_key(t, idv)]);
            }
        }
        match outbox.restore(store, tenant.clone(), submission_id) {
            Ok(()) => {},
            Err(e) => {
                assert(stored_status(view, t, idv) is None);
                assert(!recoverable(view, t, idv));
                return Err(RecoveryError::Outbox(e));
            },
        }
        let ghost restored = stored_status(view, t, idv).unwrap();
        let state = match outbox.status(submission_id) {
            Some(s) => s.state,
            None => {
                return Err(RecoveryError::Corrupt);
            },
        };
        let ghost mid_store = store.view();
        let ghost q0 = queued@;
        let ghost w0 = awaiting@;
        proof {
            crate::outbox::codec::lemma_parsed_status_fits(view[outbox_key(t, idv)].1);
        }
        match state {
            SubmissionState::Queued => {
                queued.push(submission_id);
            },
            SubmissionState::Submitted | SubmissionState::Acknowledged => {
                let cause = "restart made transport outcome indeterminate".to_owned();
                proof {
                    reveal_strlit("restart made transport outcome indeterminate");
                }
                match outbox.transition(store, submission_id, SubmissionState::Unknown, cause, None) {
                    Ok(_) => {},
                    Err(e) => {
                        return Err(RecoveryError::Outbox(e));
                    },
                }
                awaiting.push(submission_id);
            },
            SubmissionState::Unknown => {
                awaiting.push(submission_id);
            },
            SubmissionState::Prepared | SubmissionState::Signed => {
                return Err(RecoveryError::Corrupt);
            },
            _ => {},
        }
        proof {
            assert(recoverable(view, t, idv));
            assert forall|k: KeyView| #[trigger] store.view().contains_key(k) implies store.view()[k] == if k.tenant == t && k.kind == ObjectKind::Outbox && (exists|a: int| 0 <= a < i + 1 && (#[trigger] identifiers@[a])@ == k.object_id) && interrupted(view, t, k.object_id) {
                (StorageClass::LocalOnly, status_bytes(recovered_status(stored_status(view, t, k.object_id).unwrap())))
            } else {
                view[k]
            } by {
                if k.tenant == t && k.kind == ObjectKind::Outbox && k.object_id == idv {
                    assert(identifiers@[i as int]@ == k.object_id);
                } else if k.tenant == t && k.kind == ObjectKind::Outbox && (exists|a: int| 0 <= a < i + 1 && (#[trigger] identifiers@[a])@ == k.object_id) {
                    let a = choose|a: int| 0 <= a < i + 1 && (#[trigger] identifiers@[a])@ == k.object_id;
                    assert(a < i);
                }
            }
            assert forall|id: Seq<u8>| #[trigger] outbox.entry(id) == if exists|a: int| 0 <= a < i + 1 && (#[trigger] identifiers@[a])@ == id {
                Some(EntryView { tenant: t, status: recovered_status(stored_status(view, t, id).unwrap()), bytes: view[signed_key(t, id)].1 })
            } else {
                None::<EntryView>
            } by {
                if id == idv {
                    assert(identifiers@[i as int]@ == id);
                } else if exists|a: int| 0 <= a < i + 1 && (#[trigger] identifiers@[a])@ == id {
                    let a = choose|a: int| 0 <= a < i + 1 && (#[trigger] identifiers@[a])@ == id;
                    assert(a < i);
                }
            }
            assert forall|id: Seq<u8>| #[trigger] ids_hold(queued@, id) <==> (exists|a: int| 0 <= a < i + 1 && (#[trigger] identifiers@[a])@ == id) && stored_status(view, t, id).unwrap().state == SubmissionState::Queued by {
                if exists|a: int| 0 <= a < i + 1 && (#[trigger] identifiers@[a])@ == id {
                    let a = choose|a: int| 0 <= a < i + 1 && (#[trigger] identifiers@[a])@ == id;
                    if a == i {
                        if state == SubmissionState::Queued {
                            assert(queued@[queued@.len() - 1]@ == id);
                        }
                    } else {
                        if ids_hold(q0, id) {
                            let b = choose|b: int| 0 <= b < q0.len() && (#[trigger] q0[b])@ == id;
                            assert(queued@[b] == q0[b]);
                        }
                    }
                }
                if ids_hold(queued@, id) {
                    let b = choose|b: int| 0 <= b < queued@.len() && (#[trigger] queued@[b])@ == id;
                    if b < q0.len() {
                        assert(queued@[b] == q0[b]);
                        assert(ids_hold(q0, id));
                    } else {
                        assert(identifiers@[i as int]@ == id);
                    }
                }
            }
            assert forall|id: Seq<u8>| #[trigger] ids_hold(awaiting@, id) <==> (exists|a: int| 0 <= a < i + 1 && (#[trigger] identifiers@[a])@ == id) && (in_transport(stored_status(view, t, id).unwrap().state) || stored_status(view, t, id).unwrap().state == SubmissionState::Unknown) by {
                if exists|a: int| 0 <= a < i + 1 && (#[trigger] identifiers@[a])@ == id {
                    let a = choose|a: int| 0 <= a < i + 1 && (#[trigger] identifiers@[a])@ == id;
                    if a == i {
                        if in_transport(state) || state == SubmissionState::Unknown {
                            assert(awaiting@[awaiting@.len() - 1]@ == id);
                        }
                    } else {
                        if ids_hold(w0, id) {
                            let b = choose|b: int| 0 <= b < w0.len() && (#[trigger] w0[b])@ == id;
                            assert(awaiting@[b] == w0[b]);
                        }
                    }
                }
                if ids_hold(awaiting@, id) {
                    let b = choose|b: int| 0 <= b < awaiting@.len() && (#[trigger] awaiting@[b])@ == id;
                    if b < w0.len() {
                        assert(awaiting@[b] == w0[b]);
                        assert(ids_hold(w0, id));
                    } else {
                        assert(identifiers@[i as int]@ == id);
                    }
                }
            }
        }
        i = i + 1;
    }
    proof {
        assert forall|id: Seq<u8>| #[trigger] kind_ids(view, t, ObjectKind::Outbox).contains(id) <==> exists|a: int| 0 <= a < identifiers@.len() && (#[trigger] identifiers@[a])@ == id by {
            if kind_ids(view, t, ObjectKind::Outbox).contains(id) {
                assert(ids_contain(identifiers@, id));
            }
            if exists|a: int| 0 <= a < identifiers@.len() && (#[trigger] identifiers@[a])@ == id {
                assert(ids_contain(identifiers@, id));
            }
        }
        assert forall|id: Seq<u8>| #[trigger] kind_ids(view, t, ObjectKind::Outbox).contains(id) implies recoverable(view, t, id) by {
            let a = choose|a: int| 0 <= a < identifiers@.len() && (#[trigger] identifiers@[a])@ == id;
        }
        assert(store.view() =~= recovered_view(view, t)) by {
            assert forall|k: KeyView| #[trigger] store.view().contains_key(k) implies store.view()[k] == recovered_view(view, t)[k] by {
                if k.tenant == t && k.kind == ObjectKind::Outbox && interrupted(view, t, k.object_id) {
                    assert(kind_ids(view, t, ObjectKind::Outbox).contains(k.object_id));
                }
            }
        }
    }
    Ok(RecoveredOutbox {
        outbox,
        queued_for_transmission: queued,
        awaiting_receipt_resolution: awaiting,
        budget_reconciled: inputs.budget_reconciled,
        ceiling_reconciled: inputs.ceiling_reconciled,
        recovery_complete: true,
    })
}

} // verus!
