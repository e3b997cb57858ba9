//! Approver identities, the states, choices and refusals that name a held request's
//! approval, and the start-up rule that every held approval keeps its budget reservation.
use vstd::prelude::*;

verus! {

/// A non-empty approver identity.
#[derive(Debug)]
pub struct ApproverId {
    value: String,
}

impl View for ApproverId {
    type V = Seq<char>;

    closed spec fn view(&self) -> Seq<char> {
        self.value@
    }
}

impl ApproverId {
    /// Creates a non-empty approver identity.
    ///
    /// # Errors
    ///
    /// Returns `InvalidApprover` for an empty identifier.
    pub fn new(value: String) -> (r: Result<Self, ApprovalError>)
        ensures
            r is Ok <==> value@.len() > 0,
            r matches Ok(a) ==> a@ == value@,
            r matches Err(e) ==> e == ApprovalError::InvalidApprover,
    {
        if value.as_str().is_empty() {
            return Err(ApprovalError::InvalidApprover);
        }
        Ok(ApproverId { value })
    }

    /// The identity.
    pub fn as_str(&self) -> (r: &str)
        ensures
            r@ == self@,
    {
        self.value.as_str()
    }
}

/// Terminal choice submitted by an approver.
#[derive(Clone, Copy, Debug, PartialEq, Eq, Structural)]
pub enum ApprovalChoice {
    Approve,
    Reject,
}

/// Explicit lifecycle for a held request.
#[derive(Clone, Copy, Debug, PartialEq, Eq, Structural)]
pub enum ApprovalState {
    AwaitingApproval,
    Approved,
    Rejected,
    Expired,
    Defective,
}

/// Refusals of approval operations.
#[derive(Clone, Copy, Debug, PartialEq, Eq, Structural)]
pub enum ApprovalError {
    InvalidApprover,
    InvalidWindow,
    InvalidDisclosureDigest,
    ActorMismatch,
    DuplicateHold,
    NotFound,
    AlreadyDecided(ApprovalState),
    DisclosureChanged,
    Defective,
    DecisionConflict,
    Unavailable,
    CorruptRecord,
}

/// Whether every held approval has a budget reservation among `reserved`.
pub open spec fn holds_reserved(holds: Seq<Seq<u8>>, reserved: Seq<Seq<u8>>) -> bool {
    forall|i: int| 0 <= i < holds.len() ==> reserved.contains(#[trigger] holds[i])
}

/// The identifiers of 32-byte values.
pub open spec fn id_views(v: Seq<[u8; 32]>) -> Seq<Seq<u8>> {
    v.map_values(|x: [u8; 32]| x@)
}

fn reserved_contains(reserved: &Vec<[u8; 32]>, id: &[u8; 32]) -> (r: bool)
    ensures
        r == id_views(reserved@).contains(id@),
{
    let mut j: usize = 0;
    while j < reserved.len()
        invariant
            j <= reserved@.len(),
            forall|k: int| 0 <= k < j ==> reserved@[k]@ != id@,
        decreases reserved@.len() - j,
    {
        if crate::bytes::fixed_equal(&reserved[j], id) {
            assert(id_views(reserved@)[j as int] == id@);
            return true;
        }
        j = j + 1;
    }
    assert forall|k: int| 0 <= k < id_views(reserved@).len() implies id_views(reserved@)[k] != id@ by {
        assert(reserved@[k]@ != id@);
    }
    false
}

/// Whether every replayed approval hold keeps the budget reservation made for it; the
/// daemon refuses to start otherwise.
pub fn every_hold_reserved(hold_ids: &Vec<[u8; 32]>, reserved: &Vec<[u8; 32]>) -> (r: bool)
    ensures
        r == holds_reserved(id_views(hold_ids@), id_views(reserved@)),
{
    let mut i: usize = 0;
    while i < hold_ids.len()
        invariant
            i <= hold_ids@.len(),
            forall|k: int| 0 <= k < i ==> id_views(reserved@).contains(#[trigger] id_views(hold_ids@)[k]),
        decreases hold_ids@.len() - i,
    {
        if !reserved_contains(reserved, &hold_ids[i]) {
            assert(id_views(hold_ids@)[i as int] == hold_ids@[i as int]@);
            return false;
        }
        assert(id_views(hold_ids@)[i as int] == hold_ids@[i as int]@);
        i = i + 1;
    }
    true
}

} // verus!
