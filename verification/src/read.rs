//! The coordinates that accompany reads served from core: history cursors and limits,
//! balance freshness, checkpoint commitments and program balances.
use vstd::prelude::*;

verus! {

/// Where a history read resumes, and the head and checkpoint it was observed at.
#[derive(Clone, Copy, Debug, PartialEq, Eq)]
pub struct Cursor {
    pub next_sequence: u64,
    pub end_sequence: u64,
    pub observed_head_sequence: u64,
    pub observed_checkpoint: [u8; 32],
}

/// The bounds of one history page.
#[derive(Clone, Copy, Debug, PartialEq, Eq)]
pub struct HistoryLimits {
    pub maximum_items: u16,
    pub maximum_response_bytes: usize,
    pub oldest_available_sequence: u64,
}

/// Every freshness coordinate required to judge a returned balance.
#[derive(Clone, Copy, Debug, PartialEq, Eq)]
pub struct Freshness {
    pub value_global_sequence: u64,
    pub value_batch_number: u64,
    pub observed_head_sequence: u64,
    pub latest_sealed_batch: u64,
    pub latest_finalised_checkpoint: [u8; 32],
}

/// The roots a batch header commits to.
#[derive(Clone, Copy, Debug, PartialEq, Eq)]
pub struct HeaderCommitments {
    pub batch_number: u64,
    pub previous_state_root: [u8; 32],
    pub resulting_state_root: [u8; 32],
    pub activity_root: [u8; 32],
    pub receipt_root: [u8; 32],
    pub event_root: [u8; 32],
    pub availability_root: [u8; 32],
    pub oracle_root: [u8; 32],
}

/// One guarantor's signature over a checkpoint.
#[derive(Clone, Copy, Debug, PartialEq, Eq)]
pub struct GuarantorSignature {
    pub guarantor_id: [u8; 32],
    pub signature: [u8; 64],
}

/// Which leaf a proof bundle proves: an activity or a state.
#[derive(Clone, Copy, Debug, PartialEq, Eq)]
pub enum ProofBundleKind {
    Activity,
    State,
}

/// One derived account of a program, with its asset and whether it is frozen.
#[derive(Clone, Debug, PartialEq, Eq)]
pub struct ProgramValueBalance {
    pub account: [u8; 32],
    pub asset: [u8; 32],
    pub amount: u128,
    pub frozen: bool,
}

/// Current-head evidence attached to a program's complete account list.
#[derive(Clone, Copy, Debug, PartialEq, Eq)]
pub struct ProgramBalanceFreshness {
    pub observed_sequence: u64,
    pub observed_at: u64,
    pub receipt_digest: [u8; 32],
    pub state_root: [u8; 32],
    pub valid_through: u64,
}

/// Stable replay framing: magic, version, then class, index, length and bytes records.
#[derive(Clone, Copy, Debug, PartialEq, Eq)]
pub struct ReplayFraming {
    pub magic: [u8; 4],
    pub version: u8,
    pub record_order: &'static str,
}

/// One of the three durable receipt indexes.
#[derive(Clone, Copy, Debug, PartialEq, Eq)]
pub enum ReceiptLookupKey {
    Activity([u8; 32]),
    Idempotency([u8; 32]),
    GlobalSequence(u64),
}

} // verus!
