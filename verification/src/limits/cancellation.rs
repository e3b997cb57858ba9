//! The cancellation signal a tracked request hands to its downstream work.
use std::sync::atomic::{AtomicBool, Ordering};
use std::sync::Arc;

use vstd::prelude::*;

verus! {

/// A real cancellation signal held by downstream work.
///
/// The flag is shared with other threads, so nothing is known of what a load returns.
#[derive(Clone, Debug)]
pub struct CancellationToken {
    flag: Arc<AtomicBool>,
}

impl CancellationToken {
    /// A fresh, not yet cancelled signal.
    pub(crate) fn fresh() -> (r: Self) {
        CancellationToken { flag: Arc::new(AtomicBool::new(false)) }
    }

    /// Whether the work has been cancelled.
    pub fn is_cancelled(&self) -> bool {
        self.flag.load(Ordering::Acquire)
    }

    /// Signals cancellation to every holder of this token.
    pub(crate) fn mark_cancelled(&self) {
        self.flag.store(true, Ordering::Release);
    }
}

} // verus!
