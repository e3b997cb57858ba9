//! The failures of session-gated operations.
use vstd::prelude::*;

use crate::managed_agent::HumanOperationError;
use crate::prepare::expiry::LifecycleError;
use crate::session::SessionError;
use crate::tenant::AuthorizationError;

verus! {

/// Why a session-gated operation was refused: by the session, the tenant's authorization,
/// the preparation lifecycle or the Human plane, or for want of the shared state.
#[derive(Debug)]
pub enum SessionControlError {
    Session(SessionError),
    Authorization(AuthorizationError),
    Lifecycle(LifecycleError),
    Human(HumanOperationError),
    Unavailable,
}

} // verus!
