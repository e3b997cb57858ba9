//! Operations of the Human plane whose decisions the daemon makes itself.
pub mod capability;
pub mod journey;
pub mod lease;
pub mod receipt;
