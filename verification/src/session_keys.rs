//! The failures of the session key registry.
use vstd::prelude::*;

verus! {

/// Why the session key registry refused: an I/O failure, an unprotected directory, an
/// invalid request or record, a key that already exists, or a cryptographic failure.
#[derive(Debug, PartialEq, Eq)]
pub enum SessionKeyRegistryError {
    Io,
    Unprotected,
    Invalid,
    Exists,
    Crypto,
}

} // verus!
