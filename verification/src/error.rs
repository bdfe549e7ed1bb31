//! The error type shared by every fallible operation of the library.

use vstd::prelude::*;

verus! {

/// Why an operation of the library failed.
#[derive(Debug)]
pub enum GhostError {
    /// A cryptographic operation failed or its output was malformed.
    Crypto(String),
    /// Key material had the wrong shape.
    InvalidKey(String),
    /// Recovery export or import failed.
    Export(String),
    /// An authenticated decryption rejected its input.
    AuthenticationFailed,
    /// Bytes did not follow the expected wire format.
    Format(String),
    /// The group messaging layer failed.
    Mls(String),
    /// The local database failed or held unexpected data.
    Database(String),
    /// An identity log was missing or did not authorize a key.
    IdentityLog(String),
    /// The relay could not be reached or answered with something unexpected.
    Network(String),
    /// The caller's role does not allow the operation.
    PermissionDenied(String),
}

/// Builds a `Format` error with the given message.
pub fn format_err(msg: &str) -> (e: GhostError)
    ensures
        e is Format,
{
    GhostError::Format(msg.to_string())
}

} // verus!
