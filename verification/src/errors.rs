//! The error taxonomy of the library.
use vstd::prelude::*;

verus! {

/// Why an addressing, resolution or codec operation failed.
#[derive(Debug, Clone, Copy, PartialEq, Eq, Structural)]
pub enum DlrError {
    /// Malformed query string, URI or parameter value; the caller must fix
    /// the input.
    ParseError,
    /// No resource at the given identifier, or the target time predates the
    /// first version.
    NotFound,
    /// The query asks for a feature that pure on-ledger resolution cannot
    /// provide (all versions, latest version, linked resources, metadata or
    /// version-id filters).
    Unsupported,
    /// Too few filter parameters to resolve deterministically.
    TooVague,
    /// A byte string is too short to carry the type it should decode to.
    DataTooShort,
    /// The ledger reports several chain nodes where exactly one was expected.
    AmbiguousChainState,
    /// The signer is not the DID's controller; the ledger rejected the
    /// publish. Surfaced by the ledger, never detected locally.
    AuthorizationFailure,
    /// The ledger could not be reached; safe to retry with backoff at the
    /// caller's discretion, never retried internally.
    LedgerUnavailable,
}

} // verus!
