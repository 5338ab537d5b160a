//! The decisions of the issuer role that are plain data in, plain data
//! out; the credential mathematics around them belongs to the anoncreds
//! collaborator, outside this library.
use vstd::prelude::*;

verus! {

/// Which way a credential's revocation state is being changed.
#[derive(Debug, Clone, Copy, PartialEq, Eq, Structural)]
pub enum CredRevocationUpdateType {
    /// Mark the credential revoked.
    Revoke,
    /// Mark the credential issued (un-revoked).
    Issue,
}

/// Splits a revocation update into the issued-list and revoked-list deltas
/// that a status list update takes: an `Issue` update carries its indices
/// as newly issued, a `Revoke` update as newly revoked; the other side is
/// absent.
pub fn revocation_update_lists(update_type: CredRevocationUpdateType, indices: Vec<u32>) -> (r: (
    Option<Vec<u32>>,
    Option<Vec<u32>>,
))
    ensures
        match update_type {
            CredRevocationUpdateType::Issue => r.0 is Some && r.0.unwrap()@ == indices@ && r.1
                is None,
            CredRevocationUpdateType::Revoke => r.0 is None && r.1 is Some && r.1.unwrap()@
                == indices@,
        },
{
    match update_type {
        CredRevocationUpdateType::Issue => (Some(indices), None),
        CredRevocationUpdateType::Revoke => (None, Some(indices)),
    }
}

} // verus!
