//! Verified core of a DID-linked-resource registry client: addressing of
//! resources under a `did:ethr` identity, the versioned query grammar, the
//! nearest-version-at-a-timestamp resolution discipline, and the binary
//! wire format for revocation status list entries.
use vstd::prelude::*;

pub mod codec;
pub mod config;
pub mod datetime;
pub mod errors;
pub mod identity;
pub mod query;
pub mod registry;
pub mod resolver;
pub mod resource;
pub mod resource_id;
pub mod roles;
pub mod strutil;
pub mod subgraph;
pub mod utils;

verus! {

/// Number of bytes in the fixed-size accumulator element that leads a
/// binary-packed revocation status list entry.
pub const ACCUMULATOR_BYTE_SIZE: usize = 128;

} // verus!
