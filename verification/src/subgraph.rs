//! The result shapes that the indexing-service (subgraph) resolution path
//! hands back. The service calls themselves are network work and live
//! outside the library; these types carry their plain answers.
use vstd::prelude::*;

verus! {

/// One resource publish event, as the indexing service reports it: every
/// field still in its text form.
#[derive(Debug, Clone, PartialEq, Eq)]
pub struct ResourceForNameAndTypeAtTimestampQueryResult {
    pub block_timestamp: String,
    pub content: String,
    pub did_identity: String,
    pub resource_id: String,
    pub resource_name: String,
    pub resource_type: String,
    pub resource_version: String,
    pub resource_media_type: String,
    pub metadata_chain_node_index: String,
}

/// One mutable-resource update event, as the indexing service reports it.
#[derive(Debug, Clone, PartialEq, Eq)]
pub struct MostRecentResourceUpdateQueryResult {
    pub name: String,
    pub did_identity: String,
    pub content_hex: String,
    pub timestamp: String,
}

/// One revocation status list update event, as the indexing service
/// reports it.
#[derive(Debug, Clone, PartialEq, Eq)]
pub struct MostRecentStatusListUpdateQueryResult {
    pub rev_reg_id: String,
    pub current_accum: String,
    pub status_list: String,
    pub timestamp: String,
}

} // verus!
