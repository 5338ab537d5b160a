//! Resources and their metadata: what a publish sends in, what the ledger
//! records, and the hydrated resource a resolver hands back.
use vstd::prelude::*;

use crate::datetime::UtcDateTime;
use crate::identity::{did_identity_as_full_did, spec_full_did, DidIdentity};
use crate::strutil::{spec_u64_to_dec, u64_to_dec_string};

verus! {

/// What a caller supplies to publish one resource version.
#[derive(Debug, Clone, PartialEq, Eq)]
pub struct ResourceInput {
    pub resource_name: String,
    pub resource_type: String,
    /// Free-text version tag; empty means "unversioned".
    pub resource_version_id: String,
    pub media_type: String,
    pub content: Vec<u8>,
}

impl Default for ResourceInput {
    /// The empty input: all names and tags empty, no content.
    fn default() -> (r: ResourceInput)
        ensures
            r.resource_name@ == Seq::<char>::empty(),
            r.resource_type@ == Seq::<char>::empty(),
            r.resource_version_id@ == Seq::<char>::empty(),
            r.media_type@ == Seq::<char>::empty(),
            r.content@ == Seq::<u8>::empty(),
    {
        let r = ResourceInput {
            resource_name: String::from_str(""),
            resource_type: String::from_str(""),
            resource_version_id: String::from_str(""),
            media_type: String::from_str(""),
            content: Vec::new(),
        };
        proof {
            reveal_strlit("");
            assert(r.resource_name@ =~= Seq::<char>::empty());
        }
        r
    }
}

/// Whether a registry entry may be rewritten after publish.
#[derive(Debug, Clone, Copy, PartialEq, Eq, Structural)]
pub enum DIDLinkedResourceType {
    Immutable,
    Mutable,
}

/// One node of the per-`(DID, name, type)` metadata chain: a publish event's
/// place in its version history. Identifier zero stands for "no neighbour".
#[derive(Debug, Clone, Copy, PartialEq, Eq, Structural)]
pub struct ResourceVersionMetadataChainNode {
    pub resource_id: u64,
    pub created_epoch: u64,
    pub previous_resource_id: u64,
    pub next_resource_id: u64,
}

/// A resource publish event as the ledger emits it, with every field as a
/// plain value.
#[derive(Debug, Clone, PartialEq, Eq)]
pub struct NewResourceEvent {
    pub did_identity: DidIdentity,
    pub resource_id: u64,
    pub resource_name: String,
    pub resource_type: String,
    pub resource_version: String,
    pub media_type: String,
    pub content: Vec<u8>,
    pub created_epoch: u64,
    pub metadata_chain_node_index: u64,
}

/// The descriptive properties of a resolved resource.
#[derive(Debug, Clone, PartialEq, Eq)]
pub struct ResourceMetadata {
    pub resource_uri: String,
    pub resource_type: String,
    pub resource_name: String,
    pub resource_id: Option<String>,
    pub resource_collection_id: Option<String>,
    pub resource_version_id: Option<String>,
    pub media_type: String,
    pub created: UtcDateTime,
    pub checksum: Option<String>,
    pub previous_version_id: Option<String>,
    pub next_version_id: Option<String>,
}

/// A resolved resource: its content bytes and its metadata.
#[derive(Debug, Clone, PartialEq, Eq)]
pub struct Resource {
    pub content: Vec<u8>,
    pub metadata: ResourceMetadata,
}

/// The URI of a resource: `{did}/resources/{resource_id}`.
pub open spec fn spec_resource_uri(did: Seq<char>, resource_id: u64) -> Seq<char> {
    did + "/resources/"@ + spec_u64_to_dec(resource_id)
}

/// A chain-neighbour link as a version identifier: `None` for the ledger's
/// zero, else the decimal identifier.
pub open spec fn spec_version_link(id: u64) -> Option<Seq<char>> {
    if id == 0 {
        None
    } else {
        Some(spec_u64_to_dec(id))
    }
}

impl Resource {
    /// Hydrates a resource from its publish event and its metadata chain
    /// node, under the sub-method naming the chain the event came from.
    ///
    /// The `created` timestamp is the ledger-assigned one from the event,
    /// never a client-supplied time.
    pub fn from_event_and_node(
        event: NewResourceEvent,
        node: ResourceVersionMetadataChainNode,
        sub_method: &str,
    ) -> (r: Resource)
        requires
            event.created_epoch <= i64::MAX,
        ensures
            r.content@ == event.content@,
            r.metadata.resource_uri@ == spec_resource_uri(
                spec_full_did(event.did_identity@, sub_method@),
                event.resource_id,
            ),
            r.metadata.resource_type@ == event.resource_type@,
            r.metadata.resource_name@ == event.resource_name@,
            view_of_opt_string(r.metadata.resource_id) == Some(
                u64_dec_string_view(event.resource_id),
            ),
            view_of_opt_string(r.metadata.resource_collection_id) == Some(
                hex_did_identity_view(event.did_identity@),
            ),
            view_of_opt_string(r.metadata.resource_version_id) == Some(
                event.resource_version@,
            ),
            r.metadata.media_type@ == event.media_type@,
            r.metadata.created@ == event.created_epoch as int,
            r.metadata.checksum is None,
            view_of_opt_string(r.metadata.previous_version_id) == spec_version_link(
                node.previous_resource_id,
            ),
            view_of_opt_string(r.metadata.next_version_id) == spec_version_link(
                node.next_resource_id,
            ),
    {
        let did = did_identity_as_full_did(&event.did_identity, sub_method);
        let mut resource_uri = did;
        resource_uri.append("/resources/");
        let id_string = u64_to_dec_string(event.resource_id);
        resource_uri.append(id_string.as_str());
        let collection_id = hex_of_identity(&event.did_identity);
        let previous_version_id = if node.previous_resource_id == 0 {
            None
        } else {
            Some(u64_to_dec_string(node.previous_resource_id))
        };
        let next_version_id = if node.next_resource_id == 0 {
            None
        } else {
            Some(u64_to_dec_string(node.next_resource_id))
        };
        let r = Resource {
            content: event.content,
            metadata: ResourceMetadata {
                resource_uri,
                resource_type: event.resource_type,
                resource_name: event.resource_name,
                resource_id: Some(id_string),
                resource_collection_id: Some(collection_id),
                resource_version_id: Some(event.resource_version),
                media_type: event.media_type,
                created: UtcDateTime::from_epoch_secs(event.created_epoch as i64),
                checksum: None,
                previous_version_id,
                next_version_id,
            },
        };
        proof {
            assert(r.metadata.resource_uri@ =~= spec_resource_uri(
                spec_full_did(event.did_identity@, sub_method@),
                event.resource_id,
            ));
        }
        r
    }
}

/// The view of an optional string.
pub open spec fn view_of_opt_string(link: Option<String>) -> Option<Seq<char>> {
    match link {
        Some(s) => Some(s@),
        None => None,
    }
}

/// The view of a decimal rendering, for speaking about optional strings.
pub open spec fn u64_dec_string_view(n: u64) -> Seq<char> {
    spec_u64_to_dec(n)
}

/// The `0x`-prefixed lowercase hexadecimal form of an identity.
pub open spec fn hex_did_identity_view(id: Seq<u8>) -> Seq<char> {
    "0x"@ + crate::identity::spec_hex_of_bytes(id)
}

/// Renders an identity as its `0x`-prefixed lowercase hexadecimal string.
pub fn hex_of_identity(id: &DidIdentity) -> (r: String)
    ensures
        r@ == hex_did_identity_view(id@),
{
    let mut out = String::from_str("0x");
    crate::identity::append_identity_hex(&mut out, id);
    out
}

} // verus!
