use did_ethr_linked_resources::datetime::UtcDateTime;
use did_ethr_linked_resources::errors::DlrError;
use did_ethr_linked_resources::identity::full_did_into_did_identity;
use did_ethr_linked_resources::query::ResourceQuery;
use did_ethr_linked_resources::resolver::{
    plan_resolution, select_chain_node_at_epoch, select_version_index, ResolutionPath,
};
use did_ethr_linked_resources::resource::{
    NewResourceEvent, Resource, ResourceVersionMetadataChainNode,
};

const DID: &str = "did:ethr:local:0x1234567890123456789012345678901234567890";

#[test]
fn nearest_at_epoch_selects_closest_predecessor() {
    let timestamps = vec![10u64, 20, 30];
    assert_eq!(select_version_index(&timestamps, 25), Some(1));
    assert_eq!(select_version_index(&timestamps, 30), Some(2));
    assert_eq!(select_version_index(&timestamps, 5), None);
    assert_eq!(select_version_index(&timestamps, 1000), Some(2));
}

#[test]
fn nearest_at_epoch_on_boundaries() {
    let timestamps = vec![10u64, 20, 30];
    assert_eq!(select_version_index(&timestamps, 10), Some(0));
    assert_eq!(select_version_index(&timestamps, 9), None);
    assert_eq!(select_version_index(&timestamps, 19), Some(0));
    assert_eq!(select_version_index(&timestamps, 20), Some(1));
    assert_eq!(select_version_index(&vec![], 100), None);
}

#[test]
fn nearest_at_epoch_with_equal_timestamps_takes_the_last() {
    let timestamps = vec![10u64, 20, 20, 30];
    assert_eq!(select_version_index(&timestamps, 20), Some(2));
}

fn parse_params(query: &str) -> did_ethr_linked_resources::query::ResourceQueryParameters {
    ResourceQuery::parse_from_str(query).unwrap().parameters
}

#[test]
fn unsupported_parameters_are_rejected_before_any_ledger_work() {
    let params = parse_params(&format!("{}?allResourceVersions=true", DID));
    assert_eq!(plan_resolution(params, 0).unwrap_err(), DlrError::Unsupported);
    let params = parse_params(&format!("{}?latestResourceVersion=false", DID));
    assert_eq!(plan_resolution(params, 0).unwrap_err(), DlrError::Unsupported);
    let params = parse_params(&format!("{}?resourceVersionId=1.0", DID));
    assert_eq!(plan_resolution(params, 0).unwrap_err(), DlrError::Unsupported);
}

#[test]
fn resource_id_wins_over_unsupported_parameters() {
    let params = parse_params(&format!("{}?resourceId=5&allResourceVersions=true", DID));
    match plan_resolution(params, 0).unwrap() {
        ResolutionPath::ById { resource_id } => assert_eq!(resource_id, "5"),
        other => panic!("unexpected plan: {:?}", other),
    }
}

#[test]
fn name_without_type_is_too_vague() {
    let params = parse_params(&format!("{}?resourceName=foo", DID));
    assert_eq!(plan_resolution(params, 0).unwrap_err(), DlrError::TooVague);
    let params = parse_params(&format!("{}?resourceType=bar", DID));
    assert_eq!(plan_resolution(params, 0).unwrap_err(), DlrError::TooVague);
    let params = parse_params(DID);
    assert_eq!(plan_resolution(params, 0).unwrap_err(), DlrError::TooVague);
}

#[test]
fn version_time_overrides_the_clock() {
    let params = parse_params(&format!(
        "{}?resourceName=foo&resourceType=bar&versionTime=1970-01-01T00:03:20Z",
        DID
    ));
    match plan_resolution(params, 999_999).unwrap() {
        ResolutionPath::ByNameTypeAtTime { resource_name, resource_type, epoch } => {
            assert_eq!(resource_name, "foo");
            assert_eq!(resource_type, "bar");
            assert_eq!(epoch, 200);
        },
        other => panic!("unexpected plan: {:?}", other),
    }
}

#[test]
fn missing_version_time_defaults_to_now() {
    let params = parse_params(&format!("{}?resourceName=foo&resourceType=bar", DID));
    match plan_resolution(params, 12345).unwrap() {
        ResolutionPath::ByNameTypeAtTime { epoch, .. } => assert_eq!(epoch, 12345),
        other => panic!("unexpected plan: {:?}", other),
    }
}

fn chain_node(resource_id: u64, created: u64, prev: u64, next: u64) -> ResourceVersionMetadataChainNode {
    ResourceVersionMetadataChainNode {
        resource_id,
        created_epoch: created,
        previous_resource_id: prev,
        next_resource_id: next,
    }
}

fn publish_event(resource_id: u64, created: u64, index: u64, content: &str) -> NewResourceEvent {
    NewResourceEvent {
        did_identity: full_did_into_did_identity(DID).unwrap(),
        resource_id,
        resource_name: "foo".to_string(),
        resource_type: "bar".to_string(),
        resource_version: String::new(),
        media_type: "text/plain".to_string(),
        content: content.as_bytes().to_vec(),
        created_epoch: created,
        metadata_chain_node_index: index,
    }
}

struct InMemoryLedger {
    chain: Vec<ResourceVersionMetadataChainNode>,
    events: Vec<NewResourceEvent>,
}

impl InMemoryLedger {
    fn three_versions() -> InMemoryLedger {
        InMemoryLedger {
            chain: vec![
                chain_node(1, 100, 0, 2),
                chain_node(2, 200, 1, 3),
                chain_node(3, 300, 2, 0),
            ],
            events: vec![
                publish_event(1, 100, 0, "hello world"),
                publish_event(2, 200, 1, "hello world 2"),
                publish_event(3, 300, 2, "hello world 3"),
            ],
        }
    }

    fn resolve(&self, query: &str) -> Result<Resource, DlrError> {
        let parsed = ResourceQuery::parse_from_str(query)?;
        match plan_resolution(parsed.parameters, 1_000_000)? {
            ResolutionPath::ById { resource_id } => {
                let event = self
                    .events
                    .iter()
                    .find(|e| e.resource_id.to_string() == resource_id)
                    .ok_or(DlrError::NotFound)?;
                let node = self.chain[event.metadata_chain_node_index as usize];
                Ok(Resource::from_event_and_node(event.clone(), node, "local"))
            },
            ResolutionPath::ByNameTypeAtTime { epoch, .. } => {
                if epoch < 0 {
                    return Err(DlrError::NotFound);
                }
                let idx = select_chain_node_at_epoch(&self.chain, epoch as u64)
                    .ok_or(DlrError::NotFound)?;
                let node = self.chain[idx];
                let event = self
                    .events
                    .iter()
                    .find(|e| e.resource_id == node.resource_id)
                    .ok_or(DlrError::NotFound)?;
                Ok(Resource::from_event_and_node(event.clone(), node, "local"))
            },
        }
    }
}

fn time_query(epoch: i64) -> String {
    let version_time = UtcDateTime::from_epoch_secs(epoch).to_rfc3339();
    format!(
        "{}?resourceName=foo&resourceType=bar&versionTime={}",
        DID,
        urlencoding::encode(&version_time)
    )
}

#[test]
fn three_publishes_resolve_by_time_and_by_id() {
    let ledger = InMemoryLedger::three_versions();

    // at t2 exactly: the second version
    let at_t2 = ledger.resolve(&time_query(200)).unwrap();
    assert_eq!(at_t2.content, b"hello world 2".to_vec());

    // before the first version: nothing existed yet
    assert_eq!(ledger.resolve(&time_query(99)).unwrap_err(), DlrError::NotFound);

    // long after the last version: the latest
    let late = ledger.resolve(&time_query(400)).unwrap();
    assert_eq!(late.content, b"hello world 3".to_vec());

    // between versions: the closest predecessor
    let mid = ledger.resolve(&time_query(250)).unwrap();
    assert_eq!(mid.content, b"hello world 2".to_vec());

    // by exact id, regardless of any time
    let by_id = ledger.resolve(&format!("{}/resources/2", DID)).unwrap();
    assert_eq!(by_id.content, b"hello world 2".to_vec());
    let by_id_param = ledger.resolve(&format!("{}?resourceId=2", DID)).unwrap();
    assert_eq!(by_id_param.content, b"hello world 2".to_vec());
}

#[test]
fn hydrated_resource_carries_event_and_node_metadata() {
    let event = publish_event(2, 200, 1, "hello world 2");
    let node = chain_node(2, 200, 1, 3);
    let resource = Resource::from_event_and_node(event, node, "local");
    assert_eq!(resource.metadata.resource_uri, format!("{}/resources/2", DID));
    assert_eq!(resource.metadata.resource_name, "foo");
    assert_eq!(resource.metadata.resource_type, "bar");
    assert_eq!(resource.metadata.resource_id.unwrap(), "2");
    assert_eq!(
        resource.metadata.resource_collection_id.unwrap(),
        "0x1234567890123456789012345678901234567890"
    );
    assert_eq!(resource.metadata.media_type, "text/plain");
    assert_eq!(resource.metadata.created.timestamp(), 200);
    assert!(resource.metadata.checksum.is_none());
    assert_eq!(resource.metadata.previous_version_id.unwrap(), "1");
    assert_eq!(resource.metadata.next_version_id.unwrap(), "3");
}

#[test]
fn chain_end_links_are_absent() {
    let event = publish_event(1, 100, 0, "hello world");
    let node = chain_node(1, 100, 0, 2);
    let resource = Resource::from_event_and_node(event, node, "local");
    assert!(resource.metadata.previous_version_id.is_none());
    assert_eq!(resource.metadata.next_version_id.unwrap(), "2");

    let event = publish_event(3, 300, 2, "hello world 3");
    let node = chain_node(3, 300, 2, 0);
    let resource = Resource::from_event_and_node(event, node, "local");
    assert_eq!(resource.metadata.previous_version_id.unwrap(), "2");
    assert!(resource.metadata.next_version_id.is_none());
}
