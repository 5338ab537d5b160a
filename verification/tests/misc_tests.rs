use did_ethr_linked_resources::config::{ContractNetworkConfig, DemoConfig};
use did_ethr_linked_resources::identity::full_did_into_did_identity;
use did_ethr_linked_resources::registry::{AnoncredsEthRegistry, LinkedResourcesRegistry};
use did_ethr_linked_resources::resolver::EthrDidLinkedResourcesResolver;
use did_ethr_linked_resources::resource::{DIDLinkedResourceType, ResourceInput};
use did_ethr_linked_resources::resource_id::{DIDLinkedResourceId, DIDResourceId};
use did_ethr_linked_resources::roles::{revocation_update_lists, CredRevocationUpdateType};
use did_ethr_linked_resources::utils::get_epoch_secs;

const DID: &str = "did:ethr:local:0x1234567890123456789012345678901234567890";

#[test]
fn local_config_points_at_the_development_network() {
    let conf = DemoConfig::local();
    assert_eq!(conf.rpc_url, "http://localhost:8545");
    assert_eq!(conf.chain_id, 31337);
    assert_eq!(conf.did_ethr_sub_method.0, "local");

    let did_conf = conf.get_did_ethr_network_config();
    assert_eq!(did_conf.contract_address, conf.did_ethr_contract_address);
    assert_eq!(did_conf.rpc_url, conf.rpc_url);
    assert_eq!(did_conf.chain_id, conf.chain_id);

    let dlr_conf = conf.get_dlr_network_config();
    assert_eq!(dlr_conf.contract_address, conf.dlr_contract_address);
    assert_eq!(dlr_conf.rpc_url, conf.rpc_url);
    assert_eq!(dlr_conf.chain_id, conf.chain_id);
}

#[test]
fn resolver_keeps_its_configuration() {
    let config = ContractNetworkConfig {
        contract_address: "0xe7f1725E7734CE288F8367e1Bb143E90bb3F0512".to_string(),
        rpc_url: "http://localhost:8545".to_string(),
        chain_id: 31337,
    };
    let resolver = EthrDidLinkedResourcesResolver::new(config.clone());
    assert_eq!(resolver.config, config);
}

#[test]
fn registries_construct() {
    let _ = AnoncredsEthRegistry::new();
    let _ = LinkedResourcesRegistry::new();
}

#[test]
fn resource_input_builds() {
    let input = ResourceInput {
        resource_name: "foo".to_string(),
        resource_type: "bar".to_string(),
        resource_version_id: String::new(),
        media_type: "text/plain".to_string(),
        content: b"hello world".to_vec(),
    };
    assert_eq!(input.resource_name, "foo");
    assert!(input.resource_version_id.is_empty());
}

#[test]
fn did_resource_id_splits_and_rebuilds() {
    let id = format!("{}/my/path", DID);
    let parts = DIDResourceId::from_id(id.clone()).unwrap();
    assert_eq!(
        parts.did_identity,
        full_did_into_did_identity(DID).unwrap()
    );
    assert_eq!(parts.resource_path, "my/path");
    assert_eq!(parts.author_did("local"), DID);
    assert_eq!(parts.to_id("local"), id);
}

#[test]
fn did_resource_id_needs_a_slash_and_an_identity() {
    assert!(DIDResourceId::from_id("no-slash-here".to_string()).is_err());
    assert!(DIDResourceId::from_id("did:ethr:local:0xzz/path".to_string()).is_err());
}

#[test]
fn linked_resource_id_splits_both_kinds() {
    let id = format!("{}/resource/immutable/schemas/1", DID);
    let parts = DIDLinkedResourceId::from_full_id(id.clone()).unwrap();
    assert_eq!(parts.resource_type, DIDLinkedResourceType::Immutable);
    assert_eq!(parts.resource_name, "schemas/1");
    assert_eq!(parts.to_full_id("local"), id);

    let id = format!("{}/resource/mutable/rev-list", DID);
    let parts = DIDLinkedResourceId::from_full_id(id.clone()).unwrap();
    assert_eq!(parts.resource_type, DIDLinkedResourceType::Mutable);
    assert_eq!(parts.resource_name, "rev-list");
    assert_eq!(parts.to_full_id("local"), id);
}

#[test]
fn linked_resource_id_rejects_other_shapes() {
    assert!(DIDLinkedResourceId::from_full_id(format!("{}/resources/1", DID)).is_err());
    assert!(DIDLinkedResourceId::from_full_id(format!("{}/resource/other/1", DID)).is_err());
    assert!(DIDLinkedResourceId::from_full_id(DID.to_string()).is_err());
}

#[test]
fn revocation_updates_pick_the_matching_side() {
    let (issued, revoked) = revocation_update_lists(CredRevocationUpdateType::Issue, vec![7]);
    assert_eq!(issued.unwrap(), vec![7]);
    assert!(revoked.is_none());

    let (issued, revoked) = revocation_update_lists(CredRevocationUpdateType::Revoke, vec![7, 9]);
    assert!(issued.is_none());
    assert_eq!(revoked.unwrap(), vec![7, 9]);
}

#[test]
fn epoch_clock_is_after_twenty_twenty() {
    // a sanity reading of the wrapped clock
    let now = get_epoch_secs();
    assert!(now > 1_577_836_800);
}

#[test]
fn default_resource_input_is_empty() {
    let input = ResourceInput::default();
    assert!(input.resource_name.is_empty());
    assert!(input.resource_type.is_empty());
    assert!(input.resource_version_id.is_empty());
    assert!(input.media_type.is_empty());
    assert!(input.content.is_empty());
}
