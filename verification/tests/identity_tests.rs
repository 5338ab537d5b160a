use did_ethr_linked_resources::identity::{
    did_identity_as_full_did, full_did_into_did_identity, sub_method_name_from_chain_id,
    DidIdentity,
};
use did_ethr_linked_resources::resource_id::extract_did_of_dlr_resource_uri;

fn sample_identity() -> DidIdentity {
    let bytes = hex::decode("1234567890123456789012345678901234567890").unwrap();
    DidIdentity::from_bytes(bytes).unwrap()
}

#[test]
fn full_did_renders_prefix_sub_method_and_hex() {
    let id = sample_identity();
    let did = did_identity_as_full_did(&id, "local");
    assert_eq!(did, "did:ethr:local:0x1234567890123456789012345678901234567890");
}

#[test]
fn identity_round_trips_through_full_did() {
    let bytes = hex::decode("a0b1c2d3e4f5a6b7c8d9e0f1a2b3c4d5e6f7a8b9").unwrap();
    let id = DidIdentity::from_bytes(bytes).unwrap();
    for sub_method in ["local", "mainnet", "0x7a69", "odd:sub"] {
        let did = did_identity_as_full_did(&id, sub_method);
        let back = full_did_into_did_identity(&did).unwrap();
        assert_eq!(back, id);
    }
}

#[test]
fn identity_parse_is_case_insensitive() {
    let lower = full_did_into_did_identity("0xa0b1c2d3e4f5a6b7c8d9e0f1a2b3c4d5e6f7a8b9").unwrap();
    let upper = full_did_into_did_identity("0xA0B1C2D3E4F5A6B7C8D9E0F1A2B3C4D5E6F7A8B9").unwrap();
    assert_eq!(lower, upper);
}

#[test]
fn identity_parse_needs_forty_hex_digits() {
    assert!(full_did_into_did_identity("did:ethr:local:0x1234").is_err());
    assert!(full_did_into_did_identity("did:ethr:local:").is_err());
    assert!(
        full_did_into_did_identity("did:ethr:local:0x12345678901234567890123456789012345678zz")
            .is_err()
    );
}

#[test]
fn identity_hex_matches_reference_encoder() {
    let id = sample_identity();
    let did = did_identity_as_full_did(&id, "local");
    let expected_hex = hex::encode(id.as_bytes());
    assert!(did.ends_with(&expected_hex));
}

#[test]
fn identity_wraps_only_twenty_bytes() {
    assert!(DidIdentity::from_bytes(vec![0u8; 19]).is_none());
    assert!(DidIdentity::from_bytes(vec![0u8; 20]).is_some());
    assert!(DidIdentity::from_bytes(vec![0u8; 21]).is_none());
}

#[test]
fn known_chains_have_mnemonic_sub_methods() {
    assert_eq!(sub_method_name_from_chain_id(1), "mainnet");
    assert_eq!(sub_method_name_from_chain_id(3), "ropsten");
    assert_eq!(sub_method_name_from_chain_id(4), "rinkeby");
    assert_eq!(sub_method_name_from_chain_id(5), "goerli");
    assert_eq!(sub_method_name_from_chain_id(42), "kovan");
    assert_eq!(sub_method_name_from_chain_id(137), "polygon");
    assert_eq!(sub_method_name_from_chain_id(31337), "local");
}

#[test]
fn unknown_chains_fall_back_to_hex() {
    assert_eq!(sub_method_name_from_chain_id(31338), "0x7a6a");
    assert_eq!(sub_method_name_from_chain_id(0), "0x0");
    assert_eq!(sub_method_name_from_chain_id(255), "0xff");
}

#[test]
fn extract_did_truncates_at_resources() {
    let did = "did:ethr:local:0x1234567890123456789012345678901234567890";
    let uri = format!("{}/resources/42", did);
    assert_eq!(extract_did_of_dlr_resource_uri(&uri), did);
}

#[test]
fn extract_did_returns_whole_string_without_resources() {
    let did = "did:ethr:local:0x1234567890123456789012345678901234567890";
    assert_eq!(extract_did_of_dlr_resource_uri(did), did);
    assert_eq!(extract_did_of_dlr_resource_uri(""), "");
}
