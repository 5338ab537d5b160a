use did_ethr_linked_resources::errors::DlrError;
use did_ethr_linked_resources::identity::full_did_into_did_identity;
use did_ethr_linked_resources::query::ResourceQuery;

#[test]
fn test_fully_loaded_query() {
    let query = "did:ethr:local:0x1234567890123456789012345678901234567890?resourceId=123&resourceName=456&resourceType=789&resourceVersionId=012&versionTime=2021-01-01T00:00:00Z&versionId=345&linkedResource=true&resourceMetadata=true&latestResourceVersion=true&allResourceVersions=true";

    let query = ResourceQuery::parse_from_str(query).unwrap();

    assert_eq!(
        query.did_identity,
        full_did_into_did_identity("0x1234567890123456789012345678901234567890").unwrap()
    );
    assert_eq!(query.parameters.resource_id.unwrap(), "123");
    assert_eq!(query.parameters.resource_name.unwrap(), "456");
    assert_eq!(query.parameters.resource_type.unwrap(), "789");
    assert_eq!(query.parameters.resource_version_id.unwrap(), "012");
    assert_eq!(
        query.parameters.version_time.unwrap().to_rfc3339(),
        "2021-01-01T00:00:00+00:00"
    );
    assert_eq!(query.parameters.version_id.unwrap(), "345");
    assert_eq!(query.parameters.linked_resource.unwrap(), true);
    assert_eq!(query.parameters.resource_metadata.unwrap(), true);
    assert_eq!(query.parameters.latest_resource_version.unwrap(), true);
    assert_eq!(query.parameters.all_resource_versions.unwrap(), true);
}

#[test]
fn test_direct_resource_query() {
    let query = "did:ethr:local:0x1234567890123456789012345678901234567890/resources/123";

    let query = ResourceQuery::parse_from_str(query).unwrap();

    assert_eq!(
        query.did_identity,
        full_did_into_did_identity("0x1234567890123456789012345678901234567890").unwrap()
    );
    assert_eq!(query.parameters.resource_id.unwrap(), "123");
    assert!(query.parameters.resource_name.is_none());
    assert!(query.parameters.resource_type.is_none());
    assert!(query.parameters.resource_version_id.is_none());
    assert!(query.parameters.version_time.is_none());
    assert!(query.parameters.version_id.is_none());
    assert!(query.parameters.linked_resource.is_none());
    assert!(query.parameters.resource_metadata.is_none());
    assert!(query.parameters.latest_resource_version.is_none());
    assert!(query.parameters.all_resource_versions.is_none());
}

#[test]
fn test_some_spec_queries() {
    let query = ResourceQuery::parse_from_str("did:ethr:0x1234567890123456789012345678901234567890?resourceName=degreeLaw&resourceVersionId=1.3.1").unwrap();
    assert_eq!(
        query.did_identity,
        full_did_into_did_identity("0x1234567890123456789012345678901234567890").unwrap()
    );
    assert_eq!(query.parameters.resource_name.unwrap(), "degreeLaw");
    assert_eq!(query.parameters.resource_version_id.unwrap(), "1.3.1");

    let query = ResourceQuery::parse_from_str("did:ethr:0x1234567890123456789012345678901234567890?resourceName=degreeLaw&resourceType=JSONSchema2020&versionTime=2015-03-11T05:30:02Z").unwrap();
    assert_eq!(
        query.did_identity,
        full_did_into_did_identity("0x1234567890123456789012345678901234567890").unwrap()
    );
    assert_eq!(query.parameters.resource_name.unwrap(), "degreeLaw");
    assert_eq!(query.parameters.resource_type.unwrap(), "JSONSchema2020");
    assert_eq!(
        query.parameters.version_time.unwrap().to_rfc3339(),
        "2015-03-11T05:30:02+00:00"
    );
    assert!(query.parameters.resource_metadata.is_none());

    let query = ResourceQuery::parse_from_str("did:ethr:0x1234567890123456789012345678901234567890?resourceName=degreeLaw&resourceType=JSONSchema2020&versionTime=2018-07-19T08:40:00Z&resourceMetadata=true").unwrap();
    assert_eq!(
        query.did_identity,
        full_did_into_did_identity("0x1234567890123456789012345678901234567890").unwrap()
    );
    assert_eq!(query.parameters.resource_name.unwrap(), "degreeLaw");
    assert_eq!(query.parameters.resource_type.unwrap(), "JSONSchema2020");
    assert_eq!(
        query.parameters.version_time.unwrap().to_rfc3339(),
        "2018-07-19T08:40:00+00:00"
    );
    assert_eq!(query.parameters.resource_metadata.unwrap(), true);
}

#[test]
fn unknown_parameter_fails_parsing() {
    let r = ResourceQuery::parse_from_str(
        "did:ethr:0x1234567890123456789012345678901234567890?somethingElse=1",
    );
    assert_eq!(r.unwrap_err(), DlrError::ParseError);
}

#[test]
fn bad_scheme_fails_parsing() {
    let r = ResourceQuery::parse_from_str("https://example.com/resources/1");
    assert_eq!(r.unwrap_err(), DlrError::ParseError);
}

#[test]
fn bad_path_shape_fails_parsing() {
    let r = ResourceQuery::parse_from_str(
        "did:ethr:0x1234567890123456789012345678901234567890/other/123",
    );
    assert_eq!(r.unwrap_err(), DlrError::ParseError);
    let r = ResourceQuery::parse_from_str(
        "did:ethr:0x1234567890123456789012345678901234567890/resources/123/extra",
    );
    assert_eq!(r.unwrap_err(), DlrError::ParseError);
}

#[test]
fn bad_identity_fails_parsing() {
    let r = ResourceQuery::parse_from_str("did:ethr:local:0x1234?resourceName=a");
    assert_eq!(r.unwrap_err(), DlrError::ParseError);
}

#[test]
fn bad_version_time_fails_parsing() {
    let r = ResourceQuery::parse_from_str(
        "did:ethr:0x1234567890123456789012345678901234567890?versionTime=yesterday",
    );
    assert_eq!(r.unwrap_err(), DlrError::ParseError);
}

#[test]
fn bad_bool_fails_parsing() {
    let r = ResourceQuery::parse_from_str(
        "did:ethr:0x1234567890123456789012345678901234567890?linkedResource=yes",
    );
    assert_eq!(r.unwrap_err(), DlrError::ParseError);
}

#[test]
fn url_encoded_version_time_parses() {
    // versionTime values arrive percent-encoded when built with a generic
    // URL encoder, as `2021-06-01T10:30:00+02:00` would be
    let formatted = "2021-06-01T10:30:00+02:00";
    let encoded = urlencoding::encode(formatted);
    let query = format!(
        "did:ethr:0x1234567890123456789012345678901234567890?resourceName=a&resourceType=b&versionTime={}",
        encoded
    );
    let query = ResourceQuery::parse_from_str(&query).unwrap();
    let expected = chrono::DateTime::parse_from_rfc3339(formatted)
        .unwrap()
        .timestamp();
    assert_eq!(query.parameters.version_time.unwrap().timestamp(), expected);
}

#[test]
fn percent_decoding_applies_to_values() {
    let query = ResourceQuery::parse_from_str(
        "did:ethr:0x1234567890123456789012345678901234567890?resourceName=degree%20Law&resourceType=a+b",
    )
    .unwrap();
    assert_eq!(query.parameters.resource_name.unwrap(), "degree Law");
    assert_eq!(query.parameters.resource_type.unwrap(), "a b");
}

#[test]
fn later_duplicate_parameter_wins() {
    let query = ResourceQuery::parse_from_str(
        "did:ethr:0x1234567890123456789012345678901234567890?resourceName=first&resourceName=second",
    )
    .unwrap();
    assert_eq!(query.parameters.resource_name.unwrap(), "second");
}

#[test]
fn query_resource_id_overrides_path() {
    let query = ResourceQuery::parse_from_str(
        "did:ethr:0x1234567890123456789012345678901234567890/resources/7?resourceId=9",
    )
    .unwrap();
    assert_eq!(query.parameters.resource_id.unwrap(), "9");
}

#[test]
fn query_pair_decoding_matches_the_url_crate() {
    let q = "did:ethr:0x1234567890123456789012345678901234567890?resourceName=degree%20Law&resourceType=a+b";
    let parsed = ResourceQuery::parse_from_str(q).unwrap();
    let url = url::Url::parse(q).unwrap();
    let pairs: Vec<(String, String)> = url
        .query_pairs()
        .map(|(k, v)| (k.into_owned(), v.into_owned()))
        .collect();
    assert_eq!(pairs[0].0, "resourceName");
    assert_eq!(parsed.parameters.resource_name.unwrap(), pairs[0].1);
    assert_eq!(pairs[1].0, "resourceType");
    assert_eq!(parsed.parameters.resource_type.unwrap(), pairs[1].1);
}

#[test]
fn versioned_query_builds_and_parses_back() {
    let as_of = did_ethr_linked_resources::datetime::UtcDateTime::from_epoch_secs(1609459200);
    let q = did_ethr_linked_resources::query::versioned_resource_query(
        "did:ethr:local:0x1234567890123456789012345678901234567890",
        "rev-reg",
        "anonCredsStatusList",
        &as_of,
    );
    assert_eq!(
        q,
        "did:ethr:local:0x1234567890123456789012345678901234567890?resourceName=rev-reg&resourceType=anonCredsStatusList&versionTime=2021-01-01T00%3A00%3A00%2B00%3A00"
    );
    let parsed = ResourceQuery::parse_from_str(&q).unwrap();
    assert_eq!(parsed.parameters.version_time.unwrap().timestamp(), 1609459200);
    assert_eq!(parsed.parameters.resource_name.unwrap(), "rev-reg");
    assert_eq!(parsed.parameters.resource_type.unwrap(), "anonCredsStatusList");
}

#[test]
fn percent_encoding_matches_the_urlencoding_crate() {
    for input in [
        "2021-01-01T00:00:00+00:00",
        "a b~c_d-e.f",
        "100% sure?",
        "did:ethr:local",
    ] {
        let ours = did_ethr_linked_resources::query::percent_encode(input).unwrap();
        assert_eq!(ours, urlencoding::encode(input).into_owned(), "disagrees on {}", input);
    }
}
