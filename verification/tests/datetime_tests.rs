use did_ethr_linked_resources::datetime::UtcDateTime;

fn chrono_epoch(s: &str) -> i64 {
    chrono::DateTime::parse_from_rfc3339(s).unwrap().timestamp()
}

#[test]
fn parses_utc_timestamps_to_known_epochs() {
    let dt = UtcDateTime::parse_rfc3339("2021-01-01T00:00:00Z").unwrap();
    assert_eq!(dt.timestamp(), 1609459200);
    let dt = UtcDateTime::parse_rfc3339("1970-01-01T00:00:00Z").unwrap();
    assert_eq!(dt.timestamp(), 0);
    let dt = UtcDateTime::parse_rfc3339("1969-12-31T23:59:59Z").unwrap();
    assert_eq!(dt.timestamp(), -1);
}

#[test]
fn parse_agrees_with_reference_parser() {
    for s in [
        "2021-01-01T00:00:00Z",
        "2015-03-11T05:30:02Z",
        "2018-07-19T08:40:00Z",
        "2000-02-29T12:00:00Z",
        "1999-12-31T23:59:59Z",
        "2021-06-01T10:30:00+02:00",
        "2021-06-01T10:30:00-05:30",
        "2021-06-01T10:30:00.500Z",
        "1904-02-29T00:00:00Z",
        "2038-01-19T03:14:08Z",
    ] {
        let ours = UtcDateTime::parse_rfc3339(s).unwrap().timestamp();
        assert_eq!(ours, chrono_epoch(s), "disagrees on {}", s);
    }
}

#[test]
fn rejects_malformed_timestamps() {
    for s in [
        "",
        "2021-01-01",
        "2021-01-01T00:00:00",
        "2021-13-01T00:00:00Z",
        "2021-00-01T00:00:00Z",
        "2021-01-32T00:00:00Z",
        "2021-02-29T00:00:00Z",
        "1900-02-29T00:00:00Z",
        "2021-01-01T24:00:00Z",
        "2021-01-01T00:60:00Z",
        "2021-01-01T00:00:60Z",
        "2021-01-01 00:00:00Z",
        "2021-01-01T00:00:00.Z",
        "2021-01-01T00:00:00+24:00",
        "2021-01-01T00:00:00+00:60",
        "2021-01-01T00:00:00X",
        "21-01-01T00:00:00Z",
    ] {
        assert!(UtcDateTime::parse_rfc3339(s).is_none(), "accepted {}", s);
    }
}

#[test]
fn accepts_leap_day_in_leap_years() {
    assert!(UtcDateTime::parse_rfc3339("2020-02-29T00:00:00Z").is_some());
    assert!(UtcDateTime::parse_rfc3339("2000-02-29T00:00:00Z").is_some());
    assert!(UtcDateTime::parse_rfc3339("1900-02-29T00:00:00Z").is_none());
}

#[test]
fn fraction_is_truncated() {
    let plain = UtcDateTime::parse_rfc3339("2021-01-01T00:00:01Z").unwrap();
    let fractional = UtcDateTime::parse_rfc3339("2021-01-01T00:00:01.999Z").unwrap();
    assert_eq!(plain.timestamp(), fractional.timestamp());
}

#[test]
fn offsets_shift_the_epoch() {
    let utc = UtcDateTime::parse_rfc3339("2021-06-01T10:00:00Z").unwrap();
    let east = UtcDateTime::parse_rfc3339("2021-06-01T12:00:00+02:00").unwrap();
    let west = UtcDateTime::parse_rfc3339("2021-06-01T05:00:00-05:00").unwrap();
    assert_eq!(utc.timestamp(), east.timestamp());
    assert_eq!(utc.timestamp(), west.timestamp());
}

#[test]
fn formats_with_utc_offset() {
    let dt = UtcDateTime::from_epoch_secs(1609459200);
    assert_eq!(dt.to_rfc3339(), "2021-01-01T00:00:00+00:00");
    let dt = UtcDateTime::from_epoch_secs(0);
    assert_eq!(dt.to_rfc3339(), "1970-01-01T00:00:00+00:00");
}

#[test]
fn format_agrees_with_reference_formatter() {
    for epoch in [0i64, 1, -1, 951827696, 1609459200, 4102444800, -2203891200] {
        let ours = UtcDateTime::from_epoch_secs(epoch).to_rfc3339();
        let datetime = chrono::DateTime::from_timestamp(epoch, 0).unwrap();
        assert_eq!(ours, datetime.to_rfc3339(), "disagrees on {}", epoch);
    }
}

#[test]
fn format_parse_round_trip() {
    for epoch in [0i64, 86399, 86400, 1609459200, -1, 253402300799] {
        let rendered = UtcDateTime::from_epoch_secs(epoch).to_rfc3339();
        let back = UtcDateTime::parse_rfc3339(&rendered).unwrap();
        assert_eq!(back.timestamp(), epoch);
    }
}
