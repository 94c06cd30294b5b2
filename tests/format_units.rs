use datetime_engine::format::FormattedResult;

#[test]
fn test_epoch_formatting() {
    let result = FormattedResult::from_timestamp(0);

    assert_eq!(result.unix_timestamp, 0);
    assert_eq!(result.iso_8601, "1970-01-01T00:00:00Z");
    assert!(result.rfc_2822.contains("01 Jan 1970"));
    assert!(result.local_human.contains("1970"));
}

#[test]
fn test_json_serialization() {
    let result = FormattedResult::from_timestamp(0);
    let json = result.to_json();

    assert!(json.contains("\"unixTimestamp\":0"));
    assert!(json.contains("\"iso8601\""));
    assert!(json.contains("\"rfc2822\""));
    assert!(json.contains("\"localHuman\""));
}
