use datetime_engine::calc::{calculate, parse_operations, parse_start_date, shift_months};
use datetime_engine::format::FormattedResult;
use datetime_engine::validate::validate;
use datetime_engine::{calculate as calculate_json, validate_date};

fn add(unit: &str, n: i64) -> String {
    format!(r#"[{{"type":"add","unit":"{}","value":{}}}]"#, unit, n)
}

fn sub(unit: &str, n: i64) -> String {
    format!(r#"[{{"type":"subtract","unit":"{}","value":{}}}]"#, unit, n)
}

#[test]
fn iso_form_reads_back_as_same_instant() {
    let starts = [
        "1970-01-01T00:00:00Z",
        "1969-12-31T23:59:59Z",
        "2024-02-29T12:00:00Z",
        "0000-03-01T00:00:00Z",
        "-000001-06-15T08:09:10Z",
        "9999-12-30T22:00:00Z",
        "-009999-01-02T01:59:59Z",
    ];
    for s in starts {
        let r = calculate(s, "").unwrap();
        assert_eq!(r.iso_8601, s);
        assert_eq!(parse_start_date(&r.iso_8601).unwrap(), r.unix_timestamp);
    }
    let r = calculate("2024-07-11T03:14:00+02:00", &add("hours", 5)).unwrap();
    assert_eq!(parse_start_date(&r.iso_8601).unwrap(), r.unix_timestamp);
}

#[test]
fn empty_array_and_empty_text_agree() {
    for d in ["2024-07-11", "1960-06-15T10:00:00Z", "2024-07-11T14:30:00", "bogus"] {
        let a = calculate_json(d, "[]");
        let b = calculate_json(d, "");
        assert_eq!(a, b);
    }
    assert!(parse_operations("  [ ]  ").unwrap().is_empty());
    assert!(parse_operations("   ").unwrap().is_empty());
}

#[test]
fn month_end_clamps_for_every_month() {
    let cases = [
        ("2025-01-31", "2025-02-28"),
        ("2024-01-31", "2024-02-29"),
        ("2025-03-31", "2025-04-30"),
        ("2025-05-31", "2025-06-30"),
        ("2025-07-31", "2025-08-31"),
        ("2025-08-31", "2025-09-30"),
        ("2025-10-31", "2025-11-30"),
        ("2025-12-31", "2026-01-31"),
        ("2000-01-31", "2000-02-29"),
        ("2100-01-31", "2100-02-28"),
    ];
    for (from, to) in cases {
        let r = calculate(&format!("{}T07:08:09Z", from), &add("months", 1)).unwrap();
        assert_eq!(r.iso_8601, format!("{}T07:08:09Z", to));
    }
}

#[test]
fn leap_day_start_follows_leap_rule() {
    assert!(parse_start_date("2000-02-29").is_ok());
    assert!(parse_start_date("2024-02-29").is_ok());
    assert!(parse_start_date("2027-02-29").is_err());
    assert!(parse_start_date("2100-02-29").is_err());
    assert!(parse_start_date("2400-02-29").is_ok());
    assert!(parse_start_date("2000-02-29T00:00:00Z").is_ok());
    assert!(parse_start_date("2024-02-29T00:00:00Z").is_ok());
    assert!(parse_start_date("2027-02-29T00:00:00Z").is_err());
    assert!(parse_start_date("2100-02-29T00:00:00Z").is_err());
}

#[test]
fn fixed_units_reverse() {
    for d in ["2024-03-10T01:30:00Z", "1969-12-31T23:59:59Z", "2000-01-01T00:00:00Z"] {
        for n in [0i64, 1, 24, 8784, -37, 1_000_000] {
            for unit in ["hours", "minutes", "seconds", "days"] {
                let there = calculate(d, &add(unit, n)).unwrap();
                let back = calculate(&there.iso_8601, &sub(unit, n)).unwrap();
                assert_eq!(back.iso_8601, d);
            }
        }
    }
}

#[test]
fn fixed_end_to_end_cases() {
    let r = calculate("1970-01-01T00:00:00Z", "[]").unwrap();
    assert_eq!(r.unix_timestamp, 0);
    assert_eq!(r.iso_8601, "1970-01-01T00:00:00Z");
    let r = calculate("2024-01-15T00:00:00Z", &add("months", 1)).unwrap();
    assert_eq!(r.iso_8601, "2024-02-15T00:00:00Z");
    let r = calculate("2024-01-31T00:00:00Z", &add("months", 1)).unwrap();
    assert_eq!(r.iso_8601, "2024-02-29T00:00:00Z");
    let r = calculate("2024-02-29T00:00:00Z", &add("years", 1)).unwrap();
    assert_eq!(r.iso_8601, "2025-02-28T00:00:00Z");
    assert!(!validate("2027-02-29").valid);
    let v = validate("");
    assert!(!v.valid);
    assert!(v.error.unwrap().contains("empty"));
}

#[test]
fn rendering_exact_forms() {
    let r = FormattedResult::from_timestamp(1720708205);
    assert_eq!(r.iso_8601, "2024-07-11T14:30:05Z");
    assert_eq!(r.rfc_2822, "Thu, 11 Jul 2024 14:30:05 +0000");
    assert_eq!(r.local_human, "July 11, 2024 02:30:05 PM UTC");
    let epoch = FormattedResult::from_timestamp(0);
    assert_eq!(epoch.rfc_2822, "Thu, 01 Jan 1970 00:00:00 +0000");
    assert_eq!(epoch.local_human, "January 01, 1970 12:00:00 AM UTC");
    let noon = FormattedResult::from_timestamp(43200);
    assert_eq!(noon.local_human, "January 01, 1970 12:00:00 PM UTC");
    let before = FormattedResult::from_timestamp(-86400);
    assert_eq!(before.rfc_2822, "Wed, 31 Dec 1969 00:00:00 +0000");
    let early = calculate("-000001-06-15T08:09:10Z", "").unwrap();
    assert_eq!(early.rfc_2822, "Tue, 15 Jun -001 08:09:10 +0000");
    assert_eq!(early.local_human, "June 15, -001 08:09:10 AM UTC");
    assert_eq!(
        r.to_json(),
        r#"{"unixTimestamp":1720708205,"iso8601":"2024-07-11T14:30:05Z","rfc2822":"Thu, 11 Jul 2024 14:30:05 +0000","localHuman":"July 11, 2024 02:30:05 PM UTC"}"#
    );
    let neg = FormattedResult::from_timestamp(-1);
    assert!(neg.to_json().starts_with(r#"{"unixTimestamp":-1,"#));
}

#[test]
fn decoder_tolerance_and_order() {
    let ops = parse_operations(
        r#" [ { "value" : -2 , "unit" : "days", "type" : "subtract" } ,
            {"type":"add","unit":"hours","value":3} ] "#,
    )
    .unwrap();
    assert_eq!(ops.len(), 2);
    assert_eq!(ops[0].op_type, "subtract");
    assert_eq!(ops[0].unit, "days");
    assert_eq!(ops[0].value, -2);
    assert_eq!(ops[1].unit, "hours");
    assert_eq!(ops[1].value, 3);
    let r = calculate(
        "2024-01-01T00:00:00Z",
        r#"[{"type":"add","unit":"days","value":1},{"type":"add","unit":"months","value":1}]"#,
    )
    .unwrap();
    assert_eq!(r.iso_8601, "2024-02-02T00:00:00Z");
}

#[test]
fn decoder_errors() {
    assert!(parse_operations("invalid json").is_err());
    assert!(parse_operations("{}").is_err());
    assert_eq!(parse_operations("invalid json").err().unwrap(), "Operations JSON must be an array");
    let e = parse_operations(r#"[{"unit":"days","value":1}]"#).err().unwrap();
    assert_eq!(e, "Missing 'type' field in operation");
    let e = parse_operations(
        r#"[{"type":"add","unit":"days","value":1},{"type":"x","unit":"days","value":1},{"unit":"days"}]"#,
    )
    .err()
    .unwrap();
    assert_eq!(e, "Unknown operation type: 'x'");
    let e = parse_operations(r#"[{"type":"add","value":1}]"#).err().unwrap();
    assert!(e.contains("unit"));
    let e = parse_operations(r#"[{"type":"add","unit":"days"}]"#).err().unwrap();
    assert!(e.contains("value"));
    let e = parse_operations(r#"[{"type":"multiply","unit":"days","value":1}]"#).err().unwrap();
    assert!(e.contains("multiply"));
    let e = parse_operations(r#"[{"type":"add","unit":"weeks","value":1}]"#).err().unwrap();
    assert!(e.contains("weeks"));
    assert!(parse_operations(r#"[{"type":"add","unit":"days","value":9223372036854775808}]"#).is_err());
    let ops = parse_operations(r#"[{"type":"add","unit":"days","value":-9223372036854775808}]"#).unwrap();
    assert_eq!(ops[0].value, i64::MIN);
}

#[test]
fn range_errors() {
    assert_eq!(
        calculate("2024-01-01T00:00:00Z", &add("years", 8000)).err().unwrap(),
        "Add operation failed: out of range"
    );
    assert_eq!(
        calculate("2024-01-01T00:00:00Z", &sub("days", 100_000_000)).err().unwrap(),
        "Subtract operation failed: out of range"
    );
    assert!(calculate("2024-01-01T00:00:00Z", &add("years", 8000)).is_err());
    assert!(calculate("2024-01-01T00:00:00Z", &add("seconds", i64::MAX)).is_err());
    assert!(calculate("2024-01-01T00:00:00Z", &sub("hours", i64::MIN)).is_err());
    assert!(calculate("9999-12-31", "").is_err());
    assert!(calculate("9999-12-30T22:00:00Z", &add("seconds", 1)).is_err());
    assert_eq!(shift_months(0, 1), Some(31 * 86400));
    assert_eq!(shift_months(0, 12 * 10000), None);
}

#[test]
fn input_grammars() {
    assert_eq!(parse_start_date("  2024-07-11T03:14:00+02:00 ").unwrap(), 1720660440);
    let r = calculate("2024-07-11T14:30:00", "").unwrap();
    assert_eq!(r.iso_8601, "2024-07-11T14:30:00Z");
    let r = calculate("2024-07-11", "").unwrap();
    assert_eq!(r.unix_timestamp, 1720656000);
    assert!(parse_start_date("2024-13-01").is_err());
}

#[test]
fn validation_normal_forms() {
    assert_eq!(validate("2024-07-11").normalized.unwrap(), "2024-07-11");
    assert_eq!(validate(" 2024-07-11T03:14:00+02:00 ").normalized.unwrap(), "2024-07-11T01:14:00Z");
    assert_eq!(validate("2024-07-11T14:30:00").normalized.unwrap(), "2024-07-11T14:30:00");
    assert_eq!(validate("2024-07-11T01:14:00+02:00").normalized.unwrap(), "2024-07-10T23:14:00Z");
    assert_eq!(validate("2024-07-11 14:30:05").normalized.unwrap(), "2024-07-11T14:30:05");
    assert_eq!(validate("hello world").error.unwrap(), "Invalid date input: 'hello world'");
    let v = validate("hello");
    assert!(v.normalized.is_none());
    assert!(v.error.unwrap().contains("hello"));
    assert_eq!(validate_date("2024-07-11"), r#"{"valid":true,"normalized":"2024-07-11"}"#);
    assert_eq!(validate_date("  "), r#"{"valid":false,"error":"Input is empty"}"#);
}

#[test]
fn json_boundary() {
    assert_eq!(
        calculate_json("not-a-date", "[]"),
        r#"{"error":"Could not parse 'not-a-date' as a date or datetime"}"#
    );
    assert_eq!(
        calculate_json("a\"b", ""),
        r#"{"error":"Could not parse 'a\"b' as a date or datetime"}"#
    );
    assert_eq!(
        calculate_json("a\\b\u{1}", ""),
        r#"{"error":"Could not parse 'a\\b\u0001' as a date or datetime"}"#
    );
    assert!(calculate_json("1970-01-01", "").starts_with(r#"{"unixTimestamp":0,"iso8601":"1970-01-01T00:00:00Z""#));
}
