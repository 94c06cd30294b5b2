use datetime_engine::calc::{calculate, parse_operations, parse_start_date};
use datetime_engine::format::FormattedResult;

#[test]
fn test_parse_iso_timestamp() {
    let ts = parse_start_date("2024-07-11T01:14:00Z").unwrap();
    assert_eq!(ts, 1720660440);
}

#[test]
fn test_parse_civil_date() {
    let ts = parse_start_date("2024-07-11").unwrap();
    // Should be midnight UTC
    assert_eq!(FormattedResult::from_timestamp(ts).iso_8601, "2024-07-11T00:00:00Z");
}

#[test]
fn test_calculate_empty_operations() {
    let result = calculate("2024-07-11T00:00:00Z", "[]").unwrap();
    assert_eq!(result.unix_timestamp, 1720656000);
    assert_eq!(result.iso_8601, "2024-07-11T00:00:00Z");
}

#[test]
fn test_calculate_empty_string_operations() {
    let result = calculate("2024-07-11T00:00:00Z", "").unwrap();
    assert_eq!(result.unix_timestamp, 1720656000);
}

#[test]
fn test_calculate_with_operations() {
    let result = calculate(
        "2024-01-15T00:00:00Z",
        r#"[{"type":"add","unit":"months","value":1}]"#,
    )
    .unwrap();
    assert_eq!(result.iso_8601, "2024-02-15T00:00:00Z");
}

#[test]
fn test_calculate_subtract() {
    let result = calculate(
        "2024-03-15T00:00:00Z",
        r#"[{"type":"subtract","unit":"days","value":15}]"#,
    )
    .unwrap();
    // 2024 is a leap year: March 15 - 15 days = Feb 29
    assert_eq!(result.iso_8601, "2024-02-29T00:00:00Z");
}

#[test]
fn test_calculate_multiple_operations() {
    let result = calculate(
        "2024-01-01T00:00:00Z",
        r#"[{"type":"add","unit":"months","value":1},{"type":"add","unit":"days","value":14}]"#,
    )
    .unwrap();
    assert_eq!(result.iso_8601, "2024-02-15T00:00:00Z");
}

#[test]
fn test_invalid_start_date() {
    let result = calculate("not-a-date", "[]");
    assert!(result.is_err());
}

#[test]
fn test_parse_operations_empty() {
    let ops = parse_operations("[]").unwrap();
    assert!(ops.is_empty());
}

#[test]
fn test_parse_operations_single() {
    let ops = parse_operations(r#"[{"type":"add","unit":"months","value":3}]"#).unwrap();
    assert_eq!(ops.len(), 1);
    assert_eq!(ops[0].op_type, "add");
    assert_eq!(ops[0].unit, "months");
    assert_eq!(ops[0].value, 3);
}
