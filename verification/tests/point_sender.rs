use chart_server::sender::{
    input_problem, is_valid_series_key, micros_of, normalize_input, normalize_input_at,
    summarize_point, validate_input, InputError,
};

#[test]
fn test_validate_input() {
    assert!(validate_input("cpu 0 1710720000123456 123 1000"));
    assert!(validate_input("network 1 1710720000123456 1 1"));
    assert!(validate_input("trades B now 1 1 {\"abc\":1}"));

    assert!(!validate_input("cpu 10"));
    assert!(!validate_input("cpu 0 abc 5 1"));
    assert!(!validate_input("cpu xx now 5 1"));
}

#[test]
fn test_normalize_input_now() {
    let out = normalize_input("cpu 0 now 123 1000").unwrap();
    let parts: Vec<&str> = out.split_whitespace().collect();

    assert_eq!(parts[0], "cpu");
    assert_eq!(parts[1], "0");
    assert!(parts[2].parse::<i64>().is_ok());
    assert_eq!(parts[3], "123");
    assert_eq!(parts[4], "1000");
}

#[test]
fn test_summarize_point() {
    let s = summarize_point("cpu 0 1710720000123456 123 1000").unwrap();
    assert!(s.contains("[cpu]"));
    assert!(s.contains("key 0"));
    assert!(s.contains("num=123"));
    assert!(s.contains("den=1000"));
}

#[test]
fn summary_is_exact_and_carries_the_payload() {
    assert_eq!(
        summarize_point("cpu 0 1710720000123456 123 1000").unwrap(),
        "[cpu] key 0: x_us=1710720000123456 num=123 den=1000"
    );
    assert_eq!(
        summarize_point("trades  B -5 +7 1   {\"a\":1}   x").unwrap(),
        "[trades] key B: x_us=-5 num=7 den=1 payload={\"a\":1} x"
    );
    assert_eq!(summarize_point("cpu 0 now 1 1"), None);
    assert_eq!(summarize_point("cpu 0 1"), None);
}

#[test]
fn each_input_problem_is_reported() {
    assert_eq!(input_problem("cpu 10"), Some(InputError::TooFewValues(2)));
    assert_eq!(input_problem(""), Some(InputError::TooFewValues(0)));
    let long = format!("{} 0 1 1 1", "c".repeat(51));
    assert_eq!(input_problem(&long), Some(InputError::ContextTooLong));
    let fifty = format!("{} 0 1 1 1", "c".repeat(50));
    assert_eq!(input_problem(&fifty), None);
    let accented = format!("{} 0 1 1 1", "é".repeat(26));
    assert_eq!(input_problem(&accented), None);
    assert!(validate_input(&accented));
    let accented_long = format!("{} 0 1 1 1", "é".repeat(51));
    assert_eq!(input_problem(&accented_long), Some(InputError::ContextTooLong));
    assert_eq!(input_problem("cpu xx now 5 1"), Some(InputError::BadSeriesKey));
    assert_eq!(input_problem("cpu 0 abc 5 1"), Some(InputError::BadTimestamp));
    assert_eq!(input_problem("cpu 0 1 -5 1"), Some(InputError::BadNumerator));
    assert_eq!(input_problem("cpu 0 1 5 x"), Some(InputError::BadDenominator));
    assert_eq!(
        InputError::TooFewValues(2).message(),
        "❌ Expected at least 5 values, got 2"
    );
    assert_eq!(InputError::BadDenominator.message(), "❌ den must be unsigned integer");
}

#[test]
fn series_keys_are_indices_or_single_characters() {
    assert!(is_valid_series_key("0"));
    assert!(is_valid_series_key("42"));
    assert!(is_valid_series_key("é"));
    assert!(!is_valid_series_key("xx"));
    assert!(!is_valid_series_key(""));
}

#[test]
fn normalizing_replaces_now_and_joins_the_payload() {
    assert_eq!(
        normalize_input_at("cpu  0 now 123 1000", 1700000000000000).unwrap(),
        "cpu 0 1700000000000000 123 1000"
    );
    assert_eq!(
        normalize_input_at("t B 5 1 1 {\"a\": 1}  tail", 9).unwrap(),
        "t B 5 1 1 {\"a\": 1} tail"
    );
    assert_eq!(
        normalize_input_at("a b", 9).unwrap_err(),
        "expected at least 5 whitespace-separated fields"
    );
    assert_eq!(normalize_input_at("c 0 -3 1 1", 7).unwrap(), "c 0 -3 1 1");
}

#[test]
fn microseconds_of_a_duration() {
    assert_eq!(micros_of(true, 1, 5), Some(1_000_005));
    assert_eq!(micros_of(true, 9_223_372_036_854, 775_807), Some(i64::MAX));
    assert_eq!(micros_of(true, 9_223_372_036_854, 775_808), None);
    assert_eq!(micros_of(true, u64::MAX, 0), None);
    assert_eq!(micros_of(false, 1, 5), None);
    assert_eq!(micros_of(false, 0, 0), None);
}
