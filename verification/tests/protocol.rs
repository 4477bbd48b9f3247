use chart_server::model::{JsonKind, SeriesKey};
use chart_server::protocol::{parse_line, parse_series_key, IngestConfig, DEFAULT_LISTEN_ADDR};

fn json_of(raw: &str) -> Option<chart_server::model::JsonValue> {
    chart_server::protocol::event_meta(raw.to_string()).parsed_json
}

#[test]
fn a_plain_line_is_a_sample() {
    let r = parse_line("cpu 0 1710720000123456 123 1000").unwrap();
    assert_eq!(r.context, "cpu");
    assert_eq!(r.series_key, SeriesKey::Numeric(0));
    assert_eq!(r.sample.x_us, 1710720000123456);
    assert_eq!(r.sample.num, 123);
    assert_eq!(r.sample.den, 1000);
    assert!(r.event.is_none());
}

#[test]
fn an_event_line_carries_its_payload() {
    let r = parse_line("trades B -7 1 1 {\"abc\": 1}   more").unwrap();
    assert_eq!(r.series_key, SeriesKey::Event('B'));
    assert_eq!(r.sample.x_us, -7);
    let e = r.event.unwrap();
    assert_eq!(e.raw, "{\"abc\": 1} more");
    assert!(e.parsed_json.is_none());

    let r = parse_line("trades S 1 1 1 {\"banana\":1}").unwrap();
    let e = r.event.unwrap();
    assert_eq!(e.raw, "{\"banana\":1}");
    match e.parsed_json.unwrap().kind {
        JsonKind::Object(entries) => {
            assert_eq!(entries.len(), 1);
            assert_eq!(entries[0].0, "banana");
            assert_eq!(entries[0].1.text.as_deref(), Some("1"));
        }
        _ => panic!("expected an object"),
    }
}

#[test]
fn malformed_lines_are_refused() {
    assert!(parse_line("cpu 0 1 1").is_none());
    assert!(parse_line("").is_none());
    assert!(parse_line("cpu xx 1 1 1").is_none());
    assert!(parse_line("cpu 0 now 1 1").is_none());
    assert!(parse_line("cpu 0 1 -1 1").is_none());
    assert!(parse_line("cpu 0 1 1 18446744073709551616").is_none());
    assert!(parse_line("cpu 0 9223372036854775808 1 1").is_none());
    assert!(parse_line("cpu 0 -9223372036854775808 1 1").is_some());
    assert!(parse_line("cpu 0 1 18446744073709551615 1").is_some());
}

#[test]
fn the_context_is_cut_to_fifty_characters() {
    let name = "é".repeat(60);
    let r = parse_line(&format!("{} 3 0 0 0", name)).unwrap();
    assert_eq!(r.context.chars().count(), 50);
    assert_eq!(r.context, "é".repeat(50));
}

#[test]
fn series_keys() {
    assert_eq!(parse_series_key("12"), Some(SeriesKey::Numeric(12)));
    assert_eq!(parse_series_key("+12"), Some(SeriesKey::Numeric(12)));
    assert_eq!(parse_series_key("!"), Some(SeriesKey::Event('!')));
    assert_eq!(parse_series_key("-"), Some(SeriesKey::Event('-')));
    assert_eq!(parse_series_key("-1"), None);
    assert_eq!(parse_series_key("ab"), None);
    assert_eq!(parse_series_key(""), None);
}

#[test]
fn ingest_configuration_from_raw_values() {
    let c = IngestConfig::from_values(None, None);
    assert_eq!(c.listen_addr, DEFAULT_LISTEN_ADDR);
    assert!(c.state_fields.is_empty());
    let c = IngestConfig::from_values(Some("  0.0.0.0:1 ".to_string()), Some(" a ; ;b;".to_string()));
    assert_eq!(c.listen_addr, "0.0.0.0:1");
    assert_eq!(c.state_fields, vec!["a".to_string(), "b".to_string()]);
    let c = IngestConfig::from_values(Some("   ".to_string()), Some("".to_string()));
    assert_eq!(c.listen_addr, "127.0.0.1:9101");
    assert!(c.state_fields.is_empty());
}

#[test]
fn json_payloads_keep_their_text() {
    let v = json_of("[1, \"x\", null, true, {\"k\": [2]}]").unwrap();
    assert_eq!(v.text.as_deref(), Some("[1,\"x\",null,true,{\"k\":[2]}]"));
    match v.kind {
        JsonKind::Array(items) => {
            assert_eq!(items.len(), 5);
            assert!(matches!(items[1].kind, JsonKind::Str(ref s) if s == "x"));
            assert!(matches!(items[2].kind, JsonKind::Null));
            assert!(matches!(items[3].kind, JsonKind::Bool(true)));
        }
        _ => panic!("expected an array"),
    }
    assert!(json_of("{").is_none());
    assert!(json_of("banana=1").is_none());
}
