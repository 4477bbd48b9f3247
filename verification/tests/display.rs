use chart_server::app::App;
use chart_server::model::{
    clock_time, Color, Context, FieldStateEntry, Sample, ScaleMode, ValueConfig, ValueMode,
};
use chart_server::plot::{can_strip, sample_fraction, step_points, strip_redundant_parts};
use chart_server::ui::{
    centered_box, context_row_number, context_state_pieces, delta_token,
    estimate_plot_area, format_elapsed, json_compact_layout, json_object_one_line,
    log_line_prefix, shown_json_scalar, slice_spans_by_chars, Area, JsonLabel, JsonLayout,
    StatePart,
};

fn json_of(raw: &str) -> Option<chart_server::model::JsonValue> {
    chart_server::protocol::event_meta(raw.to_string()).parsed_json
}

fn strings(v: &[&str]) -> Vec<String> {
    v.iter().map(|s| s.to_string()).collect()
}

#[test]
fn elapsed_times() {
    assert_eq!(format_elapsed(5), "5s");
    assert_eq!(format_elapsed(-3), "-3s");
    assert_eq!(format_elapsed(61), "1m1s");
    assert_eq!(format_elapsed(3661), "1h1m");
}

#[test]
fn centred_boxes() {
    let r = centered_box(Area { x: 0, y: 0, width: 100, height: 40 }, 78, 20);
    assert_eq!(r, Area { x: 11, y: 10, width: 78, height: 20 });
    let r = centered_box(Area { x: 2, y: 3, width: 50, height: 5 }, 78, 20);
    assert_eq!(r, Area { x: 2, y: 3, width: 50, height: 5 });
}

#[test]
fn deltas_read_back_from_log_lines() {
    assert_eq!(delta_token("ds0 -> x=1 delta=+12.5%").as_deref(), Some("+12.5"));
    assert_eq!(delta_token("delta=n/a").as_deref(), Some("n/a"));
    assert_eq!(delta_token("delta=-3% more").as_deref(), Some("-3"));
    assert_eq!(delta_token("delta=").as_deref(), None);
    assert_eq!(delta_token("no change"), None);
    assert_eq!(delta_token("a delta=1 delta=2").as_deref(), Some("1"));
}

#[test]
fn scrolling_pieces_of_text() {
    let t = strings(&["ab", "", "cde", "f"]);
    let all = slice_spans_by_chars(&t, 0);
    assert_eq!(all.len(), 4);
    let r = slice_spans_by_chars(&t, 3);
    assert_eq!(r, vec![(2, "de".to_string()), (3, "f".to_string())]);
    let r = slice_spans_by_chars(&t, 2);
    assert_eq!(r, vec![(2, "cde".to_string()), (3, "f".to_string())]);
    assert!(slice_spans_by_chars(&t, 10).is_empty());
}

#[test]
fn time_labels_lose_their_shared_start() {
    let t = strings(&[
        "2024-03-18 00:00:00.000000",
        "2024-03-18 00:00:00.500000",
        "2024-03-18 00:00:01.000000",
        "2024-03-18 00:00:01.000000",
    ]);
    assert!(can_strip(&t));
    let r = strip_redundant_parts(&t);
    assert_eq!(r, strings(&["2024-03-18 00:00:00.000000", "0:00:00.500000", "1.000000", "2024-03-18 00:00:01.000000"]));
    let short = strings(&["12:00", "12:30"]);
    assert_eq!(strip_redundant_parts(&short), strings(&["12:00", "30"]));
    let bad = strings(&["aé", "ab"]);
    assert!(can_strip(&bad));
    let bad = strings(&["éa", "éb"]);
    assert!(!can_strip(&bad));
}

#[test]
fn plotted_fractions() {
    let cfg = ValueConfig { mode: ValueMode::Ratio, const_den: 1 };
    let s = Sample { x_us: 1, num: 0, den: 5 };
    assert_eq!(sample_fraction(&s, cfg, ScaleMode::Linear), Some((0, 5)));
    assert_eq!(sample_fraction(&s, cfg, ScaleMode::Log10), None);
    let s = Sample { x_us: 1, num: 2, den: 0 };
    assert_eq!(sample_fraction(&s, cfg, ScaleMode::Linear), None);
}

#[test]
fn json_layouts() {
    let quoted = json_of("\"a\\\"b\"").unwrap();
    assert_eq!(shown_json_scalar(&quoted), "\"a\\\"b\"");
    let v = json_of("{\"a\":1,\"b\":\"x\"}").unwrap();
    let one = json_object_one_line(&v, 80).unwrap();
    assert_eq!(one, vec![("a".to_string(), "1".to_string()), ("b".to_string(), "\"x\"".to_string())]);
    // Two bytes of indent, "a: 1", ", " and "b: \"x\"" make 14; the brace makes 15.
    assert!(json_object_one_line(&v, 15).is_some());
    assert!(json_object_one_line(&v, 14).is_none());
    let empty = json_of("{}").unwrap();
    assert_eq!(json_object_one_line(&empty, 0), Some(vec![]));
    let arr = json_of("[1,{\"k\":[true]}]").unwrap();
    assert!(json_object_one_line(&arr, 80).is_none());
    match json_compact_layout(&arr, 80) {
        JsonLayout::Lines(lines) => {
            assert_eq!(lines.len(), 4);
            assert_eq!(lines[0].indent, 2);
            assert!(matches!(lines[0].label, JsonLabel::Index(0)));
            assert_eq!(lines[0].value.as_deref(), Some("1"));
            assert!(matches!(lines[1].label, JsonLabel::Index(1)));
            assert!(lines[1].value.is_none());
            assert!(matches!(lines[2].label, JsonLabel::Key(ref k) if k == "k"));
            assert_eq!(lines[2].indent, 4);
            assert!(lines[2].value.is_none());
            assert!(matches!(lines[3].label, JsonLabel::Index(0)));
            assert_eq!(lines[3].indent, 6);
            assert_eq!(lines[3].value.as_deref(), Some("true"));
        }
        other => panic!("unexpected {other:?}"),
    }
    let scalar = json_of("\"hi\"").unwrap();
    match json_compact_layout(&scalar, 80) {
        JsonLayout::Lines(lines) => {
            assert_eq!(lines.len(), 1);
            assert!(matches!(lines[0].label, JsonLabel::Bare));
            assert_eq!(lines[0].value.as_deref(), Some("\"hi\""));
        }
        other => panic!("unexpected {other:?}"),
    }
}

#[test]
fn times_in_utc() {
    assert_eq!(App::format_log_timestamp_full(1_662_921_288_000_123), "2022-09-11 18:34:48.000123Z");
    assert_eq!(clock_time(1_662_921_288_000_123), "18:34:48");
    assert_eq!(clock_time(-1), "23:59:59");
    assert_eq!(clock_time(i64::MAX), "");
}

#[test]
fn row_numbers_and_log_prefixes() {
    assert_eq!(context_row_number(7), "  7. ");
    assert_eq!(context_row_number(1234), "1234. ");
    assert_eq!(log_line_prefix(12, "48.5Z"), "  12 48.5Z ");
    assert_eq!(log_line_prefix(12345, ""), "12345  ");
}

#[test]
fn the_plot_lies_inside_the_frame_and_labels() {
    let a = estimate_plot_area(Area { x: 0, y: 10, width: 80, height: 20 });
    assert_eq!(a, Area { x: 12, y: 11, width: 67, height: 16 });
    let a = estimate_plot_area(Area { x: 65530, y: 0, width: 5, height: 3 });
    assert_eq!(a, Area { x: 65535, y: 1, width: 0, height: 0 });
}

#[test]
fn context_state_rows() {
    let mut c = Context::new_at("c".to_string(), 0);
    c.event_field_colors.push(("price".to_string(), Color::Red));
    for (field, key, value) in [("price", "p", "10"), ("qty", "q", "3")] {
        c.field_states.push_back(FieldStateEntry {
            field: field.to_string(),
            display_key: key.to_string(),
            value_text: value.to_string(),
            event_ts: 1_662_921_288_000_000,
        });
    }
    let prefixes = vec![("qty".to_string(), "qt".to_string())];
    let now = 1_662_921_288_000_000 + 75_500_000;
    let pieces = context_state_pieces(&c, &prefixes, now);
    let shown: Vec<(&str, StatePart)> = pieces.iter().map(|p| (p.text.as_str(), p.part)).collect();
    assert_eq!(
        shown,
        vec![
            ("p:", StatePart::Key(Color::Red)),
            (" ", StatePart::Space),
            ("10", StatePart::Value),
            (" ", StatePart::Space),
            ("18:34:48|1m15s", StatePart::Time),
            ("  ", StatePart::Gap),
            ("qt:", StatePart::Key(Color::Cyan)),
            (" ", StatePart::Space),
            ("3", StatePart::Value),
            (" ", StatePart::Space),
            ("18:34:48|1m15s", StatePart::Time),
        ]
    );
}

#[test]
fn step_plots_turn_at_each_point() {
    let base = vec![(1, 10), (2, 20), (4, 5)];
    assert_eq!(step_points(&base), vec![(1, 10), (2, 10), (2, 20), (4, 20), (4, 5)]);
    assert_eq!(step_points(&vec![(3, 'a')]), vec![(3, 'a')]);
    assert_eq!(step_points::<i32, i32>(&vec![]), vec![]);
}
