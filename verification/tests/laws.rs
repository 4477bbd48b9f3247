use chart_server::app::{App, KeyCode, KeyPress};
use chart_server::command::{
    arg_error, parse_int_arg, CommandConfig, CommandPalette, CommandSpec,
};
use chart_server::json::collect_json_field_colors;
use chart_server::model::{ScaleMode, ValueMode};
use chart_server::protocol::{parse_line, IngestConfig};
use chart_server::sender::{normalize_input_at, validate_input};

fn json_of(raw: &str) -> Option<chart_server::model::JsonValue> {
    chart_server::protocol::event_meta(raw.to_string()).parsed_json
}

fn app() -> App {
    let ingest = IngestConfig::from_values(None, None);
    let cmd = CommandConfig::from_values(
        Some("127.0.0.1:5000".to_string()),
        vec![CommandSpec::from_raw("buy".to_string(), "qty:int=1;note:string=hi")],
    );
    App::new(ingest, cmd)
}

fn press(a: &mut App, c: char) {
    a.handle_key(KeyPress { code: KeyCode::Char(c), ctrl: false });
}

#[test]
fn a_sent_point_reads_back_as_typed() {
    let typed = "trades   B now 7 9 {\"abc\":  1}  tail";
    assert!(validate_input(typed));
    let line = normalize_input_at(typed, -42).unwrap();
    let rec = parse_line(&line).unwrap();
    assert_eq!(rec.context, "trades");
    assert_eq!(rec.series_key, chart_server::model::SeriesKey::Event('B'));
    assert_eq!(rec.sample.x_us, -42);
    assert_eq!(rec.sample.num, 7);
    assert_eq!(rec.sample.den, 9);
    assert_eq!(rec.event.unwrap().raw, "{\"abc\": 1} tail");

    let line = normalize_input_at("cpu 12 1710720000123456 0 18446744073709551615", 5).unwrap();
    let rec = parse_line(&line).unwrap();
    assert_eq!(rec.context, "cpu");
    assert_eq!(rec.series_key, chart_server::model::SeriesKey::Numeric(12));
    assert_eq!(rec.sample.x_us, 1710720000123456);
    assert_eq!(rec.sample.den, u64::MAX);
    assert!(rec.event.is_none());
}

#[test]
fn modes_cycle_and_scales_toggle_back() {
    let m = ValueMode::Ratio;
    assert_ne!(m.next(), m);
    assert_eq!(m.next().next().next(), m);
    assert_eq!(ScaleMode::Log10.toggle().toggle(), ScaleMode::Log10);
}

#[test]
fn toggle_keys_undo_themselves() {
    for c in ['g', 'l', 'p', 'a', 's'] {
        let mut a = app();
        let before = (a.scale_mode, a.show_logs, a.step_y, a.auto_x, a.auto_y);
        press(&mut a, c);
        assert_ne!((a.scale_mode, a.show_logs, a.step_y, a.auto_x, a.auto_y), before);
        press(&mut a, c);
        assert_eq!((a.scale_mode, a.show_logs, a.step_y, a.auto_x, a.auto_y), before);
    }
}

#[test]
fn the_log_height_and_the_denominator_stay_in_bounds() {
    let mut a = app();
    for _ in 0..40 {
        press(&mut a, '[');
        assert!(a.log_height >= 3);
    }
    assert_eq!(a.log_height, 3);
    for _ in 0..40 {
        press(&mut a, ']');
        assert!(a.log_height <= 30);
    }
    assert_eq!(a.log_height, 30);
    for _ in 0..10 {
        press(&mut a, '-');
        assert!(a.value_cfg.const_den >= 1);
    }
    assert_eq!(a.value_cfg.const_den, 1);
    for _ in 0..25 {
        press(&mut a, '+');
        assert!(a.value_cfg.const_den >= 1);
    }
    assert_eq!(a.value_cfg.const_den, u64::MAX);
    a.value_cfg.const_den = 0;
    press(&mut a, '=');
    assert_eq!(a.value_cfg.const_den, 1);
}

#[test]
fn asking_twice_for_a_context_changes_nothing() {
    let mut a = app();
    let i = a.get_or_create_context("orders".to_string());
    let n = a.contexts.len();
    assert_eq!(a.get_or_create_context("orders".to_string()), i);
    assert_eq!(a.contexts.len(), n);

    let long: String = std::iter::repeat('x').take(60).collect();
    let j = a.get_or_create_context(long.clone());
    assert_eq!(a.contexts[j].name.chars().count(), 50);
    assert_ne!(a.get_or_create_context(long), j);
}

#[test]
fn colors_settle_after_one_pass() {
    let json = json_of("{\"a\":1,\"b\":{\"c\":[{\"d\":2}]}}").unwrap();
    let mut cache = Vec::new();
    collect_json_field_colors(&json, &mut cache);
    let first: Vec<(String, chart_server::model::Color)> = cache.clone();
    assert_eq!(first.len(), 4);
    collect_json_field_colors(&json, &mut cache);
    assert_eq!(cache, first);
}

#[test]
fn the_argument_cursor_stays_within_the_arguments() {
    let cfg = CommandConfig::from_values(
        Some("x".to_string()),
        vec![CommandSpec::from_raw("buy".to_string(), "a:int;b:int;c:int")],
    );
    let mut p = CommandPalette::default();
    p.arg_index = 9;
    p.sync_with_selection(&cfg);
    assert_eq!(p.current_arg_inputs(&cfg).len(), 3);
    assert_eq!(p.arg_index, 2);
}

#[test]
fn int_arguments_and_their_errors() {
    assert_eq!(parse_int_arg(" -17 "), Ok(-17));
    assert_eq!(parse_int_arg("1.5"), Err("expected int, got '1.5'".to_string()));
    assert_eq!(arg_error("qty", "boom"), "arg 'qty' invalid: boom");
}

#[test]
fn opposite_keys_undo_each_other() {
    let mut a = app();
    a.get_or_create_context("second".to_string());
    let snapshot = |a: &App| {
        (a.context_hscroll, a.list_offset, a.active, a.log_height, a.contexts.len())
    };
    let before = snapshot(&a);
    for (k1, k2) in [
        (KeyCode::Char('r'), KeyCode::Char('h')),
        (KeyCode::Char('L'), KeyCode::Char('H')),
        (KeyCode::PageDown, KeyCode::PageUp),
        (KeyCode::Down, KeyCode::Up),
        (KeyCode::Char(']'), KeyCode::Char('[')),
    ] {
        a.handle_key(KeyPress { code: k1, ctrl: false });
        assert_ne!(snapshot(&a), before);
        a.handle_key(KeyPress { code: k2, ctrl: false });
        assert_eq!(snapshot(&a), before);
    }
}

#[test]
fn syncing_twice_is_syncing_once() {
    let cfg = CommandConfig::from_values(
        Some("x".to_string()),
        vec![CommandSpec::from_raw("buy".to_string(), "a:int=1;b:int=2")],
    );
    let mut p = CommandPalette::default();
    p.arg_index = 5;
    p.sync_with_selection(&cfg);
    p.push_arg_char(&cfg, '9');
    let (inputs, cursor) = (p.current_arg_inputs(&cfg), p.arg_index);
    assert_eq!(inputs, vec!["1", "29"]);
    p.sync_with_selection(&cfg);
    assert_eq!((p.current_arg_inputs(&cfg), p.arg_index), (inputs, cursor));
}
