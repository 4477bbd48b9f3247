use chart_server::app::{
    shortest_unique_prefixes, update_context_field_states, Action, App, KeyCode, KeyPress,
    MouseKind,
};
use chart_server::command::{CommandConfig, CommandSpec};
use chart_server::json::collect_json_field_colors;
use chart_server::model::{Color, Context, ScaleMode, SeriesKey, ValueMode};
use chart_server::protocol::{parse_line, IngestConfig};

fn json_of(raw: &str) -> Option<chart_server::model::JsonValue> {
    chart_server::protocol::event_meta(raw.to_string()).parsed_json
}

fn app_with(fields: &str, tcp: Option<&str>) -> App {
    let ingest = IngestConfig::from_values(None, Some(fields.to_string()));
    let cmd = CommandConfig::from_values(
        tcp.map(str::to_string),
        vec![CommandSpec::from_raw("buy".to_string(), "qty:int=1;note:string")],
    );
    App::new(ingest, cmd)
}

fn key(c: char) -> KeyPress {
    KeyPress { code: KeyCode::Char(c), ctrl: false }
}

fn code(k: KeyCode) -> KeyPress {
    KeyPress { code: k, ctrl: false }
}

#[test]
fn start_up_state() {
    let a = app_with("", None);
    assert_eq!(a.contexts.len(), 1);
    assert_eq!(a.ctx().name, "default");
    assert_eq!(a.log_height, 10);
    assert!(a.log_follow && a.auto_x && a.auto_y && !a.step_y);
    assert_eq!(a.scale_mode, ScaleMode::Linear);
}

#[test]
fn ingesting_makes_contexts_series_and_log_lines() {
    let mut a = app_with("side;size;price", None);
    let r = parse_line("trades B 10 1 2 {\"side\":\"buy\",\"size\":3,\"extra\":{\"k\":1}}").unwrap();
    assert!(a.previous_sample(&r.context, r.series_key).is_none());
    let act = a.on_ingest(r, Color::LightGreen, "first".to_string(), 5);
    assert!(matches!(act, Action::Nothing));
    assert_eq!(a.contexts.len(), 2);
    let c = &a.contexts[1];
    assert_eq!(c.name, "trades");
    assert_eq!(c.order, vec![SeriesKey::Event('B')]);
    assert_eq!(c.colors, vec![Color::LightGreen]);
    assert_eq!(c.datasets[0].points.len(), 1);
    assert_eq!(c.logs.msgs.len(), 1);
    assert_eq!(c.logs.msgs[0].text, "first");
    assert_eq!(c.logs.msgs[0].ts, 5);
    let keys: Vec<&str> = c.event_field_colors.iter().map(|(k, _)| k.as_str()).collect();
    assert_eq!(keys, vec!["extra", "k", "side", "size"]);
    assert_eq!(c.field_states.len(), 2);
    assert_eq!(c.field_states[0].field, "side");
    assert_eq!(c.field_states[0].display_key, "sid");
    assert_eq!(c.field_states[0].value_text, "buy");
    assert_eq!(c.field_states[1].display_key, "siz");
    assert_eq!(c.field_states[1].value_text, "3");

    let r2 = parse_line("trades B 11 4 2").unwrap();
    let prev = a.previous_sample(&r2.context, r2.series_key).unwrap();
    assert_eq!(prev.x_us, 10);
    a.on_ingest(r2, Color::Red, "second".to_string(), 6);
    let c = &a.contexts[1];
    assert_eq!(c.colors, vec![Color::LightGreen]);
    assert_eq!(c.datasets[0].points.len(), 2);
    assert_eq!(c.logs.msgs.len(), 2);

    let r3 = parse_line("default 0 1 1 1").unwrap();
    let act = a.on_ingest(r3, Color::Blue, "third".to_string(), 7);
    assert!(matches!(act, Action::Fit { x: true, y: true }));
    assert_eq!(a.contexts.len(), 2);
    assert_eq!(a.log_scroll, 0);
}

#[test]
fn the_log_follows_its_tail() {
    let mut a = app_with("", None);
    for i in 0..10 {
        let r = parse_line(&format!("default 0 {i} 1 1")).unwrap();
        a.on_ingest(r, Color::Blue, "x".to_string(), i);
    }
    assert_eq!(a.log_scroll, 30 - 8);
    a.handle_key(key('K'));
    assert!(!a.log_follow);
    assert_eq!(a.log_scroll, 21);
    a.handle_key(key('F'));
    assert!(a.log_follow);
    assert_eq!(a.log_scroll, 22);
}

#[test]
fn context_lookup_and_creation() {
    let mut a = app_with("", None);
    assert_eq!(a.get_or_create_context("default".to_string()), 0);
    assert_eq!(a.get_or_create_context("b".to_string()), 1);
    assert_eq!(a.get_or_create_context("b".to_string()), 1);
    let long = "n".repeat(60);
    assert_eq!(a.get_or_create_context(long.clone()), 2);
    assert_eq!(a.contexts[2].name, "n".repeat(50));
    assert_eq!(a.get_or_create_context(long), 3);
}

#[test]
fn view_keys() {
    let mut a = app_with("", None);
    assert!(matches!(a.handle_key(key('q')), Action::Quit));
    assert!(matches!(a.handle_key(key('g')), Action::Fit { x: false, y: true }));
    assert_eq!(a.scale_mode, ScaleMode::Log10);
    assert!(matches!(a.handle_key(key('a')), Action::Fit { x: false, y: false }));
    assert!(!a.auto_x);
    assert!(matches!(a.handle_key(key('m')), Action::Fit { x: false, y: true }));
    assert_eq!(a.value_cfg.mode, ValueMode::Numerator);
    for _ in 0..20 {
        a.handle_key(key('['));
    }
    assert_eq!(a.log_height, 3);
    for _ in 0..40 {
        a.handle_key(key(']'));
    }
    assert_eq!(a.log_height, 30);
    a.handle_key(key('r'));
    a.handle_key(key('h'));
    a.handle_key(key('h'));
    assert_eq!(a.context_hscroll, 0);
    a.handle_key(key('L'));
    assert_eq!(a.context_hscroll, 12);
    for _ in 0..3 {
        a.handle_key(key('-'));
    }
    assert_eq!(a.value_cfg.const_den, 1000);
    for _ in 0..10 {
        a.handle_key(key('-'));
    }
    assert_eq!(a.value_cfg.const_den, 1);
    a.value_cfg.const_den = 0;
    a.handle_key(key('+'));
    assert_eq!(a.value_cfg.const_den, 1);
    a.value_cfg.const_den = u64::MAX / 2;
    a.handle_key(key('='));
    assert_eq!(a.value_cfg.const_den, u64::MAX);
    assert!(matches!(
        a.handle_key(KeyPress { code: KeyCode::Left, ctrl: true }),
        Action::ZoomIn
    ));
    assert!(matches!(a.handle_key(code(KeyCode::Right)), Action::PanRight));
    a.handle_key(code(KeyCode::PageUp));
    assert_eq!(a.list_offset, 0);
    a.handle_key(code(KeyCode::PageDown));
    assert_eq!(a.list_offset, 5);
    a.get_or_create_context("b".to_string());
    assert!(matches!(a.handle_key(code(KeyCode::Down)), Action::Fit { x: false, y: true }));
    assert_eq!(a.active, 1);
    assert!(matches!(a.handle_key(code(KeyCode::Down)), Action::Nothing));
    a.handle_key(code(KeyCode::Up));
    assert_eq!(a.active, 0);
}

#[test]
fn mouse_events() {
    let mut a = app_with("", None);
    a.get_or_create_context("b".to_string());
    assert!(matches!(a.handle_mouse(MouseKind::Down, 2), Action::Fit { .. }));
    assert_eq!(a.active, 1);
    assert!(matches!(a.handle_mouse(MouseKind::Down, 9), Action::Nothing));
    assert_eq!(a.active, 1);
    a.handle_mouse(MouseKind::Down, 0);
    assert_eq!(a.active, 0);
    a.handle_mouse(MouseKind::ScrollDown, 0);
    assert!(!a.log_follow);
    assert_eq!(a.log_scroll, 3);
    a.handle_mouse(MouseKind::ScrollUp, 0);
    a.handle_mouse(MouseKind::ScrollUp, 0);
    assert_eq!(a.log_scroll, 0);
}

#[test]
fn the_command_palette() {
    let mut a = app_with("", None);
    a.handle_key(key(':'));
    assert!(!a.cmd_palette.open);
    let mut a = app_with("", Some("127.0.0.1:5000"));
    a.handle_key(key(':'));
    assert!(a.cmd_palette.open);
    a.handle_key(key('7'));
    a.handle_key(code(KeyCode::Tab));
    assert_eq!(a.cmd_palette.arg_index, 1);
    a.handle_key(key('h'));
    a.handle_key(code(KeyCode::Tab));
    assert_eq!(a.cmd_palette.arg_index, 0);
    a.handle_key(code(KeyCode::BackTab));
    assert_eq!(a.cmd_palette.arg_index, 1);
    match a.handle_key(code(KeyCode::Enter)) {
        Action::SendPredefined { context, spec_index, inputs } => {
            assert_eq!(context, "default");
            assert_eq!(spec_index, 0);
            assert_eq!(inputs, vec!["17".to_string(), "h".to_string()]);
        }
        other => panic!("unexpected {other:?}"),
    }
    a.handle_key(code(KeyCode::Down));
    assert!(a.cmd_palette.editing_custom);
    a.handle_key(key('i'));
    assert!(matches!(a.handle_key(code(KeyCode::Enter)), Action::Nothing));
    for c in " {\"x\":1} ".chars() {
        a.handle_key(key(c));
    }
    a.handle_key(code(KeyCode::Backspace));
    match a.handle_key(code(KeyCode::Enter)) {
        Action::Send { payload, label } => {
            assert_eq!(payload, "{\"x\":1}");
            assert_eq!(label, "custom");
        }
        other => panic!("unexpected {other:?}"),
    }
    assert_eq!(a.send_target().as_deref(), Some("127.0.0.1:5000"));
    a.finish_send("{\"x\":1}", "custom", Ok(()), 9);
    assert!(!a.cmd_palette.open);
    assert_eq!(a.cmd_palette.status.as_deref(), Some("sent: custom"));
    assert_eq!(a.ctx().logs.msgs.back().unwrap().text, "cmd -> {\"x\":1}");
    a.finish_send("p", "l", Err("connect failed".to_string()), 10);
    assert_eq!(a.cmd_palette.status.as_deref(), Some("connect failed"));
    a.handle_key(key(':'));
    a.handle_key(code(KeyCode::Esc));
    assert!(!a.cmd_palette.open);
    let mut b = app_with("", None);
    assert!(b.send_target().is_none());
    assert_eq!(b.cmd_palette.status.as_deref(), Some("command socket is not configured"));
    b.report_command_error("arg 'qty' invalid".to_string());
    assert_eq!(b.cmd_palette.status.as_deref(), Some("arg 'qty' invalid"));
}

#[test]
fn list_scrolling_keeps_the_active_context_visible() {
    let mut a = app_with("", None);
    for i in 0..12 {
        a.get_or_create_context(format!("c{i}"));
    }
    a.active = 11;
    a.sync_context_list_state(10);
    assert_eq!(a.list_selected, Some(11));
    assert_eq!(a.list_offset, 4);
    a.active = 2;
    a.sync_context_list_state(10);
    assert_eq!(a.list_offset, 2);
    a.sync_context_list_state(0);
    assert_eq!(a.list_offset, 2);
}

#[test]
fn shortest_prefixes() {
    let f: Vec<String> = ["side", "size", "price", "p", "pp"].iter().map(|s| s.to_string()).collect();
    let r = shortest_unique_prefixes(&f);
    let got: Vec<(&str, &str)> = r.iter().map(|(a, b)| (a.as_str(), b.as_str())).collect();
    assert_eq!(
        got,
        vec![("side", "sid"), ("size", "siz"), ("price", "pr"), ("p", "p"), ("pp", "pp")]
    );
    let a = app_with("alpha;beta", None);
    assert_eq!(a.context_state_prefixes()[1].1, "b");
}

#[test]
fn field_states_keep_the_newest_sixty_four() {
    let mut c = Context::new_at("c".to_string(), 0);
    let fields = vec!["a".to_string(), "b".to_string()];
    let v = json_of("{\"a\": [1, 2], \"b\": \"x\"}").unwrap();
    for i in 0..40 {
        update_context_field_states(&mut c, &v, &fields, i);
    }
    assert_eq!(c.field_states.len(), 64);
    assert_eq!(c.field_states[0].event_ts, 8);
    assert_eq!(c.field_states[0].value_text, "[1,2]");
    assert_eq!(c.field_states[1].value_text, "x");
    let not_object = json_of("[1]").unwrap();
    update_context_field_states(&mut c, &not_object, &fields, 99);
    assert_eq!(c.field_states.back().unwrap().event_ts, 39);
}

#[test]
fn json_field_colors_are_kept_once_set() {
    let mut cache = vec![("a".to_string(), Color::Red)];
    let v = json_of("{\"a\": {\"b\": [{\"c\": 1}]}}").unwrap();
    collect_json_field_colors(&v, &mut cache);
    assert_eq!(cache.len(), 3);
    assert_eq!(cache[0], ("a".to_string(), Color::Red));
    assert_eq!(cache[1], ("b".to_string(), App::color_for_json_field_name("b")));
    assert_eq!(cache[2], ("c".to_string(), App::color_for_json_field_name("c")));
    collect_json_field_colors(&v, &mut cache);
    assert_eq!(cache.len(), 3);
}

#[test]
fn event_colors() {
    let a = app_with("", None);
    assert_eq!(a.event_color('B'), Color::LightGreen);
    assert_eq!(a.event_color('I'), Color::Rgb(0, 255, 255));
    assert_eq!(a.event_color('z'), Color::Gray);
}
