use chart_server::app::{ingest_log_prefix, App, KeyCode, KeyPress};
use chart_server::command::{resolve_arg_inputs, CommandConfig, CommandSpec};
use chart_server::model::{Color, Sample, SeriesKey};
use chart_server::protocol::{parse_line, IngestConfig};
use chart_server::sender::history_display;

fn app(tcp: Option<&str>) -> App {
    let ingest = IngestConfig::from_values(None, None);
    let cmd = CommandConfig::from_values(
        tcp.map(str::to_string),
        vec![
            CommandSpec::from_raw("buy".to_string(), "qty:int=1;note:string=hi"),
            CommandSpec::from_raw("ping".to_string(), ""),
        ],
    );
    App::new(ingest, cmd)
}

fn press(a: &mut App, code: KeyCode) {
    a.handle_key(KeyPress { code, ctrl: false });
}

#[test]
fn the_time_range_of_the_active_context() {
    let mut a = app(None);
    assert_eq!(a.x_range(), None);
    for line in ["default 0 50 1 1", "default 1 -20 1 1", "default 0 70 1 1", "other 0 900 1 1"] {
        let r = parse_line(line).unwrap();
        a.on_ingest(r, Color::Blue, String::new(), 0);
    }
    assert_eq!(a.x_range(), Some((-20, 70)));
}

#[test]
fn the_options_pane() {
    let a = app(None);
    let lines = a.option_lines();
    assert_eq!(lines.len(), 14);
    assert_eq!(lines[0], "[g] scale   : linear");
    assert_eq!(lines[4], "[m] mode    : num/den");
    assert_eq!(lines[5], "[+] const   : 1000000");
    assert_eq!(lines[7], "[[] logs-   : 10");
    assert_eq!(lines[11], "[F] follow  : on");
    assert_eq!(lines[13], "[n] new ctx");
    let b = app(Some("127.0.0.1:5000"));
    let lines = b.option_lines();
    assert_eq!(lines.len(), 15);
    assert_eq!(lines[14], "[:] commands");
}

#[test]
fn the_palette_as_shown() {
    let mut a = app(Some("127.0.0.1:5000"));
    press(&mut a, KeyCode::Char(':'));
    press(&mut a, KeyCode::Tab);
    press(&mut a, KeyCode::Char('7'));
    let v = a.palette_view();
    assert_eq!(v.commands, vec![("buy".to_string(), true), ("ping".to_string(), false)]);
    assert!(!v.custom_selected);
    let rows = v.args.unwrap();
    assert_eq!(rows.len(), 2);
    assert_eq!((rows[0].name.as_str(), rows[0].type_label), ("qty", "int"));
    assert_eq!(rows[0].value, "1");
    assert!(!rows[0].focused);
    assert_eq!((rows[1].name.as_str(), rows[1].type_label), ("note", "string"));
    assert_eq!(rows[1].value, "hi7");
    assert!(rows[1].focused);

    press(&mut a, KeyCode::Char('i'));
    press(&mut a, KeyCode::Char('z'));
    let v = a.palette_view();
    assert!(v.custom_selected);
    assert_eq!(v.custom_input, "z");
    assert!(v.args.is_none());
    assert_eq!(v.commands, vec![("buy".to_string(), false), ("ping".to_string(), false)]);
}

#[test]
fn ingest_log_lines_start_with_the_sample() {
    let s = Sample { x_us: -5, num: 12, den: 0 };
    assert_eq!(ingest_log_prefix(SeriesKey::Numeric(3), &s), "ds3 -> x=-5 num=12 den=0");
    assert_eq!(ingest_log_prefix(SeriesKey::Event('!'), &s), "event:! -> x=-5 num=12 den=0");
}

#[test]
fn arguments_fall_back_to_their_defaults() {
    let spec = CommandSpec::from_raw("buy".to_string(), "qty:int=1;note:string=hi;px:float=2.5");
    let typed = vec!["4".to_string()];
    assert_eq!(resolve_arg_inputs(&spec, &typed), vec!["4", "hi", "2.5"]);
    let many = vec!["a".to_string(), "b".to_string(), "c".to_string(), "d".to_string()];
    assert_eq!(resolve_arg_inputs(&spec, &many), vec!["a", "b", "c"]);
}

#[test]
fn long_history_entries_are_cut() {
    assert_eq!(history_display("cpu 0 now 1 1"), "cpu 0 now 1 1");
    let ninety = "x".repeat(90);
    assert_eq!(history_display(&ninety), ninety);
    let long = "y".repeat(91);
    assert_eq!(history_display(&long), format!("{}...", "y".repeat(87)));
}
