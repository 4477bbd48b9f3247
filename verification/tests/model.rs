use chart_server::app::App;
use chart_server::model::{
    Color, Context, DatasetInfo, LogBuffer, LogEntry, Sample, ScaleMode, SeriesKey, ValueConfig,
    ValueMode,
};

fn json_of(raw: &str) -> Option<chart_server::model::JsonValue> {
    chart_server::protocol::event_meta(raw.to_string()).parsed_json
}

fn s(x: i64) -> Sample {
    Sample { x_us: x, num: x as u64, den: 1 }
}

#[test]
fn series_names() {
    assert_eq!(SeriesKey::Numeric(7).display_name(), "ds7");
    assert_eq!(SeriesKey::Event('B').display_name(), "event:B");
    assert!(SeriesKey::Event('B').is_event());
    assert!(!SeriesKey::Numeric(0).is_event());
}

#[test]
fn a_dataset_keeps_its_newest_two_hundred_samples() {
    let mut d = DatasetInfo::new();
    assert_eq!(d.max, 200);
    for i in 0..250 {
        d.add(s(i));
        assert!(d.points.len() <= 200);
        assert_eq!(d.points.back().unwrap().x_us, i);
    }
    assert_eq!(d.points.len(), 200);
    assert_eq!(d.points.front().unwrap().x_us, 50);
}

#[test]
fn a_log_keeps_its_newest_hundred_entries() {
    let mut b = LogBuffer::new();
    for i in 0..130 {
        b.add(LogEntry { ts: i, text: format!("{i}"), event: None });
    }
    assert_eq!(b.msgs.len(), 100);
    assert_eq!(b.msgs.front().unwrap().ts, 30);
    assert_eq!(b.msgs.back().unwrap().text, "129");
}

#[test]
fn modes_cycle() {
    assert_eq!(ValueMode::Ratio.next(), ValueMode::Numerator);
    assert_eq!(ValueMode::Numerator.next(), ValueMode::NumeratorPerConst);
    assert_eq!(ValueMode::NumeratorPerConst.next(), ValueMode::Ratio);
    assert_eq!(ValueMode::Ratio.name(), "num/den");
    assert_eq!(ValueMode::NumeratorPerConst.name(), "num/const");
    assert_eq!(ScaleMode::Linear.toggle(), ScaleMode::Log10);
    assert_eq!(ScaleMode::Log10.toggle(), ScaleMode::Linear);
    assert_eq!(ScaleMode::Log10.name(), "log10");
}

#[test]
fn value_fractions_and_labels() {
    let cfg = ValueConfig::default();
    assert_eq!(cfg.mode, ValueMode::Ratio);
    assert_eq!(cfg.const_den, 1_000_000);
    let sample = Sample { x_us: 0, num: 3, den: 4 };
    assert_eq!(cfg.value_ratio(&sample), Some((3, 4)));
    assert_eq!(cfg.value_ratio(&Sample { x_us: 0, num: 3, den: 0 }), None);
    assert_eq!(cfg.label(), "num/den");
    let num = ValueConfig { mode: ValueMode::Numerator, const_den: 0 };
    assert_eq!(num.value_ratio(&sample), Some((3, 1)));
    assert_eq!(num.label(), "num");
    let per = ValueConfig { mode: ValueMode::NumeratorPerConst, const_den: 1000 };
    assert_eq!(per.value_ratio(&sample), Some((3, 1000)));
    assert_eq!(per.label(), "num/1000");
    let zero = ValueConfig { mode: ValueMode::NumeratorPerConst, const_den: 0 };
    assert_eq!(zero.value_ratio(&sample), None);
}

#[test]
fn context_ages() {
    let c = Context::new_at("x".to_string(), 0);
    assert_eq!(c.age_string_at(59_999_999), "59s");
    assert_eq!(c.age_string_at(60_000_000), "1m 0s");
    assert_eq!(c.age_string_at(3_599_000_000), "59m 59s");
    assert_eq!(c.age_string_at(3_600_000_000), "1h 0m");
    assert_eq!(c.age_string_at(86_399_000_000), "23h 59m");
    assert_eq!(c.age_string_at(86_400_000_000 * 3), "3d");
    assert_eq!(c.age_string_at(-1_500_000), "-1s");
    let now = Context::new("y".to_string());
    assert!(now.created_at > 1_600_000_000_000_000);
    assert!(now.age_string().ends_with('s'));
}

#[test]
fn field_colors_come_from_the_name() {
    let palette = [
        Color::Cyan,
        Color::Yellow,
        Color::Green,
        Color::Magenta,
        Color::LightBlue,
        Color::LightCyan,
        Color::LightGreen,
        Color::LightMagenta,
        Color::LightYellow,
        Color::Blue,
    ];
    for name in ["", "abc", "price", "é", "side"] {
        let mut h: u64 = 1469598103934665603;
        for b in name.as_bytes() {
            h ^= *b as u64;
            h = h.wrapping_mul(1099511628211);
        }
        assert_eq!(App::color_for_json_field_name(name), palette[(h as usize) % 10]);
    }
    assert_eq!(App::color_for_json_field_name(""), Color::Magenta);
    assert!(json_of("1").is_some());
}

#[test]
fn clock_readings_in_microseconds() {
    assert_eq!(chart_server::model::signed_micros(true, 2, 7), Some(2_000_007));
    assert_eq!(chart_server::model::signed_micros(false, 2, 7), Some(-2_000_007));
    assert_eq!(chart_server::model::signed_micros(false, 9_223_372_036_854, 775_808), Some(i64::MIN));
    assert_eq!(chart_server::model::signed_micros(true, 9_223_372_036_854, 775_808), None);
    assert_eq!(chart_server::model::signed_micros(false, u64::MAX, 999_999), None);
    let c = Context::new("now".to_string());
    assert!(c.created_at > 0);
}
