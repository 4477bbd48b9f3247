use chart_server::text::{
    parse_i64, parse_u64, parse_usize, push_i64, push_u64, split_list, split_whitespace,
    take_str, trim_str,
};

fn u64_text(n: u64) -> String {
    let mut s = String::new();
    push_u64(&mut s, n);
    s
}

fn i64_text(n: i64) -> String {
    let mut s = "x".to_string();
    push_i64(&mut s, n);
    s.split_off(1)
}

#[test]
fn decimal_round_trips() {
    for n in [0u64, 1, 9, 10, 99, 100, 12345, u64::MAX] {
        assert_eq!(u64_text(n), n.to_string());
        assert_eq!(parse_u64(&u64_text(n)), Some(n));
    }
    for n in [0i64, -1, 7, -10, i64::MIN, i64::MAX] {
        assert_eq!(i64_text(n), n.to_string());
        assert_eq!(parse_i64(&i64_text(n)), Some(n));
    }
}

#[test]
fn integer_parsing_matches_std() {
    let cases = [
        "", "+", "-", "0", "+0", "-0", "007", "12a", " 1", "1 ", "18446744073709551615",
        "18446744073709551616", "9223372036854775807", "9223372036854775808",
        "-9223372036854775808", "-9223372036854775809", "٣", "++1", "+-1",
    ];
    for c in cases {
        assert_eq!(parse_u64(c), c.parse::<u64>().ok(), "u64 {c:?}");
        assert_eq!(parse_i64(c), c.parse::<i64>().ok(), "i64 {c:?}");
        assert_eq!(parse_usize(c), c.parse::<usize>().ok(), "usize {c:?}");
    }
}

#[test]
fn trimming_and_splitting_match_std() {
    let cases = ["", "  ", " a b ", "\u{3000}x\u{85}y\t", "a\u{a0}\u{2009}b", "x;;y; ;z "];
    for c in cases {
        assert_eq!(trim_str(c), c.trim());
        let ws: Vec<String> = c.split_whitespace().map(str::to_string).collect();
        assert_eq!(split_whitespace(c), ws);
        let items: Vec<String> = c
            .split(';')
            .map(str::trim)
            .filter(|s| !s.is_empty())
            .map(str::to_string)
            .collect();
        assert_eq!(split_list(c), items);
    }
}

#[test]
fn taking_characters() {
    assert_eq!(take_str("abcdef", 3), "abc");
    assert_eq!(take_str("ab", 3), "ab");
    assert_eq!(take_str("ééé", 2), "éé");
}
