//! The point sender's checks and rewriting of what the user types:
//! `context series_key x_us num den [event_payload...]`, where `x_us` may be
//! `now`.
use vstd::prelude::*;
use vstd::string::{StrSliceExecFns, StringSliceAdditionalSpecFns};
use vstd::utf8::{encode_utf8, is_char_boundary};

use crate::model::{clock_reading, lit, signed_micros};
use crate::protocol::{series_key_spec, MAX_CONTEXT_CHARS};
use crate::model::Sample;
use crate::protocol::line_fields;
use crate::text::{
    decimal, decimal_int, is_word, join, join_spaces_from, lemma_decimal_int_word,
    lemma_i64_round_trip, lemma_join_flatten, lemma_trim_word,
    lemma_words_are_words, lemma_words_join, parse_i64, parse_i64_spec, parse_u64,
    parse_u64_spec, parse_usize_spec, push_i64, push_str, push_u64, split_whitespace, string_push,
    take_chars, views, words,
};
use crate::protocol::parse_series_key;
use crate::json::str_eq;

verus! {

/// Why a typed line is not a point.
#[derive(Clone, Copy, Debug, PartialEq, Eq, Structural)]
pub enum InputError {
    /// Fewer than five values; the number given.
    TooFewValues(usize),
    EmptyContext,
    ContextTooLong,
    BadSeriesKey,
    BadTimestamp,
    BadNumerator,
    BadDenominator,
}

/// A dataset index, or exactly one character.
pub open spec fn valid_series_key(s: Seq<char>) -> bool {
    parse_usize_spec(s) is Some || s.len() == 1
}

/// The first thing wrong with a typed line, if anything is. The context's
/// length is counted in characters.
pub open spec fn input_problem_spec(input: Seq<char>) -> Option<InputError> {
    let p = words(input);
    if p.len() < 5 {
        Some(InputError::TooFewValues(p.len() as usize))
    } else if p[0].len() == 0 {
        Some(InputError::EmptyContext)
    } else if p[0].len() > MAX_CONTEXT_CHARS {
        Some(InputError::ContextTooLong)
    } else if !valid_series_key(p[1]) {
        Some(InputError::BadSeriesKey)
    } else if p[2] != "now"@ && parse_i64_spec(p[2]) is None {
        Some(InputError::BadTimestamp)
    } else if parse_u64_spec(p[3]) is None {
        Some(InputError::BadNumerator)
    } else if parse_u64_spec(p[4]) is None {
        Some(InputError::BadDenominator)
    } else {
        None
    }
}

/// Whether `raw` names a series: a dataset index or one character.
pub fn is_valid_series_key(raw: &str) -> (b: bool)
    ensures
        b == valid_series_key(raw@),
{
    parse_series_key(raw).is_some()
}

/// The first thing wrong with a typed line, if anything is.
pub fn input_problem(input: &str) -> (r: Option<InputError>)
    ensures
        r == input_problem_spec(input@),
{
    let parts = split_whitespace(input);
    let ghost p = views(parts@);
    let n = parts.len();
    if n < 5 {
        return Some(InputError::TooFewValues(n));
    }
    assert(p[0] == parts@[0]@ && p[1] == parts@[1]@ && p[2] == parts@[2]@);
    assert(p[3] == parts@[3]@ && p[4] == parts@[4]@);
    let ctx = parts[0].as_str();
    if ctx.is_empty() {
        return Some(InputError::EmptyContext);
    }
    if ctx.unicode_len() > 50 {
        return Some(InputError::ContextTooLong);
    }
    if !is_valid_series_key(parts[1].as_str()) {
        return Some(InputError::BadSeriesKey);
    }
    if !str_eq(parts[2].as_str(), "now") && parse_i64(parts[2].as_str()).is_none() {
        return Some(InputError::BadTimestamp);
    }
    if parse_u64(parts[3].as_str()).is_none() {
        return Some(InputError::BadNumerator);
    }
    if parse_u64(parts[4].as_str()).is_none() {
        return Some(InputError::BadDenominator);
    }
    None
}

/// Whether a typed line is a point.
pub fn validate_input(input: &str) -> (b: bool)
    ensures
        b == (input_problem_spec(input@) is None),
{
    input_problem(input).is_none()
}

impl InputError {
    /// What to tell the user.
    pub fn message(&self) -> (s: String)
        ensures
            s@ == match *self {
                InputError::TooFewValues(n) => "❌ Expected at least 5 values, got "@ + decimal(
                    n as nat,
                ),
                InputError::EmptyContext => "❌ Context cannot be empty"@,
                InputError::ContextTooLong => "❌ Context name must be ≤ 50 chars"@,
                InputError::BadSeriesKey => "❌ series_key must be numeric dataset index or one character event key"@,
                InputError::BadTimestamp => "❌ x_us must be integer microseconds or 'now'"@,
                InputError::BadNumerator => "❌ num must be unsigned integer"@,
                InputError::BadDenominator => "❌ den must be unsigned integer"@,
            },
    {
        match self {
            InputError::TooFewValues(n) => {
                let mut s = lit("❌ Expected at least 5 values, got ");
                push_u64(&mut s, *n as u64);
                s
            },
            InputError::EmptyContext => lit("❌ Context cannot be empty"),
            InputError::ContextTooLong => lit("❌ Context name must be ≤ 50 chars"),
            InputError::BadSeriesKey => lit(
                "❌ series_key must be numeric dataset index or one character event key",
            ),
            InputError::BadTimestamp => lit("❌ x_us must be integer microseconds or 'now'"),
            InputError::BadNumerator => lit("❌ num must be unsigned integer"),
            InputError::BadDenominator => lit("❌ den must be unsigned integer"),
        }
    }
}

/// The line to send for a typed line, with `now` in place of a `now`
/// timestamp: the five values and the payload joined by single spaces.
pub open spec fn normalized(input: Seq<char>, now: i64) -> Seq<char> {
    let p = words(input);
    let x = if p[2] == "now"@ {
        decimal_int(now as int)
    } else {
        p[2]
    };
    let fields = seq![p[0], p[1], x, p[3], p[4]];
    join(
        if p.len() > 5 {
            fields.push(join(p.subrange(5, p.len() as int), seq![' ']))
        } else {
            fields
        },
        seq![' '],
    )
}

/// The central promise of the point sender: a line that it accepts,
/// rewritten for sending, is read by the chart as the values that were
/// typed. The context, the series, the time (the sending time where `now`
/// was typed), the numerator and the denominator come back as typed, and
/// the payload as its words joined by single spaces.
pub proof fn lemma_sent_point_read_back(input: Seq<char>, now: i64)
    requires
        input_problem_spec(input) is None,
    ensures
        ({
            let p = words(input);
            line_fields(normalized(input, now)) == Some(
                (
                    p[0],
                    series_key_spec(p[1]).unwrap(),
                    Sample {
                        x_us: if p[2] == "now"@ {
                            now
                        } else {
                            parse_i64_spec(p[2]).unwrap()
                        },
                        num: parse_u64_spec(p[3]).unwrap(),
                        den: parse_u64_spec(p[4]).unwrap(),
                    },
                    if p.len() > 5 {
                        Some(join(p.subrange(5, p.len() as int), seq![' ']))
                    } else {
                        None
                    },
                ),
            )
        }),
{
    let p = words(input);
    let sp = seq![' '];
    lemma_words_are_words(input);
    lemma_decimal_int_word(now as int);
    let x = if p[2] == "now"@ {
        decimal_int(now as int)
    } else {
        p[2]
    };
    let fields = seq![p[0], p[1], x, p[3], p[4]];
    assert(is_word(p[0]) && is_word(p[1]) && is_word(p[2]) && is_word(p[3]) && is_word(p[4]));
    assert forall|i: int| 0 <= i < fields.len() implies is_word(#[trigger] fields[i]) by {}
    let q = if p.len() > 5 {
        fields + p.subrange(5, p.len() as int)
    } else {
        fields
    };
    assert forall|i: int| 0 <= i < q.len() implies is_word(#[trigger] q[i]) by {
        if i >= 5 {
            assert(q[i] == p[i]);
        }
    }
    if p.len() > 5 {
        lemma_join_flatten(fields, p.subrange(5, p.len() as int), sp);
    }
    assert(normalized(input, now) == join(q, sp));
    lemma_words_join(q);
    let w = words(normalized(input, now));
    assert(w == q);
    assert(w[0] == p[0] && w[1] == p[1] && w[2] == x && w[3] == p[3] && w[4] == p[4]);
    lemma_trim_word(p[0]);
    lemma_trim_word(p[1]);
    lemma_trim_word(x);
    lemma_trim_word(p[3]);
    lemma_trim_word(p[4]);
    assert(take_chars(p[0], MAX_CONTEXT_CHARS as nat) == p[0]);
    if p[2] == "now"@ {
        lemma_i64_round_trip(now);
    }
    if p.len() > 5 {
        assert(w.subrange(5, w.len() as int) =~= p.subrange(5, p.len() as int));
    }
}

pub const TOO_FEW_FIELDS: &'static str = "expected at least 5 whitespace-separated fields";

/// Rewrites a typed line for sending, with `now` microseconds for `now`.
pub fn normalize_input_at(input: &str, now: i64) -> (r: Result<String, String>)
    ensures
        match r {
            Ok(s) => words(input@).len() >= 5 && s@ == normalized(input@, now),
            Err(e) => words(input@).len() < 5 && e@ == TOO_FEW_FIELDS@,
        },
{
    let parts = split_whitespace(input);
    let ghost p = views(parts@);
    if parts.len() < 5 {
        return Err(lit(TOO_FEW_FIELDS));
    }
    assert(p[0] == parts@[0]@ && p[1] == parts@[1]@ && p[2] == parts@[2]@);
    assert(p[3] == parts@[3]@ && p[4] == parts@[4]@);
    let is_now = str_eq(parts[2].as_str(), "now");
    let mut out = String::new();
    push_str(&mut out, parts[0].as_str());
    string_push(&mut out, ' ');
    push_str(&mut out, parts[1].as_str());
    string_push(&mut out, ' ');
    let ghost x: Seq<char>;
    if is_now {
        push_i64(&mut out, now);
        proof {
            x = decimal_int(now as int);
        }
    } else {
        push_str(&mut out, parts[2].as_str());
        proof {
            x = p[2];
        }
    }
    string_push(&mut out, ' ');
    push_str(&mut out, parts[3].as_str());
    string_push(&mut out, ' ');
    push_str(&mut out, parts[4].as_str());
    let ghost fields = seq![p[0], p[1], x, p[3], p[4]];
    proof {
        lemma_join5(fields);
    }
    if parts.len() > 5 {
        let payload = join_spaces_from(&parts, 5);
        string_push(&mut out, ' ');
        push_str(&mut out, payload.as_str());
        proof {
            let all = fields.push(payload@);
            assert(all.drop_last() =~= fields);
            assert(out@ =~= join(fields, seq![' ']) + seq![' '] + payload@);
        }
    } else {
        assert(out@ =~= join(fields, seq![' ']));
    }
    Ok(out)
}

proof fn lemma_join5(f: Seq<Seq<char>>)
    requires
        f.len() == 5,
    ensures
        join(f, seq![' ']) == f[0] + seq![' '] + f[1] + seq![' '] + f[2] + seq![' '] + f[3] + seq![
            ' ',
        ] + f[4],
{
    let sp = seq![' '];
    assert(f.take(1) =~= seq![f[0]]);
    assert(join(f.take(1), sp) == f[0]);
    assert(f.take(2).drop_last() =~= f.take(1));
    assert(join(f.take(2), sp) == f[0] + sp + f[1]);
    assert(f.take(3).drop_last() =~= f.take(2));
    assert(join(f.take(3), sp) == f[0] + sp + f[1] + sp + f[2]);
    assert(f.take(4).drop_last() =~= f.take(3));
    assert(join(f.take(4), sp) == f[0] + sp + f[1] + sp + f[2] + sp + f[3]);
    assert(f.drop_last() =~= f.take(4));
    assert(f.take(5) =~= f);
}

/// The microseconds since the epoch of a clock reading: `None` where the
/// clock is before the epoch, or so far after it that they do not fit in an
/// `i64`.
pub fn micros_of(after_epoch: bool, secs: u64, sub: u32) -> (r: Option<i64>)
    ensures
        match r {
            Some(m) => after_epoch && m == secs * 1_000_000 + sub,
            None => !after_epoch || secs * 1_000_000 + sub > i64::MAX,
        },
{
    if !after_epoch {
        return None;
    }
    signed_micros(true, secs, sub)
}

/// The current time in microseconds since the UNIX epoch, read from the
/// clock and turned into microseconds by `micros_of`; `None` where the clock
/// is before the epoch or too far after it.
pub fn now_micros() -> (r: Option<i64>)
    ensures
        r matches Some(m) ==> m >= 0,
{
    let (after_epoch, secs, sub) = clock_reading();
    micros_of(after_epoch, secs, sub)
}

/// Rewrites a typed line for sending, with the current time for `now`.
pub fn normalize_input(input: &str) -> (r: Result<String, String>)
    ensures
        match r {
            Ok(s) => words(input@).len() >= 5 && exists|now: i64| s@ == normalized(input@, now),
            Err(e) => words(input@).len() < 5 && e@ == TOO_FEW_FIELDS@ || words(input@).len()
                >= 5 && words(input@)[2] == "now"@ && e@ == CLOCK_UNAVAILABLE@,
        },
{
    let parts = split_whitespace(input);
    if parts.len() >= 5 && str_eq(parts[2].as_str(), "now") {
        assert(views(parts@)[2] == parts@[2]@);
        match now_micros() {
            Some(now) => normalize_input_at(input, now),
            None => Err(lit(CLOCK_UNAVAILABLE)),
        }
    } else {
        normalize_input_at(input, 0)
    }
}

pub const CLOCK_UNAVAILABLE: &'static str = "system clock before UNIX_EPOCH";

/// A one-line account of a point: its context, key, values and payload.
pub open spec fn summary_spec(input: Seq<char>) -> Option<Seq<char>> {
    let p = words(input);
    if p.len() < 5 {
        None
    } else {
        match (parse_i64_spec(p[2]), parse_u64_spec(p[3]), parse_u64_spec(p[4])) {
            (Some(x), Some(n), Some(d)) => {
                let base = "["@ + p[0] + "] key "@ + p[1] + ": x_us="@ + decimal_int(x as int)
                    + " num="@ + decimal(n as nat) + " den="@ + decimal(d as nat);
                Some(
                    if p.len() > 5 {
                        base + " payload="@ + join(p.subrange(5, p.len() as int), seq![' '])
                    } else {
                        base
                    },
                )
            },
            _ => None,
        }
    }
}

/// Describes a point that was sent, or `None` where the line does not hold
/// one.
pub fn summarize_point(input: &str) -> (r: Option<String>)
    ensures
        match r {
            Some(s) => summary_spec(input@) == Some(s@),
            None => summary_spec(input@) is None,
        },
{
    let parts = split_whitespace(input);
    let ghost p = views(parts@);
    if parts.len() < 5 {
        return None;
    }
    assert(p[0] == parts@[0]@ && p[1] == parts@[1]@ && p[2] == parts@[2]@);
    assert(p[3] == parts@[3]@ && p[4] == parts@[4]@);
    let x = match parse_i64(parts[2].as_str()) {
        Some(v) => v,
        None => return None,
    };
    let num = match parse_u64(parts[3].as_str()) {
        Some(v) => v,
        None => return None,
    };
    let den = match parse_u64(parts[4].as_str()) {
        Some(v) => v,
        None => return None,
    };
    let mut s = lit("[");
    push_str(&mut s, parts[0].as_str());
    push_str(&mut s, "] key ");
    push_str(&mut s, parts[1].as_str());
    push_str(&mut s, ": x_us=");
    push_i64(&mut s, x);
    push_str(&mut s, " num=");
    push_u64(&mut s, num);
    push_str(&mut s, " den=");
    push_u64(&mut s, den);
    if parts.len() > 5 {
        let payload = join_spaces_from(&parts, 5);
        push_str(&mut s, " payload=");
        push_str(&mut s, payload.as_str());
    }
    Some(s)
}


/// The longest history entry shown whole, in bytes.
pub const HISTORY_WIDTH: usize = 90;

/// A history entry as listed: longer ones cut to their first 87 bytes and
/// `...`.
pub fn history_display(entry: &str) -> (r: String)
    requires
        encode_utf8(entry@).len() > 90 ==> is_char_boundary(encode_utf8(entry@), 87),
    ensures
        encode_utf8(entry@).len() > 90 ==> encode_utf8(r@) == encode_utf8(entry@).take(87)
            + encode_utf8("..."@),
        encode_utf8(entry@).len() <= 90 ==> r@ == entry@,
{
    if entry.as_bytes().len() > 90 {
        let (head, _) = entry.split_at(87);
        let mut s = head.to_owned();
        push_str(&mut s, "...");
        proof {
            crate::text::lemma_encode_utf8_concat(head@, "..."@);
        }
        s
    } else {
        entry.to_owned()
    }
}

} // verus!
