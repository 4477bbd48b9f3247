//! What the screen shows, computed apart from drawing it: elapsed times,
//! the centred popup box, the delta read back from a log line, horizontal
//! scrolling of text pieces, and the layout of JSON payloads.
use vstd::prelude::*;
use vstd::utf8::encode_utf8;

use vstd::string::StrSliceExecFns;

use crate::json::{assoc_first, find_key, lemma_assoc_first_at, lemma_assoc_first_none};
use crate::model::{
    clock_time, lit, utc_text_or_empty, whole_seconds, Color, Context, FieldStateEntry, JsonKind,
    JsonValue, CLOCK_PATTERN,
};
use crate::text::{
    decimal, decimal_int, push_i64, push_str, push_u64, slice_eq, string_of, string_push,
    to_chars, words, split_ws_chars, char_views,
};

verus! {

/// `<s>s` under a minute, `<m>m<s>s` under an hour, `<h>h<m>m` beyond.
pub open spec fn elapsed_text(t: int) -> Seq<char> {
    if t < 60 {
        decimal_int(t) + seq!['s']
    } else if t < 3600 {
        decimal((t / 60) as nat) + seq!['m'] + decimal((t % 60) as nat) + seq!['s']
    } else {
        decimal((t / 3600) as nat) + seq!['h'] + decimal(((t % 3600) / 60) as nat) + seq!['m']
    }
}

/// A compact elapsed time of `total_seconds`.
pub fn format_elapsed(total_seconds: i64) -> (s: String)
    ensures
        s@ == elapsed_text(total_seconds as int),
{
    let t = total_seconds;
    let mut s = String::new();
    if t < 60 {
        push_i64(&mut s, t);
        string_push(&mut s, 's');
    } else if t < 3600 {
        push_u64(&mut s, (t / 60) as u64);
        string_push(&mut s, 'm');
        push_u64(&mut s, (t % 60) as u64);
        string_push(&mut s, 's');
    } else {
        push_u64(&mut s, (t / 3600) as u64);
        string_push(&mut s, 'h');
        push_u64(&mut s, ((t % 3600) / 60) as u64);
        string_push(&mut s, 'm');
    }
    assert(s@ =~= elapsed_text(t as int));
    s
}

/// A rectangle of terminal cells.
#[derive(Clone, Copy, Debug, PartialEq, Eq, Structural)]
pub struct Area {
    pub x: u16,
    pub y: u16,
    pub width: u16,
    pub height: u16,
}

/// A box of at most `width` by `height` cells, centred in `area`.
pub fn centered_box(area: Area, width: u16, height: u16) -> (r: Area)
    requires
        area.x + (area.width - (if width < area.width {
            width
        } else {
            area.width
        })) / 2 <= u16::MAX,
        area.y + (area.height - (if height < area.height {
            height
        } else {
            area.height
        })) / 2 <= u16::MAX,
    ensures
        r.width == if width < area.width {
            width
        } else {
            area.width
        },
        r.height == if height < area.height {
            height
        } else {
            area.height
        },
        r.x == area.x + (area.width - r.width) / 2,
        r.y == area.y + (area.height - r.height) / 2,
{
    let w = if width < area.width {
        width
    } else {
        area.width
    };
    let h = if height < area.height {
        height
    } else {
        area.height
    };
    let x = area.x + (area.width.saturating_sub(w)) / 2;
    let y = area.y + (area.height.saturating_sub(h)) / 2;
    Area { x, y, width: w, height: h }
}

/// Whether `pat` occurs in `s` at `i`.
pub open spec fn occurs_at(s: Seq<char>, pat: Seq<char>, i: int) -> bool {
    0 <= i && i + pat.len() <= s.len() && s.subrange(i, i + pat.len()) == pat
}

/// Where `pat` first occurs in `s`.
pub open spec fn first_match(s: Seq<char>, pat: Seq<char>) -> Option<int> {
    if exists|i: int| occurs_at(s, pat, i) {
        Some(
            choose|i: int|
                occurs_at(s, pat, i) && forall|k: int| 0 <= k < i ==> !#[trigger] occurs_at(s, pat, k),
        )
    } else {
        None
    }
}

/// The number that follows `delta=` in a log line, as text: the first word
/// after it, without one trailing `%`.
pub open spec fn delta_token_spec(text: Seq<char>) -> Option<Seq<char>> {
    match first_match(text, "delta="@) {
        Some(i) => {
            let ws = words(text.skip(i + 6));
            if ws.len() == 0 {
                None
            } else {
                let t = ws[0];
                Some(
                    if t.len() > 0 && t.last() == '%' {
                        t.drop_last()
                    } else {
                        t
                    },
                )
            }
        },
        None => None,
    }
}

proof fn lemma_first_match_at(s: Seq<char>, pat: Seq<char>, i: int)
    requires
        occurs_at(s, pat, i),
        forall|k: int| 0 <= k < i ==> !#[trigger] occurs_at(s, pat, k),
    ensures
        first_match(s, pat) == Some(i),
{
    let j = choose|j: int|
        occurs_at(s, pat, j) && forall|k: int| 0 <= k < j ==> !#[trigger] occurs_at(s, pat, k);
    if j < i {
        assert(!occurs_at(s, pat, j));
    } else if i < j {
        assert(!occurs_at(s, pat, i));
    }
}

proof fn lemma_first_match_none(s: Seq<char>, pat: Seq<char>)
    requires
        forall|k: int| !#[trigger] occurs_at(s, pat, k),
    ensures
        first_match(s, pat) is None,
{
}

/// Where `pat` first occurs in `v`.
pub fn find_sub(v: &Vec<char>, pat: &Vec<char>) -> (r: Option<usize>)
    ensures
        match r {
            Some(i) => first_match(v@, pat@) == Some(i as int) && i + pat@.len() <= v@.len(),
            None => first_match(v@, pat@) is None,
        },
{
    let n = pat.len();
    if n > v.len() {
        proof {
            lemma_first_match_none(v@, pat@);
        }
        return None;
    }
    if n == 0 {
        proof {
            assert(v@.subrange(0, 0) =~= pat@);
            lemma_first_match_at(v@, pat@, 0);
        }
        return Some(0);
    }
    let mut i: usize = 0;
    let mut found = false;
    while !found && i <= v.len() - n
        invariant
            n == pat@.len(),
            1 <= n <= v@.len(),
            i <= v@.len(),
            forall|k: int| 0 <= k < i ==> !#[trigger] occurs_at(v@, pat@, k),
            found ==> occurs_at(v@, pat@, i as int),
            !found ==> i <= v@.len() - n + 1,
        decreases v@.len() - i, (if found {
            0int
        } else {
            1int
        }),
    {
        if slice_eq(v, i, i + n, pat) {
            found = true;
        } else {
            assert(!occurs_at(v@, pat@, i as int));
            i += 1;
        }
    }
    if !found {
        proof {
            assert forall|k: int| !#[trigger] occurs_at(v@, pat@, k) by {
                if 0 <= k < i {
                } else if k >= i {
                    assert(k + n > v@.len());
                }
            }
            lemma_first_match_none(v@, pat@);
        }
        return None;
    }
    proof {
        lemma_first_match_at(v@, pat@, i as int);
    }
    Some(i)
}

/// The text of the delta in a log line, for the caller to read as a number.
pub fn delta_token(text: &str) -> (r: Option<String>)
    ensures
        match r {
            Some(t) => delta_token_spec(text@) == Some(t@),
            None => delta_token_spec(text@) is None,
        },
{
    let v = to_chars(text);
    let needle = to_chars("delta=");
    proof {
        reveal_strlit("delta=");
    }
    assert(needle@.len() == 6);
    let vl = v.len();
    let i = match find_sub(&v, &needle) {
        Some(i) => i,
        None => return None,
    };
    assert(i + 6 <= vl);
    let rest: Vec<char> = tail_vec(&v, i + 6);
    let ws = split_ws_chars(&rest);
    assert(char_views(ws@).len() == ws@.len());
    if ws.len() == 0 {
        return None;
    }
    let t = &ws[0];
    assert(char_views(ws@)[0] == t@);
    if t.len() > 0 && t[t.len() - 1] == '%' {
        Some(string_of(t, 0, t.len() - 1))
    } else {
        assert(t@.subrange(0, t@.len() as int) =~= t@);
        Some(string_of(t, 0, t.len()))
    }
}

/// The characters `v[from..]`.
fn tail_vec(v: &Vec<char>, from: usize) -> (r: Vec<char>)
    requires
        from <= v@.len(),
    ensures
        r@ == v@.skip(from as int),
{
    let mut r: Vec<char> = Vec::new();
    let mut i = from;
    while i < v.len()
        invariant
            from <= i <= v@.len(),
            r@ == v@.subrange(from as int, i as int),
        decreases v@.len() - i,
    {
        r.push(v[i]);
        assert(v@.subrange(from as int, i + 1) =~= v@.subrange(from as int, i as int).push(v@[i as int]));
        i += 1;
    }
    r
}


/// Skipping `skip` characters across text pieces, as a left fold: the
/// characters still to skip, and the pieces kept, each with its position
/// and what is left of it. A piece shorter than what is still to skip is
/// dropped, and so is an empty piece.
pub open spec fn slice_state(texts: Seq<Seq<char>>, skip: nat) -> (nat, Seq<(int, Seq<char>)>)
    decreases texts.len(),
{
    if texts.len() == 0 {
        (skip, seq![])
    } else {
        let (rem, out) = slice_state(texts.drop_last(), skip);
        let t = texts.last();
        if rem >= t.len() {
            ((rem - t.len()) as nat, out)
        } else {
            (0, out.push((texts.len() - 1, t.skip(rem as int))))
        }
    }
}

/// The pieces that remain after scrolling `skip` characters to the right:
/// all of them unchanged where `skip` is 0.
pub open spec fn sliced_pieces(texts: Seq<Seq<char>>, skip: nat) -> Seq<(int, Seq<char>)> {
    if skip == 0 {
        Seq::new(texts.len(), |i: int| (i, texts[i]))
    } else {
        slice_state(texts, skip).1
    }
}

pub open spec fn piece_views(v: Seq<(usize, String)>) -> Seq<(int, Seq<char>)> {
    v.map_values(|p: (usize, String)| (p.0 as int, p.1@))
}

/// Scrolls a row of text pieces `skip` characters to the right: each kept
/// piece comes with its position, so that its style can go with it.
pub fn slice_spans_by_chars(texts: &Vec<String>, skip_chars: usize) -> (r: Vec<(usize, String)>)
    ensures
        piece_views(r@) == sliced_pieces(views_of(texts@), skip_chars as nat),
{
    let ghost ts = views_of(texts@);
    let mut out: Vec<(usize, String)> = Vec::new();
    if skip_chars == 0 {
        let mut i: usize = 0;
        while i < texts.len()
            invariant
                i <= texts@.len(),
                ts == views_of(texts@),
                piece_views(out@) =~= Seq::new(i as nat, |k: int| (k, ts[k])),
            decreases texts@.len() - i,
        {
            let t = texts[i].clone();
            assert(t@ == ts[i as int]);
            let ghost before = out@;
            out.push((i, t));
            assert(piece_views(out@) =~= piece_views(before).push((i as int, t@)));
            i += 1;
        }
        return out;
    }
    let mut remaining = skip_chars;
    let mut i: usize = 0;
    while i < texts.len()
        invariant
            i <= texts@.len(),
            ts == views_of(texts@),
            (remaining as nat, piece_views(out@)) == slice_state(ts.take(i as int), skip_chars as nat),
        decreases texts@.len() - i,
    {
        assert(ts.take(i + 1).drop_last() =~= ts.take(i as int));
        assert(ts.take(i + 1).last() == texts@[i as int]@);
        let v = to_chars(texts[i].as_str());
        let len = v.len();
        if remaining >= len {
            remaining -= len;
        } else {
            let piece = string_of(&v, remaining, len);
            assert(piece@ =~= v@.skip(remaining as int));
            let ghost before = out@;
            out.push((i, piece));
            assert(piece_views(out@) =~= piece_views(before).push((i as int, piece@)));
            remaining = 0;
        }
        i += 1;
    }
    assert(ts.take(texts@.len() as int) =~= ts);
    out
}

/// The views of a vector of strings.
pub open spec fn views_of(v: Seq<String>) -> Seq<Seq<char>> {
    v.map_values(|x: String| x@)
}

// ---------------------------------------------------------------- JSON layout

/// How Rust's `Debug` writes a string: quoted and escaped.
pub uninterp spec fn debug_str(s: Seq<char>) -> Seq<char>;

/// `format!("{s:?}")`: the string quoted and escaped as `Debug` writes it.
/// The result is named `debug_str` of the text and nothing more is claimed.
#[verifier::external_body]
fn debug_quoted(s: &str) -> (r: String)
    ensures
        r@ == debug_str(s@),
{
    format!("{s:?}")
}

/// The text that a JSON value shows as in the log: a string quoted as
/// `Debug` writes it, any other value as its compact JSON.
pub open spec fn shown_text(v: JsonValue) -> Seq<char> {
    match v.kind {
        JsonKind::Str(s) => debug_str(s@),
        _ => match v.text {
            Some(t) => t@,
            None => "<invalid-json>"@,
        },
    }
}

pub fn shown_json_scalar(v: &JsonValue) -> (s: String)
    ensures
        s@ == shown_text(*v),
{
    match &v.kind {
        JsonKind::Str(s) => debug_quoted(s.as_str()),
        _ => match &v.text {
            Some(t) => t.clone(),
            None => lit("<invalid-json>"),
        },
    }
}

/// What starts a line of a laid-out JSON value: an object key, an array
/// index, or nothing.
#[derive(Debug)]
pub enum JsonLabel {
    Key(String),
    Index(usize),
    Bare,
}

/// One line of a laid-out JSON value: its indentation, its label, and the
/// value's text where the value is shown on the line itself.
#[derive(Debug)]
pub struct JsonLine {
    pub indent: usize,
    pub label: JsonLabel,
    pub value: Option<String>,
}

/// A label as plain values: 0 with the key, 1 with the index, or 2.
pub open spec fn label_view(l: JsonLabel) -> (int, Seq<char>, int) {
    match l {
        JsonLabel::Key(k) => (0, k@, 0),
        JsonLabel::Index(i) => (1, seq![], i as int),
        JsonLabel::Bare => (2, seq![], 0),
    }
}

pub open spec fn line_view(l: JsonLine) -> (int, (int, Seq<char>, int), Option<Seq<char>>) {
    (
        l.indent as int,
        label_view(l.label),
        match l.value {
            Some(v) => Some(v@),
            None => None,
        },
    )
}

pub open spec fn line_views(v: Seq<JsonLine>) -> Seq<(int, (int, Seq<char>, int), Option<Seq<char>>)> {
    v.map_values(|l: JsonLine| line_view(l))
}

/// The indentation of the lines nested one level deeper.
pub open spec fn deeper(indent: int) -> int {
    if indent + 2 <= usize::MAX {
        indent + 2
    } else {
        usize::MAX as int
    }
}

pub open spec fn is_nested(v: JsonValue) -> bool {
    v.kind is Object || v.kind is Array
}

/// The lines of a JSON value laid out one entry per line: a nested value
/// under a line with its key or index, a scalar on the line of its key or
/// index, a bare scalar on a line of its own.
pub open spec fn multiline(v: JsonValue, indent: int) -> Seq<
    (int, (int, Seq<char>, int), Option<Seq<char>>),
>
    decreases v,
{
    match v.kind {
        JsonKind::Object(entries) => entries_lines(entries@, indent),
        JsonKind::Array(items) => items_lines(items@, indent),
        _ => seq![(indent, (2, seq![], 0), Some(shown_text(v)))],
    }
}

pub open spec fn entries_lines(es: Seq<(String, JsonValue)>, indent: int) -> Seq<
    (int, (int, Seq<char>, int), Option<Seq<char>>),
>
    decreases es,
{
    if es.len() == 0 {
        seq![]
    } else {
        let rest = entries_lines(es.subrange(0, es.len() - 1), indent);
        let e = es[es.len() - 1];
        if is_nested(e.1) {
            rest.push((indent, (0, e.0@, 0), None)) + multiline(e.1, deeper(indent))
        } else {
            rest.push((indent, (0, e.0@, 0), Some(shown_text(e.1))))
        }
    }
}

pub open spec fn items_lines(items: Seq<JsonValue>, indent: int) -> Seq<
    (int, (int, Seq<char>, int), Option<Seq<char>>),
>
    decreases items,
{
    if items.len() == 0 {
        seq![]
    } else {
        let rest = items_lines(items.subrange(0, items.len() - 1), indent);
        let x = items[items.len() - 1];
        if is_nested(x) {
            rest.push((indent, (1, seq![], items.len() - 1), None)) + multiline(x, deeper(indent))
        } else {
            rest.push((indent, (1, seq![], items.len() - 1), Some(shown_text(x))))
        }
    }
}

/// Appends the lines of `value` laid out one entry per line.
#[verifier::rlimit(60)]
pub fn append_json_multiline(out: &mut Vec<JsonLine>, value: &JsonValue, indent: usize)
    ensures
        line_views(final(out)@) == line_views(old(out)@) + multiline(*value, indent as int),
    decreases value,
{
    let ghost o0 = line_views(out@);
    let inner = if indent <= usize::MAX - 2 {
        indent + 2
    } else {
        usize::MAX
    };
    match &value.kind {
        JsonKind::Object(entries) => {
            let mut i: usize = 0;
            while i < entries.len()
                invariant
                    i <= entries@.len(),
                    value.kind == JsonKind::Object(*entries),
                    inner as int == deeper(indent as int),
                    line_views(out@) == o0 + entries_lines(entries@.subrange(0, i as int), indent as int),
                decreases entries@.len() - i,
            {
                let ghost before = line_views(out@);
                let (k, v) = &entries[i];
                let ghost sub = entries@.subrange(0, i + 1);
                assert(sub.subrange(0, sub.len() - 1) =~= entries@.subrange(0, i as int));
                assert(sub[sub.len() - 1] == entries@[i as int]);
                let nested = match &v.kind {
                    JsonKind::Object(_) | JsonKind::Array(_) => true,
                    _ => false,
                };
                if nested {
                    let line = JsonLine { indent, label: JsonLabel::Key(k.clone()), value: None };
                    let ghost lv = line_view(line);
                    out.push(line);
                    assert(line_views(out@) =~= before.push(lv));
                    proof {
                        assert(value.kind->Object_0 == *entries);
                        assert(decreases_to!(*value => value.kind));
                        assert(decreases_to!(value.kind => value.kind->Object_0));
                        assert(decreases_to!(*entries => entries@));
                        assert(decreases_to!(entries@ => entries@[i as int]));
                        assert(decreases_to!(entries@[i as int] => entries@[i as int].1));
                        assert(decreases_to!(*value => *v));
                    }
                    append_json_multiline(out, v, inner);
                } else {
                    let text = shown_json_scalar(v);
                    let line = JsonLine { indent, label: JsonLabel::Key(k.clone()), value: Some(text) };
                    let ghost lv = line_view(line);
                    out.push(line);
                    assert(line_views(out@) =~= before.push(lv));
                }
                i += 1;
            }
            assert(entries@.subrange(0, entries@.len() as int) =~= entries@);
        },
        JsonKind::Array(items) => {
            let mut i: usize = 0;
            while i < items.len()
                invariant
                    i <= items@.len(),
                    value.kind == JsonKind::Array(*items),
                    inner as int == deeper(indent as int),
                    line_views(out@) == o0 + items_lines(items@.subrange(0, i as int), indent as int),
                decreases items@.len() - i,
            {
                let ghost before = line_views(out@);
                let x = &items[i];
                let ghost sub = items@.subrange(0, i + 1);
                assert(sub.subrange(0, sub.len() - 1) =~= items@.subrange(0, i as int));
                assert(sub[sub.len() - 1] == items@[i as int]);
                let nested = match &x.kind {
                    JsonKind::Object(_) | JsonKind::Array(_) => true,
                    _ => false,
                };
                if nested {
                    let line = JsonLine { indent, label: JsonLabel::Index(i), value: None };
                    let ghost lv = line_view(line);
                    out.push(line);
                    assert(line_views(out@) =~= before.push(lv));
                    proof {
                        assert(value.kind->Array_0 == *items);
                        assert(decreases_to!(*value => value.kind));
                        assert(decreases_to!(value.kind => value.kind->Array_0));
                        assert(decreases_to!(*items => items@));
                        assert(decreases_to!(items@ => items@[i as int]));
                        assert(decreases_to!(*value => items@[i as int]));
                    }
                    append_json_multiline(out, x, inner);
                } else {
                    let text = shown_json_scalar(x);
                    let line = JsonLine { indent, label: JsonLabel::Index(i), value: Some(text) };
                    let ghost lv = line_view(line);
                    out.push(line);
                    assert(line_views(out@) =~= before.push(lv));
                }
                i += 1;
            }
            assert(items@.subrange(0, items@.len() as int) =~= items@);
        },
        _ => {
            let text = shown_json_scalar(value);
            let line = JsonLine { indent, label: JsonLabel::Bare, value: Some(text) };
            let ghost lv = line_view(line);
            out.push(line);
            assert(line_views(out@) =~= o0.push(lv));
        },
    }
}


/// The width in bytes that the entry takes on a one-line object: its key,
/// `: `, its value, and `, ` before every entry but the first.
pub open spec fn piece_width(e: (String, JsonValue), first: bool) -> int {
    (if first {
        0int
    } else {
        2int
    }) + encode_utf8(e.0@).len() + 2 + encode_utf8(shown_text(e.1)).len()
}

/// The width in bytes of an object written on one line: `  {`, the
/// entries, without the closing brace.
pub open spec fn one_line_width(es: Seq<(String, JsonValue)>) -> int
    decreases es.len(),
{
    if es.len() == 0 {
        2
    } else {
        one_line_width(es.drop_last()) + piece_width(es.last(), es.len() == 1)
    }
}

proof fn lemma_one_line_width_mono(es: Seq<(String, JsonValue)>, i: int)
    requires
        0 <= i <= es.len(),
    ensures
        one_line_width(es.take(i)) <= one_line_width(es),
    decreases es.len() - i,
{
    if i < es.len() {
        lemma_one_line_width_mono(es, i + 1);
        assert(es.take(i + 1).drop_last() =~= es.take(i));
    } else {
        assert(es.take(i) =~= es);
    }
}

/// The entries of an object with the texts of their values, where the
/// object fits on one line of `max_width` bytes with its closing brace.
pub open spec fn one_line_spec(v: JsonValue, max_width: int) -> Option<Seq<(Seq<char>, Seq<char>)>> {
    match v.kind {
        JsonKind::Object(es) => if es@.len() == 0 || one_line_width(es@) + 1 <= max_width {
            Some(es@.map_values(|e: (String, JsonValue)| (e.0@, shown_text(e.1))))
        } else {
            None
        },
        _ => None,
    }
}

pub open spec fn pair_views(v: Seq<(String, String)>) -> Seq<(Seq<char>, Seq<char>)> {
    v.map_values(|p: (String, String)| (p.0@, p.1@))
}

/// An object's entries as `key`, value text pairs, where the object fits on
/// one line of `max_width` bytes.
pub fn json_object_one_line(value: &JsonValue, max_width: usize) -> (r: Option<Vec<(String, String)>>)
    ensures
        match r {
            Some(p) => one_line_spec(*value, max_width as int) == Some(pair_views(p@)),
            None => one_line_spec(*value, max_width as int) is None,
        },
{
    let entries = match &value.kind {
        JsonKind::Object(m) => m,
        _ => return None,
    };
    let ghost es = entries@;
    let mut plain_len: usize = 2;
    let mut out: Vec<(String, String)> = Vec::new();
    let mut i: usize = 0;
    while i < entries.len()
        invariant
            i <= entries@.len(),
            es == entries@,
            value.kind == JsonKind::Object(*entries),
            plain_len as int == one_line_width(es.take(i as int)),
            i > 0 ==> plain_len + 1 <= max_width,
            pair_views(out@) =~= es.take(i as int).map_values(
                |e: (String, JsonValue)| (e.0@, shown_text(e.1)),
            ),
        decreases entries@.len() - i,
    {
        let (k, v) = &entries[i];
        assert(es.take(i + 1).drop_last() =~= es.take(i as int));
        assert(es.take(i + 1).last() == es[i as int]);
        let val = shown_json_scalar(v);
        let klen = k.as_str().as_bytes().len();
        let vlen = val.as_str().as_bytes().len();
        let sep: usize = if i == 0 {
            0
        } else {
            2
        };
        let ghost w_next = one_line_width(es.take(i + 1));
        assert(w_next == plain_len + sep + klen + 2 + vlen);
        let total: u128 = plain_len as u128 + sep as u128 + klen as u128 + 2 + vlen as u128 + 1;
        let fits = total <= max_width as u128;
        if !fits {
            proof {
                lemma_one_line_width_mono(es, i + 1);
            }
            return None;
        }
        plain_len = plain_len + sep + klen + 2 + vlen;
        let ghost before = out@;
        out.push((k.clone(), val));
        assert(pair_views(out@) =~= pair_views(before).push((k@, shown_text(*v))));
        i += 1;
    }
    assert(es.take(entries@.len() as int) =~= es);
    Some(out)
}

/// A JSON payload laid out for the log: on one line where it is an object
/// that fits, otherwise one entry per line.
#[derive(Debug)]
pub enum JsonLayout {
    OneLine(Vec<(String, String)>),
    Lines(Vec<JsonLine>),
}

/// The indentation of a payload laid out over several lines.
pub const JSON_INDENT: usize = 2;

/// Lays out a JSON payload for a log of `max_width` bytes.
pub fn json_compact_layout(value: &JsonValue, max_width: usize) -> (r: JsonLayout)
    ensures
        match r {
            JsonLayout::OneLine(p) => one_line_spec(*value, max_width as int) == Some(pair_views(p@)),
            JsonLayout::Lines(l) => one_line_spec(*value, max_width as int) is None && line_views(l@)
                == multiline(*value, JSON_INDENT as int),
        },
{
    match json_object_one_line(value, max_width) {
        Some(p) => JsonLayout::OneLine(p),
        None => {
            let mut lines: Vec<JsonLine> = Vec::new();
            append_json_multiline(&mut lines, value, 2);
            assert(line_views(lines@) =~= multiline(*value, 2));
            JsonLayout::Lines(lines)
        },
    }
}


// ---------------------------------------------------------------- rows

/// How a piece of a context's state row is styled: the gap between two
/// states, a field's key in its color, a space, the value, or the time.
#[derive(Clone, Copy, Debug, PartialEq, Eq, Structural)]
pub enum StatePart {
    Gap,
    Key(Color),
    Space,
    Value,
    Time,
}

/// A piece of a context's state row: its text and its style.
#[derive(Debug)]
pub struct StatePiece {
    pub text: String,
    pub part: StatePart,
}

pub open spec fn state_piece_views(v: Seq<StatePiece>) -> Seq<(Seq<char>, StatePart)> {
    v.map_values(|p: StatePiece| (p.text@, p.part))
}

/// The pieces that show one field state: `key:` in the field's color (cyan
/// where it has none), the value, and `HH:MM:SS|<elapsed>`.
pub open spec fn item_pieces(
    e: FieldStateEntry,
    colors: Seq<(String, Color)>,
    prefixes: Seq<(String, String)>,
    now: i64,
) -> Seq<(Seq<char>, StatePart)> {
    let color = match assoc_first(colors, e.field@) {
        Some(c) => c,
        None => Color::Cyan,
    };
    let key = match assoc_first(prefixes, e.field@) {
        Some(p) => p@,
        None => e.display_key@,
    };
    seq![
        (key + seq![':'], StatePart::Key(color)),
        (seq![' '], StatePart::Space),
        (e.value_text@, StatePart::Value),
        (seq![' '], StatePart::Space),
        (utc_text_or_empty(e.event_ts, CLOCK_PATTERN@) + seq!['|'] + elapsed_text(
            whole_seconds(e.event_ts as int, now as int),
        ), StatePart::Time),
    ]
}

/// The pieces of a context's state row: each state's pieces, two spaces
/// between two states.
pub open spec fn state_row(
    states: Seq<FieldStateEntry>,
    colors: Seq<(String, Color)>,
    prefixes: Seq<(String, String)>,
    now: i64,
) -> Seq<(Seq<char>, StatePart)>
    decreases states.len(),
{
    if states.len() == 0 {
        seq![]
    } else {
        let rest = state_row(states.drop_last(), colors, prefixes, now);
        let gap = if states.len() > 1 {
            seq![(seq![' ', ' '], StatePart::Gap)]
        } else {
            seq![]
        };
        rest + gap + item_pieces(states.last(), colors, prefixes, now)
    }
}

fn text_piece(s: &str, part: StatePart) -> (p: StatePiece)
    ensures
        p.text@ == s@,
        p.part == part,
{
    StatePiece { text: lit(s), part }
}

/// The state row of `ctx` at `now`, its keys shortened by `prefixes`.
pub fn context_state_pieces(ctx: &Context, prefixes: &Vec<(String, String)>, now: i64) -> (r: Vec<
    StatePiece,
>)
    ensures
        state_piece_views(r@) == state_row(
            ctx.field_states@,
            ctx.event_field_colors@,
            prefixes@,
            now,
        ),
{
    let ghost states = ctx.field_states@;
    let ghost colors = ctx.event_field_colors@;
    let mut out: Vec<StatePiece> = Vec::new();
    let mut i: usize = 0;
    while i < ctx.field_states.len()
        invariant
            i <= states.len(),
            states == ctx.field_states@,
            colors == ctx.event_field_colors@,
            state_piece_views(out@) == state_row(states.take(i as int), colors, prefixes@, now),
        decreases states.len() - i,
    {
        let item = &ctx.field_states[i];
        assert(states.take(i + 1).drop_last() =~= states.take(i as int));
        assert(states.take(i + 1).last() == states[i as int]);
        let ghost before = out@;
        if i > 0 {
            out.push(text_piece("  ", StatePart::Gap));
        }
        let color = match find_key(&ctx.event_field_colors, item.field.as_str()) {
            Some(j) => {
                proof {
                    lemma_assoc_first_at(colors, item.field@, j as int);
                }
                ctx.event_field_colors[j].1
            },
            None => {
                proof {
                    lemma_assoc_first_none(colors, item.field@);
                }
                Color::Cyan
            },
        };
        let mut key = match find_key(prefixes, item.field.as_str()) {
            Some(j) => {
                proof {
                    lemma_assoc_first_at(prefixes@, item.field@, j as int);
                }
                prefixes[j].1.clone()
            },
            None => {
                proof {
                    lemma_assoc_first_none(prefixes@, item.field@);
                }
                item.display_key.clone()
            },
        };
        string_push(&mut key, ':');
        out.push(StatePiece { text: key, part: StatePart::Key(color) });
        out.push(text_piece(" ", StatePart::Space));
        out.push(StatePiece { text: item.value_text.clone(), part: StatePart::Value });
        out.push(text_piece(" ", StatePart::Space));
        let mut t = clock_time(item.event_ts);
        string_push(&mut t, '|');
        let d: i128 = now as i128 - item.event_ts as i128;
        let secs: i128 = if d >= 0 {
            d / 1_000_000
        } else {
            -((-d) / 1_000_000)
        };
        assert(-20_000_000_000_000 <= secs <= 20_000_000_000_000) by (nonlinear_arith)
            requires
                -20_000_000_000_000_000_000 <= d <= 20_000_000_000_000_000_000,
                d >= 0 ==> secs == d / 1_000_000,
                d < 0 ==> secs == -((-d) / 1_000_000),
        ;
        let e = format_elapsed(secs as i64);
        push_str(&mut t, e.as_str());
        out.push(StatePiece { text: t, part: StatePart::Time });
        proof {
            reveal_strlit(" ");
            reveal_strlit("  ");
            let e = states[i as int];
            assert(*item == e);
            assert(secs == whole_seconds(e.event_ts as int, now as int));
            let ip = item_pieces(e, colors, prefixes@, now);
            let gap: Seq<(Seq<char>, StatePart)> = if i > 0 {
                seq![(seq![' ', ' '], StatePart::Gap)]
            } else {
                seq![]
            };
            assert(state_row(states.take(i + 1), colors, prefixes@, now) == state_row(
                states.take(i as int),
                colors,
                prefixes@,
                now,
            ) + gap + ip);
            let n0: int = (before.len() + gap.len()) as int;
            assert(out@.len() == n0 + 5);
            assert(forall|k: int| 0 <= k < before.len() ==> out@[k] == before[k]);
            if i > 0 {
                assert(out@[before.len() as int].text@ == gap[0].0);
                assert(out@[before.len() as int].part == gap[0].1);
            }
            assert(out@[n0].text@ == ip[0].0 && out@[n0].part == ip[0].1);
            assert(out@[n0 + 1].text@ == ip[1].0 && out@[n0 + 1].part == ip[1].1);
            assert(out@[n0 + 2].text@ == ip[2].0 && out@[n0 + 2].part == ip[2].1);
            assert(out@[n0 + 3].text@ == ip[3].0 && out@[n0 + 3].part == ip[3].1);
            assert(out@[n0 + 4].text@ == ip[4].0 && out@[n0 + 4].part == ip[4].1);
            assert(state_piece_views(out@) =~= state_piece_views(before) + gap + ip);
        }
        i += 1;
    }
    assert(states.take(states.len() as int) =~= states);
    out
}

/// `s` after as many spaces as bring it to `width` characters.
pub open spec fn pad_left(s: Seq<char>, width: nat) -> Seq<char> {
    if s.len() < width {
        Seq::new((width - s.len()) as nat, |i: int| ' ') + s
    } else {
        s
    }
}

fn push_padded_number(s: &mut String, n: usize, width: usize)
    ensures
        final(s)@ == old(s)@ + pad_left(decimal(n as nat), width as nat),
{
    let mut d = String::new();
    push_u64(&mut d, n as u64);
    assert(d@ =~= decimal(n as nat));
    let len = d.as_str().unicode_len();
    let mut k: usize = len;
    let ghost start = s@;
    assert(s@ =~= start + Seq::new((k - len) as nat, |i: int| ' '));
    while k < width
        invariant
            d@ == decimal(n as nat),
            len == decimal(n as nat).len(),
            len <= k,
            k == len || k <= width,
            s@ == start + Seq::new((k - len) as nat, |i: int| ' '),
        decreases width - k,
    {
        string_push(s, ' ');
        assert(s@ =~= start + Seq::new((k + 1 - len) as nat, |i: int| ' '));
        k += 1;
    }
    push_str(s, d.as_str());
    proof {
        if len >= width {
            assert(s@ =~= start + decimal(n as nat));
        } else {
            assert(s@ =~= start + pad_left(decimal(n as nat), width as nat));
        }
    }
}

/// The start of a log line: its number, right-aligned in four columns, and
/// its time.
pub fn log_line_prefix(n: usize, ts: &str) -> (s: String)
    ensures
        s@ == pad_left(decimal(n as nat), 4) + seq![' '] + ts@ + seq![' '],
{
    let mut s = String::new();
    push_padded_number(&mut s, n, 4);
    string_push(&mut s, ' ');
    push_str(&mut s, ts);
    string_push(&mut s, ' ');
    s
}

/// The number of a context's row, right-aligned in three columns.
pub fn context_row_number(n: usize) -> (s: String)
    ensures
        s@ == pad_left(decimal(n as nat), 3) + seq!['.', ' '],
{
    let mut s = String::new();
    push_padded_number(&mut s, n, 3);
    string_push(&mut s, '.');
    string_push(&mut s, ' ');
    s
}

/// The columns left of the plot for the y labels.
pub const Y_LABEL_COLUMNS: u16 = 11;

/// The rows under the plot for the x axis and its labels.
pub const X_LABEL_ROWS: u16 = 2;

/// Where in a chart's area the plot lies: inside the border, right of the
/// y labels and above the x labels; empty where the area is too small.
pub fn estimate_plot_area(chart: Area) -> (r: Area)
    ensures
        r.x == sat_add16(chart.x as int, 1 + Y_LABEL_COLUMNS),
        r.y == sat_add16(chart.y as int, 1),
        r.width == sat_sub0(chart.width as int, 2 + Y_LABEL_COLUMNS),
        r.height == sat_sub0(chart.height as int, 2 + X_LABEL_ROWS),
{
    Area {
        x: chart.x.saturating_add(1 + Y_LABEL_COLUMNS),
        y: chart.y.saturating_add(1),
        width: chart.width.saturating_sub(2 + Y_LABEL_COLUMNS),
        height: chart.height.saturating_sub(2 + X_LABEL_ROWS),
    }
}

/// `a + b`, or the largest `u16` where that is larger.
pub open spec fn sat_add16(a: int, b: int) -> int {
    if a + b <= u16::MAX {
        a + b
    } else {
        u16::MAX as int
    }
}

/// `a - b`, or 0 where that is negative.
pub open spec fn sat_sub0(a: int, b: int) -> int {
    if a >= b {
        a - b
    } else {
        0
    }
}

/// A compact elapsed time by its size: `t` seconds under a minute read
/// `<t>s`; `m` minutes and `s` seconds under an hour read `<m>m<s>s`; and
/// `h` hours and `m` minutes (and any seconds) read `<h>h<m>m`.
pub proof fn lemma_elapsed_text_units(h: nat, m: nat, s: nat)
    requires
        m < 60,
        s < 60,
    ensures
        elapsed_text(s as int) == decimal(s) + seq!['s'],
        m >= 1 ==> elapsed_text((60 * m + s) as int) == decimal(m) + seq!['m'] + decimal(s)
            + seq!['s'],
        h >= 1 ==> elapsed_text((3600 * h + 60 * m + s) as int) == decimal(h) + seq!['h']
            + decimal(m) + seq!['m'],
{
    assert((60 * m + s) / 60 == m && (60 * m + s) % 60 == s) by (nonlinear_arith)
        requires
            s < 60,
    ;
    let t = 3600 * h + 60 * m + s;
    assert(t / 3600 == h && (t % 3600) / 60 == m) by (nonlinear_arith)
        requires
            t == 3600 * h + 60 * m + s,
            m < 60,
            s < 60,
    ;
}

/// Right-aligning keeps the text whole at the end, puts only spaces before
/// it, and takes exactly the width where the text is shorter.
pub proof fn lemma_pad_left(t: Seq<char>, width: nat)
    ensures
        pad_left(t, width).len() == if t.len() < width {
            width
        } else {
            t.len()
        },
        t.is_suffix_of(pad_left(t, width)),
        forall|i: int|
            0 <= i < pad_left(t, width).len() - t.len() ==> #[trigger] pad_left(t, width)[i] == ' ',
{
    let p = pad_left(t, width);
    assert(p.subrange(p.len() - t.len(), p.len() as int) =~= t);
}

} // verus!
