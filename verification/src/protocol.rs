//! The line protocol that feeds the chart:
//! `context series_key x_us num den [event_payload...]`.
use vstd::prelude::*;

use crate::json::{json_parse, parse_json};
use crate::model::{lit, EventMeta, Sample, SeriesKey};
use crate::text::{
    join, join_spaces_from, list_items, parse_i64, parse_u64, parse_usize, parse_i64_spec,
    parse_u64_spec, parse_usize_spec, split_list, split_whitespace, take_chars, take_str,
    to_chars, trim, trim_str, views, words,
};

verus! {

pub const DEFAULT_LISTEN_ADDR: &'static str = "127.0.0.1:9101";

/// Where to listen and which event fields to watch.
#[derive(Debug, Clone)]
pub struct IngestConfig {
    pub listen_addr: String,
    pub state_fields: Vec<String>,
}

impl IngestConfig {
    /// The configuration from the raw values of `CHART_LISTEN_TCP` and
    /// `CHART_STATE_FIELDS`, `None` where a variable is unset.
    pub fn from_values(listen: Option<String>, fields: Option<String>) -> (c: Self)
        ensures
            c.listen_addr@ == match listen {
                Some(s) => if trim(s@).len() > 0 {
                    trim(s@)
                } else {
                    DEFAULT_LISTEN_ADDR@
                },
                None => DEFAULT_LISTEN_ADDR@,
            },
            views(c.state_fields@) == match fields {
                Some(s) => list_items(s@),
                None => Seq::<Seq<char>>::empty(),
            },
    {
        let listen_addr = match listen {
            Some(s) => {
                let t = trim_str(s.as_str());
                if !t.as_str().is_empty() {
                    t
                } else {
                    lit(DEFAULT_LISTEN_ADDR)
                }
            },
            None => lit(DEFAULT_LISTEN_ADDR),
        };
        let state_fields = match fields {
            Some(s) => split_list(s.as_str()),
            None => {
                let v: Vec<String> = Vec::new();
                assert(views(v@) =~= Seq::<Seq<char>>::empty());
                v
            },
        };
        IngestConfig { listen_addr, state_fields }
    }
}

/// One parsed line.
#[derive(Debug)]
pub struct IngestRecord {
    pub context: String,
    pub series_key: SeriesKey,
    pub sample: Sample,
    pub event: Option<EventMeta>,
}

/// A dataset index where the text reads as one, else the single character.
pub open spec fn series_key_spec(s: Seq<char>) -> Option<SeriesKey> {
    match parse_usize_spec(s) {
        Some(n) => Some(SeriesKey::Numeric(n)),
        None => if s.len() == 1 {
            Some(SeriesKey::Event(s[0]))
        } else {
            None
        },
    }
}

/// The longest context name a line can give.
pub const MAX_CONTEXT_CHARS: usize = 50;

/// What a line holds: the context name, the series, the sample and the raw
/// event payload; `None` where the line is not well formed.
pub open spec fn line_fields(line: Seq<char>) -> Option<
    (Seq<char>, SeriesKey, Sample, Option<Seq<char>>),
> {
    let p = words(line);
    if p.len() < 5 {
        None
    } else {
        match (
            series_key_spec(trim(p[1])),
            parse_i64_spec(trim(p[2])),
            parse_u64_spec(trim(p[3])),
            parse_u64_spec(trim(p[4])),
        ) {
            (Some(key), Some(x_us), Some(num), Some(den)) => Some(
                (
                    take_chars(trim(p[0]), MAX_CONTEXT_CHARS as nat),
                    key,
                    Sample { x_us, num, den },
                    if p.len() > 5 {
                        Some(join(p.subrange(5, p.len() as int), seq![' ']))
                    } else {
                        None
                    },
                ),
            ),
            _ => None,
        }
    }
}

/// The raw payload of an event, if any.
pub open spec fn event_raw(e: Option<EventMeta>) -> Option<Seq<char>> {
    match e {
        Some(m) => Some(m.raw@),
        None => None,
    }
}

/// Parses one protocol line. Fields are separated by whitespace; the
/// context is cut to 50 characters; the payload is every field after the
/// fifth, joined by single spaces, and is read as JSON where it is JSON.
pub fn parse_line(line: &str) -> (r: Option<IngestRecord>)
    ensures
        match r {
            None => line_fields(line@) is None,
            Some(rec) => {
                &&& line_fields(line@) == Some(
                    (rec.context@, rec.series_key, rec.sample, event_raw(rec.event)),
                )
                &&& rec.event matches Some(e) ==> e.parsed_json == json_parse(e.raw@)
            },
        },
{
    let parts = split_whitespace(line);
    let ghost p = views(parts@);
    if parts.len() < 5 {
        return None;
    }
    assert(p[0] == parts@[0]@ && p[1] == parts@[1]@ && p[2] == parts@[2]@);
    assert(p[3] == parts@[3]@ && p[4] == parts@[4]@);
    let c0 = trim_str(parts[0].as_str());
    let context = take_str(c0.as_str(), 50);
    let k = trim_str(parts[1].as_str());
    let series_key = match parse_series_key(k.as_str()) {
        Some(key) => key,
        None => return None,
    };
    let x = trim_str(parts[2].as_str());
    let x_us = match parse_i64(x.as_str()) {
        Some(v) => v,
        None => return None,
    };
    let n = trim_str(parts[3].as_str());
    let num = match parse_u64(n.as_str()) {
        Some(v) => v,
        None => return None,
    };
    let d = trim_str(parts[4].as_str());
    let den = match parse_u64(d.as_str()) {
        Some(v) => v,
        None => return None,
    };
    let event = if parts.len() > 5 {
        Some(event_meta(join_spaces_from(&parts, 5)))
    } else {
        None
    };
    Some(IngestRecord { context, series_key, sample: Sample { x_us, num, den }, event })
}

/// The event of a payload: its raw text and, where that is JSON, the value.
pub fn event_meta(raw: String) -> (e: EventMeta)
    ensures
        e.raw == raw,
        e.parsed_json == json_parse(raw@),
{
    let parsed_json = parse_json(raw.as_str());
    EventMeta { raw, parsed_json }
}

/// A series key: a dataset index, or else exactly one character.
pub fn parse_series_key(raw: &str) -> (r: Option<SeriesKey>)
    ensures
        r == series_key_spec(raw@),
{
    if let Some(n) = parse_usize(raw) {
        return Some(SeriesKey::Numeric(n));
    }
    let v = to_chars(raw);
    if v.len() == 1 {
        Some(SeriesKey::Event(v[0]))
    } else {
        None
    }
}

/// A line never names a context of more than 50 characters.
pub proof fn lemma_line_context_short(line: Seq<char>)
    ensures
        line_fields(line) matches Some(f) ==> f.0.len() <= MAX_CONTEXT_CHARS,
{
}

} // verus!
