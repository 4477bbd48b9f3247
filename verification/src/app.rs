//! The chart's state apart from the plot window: the contexts, the log and
//! view settings, the command palette, and what each input does to them.
use std::collections::VecDeque;
use vstd::prelude::*;
use vstd::utf8::encode_utf8;

use crate::command::{arg_edited, synced, ArgType, CommandConfig, CommandPalette};
use crate::json::{
    field_color, fnv1a, assoc_first, collect_json_field_colors, compact_json_scalar, compact_text, find_key,
    json_keys, lemma_assoc_first_at, lemma_assoc_first_none, lookup, with_key_colors,
};
use crate::model::{
    format_utc_micros, utc_text_or_empty, LOG_TIME_PATTERN, lit, push_evicting, Color, ValueMode, Context, DatasetInfo, EventMeta, FieldStateEntry, JsonKind,
    JsonValue, LogEntry, Sample, ScaleMode, SeriesKey, ValueConfig, DATASET_CAPACITY,
    FIELD_STATE_CAPACITY, LOG_CAPACITY,
};
use crate::protocol::{IngestConfig, IngestRecord, MAX_CONTEXT_CHARS};
use crate::text::{
    decimal, drop_last_char, push_str, push_u64, string_of, string_pop, string_push, take_chars, take_str, to_chars,
    trim, trim_str, views,
};

verus! {

/// How many of `fields` start with `p`.
pub open spec fn prefix_count(fields: Seq<Seq<char>>, p: Seq<char>) -> nat
    decreases fields.len(),
{
    if fields.len() == 0 {
        0
    } else {
        prefix_count(fields.drop_last(), p) + if p.is_prefix_of(fields.last()) {
            1nat
        } else {
            0nat
        }
    }
}

/// The first prefix of `f`, of at least `len` characters, that exactly one
/// of `fields` starts with; all of `f` where there is none.
pub open spec fn prefix_search(fields: Seq<Seq<char>>, f: Seq<char>, len: nat) -> Seq<char>
    decreases f.len() + 1 - len,
{
    if len > f.len() {
        f
    } else if prefix_count(fields, f.take(len as int)) == 1 {
        f.take(len as int)
    } else {
        prefix_search(fields, f, len + 1)
    }
}

/// The shortest non-empty prefix of `f` that no other of `fields` starts
/// with; `f` itself where every prefix is shared.
pub open spec fn shortest_prefix(fields: Seq<Seq<char>>, f: Seq<char>) -> Seq<char> {
    prefix_search(fields, f, 1)
}

/// Whether `s` starts with the characters `p`.
fn starts_with_chars(s: &Vec<char>, p: &Vec<char>) -> (b: bool)
    ensures
        b == p@.is_prefix_of(s@),
{
    if p.len() > s.len() {
        return false;
    }
    let mut i: usize = 0;
    while i < p.len()
        invariant
            p@.len() <= s@.len(),
            i <= p@.len(),
            forall|k: int| 0 <= k < i ==> p@[k] == s@[k],
        decreases p@.len() - i,
    {
        if p[i] != s[i] {
            return false;
        }
        i += 1;
    }
    assert(p@ =~= s@.take(p@.len() as int));
    true
}

/// How many of `fields` start with `p`.
fn count_prefixed(fields: &Vec<Vec<char>>, p: &Vec<char>) -> (n: usize)
    ensures
        n == prefix_count(fields@.map_values(|x: Vec<char>| x@), p@),
{
    let ghost fs = fields@.map_values(|x: Vec<char>| x@);
    let mut n: usize = 0;
    let mut i: usize = 0;
    while i < fields.len()
        invariant
            i <= fields@.len(),
            fs == fields@.map_values(|x: Vec<char>| x@),
            n == prefix_count(fs.take(i as int), p@),
            n <= i,
        decreases fields@.len() - i,
    {
        assert(fs.take(i + 1).drop_last() =~= fs.take(i as int));
        assert(fs.take(i + 1).last() == fields@[i as int]@);
        if starts_with_chars(&fields[i], p) {
            n += 1;
        }
        i += 1;
    }
    assert(fs.take(fields@.len() as int) =~= fs);
    n
}

/// `r` pairs each of `fields` with its shortest distinguishing prefix.
pub open spec fn are_shortest_prefixes(r: Seq<(String, String)>, fields: Seq<String>) -> bool {
    &&& r.len() == fields.len()
    &&& forall|i: int|
        #![trigger r[i]]
        0 <= i < r.len() ==> r[i].0@ == fields[i]@ && r[i].1@ == shortest_prefix(
            views(fields),
            fields[i]@,
        )
}

/// Each field with the shortest prefix that tells it apart from the others.
pub fn shortest_unique_prefixes(fields: &Vec<String>) -> (r: Vec<(String, String)>)
    ensures
        are_shortest_prefixes(r@, fields@),
{
    let mut cs: Vec<Vec<char>> = Vec::new();
    let mut i: usize = 0;
    while i < fields.len()
        invariant
            i <= fields@.len(),
            cs@.len() == i,
            forall|k: int| 0 <= k < i ==> #[trigger] cs@[k]@ == fields@[k]@,
        decreases fields@.len() - i,
    {
        cs.push(to_chars(fields[i].as_str()));
        i += 1;
    }
    assert(cs@.map_values(|x: Vec<char>| x@) =~= views(fields@));
    let mut out: Vec<(String, String)> = Vec::new();
    let mut j: usize = 0;
    while j < fields.len()
        invariant
            j <= fields@.len(),
            cs@.len() == fields@.len(),
            forall|k: int| 0 <= k < fields@.len() ==> #[trigger] cs@[k]@ == fields@[k]@,
            cs@.map_values(|x: Vec<char>| x@) == views(fields@),
            out@.len() == j,
            forall|k: int|
                #![trigger out@[k]]
                0 <= k < j ==> out@[k].0@ == fields@[k]@ && out@[k].1@ == shortest_prefix(
                    views(fields@),
                    fields@[k]@,
                ),
        decreases fields@.len() - j,
    {
        let f = &cs[j];
        let ghost fv = f@;
        let mut best_len: usize = f.len();
        let mut k: usize = 0;
        let mut found = false;
        while k < f.len() && !found
            invariant
                k <= f@.len(),
                best_len <= f@.len(),
                !found ==> best_len == f@.len(),
                cs@.map_values(|x: Vec<char>| x@) == views(fields@),
                fv == f@,
                !found ==> prefix_search(views(fields@), fv, 1) == prefix_search(
                    views(fields@),
                    fv,
                    (k + 1) as nat,
                ),
                found ==> prefix_search(views(fields@), fv, 1) == fv.take(best_len as int),
            decreases f@.len() - k, (if found { 0int } else { 1int }),
        {
            let p = prefix_vec(f, k + 1);
            if count_prefixed(&cs, &p) == 1 {
                best_len = k + 1;
                found = true;
            } else {
                k += 1;
            }
        }
        assert(prefix_search(views(fields@), fv, 1) == fv.take(best_len as int)) by {
            if !found {
                assert(k == f@.len());
                assert(prefix_search(views(fields@), fv, (f@.len() + 1) as nat) == fv);
                assert(fv.take(f@.len() as int) =~= fv);
            }
        }
        let best = string_of(f, 0, best_len);
        let name = fields[j].clone();
        out.push((name, best));
        j += 1;
    }
    out
}

/// The first `len` characters of `f`.
fn prefix_vec(f: &Vec<char>, len: usize) -> (p: Vec<char>)
    requires
        len <= f@.len(),
    ensures
        p@ == f@.take(len as int),
{
    let mut p: Vec<char> = Vec::new();
    let mut i: usize = 0;
    while i < len
        invariant
            i <= len <= f@.len(),
            p@ == f@.take(i as int),
        decreases len - i,
    {
        p.push(f[i]);
        assert(f@.take(i + 1) =~= f@.take(i as int).push(f@[i as int]));
        i += 1;
    }
    p
}


/// The last `n` items of `s`, or all of them where there are fewer.
pub open spec fn keep_last<T>(s: Seq<T>, n: nat) -> Seq<T> {
    if s.len() > n {
        s.skip(s.len() - n)
    } else {
        s
    }
}

proof fn lemma_keep_last_push<T>(s: Seq<T>, x: T, n: nat)
    requires
        n > 0,
    ensures
        keep_last(keep_last(s, n).push(x), n) == keep_last(s.push(x), n),
{
    let a = keep_last(keep_last(s, n).push(x), n);
    let b = keep_last(s.push(x), n);
    assert(a =~= b);
}

/// A field state as plain values.
pub open spec fn state_view(e: FieldStateEntry) -> (Seq<char>, Seq<char>, Seq<char>, i64) {
    (e.field@, e.display_key@, e.value_text@, e.event_ts)
}

pub open spec fn state_views(q: Seq<FieldStateEntry>) -> Seq<(Seq<char>, Seq<char>, Seq<char>, i64)> {
    q.map_values(|e: FieldStateEntry| state_view(e))
}

/// The states that an event records: for each of `ws` (taken from the
/// watched fields `all`) that the object `entries` holds, the field, its
/// shortest distinguishing prefix, the value's text and the time.
pub open spec fn field_state_items(
    entries: Seq<(String, JsonValue)>,
    all: Seq<Seq<char>>,
    ws: Seq<Seq<char>>,
    ts: i64,
) -> Seq<(Seq<char>, Seq<char>, Seq<char>, i64)>
    decreases ws.len(),
{
    if ws.len() == 0 {
        seq![]
    } else {
        let rest = field_state_items(entries, all, ws.drop_last(), ts);
        let f = ws.last();
        match assoc_first(entries, f) {
            Some(v) => rest.push((f, shortest_prefix(all, f), compact_text(v), ts)),
            None => rest,
        }
    }
}

/// What recording `items` leaves of the states `old`: the newest
/// `FIELD_STATE_CAPACITY` of them, or `old` untouched where there is nothing
/// to record.
pub open spec fn states_after(
    old: Seq<(Seq<char>, Seq<char>, Seq<char>, i64)>,
    items: Seq<(Seq<char>, Seq<char>, Seq<char>, i64)>,
) -> Seq<(Seq<char>, Seq<char>, Seq<char>, i64)> {
    if items.len() == 0 {
        old
    } else {
        keep_last(old + items, FIELD_STATE_CAPACITY as nat)
    }
}

/// Appends `e`, then drops the oldest states beyond the capacity.
fn push_state(q: &mut VecDeque<FieldStateEntry>, e: FieldStateEntry)
    ensures
        final(q)@ == keep_last(old(q)@.push(e), FIELD_STATE_CAPACITY as nat),
{
    let ghost full = q@.push(e);
    q.push_back(e);
    while q.len() > 64
        invariant
            q@.len() <= full.len(),
            q@ == full.skip(full.len() - q@.len()),
            full.len() > 64 ==> q@.len() >= 64,
            full.len() <= 64 ==> q@.len() == full.len(),
        decreases q@.len(),
    {
        let ghost before = q@;
        q.pop_front();
        assert(q@ =~= full.skip(full.len() - q@.len()));
    }
    assert(full.len() <= 64 ==> full.skip(0) =~= full);
}

/// Records, for each watched field that the event's JSON object holds, the
/// field's latest value, keeping the newest `FIELD_STATE_CAPACITY` states.
pub fn update_context_field_states(
    context: &mut Context,
    json: &JsonValue,
    watched_fields: &Vec<String>,
    ts: i64,
)
    ensures
        final(context).name == old(context).name,
        final(context).created_at == old(context).created_at,
        final(context).datasets == old(context).datasets,
        final(context).order == old(context).order,
        final(context).logs == old(context).logs,
        final(context).colors == old(context).colors,
        final(context).event_field_colors == old(context).event_field_colors,
        state_views(final(context).field_states@) == match json.kind {
            JsonKind::Object(entries) => states_after(
                state_views(old(context).field_states@),
                field_state_items(entries@, views(watched_fields@), views(watched_fields@), ts),
            ),
            _ => state_views(old(context).field_states@),
        },
{
    let entries = match &json.kind {
        JsonKind::Object(m) => m,
        _ => {
            return ;
        },
    };
    let prefixes = shortest_unique_prefixes(watched_fields);
    let ghost all = views(watched_fields@);
    let ghost old_q = state_views(context.field_states@);
    assert(all.take(0) =~= Seq::<Seq<char>>::empty());
    let mut i: usize = 0;
    while i < watched_fields.len()
        invariant
            i <= watched_fields@.len(),
            all == views(watched_fields@),
            json.kind == JsonKind::Object(*entries),
            are_shortest_prefixes(prefixes@, watched_fields@),
            context.name == old(context).name,
            context.created_at == old(context).created_at,
            context.datasets == old(context).datasets,
            context.order == old(context).order,
            context.logs == old(context).logs,
            context.colors == old(context).colors,
            context.event_field_colors == old(context).event_field_colors,
            state_views(context.field_states@) == states_after(
                old_q,
                field_state_items(entries@, all, all.take(i as int), ts),
            ),
        decreases watched_fields@.len() - i,
    {
        let field = &watched_fields[i];
        let ghost ws = all.take(i + 1);
        assert(ws.drop_last() =~= all.take(i as int));
        assert(ws.last() == field@);
        let ghost items_before = field_state_items(entries@, all, all.take(i as int), ts);
        match find_key(entries, field.as_str()) {
            Some(j) => {
                proof {
                    lemma_assoc_first_at(entries@, field@, j as int);
                }
                let value_text = compact_json_scalar(&entries[j].1);
                let display_key = match find_key(&prefixes, field.as_str()) {
                    Some(p) => prefixes[p].1.clone(),
                    None => {
                        assert(prefixes@[i as int].0@ == field@);
                        field.clone()
                    },
                };
                let entry = FieldStateEntry {
                    field: field.clone(),
                    display_key,
                    value_text,
                    event_ts: ts,
                };
                let ghost before = context.field_states@;
                let ghost ev = state_view(entry);
                push_state(&mut context.field_states, entry);
                proof {
                    let now_q = context.field_states@;
                    assert(state_views(before.push(entry)) =~= state_views(before).push(ev));
                    assert(state_views(keep_last(before.push(entry), 64)) =~= keep_last(
                        state_views(before.push(entry)),
                        64,
                    ));
                    if items_before.len() == 0 {
                        assert(old_q + items_before.push(ev) =~= old_q.push(ev));
                    } else {
                        lemma_keep_last_push(old_q + items_before, ev, 64);
                        assert(old_q + items_before.push(ev) =~= (old_q + items_before).push(ev));
                    }
                }
            },
            None => {
                proof {
                    lemma_assoc_first_none(entries@, field@);
                }
            },
        }
        i += 1;
    }
    assert(all.take(watched_fields@.len() as int) =~= all);
}


/// The series of `c1` are those of `c0` with `sample` added to series
/// `key`: appended to its samples where the series exists, or as the first
/// sample of a new series of color `color` at the end.
pub open spec fn series_added(c0: Context, c1: Context, key: SeriesKey, sample: Sample, color: Color) -> bool {
    if c0.order@.contains(key) {
        let i = c0.order@.index_of(key);
        &&& c1.order == c0.order
        &&& c1.colors == c0.colors
        &&& c1.datasets@.len() == c0.datasets@.len()
        &&& forall|j: int|
            0 <= j < c0.datasets@.len() && j != i ==> #[trigger] c1.datasets@[j] == c0.datasets@[j]
        &&& c1.datasets@[i].max == c0.datasets@[i].max
        &&& c1.datasets@[i].points@ == push_evicting(
            c0.datasets@[i].points@,
            sample,
            c0.datasets@[i].max as nat,
        )
    } else {
        &&& c1.order@ == c0.order@.push(key)
        &&& c1.colors@ == c0.colors@.push(color)
        &&& c1.datasets@.len() == c0.datasets@.len() + 1
        &&& forall|j: int| 0 <= j < c0.datasets@.len() ==> #[trigger] c1.datasets@[j] == c0.datasets@[j]
        &&& c1.datasets@[c0.datasets@.len() as int].max == DATASET_CAPACITY
        &&& c1.datasets@[c0.datasets@.len() as int].points@ == seq![sample]
    }
}

/// The JSON value of an event, if it has one.
pub open spec fn event_json(e: Option<EventMeta>) -> Option<JsonValue> {
    match e {
        Some(m) => m.parsed_json,
        None => None,
    }
}

/// `c1` is `c0` after taking in one record: the colors of the event's JSON
/// keys, the sample, the field states and the log line.
pub open spec fn ingested(
    c0: Context,
    c1: Context,
    key: SeriesKey,
    sample: Sample,
    color: Color,
    text: String,
    event: Option<EventMeta>,
    now: i64,
    watched: Seq<Seq<char>>,
) -> bool {
    &&& c1.wf()
    &&& c1.name == c0.name
    &&& c1.created_at == c0.created_at
    &&& forall|q: Seq<char>|
        lookup(c1.event_field_colors@, q) == match event_json(event) {
            Some(j) => with_key_colors(c0.event_field_colors@, json_keys(j), q),
            None => lookup(c0.event_field_colors@, q),
        }
    &&& series_added(c0, c1, key, sample, color)
    &&& c1.logs.msgs@ == push_evicting(
        c0.logs.msgs@,
        (LogEntry { ts: now, text, event }),
        LOG_CAPACITY as nat,
    )
    &&& state_views(c1.field_states@) == match event_json(event) {
        Some(j) => match j.kind {
            JsonKind::Object(entries) => states_after(
                state_views(c0.field_states@),
                field_state_items(entries@, watched, watched, now),
            ),
            _ => state_views(c0.field_states@),
        },
        None => state_views(c0.field_states@),
    }
}

impl Context {
    /// Takes in one record: colors the event's JSON keys, adds the sample
    /// to its series (creating the series with `color`), records the watched
    /// field states and appends the log line `text`.
    pub fn ingest(
        &mut self,
        key: SeriesKey,
        sample: Sample,
        color: Color,
        text: String,
        event: Option<EventMeta>,
        now: i64,
        watched: &Vec<String>,
    )
        requires
            old(self).wf(),
        ensures
            ingested(*old(self), *final(self), key, sample, color, text, event, now, views(watched@)),
    {
        let ghost c0 = *self;
        if let Some(e) = &event {
            if let Some(json) = &e.parsed_json {
                collect_json_field_colors(json, &mut self.event_field_colors);
            }
        }
        let ghost c_colors = *self;
        match self.series_index(key) {
            Some(i) => {
                proof {
                    assert(self.order@.contains(key));
                    let k = self.order@.index_of(key);
                    if k != i {
                        if k < i {
                            assert(self.order@[k] != self.order@[i as int]);
                        } else {
                            assert(self.order@[i as int] != self.order@[k]);
                        }
                    }
                }
                self.datasets[i].add(sample);
            },
            None => {
                let mut d = DatasetInfo::new();
                d.add(sample);
                assert(d.points@ =~= seq![sample]);
                self.datasets.push(d);
                self.order.push(key);
                self.colors.push(color);
                proof {
                    assert forall|a: int, b: int| 0 <= a < b < self.order@.len() implies self.order@[a]
                        != self.order@[b] by {
                        if b == c0.order@.len() {
                            assert(c0.order@[a] != key);
                        } else {
                            assert(self.order@[a] == c0.order@[a]);
                        }
                    }
                }
            },
        }
        let ghost c_series = *self;
        if let Some(e) = &event {
            if let Some(json) = &e.parsed_json {
                update_context_field_states(self, json, watched, now);
            }
        }
        self.logs.add(LogEntry { ts: now, text, event });
    }
}

/// The index of the first context named `name`; the number of contexts
/// where none is.
pub open spec fn first_named(cs: Seq<Context>, name: Seq<char>) -> int
    decreases cs.len(),
{
    if cs.len() == 0 {
        0
    } else if cs[0].name@ == name {
        0
    } else {
        1 + first_named(cs.drop_first(), name)
    }
}

proof fn lemma_first_named(cs: Seq<Context>, name: Seq<char>, r: int)
    requires
        0 <= r <= cs.len(),
        forall|i: int| 0 <= i < r ==> #[trigger] cs[i].name@ != name,
        r < cs.len() ==> cs[r].name@ == name,
    ensures
        first_named(cs, name) == r,
    decreases cs.len(),
{
    if cs.len() > 0 && r > 0 {
        let rest = cs.drop_first();
        assert forall|i: int| 0 <= i < r - 1 implies #[trigger] rest[i].name@ != name by {
            assert(rest[i] == cs[i + 1]);
        }
        if r - 1 < rest.len() {
            assert(rest[r - 1] == cs[r]);
        }
        lemma_first_named(rest, name, r - 1);
    }
}

/// A newly made context named `name`.
pub open spec fn fresh_context(c: Context, name: Seq<char>) -> bool {
    &&& c.wf()
    &&& c.name@ == name
    &&& c.datasets@.len() == 0
    &&& c.order@.len() == 0
    &&& c.colors@.len() == 0
    &&& c.logs.msgs@.len() == 0
    &&& c.event_field_colors@.len() == 0
    &&& c.field_states@.len() == 0
}

/// What `KeyCode` a key press carries.
#[derive(Clone, Copy, Debug, PartialEq, Eq, Structural)]
pub enum KeyCode {
    Char(char),
    Left,
    Right,
    Up,
    Down,
    PageUp,
    PageDown,
    Tab,
    BackTab,
    Enter,
    Esc,
    Backspace,
    Other,
}

/// A key press, and whether Control was held.
#[derive(Clone, Copy, Debug, PartialEq, Eq, Structural)]
pub struct KeyPress {
    pub code: KeyCode,
    pub ctrl: bool,
}

/// A mouse event of interest.
#[derive(Clone, Copy, Debug, PartialEq, Eq, Structural)]
pub enum MouseKind {
    ScrollDown,
    ScrollUp,
    Down,
    Other,
}

/// What the event loop has to do after an input: work on the plot window,
/// which is not part of this state, or on the command socket.
#[derive(Debug)]
pub enum Action {
    Nothing,
    Quit,
    /// Fit the x and/or the y range of the window to the data.
    Fit { x: bool, y: bool },
    /// Scroll the window by a twentieth of a percent of its width.
    PanLeft,
    PanRight,
    /// Scale the window's width by 0.8, or by 1.2.
    ZoomIn,
    ZoomOut,
    /// Send `payload` to the command socket, logging it under `label`.
    Send { payload: String, label: String },
    /// Build the payload of command `spec_index` for `context` from
    /// `inputs`, then send it.
    SendPredefined { context: String, spec_index: usize, inputs: Vec<String> },
}

/// The chart's state apart from the plot window.
#[derive(Debug)]
pub struct App {
    pub contexts: Vec<Context>,
    pub active: usize,
    pub list_selected: Option<usize>,
    pub list_offset: usize,
    pub context_hscroll: u16,
    pub watched_state_fields: Vec<String>,
    pub show_logs: bool,
    pub log_height: u16,
    pub log_scroll: u16,
    pub log_follow: bool,
    pub auto_x: bool,
    pub auto_y: bool,
    pub step_y: bool,
    pub scale_mode: ScaleMode,
    pub value_cfg: ValueConfig,
    pub cmd_cfg: CommandConfig,
    pub cmd_palette: CommandPalette,
}

/// A context is well formed and its log within its capacity.
pub open spec fn context_ok(c: Context) -> bool {
    c.wf() && c.logs.msgs@.len() <= LOG_CAPACITY
}

/// `a - b`, or 0 where that is negative.
pub open spec fn sat_sub(a: int, b: int) -> int {
    if a >= b {
        a - b
    } else {
        0
    }
}

/// `a + b`, or `max` where that is larger.
pub open spec fn sat_add(a: int, b: int, max: int) -> int {
    if a + b <= max {
        a + b
    } else {
        max
    }
}

/// The log scroll that shows the newest lines: each entry takes three
/// lines and the frame two.
pub open spec fn tail_scroll(entries: nat, height: u16) -> u16 {
    sat_sub((entries * 3) as int, sat_sub(height as int, 2)) as u16
}

/// `a1` is `a0` with a context named `name` at index `r`: the first one so
/// named, or else a new one, its name cut to 50 characters, at the end.
pub open spec fn found_or_created(a0: App, name: Seq<char>, a1: App, r: usize) -> bool {
    &&& r == first_named(a0.contexts@, name)
    &&& r < a1.contexts@.len()
    &&& r <= a0.contexts@.len()
    &&& a1.active == a0.active
    &&& r < a0.contexts@.len() ==> a1 == a0
    &&& r == a0.contexts@.len() ==> {
        &&& a1.contexts@.len() == a0.contexts@.len() + 1
        &&& a1.contexts@.take(r as int) == a0.contexts@
        &&& fresh_context(a1.contexts@[r as int], take_chars(name, MAX_CONTEXT_CHARS as nat))
        &&& a1 == (App { contexts: a1.contexts, ..a0 })
    }
}

impl App {
    pub open spec fn wf(self) -> bool {
        &&& self.contexts@.len() > 0
        &&& self.active < self.contexts@.len()
        &&& forall|i: int| 0 <= i < self.contexts@.len() ==> context_ok(#[trigger] self.contexts@[i])
        &&& self.cmd_palette.wf()
    }

    /// The state at start-up: one context named `default`, logs shown and
    /// followed, both axes fitted automatically.
    pub fn new(ingest: IngestConfig, cmd_cfg: CommandConfig) -> (a: Self)
        ensures
            a.wf(),
            a.contexts@.len() == 1,
            fresh_context(a.contexts@[0], "default"@),
            a.active == 0,
            a.list_selected == Some(0usize),
            a.list_offset == 0,
            a.context_hscroll == 0,
            a.watched_state_fields == ingest.state_fields,
            a.show_logs,
            a.log_height == 10,
            a.log_scroll == 0,
            a.log_follow,
            a.auto_x,
            a.auto_y,
            !a.step_y,
            a.scale_mode == ScaleMode::Linear,
            a.value_cfg.mode == crate::model::ValueMode::Ratio,
            a.value_cfg.const_den == 1_000_000,
            a.cmd_cfg == cmd_cfg,
            a.cmd_palette.arg_inputs_by_command@.len() == 0,
            !a.cmd_palette.open,
            a.cmd_palette.selected == 0,
            a.cmd_palette.custom_input@.len() == 0,
            !a.cmd_palette.editing_custom,
            a.cmd_palette.arg_index == 0,
            a.cmd_palette.status is None,
    {
        let default = Context::new(lit("default"));
        let mut contexts: Vec<Context> = Vec::new();
        contexts.push(default);
        App {
            contexts,
            active: 0,
            list_selected: Some(0),
            list_offset: 0,
            context_hscroll: 0,
            watched_state_fields: ingest.state_fields,
            show_logs: true,
            log_height: 10,
            log_scroll: 0,
            log_follow: true,
            auto_x: true,
            auto_y: true,
            step_y: false,
            scale_mode: ScaleMode::Linear,
            value_cfg: ValueConfig::default(),
            cmd_cfg,
            cmd_palette: CommandPalette::default(),
        }
    }

    /// The active context.
    pub fn ctx(&self) -> (c: &Context)
        requires
            self.wf(),
        ensures
            *c == self.contexts@[self.active as int],
    {
        &self.contexts[self.active]
    }

    /// Scrolls the log to its newest lines.
    pub fn refresh_log_scroll_tail(&mut self)
        requires
            old(self).wf(),
        ensures
            *final(self) == (App {
                log_scroll: tail_scroll(
                    old(self).contexts@[old(self).active as int].logs.msgs@.len(),
                    old(self).log_height,
                ),
                ..*old(self)
            }),
    {
        let n = self.contexts[self.active].logs.msgs.len();
        assert(context_ok(self.contexts@[self.active as int]));
        let logical_lines: u16 = (n as u16) * 3;
        let visible = self.log_height.saturating_sub(2);
        self.log_scroll = logical_lines.saturating_sub(visible);
    }

    /// Selects the active context in the list and scrolls the list so that
    /// it shows, given the list's height with its frame.
    pub fn sync_context_list_state(&mut self, area_height: usize)
        requires
            old(self).wf(),
            old(self).list_offset + (if area_height >= 3 {
                area_height - 2
            } else {
                1
            }) <= usize::MAX,
        ensures
            ({
                let visible = if area_height >= 3 {
                    area_height - 2
                } else {
                    1
                };
                let off = old(self).list_offset;
                let act = old(self).active;
                *final(self) == (App {
                    list_selected: Some(act),
                    list_offset: if act < off {
                        act
                    } else if act >= off + visible {
                        (act + 1 - visible) as usize
                    } else {
                        off
                    },
                    ..*old(self)
                })
            }),
    {
        let n = self.contexts.len();
        assert(self.active < n);
        self.list_selected = Some(self.active);
        let v = area_height.saturating_sub(2);
        let visible = if v > 1 {
            v
        } else {
            1
        };
        let offset = self.list_offset;
        if self.active < offset {
            self.list_offset = self.active;
        } else if self.active >= offset + visible {
            self.list_offset = self.active + 1 - visible;
        }
    }

    /// The shortest distinguishing prefix of each watched field.
    pub fn context_state_prefixes(&self) -> (r: Vec<(String, String)>)
        ensures
            are_shortest_prefixes(r@, self.watched_state_fields@),
    {
        shortest_unique_prefixes(&self.watched_state_fields)
    }

    /// The index of the context named `name`, made (with the name cut to 50
    /// characters) where none is.
    pub fn get_or_create_context(&mut self, name: String) -> (r: usize)
        requires
            old(self).wf(),
        ensures
            final(self).wf(),
            found_or_created(*old(self), name@, *final(self), r),
    {
        let mut i: usize = 0;
        while i < self.contexts.len()
            invariant
                i <= self.contexts@.len(),
                *self == *old(self),
                old(self).wf(),
                forall|k: int| 0 <= k < i ==> #[trigger] self.contexts@[k].name@ != name@,
            decreases self.contexts@.len() - i,
        {
            if self.contexts[i].name == name {
                proof {
                    lemma_first_named(self.contexts@, name@, i as int);
                }
                return i;
            }
            i += 1;
        }
        proof {
            lemma_first_named(self.contexts@, name@, i as int);
        }
        let short = take_str(name.as_str(), 50);
        let c = Context::new(short);
        let ghost before = self.contexts@;
        self.contexts.push(c);
        proof {
            assert(self.contexts@.take(i as int) =~= before);
            assert forall|k: int| 0 <= k < self.contexts@.len() implies context_ok(
                #[trigger] self.contexts@[k],
            ) by {
                if k < before.len() {
                    assert(self.contexts@[k] == before[k]);
                }
            }
        }
        self.contexts.len() - 1
    }

    /// The color of an event series.
    pub fn event_color(&self, ch: char) -> (c: Color)
        ensures
            c == event_color_spec(ch),
    {
        match ch {
            'B' => Color::LightGreen,
            'S' => Color::LightRed,
            'T' => Color::Cyan,
            'W' => Color::LightBlue,
            'E' => Color::Magenta,
            '!' => Color::Red,
            '?' => Color::Cyan,
            '*' => Color::White,
            'C' => Color::Yellow,
            'F' => Color::LightGreen,
            'G' => Color::LightRed,
            'I' => Color::Rgb(0u8, 255u8, 255u8),
            'O' => Color::Magenta,
            _ => Color::Gray,
        }
    }

    /// The newest sample of series `key` in the context named `context`.
    pub fn previous_sample(&self, context: &String, key: SeriesKey) -> (r: Option<Sample>)
        requires
            self.wf(),
        ensures
            ({
                let id = first_named(self.contexts@, context@);
                if id < self.contexts@.len() && self.contexts@[id].order@.contains(key) {
                    let c = self.contexts@[id];
                    let pts = c.datasets@[c.order@.index_of(key)].points@;
                    r == if pts.len() > 0 {
                        Some(pts.last())
                    } else {
                        None
                    }
                } else {
                    r is None
                }
            }),
    {
        let mut i: usize = 0;
        while i < self.contexts.len()
            invariant
                i <= self.contexts@.len(),
                self.wf(),
                forall|k: int| 0 <= k < i ==> #[trigger] self.contexts@[k].name@ != context@,
            decreases self.contexts@.len() - i,
        {
            if self.contexts[i].name == *context {
                proof {
                    lemma_first_named(self.contexts@, context@, i as int);
                }
                let c = &self.contexts[i];
                assert(context_ok(self.contexts@[i as int]));
                return match c.series_index(key) {
                    Some(j) => {
                        proof {
                            let k = c.order@.index_of(key);
                            if k != j {
                                if k < j {
                                    assert(c.order@[k] != c.order@[j as int]);
                                } else {
                                    assert(c.order@[j as int] != c.order@[k]);
                                }
                            }
                        }
                        let pts = &c.datasets[j].points;
                        if pts.len() > 0 {
                            Some(pts[pts.len() - 1])
                        } else {
                            None
                        }
                    },
                    None => None,
                };
            }
            i += 1;
        }
        proof {
            lemma_first_named(self.contexts@, context@, i as int);
        }
        None
    }
}


impl App {
    /// Takes in one record: into the context that it names (made where
    /// none is), with `color` for a new series and `text` as its log line.
    /// Where that context is the active one, the log follows its tail and
    /// the window is fitted as the automatic fitting says.
    #[verifier::rlimit(50)]
    pub fn on_ingest(&mut self, record: IngestRecord, color: Color, text: String, now: i64) -> (act:
        Action)
        requires
            old(self).wf(),
        ensures
            final(self).wf(),
            ({
                let id = first_named(old(self).contexts@, record.context@);
                let n = old(self).contexts@.len();
                let watched = views(old(self).watched_state_fields@);
                &&& final(self).contexts@.len() == if id < n {
                    n
                } else {
                    n + 1
                }
                &&& forall|j: int|
                    0 <= j < n && j != id ==> #[trigger] final(self).contexts@[j]
                        == old(self).contexts@[j]
                &&& id < n ==> ingested(
                    old(self).contexts@[id],
                    final(self).contexts@[id],
                    record.series_key,
                    record.sample,
                    color,
                    text,
                    record.event,
                    now,
                    watched,
                )
                &&& id == n ==> exists|c0: Context|
                    fresh_context(c0, take_chars(record.context@, MAX_CONTEXT_CHARS as nat))
                        && ingested(
                        c0,
                        final(self).contexts@[id],
                        record.series_key,
                        record.sample,
                        color,
                        text,
                        record.event,
                        now,
                        watched,
                    )
                &&& *final(self) == (App {
                    contexts: final(self).contexts,
                    log_scroll: final(self).log_scroll,
                    ..*old(self)
                })
                &&& if id == old(self).active {
                    &&& act == (Action::Fit { x: old(self).auto_x, y: old(self).auto_y })
                    &&& final(self).log_scroll == if old(self).log_follow {
                        tail_scroll(
                            final(self).contexts@[id].logs.msgs@.len(),
                            old(self).log_height,
                        )
                    } else {
                        old(self).log_scroll
                    }
                } else {
                    act == Action::Nothing && final(self).log_scroll == old(self).log_scroll
                }
            }),
    {
        let ghost old_app = *self;
        let id = self.get_or_create_context(record.context);
        let ghost mid = self.contexts@;
        let ghost c0 = self.contexts@[id as int];
        assert(context_ok(self.contexts@[id as int]));
        self.contexts[id].ingest(
            record.series_key,
            record.sample,
            color,
            text,
            record.event,
            now,
            &self.watched_state_fields,
        );
        proof {
            assert forall|k: int| 0 <= k < self.contexts@.len() implies context_ok(
                #[trigger] self.contexts@[k],
            ) by {
                if k != id {
                    assert(self.contexts@[k] == mid[k]);
                }
            }
            if id == old_app.contexts@.len() {
                assert(fresh_context(c0, take_chars(record.context@, MAX_CONTEXT_CHARS as nat)));
            } else {
                assert(c0 == old_app.contexts@[id as int]);
            }
            assert forall|j: int|
                0 <= j < old_app.contexts@.len() && j != id implies #[trigger] self.contexts@[j]
                == old_app.contexts@[j] by {
                assert(self.contexts@[j] == mid[j]);
                if id == old_app.contexts@.len() {
                    assert(mid.take(id as int)[j] == mid[j]);
                }
            }
        }
        if id == self.active {
            if self.log_follow {
                self.refresh_log_scroll_tail();
            }
            Action::Fit { x: self.auto_x, y: self.auto_y }
        } else {
            Action::Nothing
        }
    }
}

/// The color of each event series character.
pub open spec fn event_color_spec(ch: char) -> Color {
    if ch == 'B' {
        Color::LightGreen
    } else if ch == 'S' {
        Color::LightRed
    } else if ch == 'T' {
        Color::Cyan
    } else if ch == 'W' {
        Color::LightBlue
    } else if ch == 'E' {
        Color::Magenta
    } else if ch == '!' {
        Color::Red
    } else if ch == '?' {
        Color::Cyan
    } else if ch == '*' {
        Color::White
    } else if ch == 'C' {
        Color::Yellow
    } else if ch == 'F' {
        Color::LightGreen
    } else if ch == 'G' {
        Color::LightRed
    } else if ch == 'I' {
        Color::Rgb(0u8, 255u8, 255u8)
    } else if ch == 'O' {
        Color::Magenta
    } else {
        Color::Gray
    }
}



/// The palette of `a1` is that of `a0` opened on the first command.
pub open spec fn palette_opened(a0: App, a1: App) -> bool {
    &&& a1 == (App { cmd_palette: a1.cmd_palette, ..a0 })
    &&& synced(
        (CommandPalette {
            open: true,
            selected: 0,
            editing_custom: false,
            arg_index: 0,
            status: None,
            ..a0.cmd_palette
        }),
        a0.cmd_cfg,
        a1.cmd_palette,
    )
}

/// What a key does while the command palette is open.
pub open spec fn palette_key_rel(a0: App, code: KeyCode, a1: App, act: Action) -> bool {
    let p0 = a0.cmd_palette;
    let cfg = a0.cmd_cfg;
    let custom_idx = cfg.commands@.len();
    let only_palette = a1 == (App { cmd_palette: a1.cmd_palette, ..a0 });
    match code {
        KeyCode::Esc => act == Action::Nothing && a1 == (App {
            cmd_palette: (CommandPalette { open: false, editing_custom: false, ..p0 }),
            ..a0
        }),
        KeyCode::Up => {
            let sel = if p0.selected > 0 {
                (p0.selected - 1) as usize
            } else {
                p0.selected
            };
            &&& act == Action::Nothing
            &&& only_palette
            &&& synced(
                (CommandPalette {
                    selected: sel,
                    editing_custom: sel == custom_idx,
                    arg_index: 0,
                    ..p0
                }),
                cfg,
                a1.cmd_palette,
            )
        },
        KeyCode::Down => {
            let sel = if p0.selected < custom_idx {
                (p0.selected + 1) as usize
            } else {
                p0.selected
            };
            &&& act == Action::Nothing
            &&& only_palette
            &&& synced(
                (CommandPalette {
                    selected: sel,
                    editing_custom: sel == custom_idx,
                    arg_index: 0,
                    ..p0
                }),
                cfg,
                a1.cmd_palette,
            )
        },
        KeyCode::Tab | KeyCode::Right => {
            let len = p0.current_inputs(cfg).len();
            &&& act == Action::Nothing
            &&& a1 == if p0.editing_custom || len == 0 {
                a0
            } else {
                App {
                    cmd_palette: (CommandPalette {
                        arg_index: ((p0.arg_index + 1) % (len as int)) as usize,
                        ..p0
                    }),
                    ..a0
                }
            }
        },
        KeyCode::BackTab | KeyCode::Left => {
            let len = p0.current_inputs(cfg).len();
            &&& act == Action::Nothing
            &&& a1 == if p0.editing_custom || len == 0 {
                a0
            } else {
                App {
                    cmd_palette: (CommandPalette {
                        arg_index: if p0.arg_index == 0 {
                            (len - 1) as usize
                        } else {
                            (p0.arg_index - 1) as usize
                        },
                        ..p0
                    }),
                    ..a0
                }
            }
        },
        KeyCode::Char('i') => {
            &&& act == Action::Nothing
            &&& only_palette
            &&& synced(
                (CommandPalette {
                    selected: custom_idx as usize,
                    editing_custom: true,
                    arg_index: 0,
                    ..p0
                }),
                cfg,
                a1.cmd_palette,
            )
        },
        KeyCode::Backspace => {
            &&& act == Action::Nothing
            &&& only_palette
            &&& if p0.editing_custom {
                &&& a1.cmd_palette.custom_input@ == drop_last_char(p0.custom_input@)
                &&& a1.cmd_palette == (CommandPalette {
                    custom_input: a1.cmd_palette.custom_input,
                    ..p0
                })
            } else {
                arg_edited(p0, cfg, a1.cmd_palette, |s: Seq<char>| drop_last_char(s))
            }
        },
        KeyCode::Enter => {
            &&& a1 == a0
            &&& if p0.editing_custom {
                let t = trim(p0.custom_input@);
                if t.len() > 0 {
                    act matches Action::Send { payload, label } && payload@ == t && label@
                        == "custom"@
                } else {
                    act == Action::Nothing
                }
            } else if p0.selected < custom_idx {
                act matches Action::SendPredefined { context, spec_index, inputs } && context@
                    == a0.contexts@[a0.active as int].name@ && spec_index == p0.selected && views(
                    inputs@,
                ) == p0.current_inputs(cfg)
            } else {
                act == Action::Nothing
            }
        },
        KeyCode::Char(c) => {
            &&& act == Action::Nothing
            &&& only_palette
            &&& if p0.editing_custom {
                &&& a1.cmd_palette.custom_input@ == p0.custom_input@.push(c)
                &&& a1.cmd_palette == (CommandPalette {
                    custom_input: a1.cmd_palette.custom_input,
                    ..p0
                })
            } else {
                arg_edited(p0, cfg, a1.cmd_palette, |s: Seq<char>| s.push(c))
            }
        },
        _ => act == Action::Nothing && a1 == a0,
    }
}

/// The constant denominator after `+`: ten times larger, saturating, and
/// never 0.
pub open spec fn const_den_up(d: u64) -> u64 {
    if d * 10 > u64::MAX {
        u64::MAX
    } else if d == 0 {
        1
    } else {
        (d * 10) as u64
    }
}

/// The constant denominator after `-`: ten times smaller, at least 1.
pub open spec fn const_den_down(d: u64) -> u64 {
    if d / 10 >= 1 {
        (d / 10) as u64
    } else {
        1
    }
}

/// What a key does while the command palette is closed.
pub open spec fn key_rel(a0: App, k: KeyPress, a1: App, act: Action) -> bool {
    let fit_y = Action::Fit { x: false, y: a0.auto_y };
    match k.code {
        KeyCode::Char('q') => a1 == a0 && act == Action::Quit,
        KeyCode::Char(':') => act == Action::Nothing && if a0.cmd_cfg.tcp_addr is Some {
            palette_opened(a0, a1)
        } else {
            a1 == a0
        },
        KeyCode::Char('h') => act == Action::Nothing && a1 == (App {
            context_hscroll: sat_sub(a0.context_hscroll as int, 4) as u16,
            ..a0
        }),
        KeyCode::Char('H') => act == Action::Nothing && a1 == (App {
            context_hscroll: sat_sub(a0.context_hscroll as int, 12) as u16,
            ..a0
        }),
        KeyCode::Char('L') => act == Action::Nothing && a1 == (App {
            context_hscroll: sat_add(a0.context_hscroll as int, 12, u16::MAX as int) as u16,
            ..a0
        }),
        KeyCode::Char('r') => act == Action::Nothing && a1 == (App {
            context_hscroll: sat_add(a0.context_hscroll as int, 4, u16::MAX as int) as u16,
            ..a0
        }),
        KeyCode::Left => a1 == a0 && act == if k.ctrl {
            Action::ZoomIn
        } else {
            Action::PanLeft
        },
        KeyCode::Right => a1 == a0 && act == if k.ctrl {
            Action::ZoomOut
        } else {
            Action::PanRight
        },
        KeyCode::Down => if a0.active + 1 < a0.contexts@.len() {
            a1 == (App { active: (a0.active + 1) as usize, ..a0 }) && act == (Action::Fit {
                x: a0.auto_x,
                y: a0.auto_y,
            })
        } else {
            a1 == a0 && act == Action::Nothing
        },
        KeyCode::Up => if a0.active > 0 {
            a1 == (App { active: (a0.active - 1) as usize, ..a0 }) && act == (Action::Fit {
                x: a0.auto_x,
                y: a0.auto_y,
            })
        } else {
            a1 == a0 && act == Action::Nothing
        },
        KeyCode::PageDown => act == Action::Nothing && a1 == (App {
            list_offset: sat_add(a0.list_offset as int, 5, usize::MAX as int) as usize,
            ..a0
        }),
        KeyCode::PageUp => act == Action::Nothing && a1 == (App {
            list_offset: sat_sub(a0.list_offset as int, 5) as usize,
            ..a0
        }),
        KeyCode::Char('g') => act == fit_y && a1 == (App { scale_mode: a0.scale_mode.other(), ..a0 }),
        KeyCode::Char('a') => act == (Action::Fit { x: !a0.auto_x, y: false }) && a1 == (App {
            auto_x: !a0.auto_x,
            ..a0
        }),
        KeyCode::Char('s') => act == (Action::Fit { x: false, y: !a0.auto_y }) && a1 == (App {
            auto_y: !a0.auto_y,
            ..a0
        }),
        KeyCode::Char('x') => a1 == a0 && act == (Action::Fit { x: true, y: false }),
        KeyCode::Char('y') => a1 == a0 && act == (Action::Fit { x: false, y: true }),
        KeyCode::Char('f') => a1 == a0 && act == (Action::Fit { x: true, y: true }),
        KeyCode::Char('l') => act == Action::Nothing && a1 == (App {
            show_logs: !a0.show_logs,
            ..a0
        }),
        KeyCode::Char('[') => act == Action::Nothing && a1 == (App {
            log_height: if sat_sub(a0.log_height as int, 1) >= 3 {
                sat_sub(a0.log_height as int, 1) as u16
            } else {
                3
            },
            ..a0
        }),
        KeyCode::Char(']') => act == Action::Nothing && a1 == (App {
            log_height: if sat_add(a0.log_height as int, 1, u16::MAX as int) <= 30 {
                sat_add(a0.log_height as int, 1, u16::MAX as int) as u16
            } else {
                30
            },
            ..a0
        }),
        KeyCode::Char('J') => act == Action::Nothing && a1 == (App {
            log_follow: false,
            log_scroll: sat_add(a0.log_scroll as int, 1, u16::MAX as int) as u16,
            ..a0
        }),
        KeyCode::Char('K') => act == Action::Nothing && a1 == (App {
            log_follow: false,
            log_scroll: sat_sub(a0.log_scroll as int, 1) as u16,
            ..a0
        }),
        KeyCode::Char('F') => act == Action::Nothing && a1 == (App {
            log_follow: !a0.log_follow,
            log_scroll: if !a0.log_follow {
                tail_scroll(a0.contexts@[a0.active as int].logs.msgs@.len(), a0.log_height)
            } else {
                a0.log_scroll
            },
            ..a0
        }),
        KeyCode::Char('p') => act == Action::Nothing && a1 == (App { step_y: !a0.step_y, ..a0 }),
        KeyCode::Char('m') => act == fit_y && a1 == (App {
            value_cfg: (ValueConfig { mode: a0.value_cfg.mode.after(), ..a0.value_cfg }),
            ..a0
        }),
        KeyCode::Char('+') | KeyCode::Char('=') => act == fit_y && a1 == (App {
            value_cfg: (ValueConfig { const_den: const_den_up(a0.value_cfg.const_den), ..a0.value_cfg }),
            ..a0
        }),
        KeyCode::Char('-') => act == fit_y && a1 == (App {
            value_cfg: (ValueConfig {
                const_den: const_den_down(a0.value_cfg.const_den),
                ..a0.value_cfg
            }),
            ..a0
        }),
        _ => a1 == a0 && act == Action::Nothing,
    }
}

/// What a mouse event does: the wheel scrolls the log (and stops it
/// following), a click on a context's row makes it active.
pub open spec fn mouse_rel(a0: App, kind: MouseKind, row: u16, a1: App, act: Action) -> bool {
    match kind {
        MouseKind::ScrollDown => act == Action::Nothing && a1 == (App {
            log_follow: false,
            log_scroll: sat_add(a0.log_scroll as int, 3, u16::MAX as int) as u16,
            ..a0
        }),
        MouseKind::ScrollUp => act == Action::Nothing && a1 == (App {
            log_follow: false,
            log_scroll: sat_sub(a0.log_scroll as int, 3) as u16,
            ..a0
        }),
        MouseKind::Down => {
            let index = sat_sub(row as int, 1);
            if index < a0.contexts@.len() {
                a1 == (App { active: index as usize, ..a0 }) && act == (Action::Fit {
                    x: a0.auto_x,
                    y: a0.auto_y,
                })
            } else {
                a1 == a0 && act == Action::Nothing
            }
        },
        MouseKind::Other => a1 == a0 && act == Action::Nothing,
    }
}

impl App {
    /// Opens the command palette on the first command.
    pub fn open_command_palette(&mut self)
        requires
            old(self).wf(),
        ensures
            final(self).wf(),
            palette_opened(*old(self), *final(self)),
    {
        self.cmd_palette.open = true;
        self.cmd_palette.selected = 0;
        self.cmd_palette.editing_custom = false;
        self.cmd_palette.arg_index = 0;
        self.cmd_palette.status = None;
        self.cmd_palette.sync_with_selection(&self.cmd_cfg);
    }

    /// Handles a key while the command palette is open.
    #[verifier::rlimit(100)]
    pub fn handle_command_palette_key(&mut self, code: KeyCode) -> (act: Action)
        requires
            old(self).wf(),
        ensures
            final(self).wf(),
            palette_key_rel(*old(self), code, *final(self), act),
    {
        let custom_idx = self.cmd_cfg.commands.len();
        match code {
            KeyCode::Esc => {
                self.cmd_palette.open = false;
                self.cmd_palette.editing_custom = false;
                Action::Nothing
            },
            KeyCode::Up => {
                if self.cmd_palette.selected > 0 {
                    self.cmd_palette.selected -= 1;
                }
                self.cmd_palette.editing_custom = self.cmd_palette.selected == custom_idx;
                self.cmd_palette.arg_index = 0;
                self.cmd_palette.sync_with_selection(&self.cmd_cfg);
                Action::Nothing
            },
            KeyCode::Down => {
                if self.cmd_palette.selected < custom_idx {
                    self.cmd_palette.selected += 1;
                }
                self.cmd_palette.editing_custom = self.cmd_palette.selected == custom_idx;
                self.cmd_palette.arg_index = 0;
                self.cmd_palette.sync_with_selection(&self.cmd_cfg);
                Action::Nothing
            },
            KeyCode::Tab | KeyCode::Right => {
                if self.cmd_palette.editing_custom {
                    return Action::Nothing;
                }
                let len = self.cmd_palette.current_arg_inputs(&self.cmd_cfg).len();
                if len > 0 {
                    let a = self.cmd_palette.arg_index;
                    self.cmd_palette.arg_index = (a % len + 1) % len;
                    proof {
                        vstd::arithmetic::div_mod::lemma_add_mod_noop(a as int, 1, len as int);
                        if len == 1 {
                            assert((a as int + 1) % 1 == 0);
                            assert(((a % len) as int + 1) % 1 == 0);
                        } else {
                            vstd::arithmetic::div_mod::lemma_small_mod(1, len as nat);
                        }
                    }
                }
                Action::Nothing
            },
            KeyCode::BackTab | KeyCode::Left => {
                if self.cmd_palette.editing_custom {
                    return Action::Nothing;
                }
                let len = self.cmd_palette.current_arg_inputs(&self.cmd_cfg).len();
                if len > 0 {
                    self.cmd_palette.arg_index = if self.cmd_palette.arg_index == 0 {
                        len - 1
                    } else {
                        self.cmd_palette.arg_index - 1
                    };
                }
                Action::Nothing
            },
            KeyCode::Char('i') => {
                self.cmd_palette.selected = custom_idx;
                self.cmd_palette.editing_custom = true;
                self.cmd_palette.arg_index = 0;
                self.cmd_palette.sync_with_selection(&self.cmd_cfg);
                Action::Nothing
            },
            KeyCode::Backspace => {
                if self.cmd_palette.editing_custom {
                    string_pop(&mut self.cmd_palette.custom_input);
                } else {
                    self.cmd_palette.pop_arg_char(&self.cmd_cfg);
                }
                Action::Nothing
            },
            KeyCode::Enter => {
                if self.cmd_palette.editing_custom {
                    let payload = trim_str(self.cmd_palette.custom_input.as_str());
                    if !payload.as_str().is_empty() {
                        Action::Send { payload, label: lit("custom") }
                    } else {
                        Action::Nothing
                    }
                } else if self.cmd_palette.selected < custom_idx {
                    let context = self.contexts[self.active].name.clone();
                    let inputs = self.cmd_palette.current_arg_inputs(&self.cmd_cfg);
                    Action::SendPredefined { context, spec_index: self.cmd_palette.selected, inputs }
                } else {
                    Action::Nothing
                }
            },
            KeyCode::Char(c) => {
                if self.cmd_palette.editing_custom {
                    string_push(&mut self.cmd_palette.custom_input, c);
                } else {
                    self.cmd_palette.push_arg_char(&self.cmd_cfg, c);
                }
                Action::Nothing
            },
            _ => Action::Nothing,
        }
    }
}


/// The log line that records a sent command.
pub open spec fn sent_line(payload: Seq<char>) -> Seq<char> {
    "cmd -> "@ + payload
}

impl App {
    /// Handles a key press: in the command palette while it is open,
    /// otherwise on the chart.
    pub fn handle_key(&mut self, k: KeyPress) -> (act: Action)
        requires
            old(self).wf(),
        ensures
            final(self).wf(),
            old(self).cmd_palette.open ==> palette_key_rel(*old(self), k.code, *final(self), act),
            !old(self).cmd_palette.open ==> key_rel(*old(self), k, *final(self), act),
    {
        if self.cmd_palette.open {
            self.handle_command_palette_key(k.code)
        } else {
            self.handle_view_key(k)
        }
    }

    /// Handles a key on the chart.
    #[verifier::rlimit(100)]
    fn handle_view_key(&mut self, k: KeyPress) -> (act: Action)
        requires
            old(self).wf(),
        ensures
            final(self).wf(),
            key_rel(*old(self), k, *final(self), act),
    {
        match k.code {
            KeyCode::Char('q') => Action::Quit,
            KeyCode::Char(':') => {
                if self.cmd_cfg.enabled() {
                    self.open_command_palette();
                }
                Action::Nothing
            },
            KeyCode::Char('h') => {
                self.context_hscroll = self.context_hscroll.saturating_sub(4);
                Action::Nothing
            },
            KeyCode::Char('H') => {
                self.context_hscroll = self.context_hscroll.saturating_sub(12);
                Action::Nothing
            },
            KeyCode::Char('L') => {
                self.context_hscroll = self.context_hscroll.saturating_add(12);
                Action::Nothing
            },
            KeyCode::Char('r') => {
                self.context_hscroll = self.context_hscroll.saturating_add(4);
                Action::Nothing
            },
            KeyCode::Left => {
                if k.ctrl {
                    Action::ZoomIn
                } else {
                    Action::PanLeft
                }
            },
            KeyCode::Right => {
                if k.ctrl {
                    Action::ZoomOut
                } else {
                    Action::PanRight
                }
            },
            KeyCode::Down => {
                let n = self.contexts.len();
                if self.active + 1 < n {
                    self.active += 1;
                    Action::Fit { x: self.auto_x, y: self.auto_y }
                } else {
                    Action::Nothing
                }
            },
            KeyCode::Up => {
                if self.active > 0 {
                    self.active -= 1;
                    Action::Fit { x: self.auto_x, y: self.auto_y }
                } else {
                    Action::Nothing
                }
            },
            KeyCode::PageDown => {
                self.list_offset = if self.list_offset <= usize::MAX - 5 {
                    self.list_offset + 5
                } else {
                    usize::MAX
                };
                Action::Nothing
            },
            KeyCode::PageUp => {
                self.list_offset = if self.list_offset >= 5 {
                    self.list_offset - 5
                } else {
                    0
                };
                Action::Nothing
            },
            KeyCode::Char('g') => {
                self.scale_mode = self.scale_mode.toggle();
                Action::Fit { x: false, y: self.auto_y }
            },
            KeyCode::Char('a') => {
                self.auto_x = !self.auto_x;
                Action::Fit { x: self.auto_x, y: false }
            },
            KeyCode::Char('s') => {
                self.auto_y = !self.auto_y;
                Action::Fit { x: false, y: self.auto_y }
            },
            KeyCode::Char('x') => Action::Fit { x: true, y: false },
            KeyCode::Char('y') => Action::Fit { x: false, y: true },
            KeyCode::Char('f') => Action::Fit { x: true, y: true },
            KeyCode::Char('l') => {
                self.show_logs = !self.show_logs;
                Action::Nothing
            },
            KeyCode::Char('[') => {
                let h = self.log_height.saturating_sub(1);
                self.log_height = if h >= 3 {
                    h
                } else {
                    3
                };
                Action::Nothing
            },
            KeyCode::Char(']') => {
                let h = self.log_height.saturating_add(1);
                self.log_height = if h <= 30 {
                    h
                } else {
                    30
                };
                Action::Nothing
            },
            KeyCode::Char('J') => {
                self.log_follow = false;
                self.log_scroll = self.log_scroll.saturating_add(1);
                Action::Nothing
            },
            KeyCode::Char('K') => {
                self.log_follow = false;
                self.log_scroll = self.log_scroll.saturating_sub(1);
                Action::Nothing
            },
            KeyCode::Char('F') => {
                self.log_follow = !self.log_follow;
                if self.log_follow {
                    self.refresh_log_scroll_tail();
                }
                Action::Nothing
            },
            KeyCode::Char('p') => {
                self.step_y = !self.step_y;
                Action::Nothing
            },
            KeyCode::Char('m') => {
                self.value_cfg.mode = self.value_cfg.mode.next();
                Action::Fit { x: false, y: self.auto_y }
            },
            KeyCode::Char('+') | KeyCode::Char('=') => {
                let d = match self.value_cfg.const_den.checked_mul(10) {
                    Some(v) => v,
                    None => u64::MAX,
                };
                self.value_cfg.const_den = if d == 0 {
                    1
                } else {
                    d
                };
                Action::Fit { x: false, y: self.auto_y }
            },
            KeyCode::Char('-') => {
                let d = self.value_cfg.const_den / 10;
                self.value_cfg.const_den = if d >= 1 {
                    d
                } else {
                    1
                };
                Action::Fit { x: false, y: self.auto_y }
            },
            _ => Action::Nothing,
        }
    }

    /// Handles a mouse event; `row` is the screen row it happened on.
    pub fn handle_mouse(&mut self, kind: MouseKind, row: u16) -> (act: Action)
        requires
            old(self).wf(),
        ensures
            final(self).wf(),
            mouse_rel(*old(self), kind, row, *final(self), act),
    {
        match kind {
            MouseKind::ScrollDown => {
                self.log_follow = false;
                self.log_scroll = self.log_scroll.saturating_add(3);
                Action::Nothing
            },
            MouseKind::ScrollUp => {
                self.log_follow = false;
                self.log_scroll = self.log_scroll.saturating_sub(3);
                Action::Nothing
            },
            MouseKind::Down => {
                let index = row.saturating_sub(1) as usize;
                if index < self.contexts.len() {
                    self.active = index;
                    Action::Fit { x: self.auto_x, y: self.auto_y }
                } else {
                    Action::Nothing
                }
            },
            MouseKind::Other => Action::Nothing,
        }
    }

    /// The command socket's address; where none is configured, says so in
    /// the palette's status line.
    pub fn send_target(&mut self) -> (r: Option<String>)
        requires
            old(self).wf(),
        ensures
            final(self).wf(),
            r == old(self).cmd_cfg.tcp_addr,
            r is Some ==> *final(self) == *old(self),
            r is None ==> {
                &&& final(self).cmd_palette.status matches Some(st) && st@
                    == "command socket is not configured"@
                &&& *final(self) == (App {
                    cmd_palette: (CommandPalette {
                        status: final(self).cmd_palette.status,
                        ..old(self).cmd_palette
                    }),
                    ..*old(self)
                })
            },
    {
        match &self.cmd_cfg.tcp_addr {
            Some(a) => Some(a.clone()),
            None => {
                self.cmd_palette.status = Some(lit("command socket is not configured"));
                None
            },
        }
    }

    /// Records the outcome of sending `payload` under `label` at `now`:
    /// on success the palette closes, says `sent: <label>`, and the active
    /// context logs `cmd -> <payload>`; on failure the palette shows the
    /// error.
    pub fn finish_send(&mut self, payload: &str, label: &str, result: Result<(), String>, now: i64)
        requires
            old(self).wf(),
        ensures
            final(self).wf(),
            match result {
                Ok(_) => {
                    let act = old(self).active as int;
                    let c0 = old(self).contexts@[act];
                    let c1 = final(self).contexts@[act];
                    &&& final(self).cmd_palette.status matches Some(st) && st@ == "sent: "@
                        + label@
                    &&& final(self).cmd_palette == (CommandPalette {
                        open: false,
                        editing_custom: false,
                        status: final(self).cmd_palette.status,
                        ..old(self).cmd_palette
                    })
                    &&& final(self).contexts@.len() == old(self).contexts@.len()
                    &&& forall|j: int|
                        0 <= j < old(self).contexts@.len() && j != act
                            ==> #[trigger] final(self).contexts@[j] == old(self).contexts@[j]
                    &&& c1 == (Context { logs: c1.logs, ..c0 })
                    &&& c1.logs.msgs@.len() == push_evicting(
                        c0.logs.msgs@,
                        c1.logs.msgs@.last(),
                        LOG_CAPACITY as nat,
                    ).len()
                    &&& c1.logs.msgs@ == push_evicting(
                        c0.logs.msgs@,
                        c1.logs.msgs@.last(),
                        LOG_CAPACITY as nat,
                    )
                    &&& c1.logs.msgs@.last().ts == now
                    &&& c1.logs.msgs@.last().text@ == sent_line(payload@)
                    &&& c1.logs.msgs@.last().event is None
                    &&& final(self).log_scroll == if old(self).log_follow {
                        tail_scroll(c1.logs.msgs@.len(), old(self).log_height)
                    } else {
                        old(self).log_scroll
                    }
                    &&& *final(self) == (App {
                        contexts: final(self).contexts,
                        cmd_palette: final(self).cmd_palette,
                        log_scroll: final(self).log_scroll,
                        ..*old(self)
                    })
                },
                Err(e) => *final(self) == (App {
                    cmd_palette: (CommandPalette { status: Some(e), ..old(self).cmd_palette }),
                    ..*old(self)
                }),
            },
    {
        match result {
            Ok(_) => {
                let mut st = lit("sent: ");
                push_str(&mut st, label);
                self.cmd_palette.status = Some(st);
                self.cmd_palette.open = false;
                self.cmd_palette.editing_custom = false;
                let mut text = lit("cmd -> ");
                push_str(&mut text, payload);
                let active = self.active;
                let ghost before = self.contexts@;
                assert(context_ok(self.contexts@[active as int]));
                self.contexts[active].logs.add(LogEntry { ts: now, text, event: None });
                proof {
                    assert forall|k: int| 0 <= k < self.contexts@.len() implies context_ok(
                        #[trigger] self.contexts@[k],
                    ) by {
                        if k != active {
                            assert(self.contexts@[k] == before[k]);
                        }
                    }
                }
                if self.log_follow {
                    self.refresh_log_scroll_tail();
                }
            },
            Err(e) => {
                self.cmd_palette.status = Some(e);
            },
        }
    }

    /// Shows why a command could not be built.
    pub fn report_command_error(&mut self, e: String)
        ensures
            *final(self) == (App {
                cmd_palette: (CommandPalette { status: Some(e), ..old(self).cmd_palette }),
                ..*old(self)
            }),
    {
        self.cmd_palette.status = Some(e);
    }
}


/// Whether some sample of the context has time `x`.
pub open spec fn has_x(c: Context, x: i64) -> bool {
    exists|i: int, j: int|
        0 <= i < c.datasets@.len() && 0 <= j < c.datasets@[i].points@.len()
            && #[trigger] c.datasets@[i].points@[j].x_us == x
}

/// Every sample of the context has a time within `[lo, hi]`.
pub open spec fn all_x_within(c: Context, lo: i64, hi: i64) -> bool {
    forall|i: int, j: int|
        0 <= i < c.datasets@.len() && 0 <= j < c.datasets@[i].points@.len() ==> lo
            <= #[trigger] c.datasets@[i].points@[j].x_us <= hi
}

impl App {
    /// The earliest and the latest sample time of the active context, where
    /// it has samples.
    pub fn x_range(&self) -> (r: Option<(i64, i64)>)
        requires
            self.wf(),
        ensures
            ({
                let c = self.contexts@[self.active as int];
                match r {
                    Some((lo, hi)) => has_x(c, lo) && has_x(c, hi) && all_x_within(c, lo, hi),
                    None => forall|i: int|
                        0 <= i < c.datasets@.len() ==> #[trigger] c.datasets@[i].points@.len() == 0,
                }
            }),
    {
        let c = &self.contexts[self.active];
        let mut r: Option<(i64, i64)> = None;
        let mut i: usize = 0;
        while i < c.datasets.len()
            invariant
                i <= c.datasets@.len(),
                match r {
                    Some((lo, hi)) => has_x(*c, lo) && has_x(*c, hi) && forall|a: int, b: int|
                        0 <= a < i && 0 <= b < c.datasets@[a].points@.len() ==> lo
                            <= #[trigger] c.datasets@[a].points@[b].x_us <= hi,
                    None => forall|a: int|
                        0 <= a < i ==> #[trigger] c.datasets@[a].points@.len() == 0,
                },
            decreases c.datasets@.len() - i,
        {
            let pts = &c.datasets[i].points;
            let mut j: usize = 0;
            while j < pts.len()
                invariant
                    i < c.datasets@.len(),
                    *pts == c.datasets@[i as int].points,
                    j <= pts@.len(),
                    match r {
                        Some((lo, hi)) => has_x(*c, lo) && has_x(*c, hi) && (forall|a: int, b: int|
                            0 <= a < i && 0 <= b < c.datasets@[a].points@.len() ==> lo
                                <= #[trigger] c.datasets@[a].points@[b].x_us <= hi) && (forall|
                            b: int,
                        | 0 <= b < j ==> lo <= #[trigger] pts@[b].x_us <= hi),
                        None => (forall|a: int|
                            0 <= a < i ==> #[trigger] c.datasets@[a].points@.len() == 0) && j
                            == 0,
                    },
                decreases pts@.len() - j,
            {
                let x = pts[j].x_us;
                assert(c.datasets@[i as int].points@[j as int].x_us == x);
                r = match r {
                    Some((lo, hi)) => Some(
                        (
                            if x < lo {
                                x
                            } else {
                                lo
                            },
                            if x > hi {
                                x
                            } else {
                                hi
                            },
                        ),
                    ),
                    None => Some((x, x)),
                };
                j += 1;
            }
            i += 1;
        }
        r
    }
}


pub open spec fn on_off(b: bool) -> Seq<char> {
    if b {
        "on"@
    } else {
        "off"@
    }
}

pub open spec fn mode_name(m: ValueMode) -> Seq<char> {
    match m {
        ValueMode::Ratio => "num/den"@,
        ValueMode::Numerator => "num"@,
        ValueMode::NumeratorPerConst => "num/const"@,
    }
}

/// The lines of the options panel: each key with the setting it changes.
pub open spec fn option_lines_spec(a: App) -> Seq<Seq<char>> {
    let base = seq![
        "[g] scale   : "@ + match a.scale_mode {
            ScaleMode::Linear => "linear"@,
            ScaleMode::Log10 => "log10"@,
        },
        "[a] auto-x  : "@ + on_off(a.auto_x),
        "[s] auto-y  : "@ + on_off(a.auto_y),
        "[p] step    : "@ + on_off(a.step_y),
        "[m] mode    : "@ + mode_name(a.value_cfg.mode),
        "[+] const   : "@ + decimal(a.value_cfg.const_den as nat),
        "[-] const   : "@ + decimal(a.value_cfg.const_den as nat),
        "[[] logs-   : "@ + decimal(a.log_height as nat),
        "[]] logs+   : "@ + decimal(a.log_height as nat),
        "[J] log dn  : "@ + decimal(a.log_scroll as nat),
        "[K] log up  : "@ + decimal(a.log_scroll as nat),
        "[F] follow  : "@ + on_off(a.log_follow),
        "[h/r] ctx x : "@ + decimal(a.context_hscroll as nat),
        "[n] new ctx"@,
    ];
    if a.cmd_cfg.tcp_addr is Some {
        base.push("[:] commands"@)
    } else {
        base
    }
}

fn push_on_off(s: &mut String, b: bool)
    ensures
        final(s)@ == old(s)@ + on_off(b),
{
    if b {
        push_str(s, "on");
    } else {
        push_str(s, "off");
    }
}

fn option_line(label: &str, value: &str) -> (r: String)
    ensures
        r@ == label@ + value@,
{
    let mut s = lit(label);
    push_str(&mut s, value);
    s
}

fn option_number(label: &str, n: u64) -> (r: String)
    ensures
        r@ == label@ + decimal(n as nat),
{
    let mut s = lit(label);
    push_u64(&mut s, n);
    s
}

fn option_flag(label: &str, b: bool) -> (r: String)
    ensures
        r@ == label@ + on_off(b),
{
    let mut s = lit(label);
    push_on_off(&mut s, b);
    s
}

/// One row of the argument list of the selected command.
#[derive(Debug)]
pub struct ArgRow {
    pub name: String,
    pub type_label: &'static str,
    pub value: String,
    pub focused: bool,
}

/// What the command palette shows: each command and whether it is
/// selected, the custom line and whether it is selected, the arguments of
/// the selected command, and the status line.
#[derive(Debug)]
pub struct PaletteView {
    pub commands: Vec<(String, bool)>,
    pub custom_selected: bool,
    pub custom_input: String,
    pub args: Option<Vec<ArgRow>>,
    pub status: Option<String>,
}

pub open spec fn type_label_spec(t: ArgType) -> Seq<char> {
    match t {
        ArgType::Int => "int"@,
        ArgType::Float => "float"@,
        ArgType::String => "string"@,
    }
}

impl App {
    /// The lines of the options panel.
    pub fn option_lines(&self) -> (r: Vec<String>)
        ensures
            views(r@) == option_lines_spec(*self),
    {
        let mut r: Vec<String> = Vec::new();
        r.push(option_line("[g] scale   : ", self.scale_mode.name()));
        r.push(option_flag("[a] auto-x  : ", self.auto_x));
        r.push(option_flag("[s] auto-y  : ", self.auto_y));
        r.push(option_flag("[p] step    : ", self.step_y));
        r.push(option_line("[m] mode    : ", self.value_cfg.mode.name()));
        r.push(option_number("[+] const   : ", self.value_cfg.const_den));
        r.push(option_number("[-] const   : ", self.value_cfg.const_den));
        r.push(option_number("[[] logs-   : ", self.log_height as u64));
        r.push(option_number("[]] logs+   : ", self.log_height as u64));
        r.push(option_number("[J] log dn  : ", self.log_scroll as u64));
        r.push(option_number("[K] log up  : ", self.log_scroll as u64));
        r.push(option_flag("[F] follow  : ", self.log_follow));
        r.push(option_number("[h/r] ctx x : ", self.context_hscroll as u64));
        r.push(lit("[n] new ctx"));
        if self.cmd_cfg.enabled() {
            r.push(lit("[:] commands"));
        }
        assert(views(r@) =~= option_lines_spec(*self));
        r
    }

    /// What the command palette shows.
    pub fn palette_view(&self) -> (v: PaletteView)
        requires
            self.wf(),
        ensures
            ({
                let p = self.cmd_palette;
                let cfg = self.cmd_cfg;
                &&& v.commands@.len() == cfg.commands@.len()
                &&& forall|i: int|
                    #![trigger v.commands@[i]]
                    0 <= i < v.commands@.len() ==> v.commands@[i].0@ == cfg.commands@[i].name@
                        && v.commands@[i].1 == (i == p.selected && !p.editing_custom)
                &&& v.custom_selected == (p.selected == cfg.commands@.len())
                &&& v.custom_input@ == p.custom_input@
                &&& v.status == p.status
                &&& if !p.editing_custom && p.selected < cfg.commands@.len() {
                    let spec = cfg.commands@[p.selected as int];
                    let cur = p.current_inputs(cfg);
                    v.args matches Some(rows) && rows@.len() == spec.args@.len() && forall|i: int|
                        #![trigger rows@[i]]
                        0 <= i < rows@.len() ==> rows@[i].name@ == spec.args@[i].name@
                            && rows@[i].type_label@ == type_label_spec(spec.args@[i].arg_type)
                            && rows@[i].value@ == (if i < cur.len() {
                            cur[i]
                        } else {
                            spec.args@[i].default_value@
                        }) && rows@[i].focused == (i == p.arg_index)
                } else {
                    v.args is None
                }
            }),
    {
        let p = &self.cmd_palette;
        let cfg = &self.cmd_cfg;
        let mut commands: Vec<(String, bool)> = Vec::new();
        let mut i: usize = 0;
        while i < cfg.commands.len()
            invariant
                i <= cfg.commands@.len(),
                commands@.len() == i,
                forall|k: int|
                    #![trigger commands@[k]]
                    0 <= k < i ==> commands@[k].0@ == cfg.commands@[k].name@ && commands@[k].1 == (k
                        == p.selected && !p.editing_custom),
            decreases cfg.commands@.len() - i,
        {
            commands.push((cfg.commands[i].name.clone(), i == p.selected && !p.editing_custom));
            i += 1;
        }
        let args = if !p.editing_custom && p.selected < cfg.commands.len() {
            let spec = &cfg.commands[p.selected];
            let cur = p.current_arg_inputs(cfg);
            let mut rows: Vec<ArgRow> = Vec::new();
            let mut k: usize = 0;
            while k < spec.args.len()
                invariant
                    k <= spec.args@.len(),
                    rows@.len() == k,
                    views(cur@) == p.current_inputs(*cfg),
                    forall|m: int|
                        #![trigger rows@[m]]
                        0 <= m < k ==> rows@[m].name@ == spec.args@[m].name@ && rows@[m].type_label@
                            == type_label_spec(spec.args@[m].arg_type) && rows@[m].value@ == (if m
                            < views(cur@).len() {
                            views(cur@)[m]
                        } else {
                            spec.args@[m].default_value@
                        }) && rows@[m].focused == (m == p.arg_index),
                decreases spec.args@.len() - k,
            {
                let a = &spec.args[k];
                let value = if k < cur.len() {
                    cur[k].clone()
                } else {
                    a.default_value.clone()
                };
                rows.push(
                    ArgRow {
                        name: a.name.clone(),
                        type_label: a.arg_type.label(),
                        value,
                        focused: k == p.arg_index,
                    },
                );
                k += 1;
            }
            Some(rows)
        } else {
            None
        };
        let status = match &p.status {
            Some(s) => Some(s.clone()),
            None => None,
        };
        PaletteView {
            commands,
            custom_selected: p.selected == cfg.commands.len(),
            custom_input: p.custom_input.clone(),
            args,
            status,
        }
    }
}


/// The start of the log line of an ingested sample: its series, time,
/// numerator and denominator.
pub open spec fn ingest_prefix_spec(key: SeriesKey, sample: Sample) -> Seq<char> {
    key.display_name_spec() + " -> x="@ + crate::text::decimal_int(sample.x_us as int) + " num="@
        + decimal(sample.num as nat) + " den="@ + decimal(sample.den as nat)
}

/// `<series> -> x=<x> num=<num> den=<den>`, the start of an ingest log line.
pub fn ingest_log_prefix(key: SeriesKey, sample: &Sample) -> (s: String)
    ensures
        s@ == ingest_prefix_spec(key, *sample),
{
    let mut s = key.display_name();
    push_str(&mut s, " -> x=");
    crate::text::push_i64(&mut s, sample.x_us);
    push_str(&mut s, " num=");
    push_u64(&mut s, sample.num);
    push_str(&mut s, " den=");
    push_u64(&mut s, sample.den);
    s
}


impl App {
    /// A log entry's full time, `YYYY-MM-DD HH:MM:SS.ffffffZ` in UTC; empty
    /// where chrono cannot represent the time.
    pub fn format_log_timestamp_full(ts: i64) -> (s: String)
        ensures
            s@ == utc_text_or_empty(ts, LOG_TIME_PATTERN@),
    {
        match format_utc_micros(ts, LOG_TIME_PATTERN) {
            Some(t) => t,
            None => String::new(),
        }
    }

    /// The color of an event field name, the same for the same name.
    pub fn color_for_json_field_name(name: &str) -> (c: Color)
        ensures
            c == field_color(name@),
    {
        let bytes = name.as_bytes();
        let mut h: u64 = 1469598103934665603;
        let mut i: usize = 0;
        while i < bytes.len()
            invariant
                bytes@ == encode_utf8(name@),
                i <= bytes@.len(),
                h == fnv1a(bytes@.take(i as int)),
            decreases bytes@.len() - i,
        {
            assert(bytes@.take(i + 1).drop_last() =~= bytes@.take(i as int));
            h ^= bytes[i] as u64;
            h = h.wrapping_mul(1099511628211);
            i += 1;
        }
        assert(bytes@.take(bytes@.len() as int) =~= bytes@);
        let k = h % 10;
        if k == 0 {
            Color::Cyan
        } else if k == 1 {
            Color::Yellow
        } else if k == 2 {
            Color::Green
        } else if k == 3 {
            Color::Magenta
        } else if k == 4 {
            Color::LightBlue
        } else if k == 5 {
            Color::LightCyan
        } else if k == 6 {
            Color::LightGreen
        } else if k == 7 {
            Color::LightMagenta
        } else if k == 8 {
            Color::LightYellow
        } else {
            Color::Blue
        }
    }
}

// ---------------------------------------------------------------- laws

/// What one key press does to the state, whether or not the command
/// palette is open.
pub open spec fn key_step(a0: App, k: KeyPress, a1: App, act: Action) -> bool {
    if a0.cmd_palette.open {
        palette_key_rel(a0, k.code, a1, act)
    } else {
        key_rel(a0, k, a1, act)
    }
}

/// The chart's toggles undo themselves: pressing `g`, `l`, `p`, `a` or `s`
/// twice on the chart leaves the state as it was.
pub proof fn lemma_toggle_twice(a0: App, k: KeyPress, a1: App, act1: Action, a2: App, act2: Action)
    requires
        k.code == KeyCode::Char('g') || k.code == KeyCode::Char('l') || k.code == KeyCode::Char(
            'p',
        ) || k.code == KeyCode::Char('a') || k.code == KeyCode::Char('s'),
        key_rel(a0, k, a1, act1),
        key_rel(a1, k, a2, act2),
    ensures
        a2 == a0,
{
    crate::model::lemma_scale_toggle_involution(a0.scale_mode);
}

proof fn lemma_step_down(a0: App, k: KeyPress, a1: App, act: Action)
    requires
        key_rel(a0, k, a1, act),
        k.code == KeyCode::Down,
        a0.active + 1 < a0.contexts@.len(),
    ensures
        a1 == (App { active: (a0.active + 1) as usize, ..a0 }),
{
}

proof fn lemma_step_up(a0: App, k: KeyPress, a1: App, act: Action)
    requires
        key_rel(a0, k, a1, act),
        k.code == KeyCode::Up,
        a0.active > 0,
    ensures
        a1 == (App { active: (a0.active - 1) as usize, ..a0 }),
{
}

/// Keys that move something one way are undone by the keys that move it
/// back, where neither move was cut off at a bound: `r`/`h` and `L`/`H`
/// (the context row's scroll), page down/up (the list's scroll), down/up
/// (the active context) and `]`/`[` (the log pane's height), in either
/// order.
#[verifier::spinoff_prover]
pub proof fn lemma_opposite_keys_undo(
    a0: App,
    k1: KeyPress,
    a1: App,
    act1: Action,
    k2: KeyPress,
    a2: App,
    act2: Action,
)
    requires
        a0.wf(),
        a0.contexts@.len() <= usize::MAX,
        key_rel(a0, k1, a1, act1),
        key_rel(a1, k2, a2, act2),
        ({
            let c1 = k1.code;
            let c2 = k2.code;
            ||| c1 == KeyCode::Char('r') && c2 == KeyCode::Char('h') && a0.context_hscroll + 4
                <= u16::MAX
            ||| c1 == KeyCode::Char('h') && c2 == KeyCode::Char('r') && a0.context_hscroll >= 4
            ||| c1 == KeyCode::Char('L') && c2 == KeyCode::Char('H') && a0.context_hscroll + 12
                <= u16::MAX
            ||| c1 == KeyCode::Char('H') && c2 == KeyCode::Char('L') && a0.context_hscroll >= 12
            ||| c1 == KeyCode::PageDown && c2 == KeyCode::PageUp && a0.list_offset + 5
                <= usize::MAX
            ||| c1 == KeyCode::PageUp && c2 == KeyCode::PageDown && a0.list_offset >= 5
            ||| c1 == KeyCode::Down && c2 == KeyCode::Up && a0.active + 1 < a0.contexts@.len()
            ||| c1 == KeyCode::Up && c2 == KeyCode::Down && a0.active > 0
            ||| c1 == KeyCode::Char(']') && c2 == KeyCode::Char('[') && 3 <= a0.log_height < 30
            ||| c1 == KeyCode::Char('[') && c2 == KeyCode::Char(']') && 3 < a0.log_height <= 30
        }),
    ensures
        a2 == a0,
{
    let c1 = k1.code;
    if c1 == KeyCode::Char('r') || c1 == KeyCode::Char('h') || c1 == KeyCode::Char('L') || c1
        == KeyCode::Char('H') {
        assert(a2.context_hscroll == a0.context_hscroll);
    } else if c1 == KeyCode::PageDown || c1 == KeyCode::PageUp {
        assert(a2.list_offset == a0.list_offset);
    } else if c1 == KeyCode::Down {
        lemma_step_down(a0, k1, a1, act1);
        lemma_step_up(a1, k2, a2, act2);
    } else if c1 == KeyCode::Up {
        lemma_step_up(a0, k1, a1, act1);
        lemma_step_down(a1, k2, a2, act2);
    } else {
        assert(a2.log_height == a0.log_height);
    }
}

/// The log pane's height stays between 3 and 30 rows, and the constant
/// denominator stays positive, whatever key is pressed.
pub proof fn lemma_key_keeps_bounds(a0: App, k: KeyPress, a1: App, act: Action)
    requires
        3 <= a0.log_height <= 30,
        a0.value_cfg.const_den > 0,
        key_step(a0, k, a1, act),
    ensures
        3 <= a1.log_height <= 30,
        a1.value_cfg.const_den > 0,
{
    if !a0.cmd_palette.open {
        let d = a0.value_cfg.const_den;
        if d * 10 <= u64::MAX {
            assert(d * 10 > 0) by (nonlinear_arith)
                requires
                    d > 0,
            ;
        }
    }
}

/// The mouse leaves the log pane's height and the constant denominator
/// alone.
pub proof fn lemma_mouse_keeps_bounds(a0: App, kind: MouseKind, row: u16, a1: App, act: Action)
    requires
        mouse_rel(a0, kind, row, a1, act),
    ensures
        a1.log_height == a0.log_height,
        a1.value_cfg == a0.value_cfg,
{
}

/// `+` and `-` always leave a positive constant denominator, even from 0.
pub proof fn lemma_const_den_positive(d: u64)
    ensures
        const_den_up(d) >= 1,
        const_den_down(d) >= 1,
{
    if d > 0 && d * 10 <= u64::MAX {
        assert(d * 10 > 0) by (nonlinear_arith)
            requires
                d > 0,
        ;
    }
}

proof fn lemma_first_named_facts(cs: Seq<Context>, name: Seq<char>)
    ensures
        0 <= first_named(cs, name) <= cs.len(),
        forall|i: int| 0 <= i < first_named(cs, name) ==> #[trigger] cs[i].name@ != name,
        first_named(cs, name) < cs.len() ==> cs[first_named(cs, name)].name@ == name,
    decreases cs.len(),
{
    if cs.len() > 0 && cs[0].name@ != name {
        let rest = cs.drop_first();
        lemma_first_named_facts(rest, name);
        assert forall|i: int| 0 <= i < first_named(cs, name) implies #[trigger] cs[i].name@
            != name by {
            if i > 0 {
                assert(cs[i] == rest[i - 1]);
            }
        }
    }
}

/// Asking twice for the context of one name gives the same index, and the
/// second time changes nothing, for a name of at most 50 characters (a
/// longer one is stored cut, so it is not found again).
pub proof fn lemma_get_or_create_idempotent(
    a0: App,
    name: Seq<char>,
    a1: App,
    r1: usize,
    a2: App,
    r2: usize,
)
    requires
        name.len() <= MAX_CONTEXT_CHARS,
        found_or_created(a0, name, a1, r1),
        found_or_created(a1, name, a2, r2),
    ensures
        r2 == r1,
        a2 == a1,
{
    lemma_first_named_facts(a0.contexts@, name);
    if r1 == a0.contexts@.len() {
        assert forall|i: int| 0 <= i < r1 implies #[trigger] a1.contexts@[i].name@ != name by {
            assert(a1.contexts@.take(r1 as int)[i] == a0.contexts@[i]);
        }
        assert(a1.contexts@[r1 as int].name@ == name);
        lemma_first_named(a1.contexts@, name, r1 as int);
    }
}

/// The prefix that a field is shown by: a prefix of the field; no shorter
/// non-empty prefix is the field's alone; and where it is shorter than the
/// field, exactly one field starts with it.
pub proof fn lemma_shortest_prefix(fields: Seq<Seq<char>>, f: Seq<char>)
    ensures
        shortest_prefix(fields, f).is_prefix_of(f),
        shortest_prefix(fields, f).len() < f.len() ==> prefix_count(
            fields,
            shortest_prefix(fields, f),
        ) == 1,
        forall|k: int|
            1 <= k < shortest_prefix(fields, f).len() ==> prefix_count(fields, #[trigger] f.take(k))
                != 1,
        f.len() > 0 ==> 1 <= shortest_prefix(fields, f).len() <= f.len(),
        f.len() == 0 ==> shortest_prefix(fields, f).len() == 0,
{
    lemma_prefix_search(fields, f, 1);
}

/// Every watched field is shown by a non-empty prefix of itself (at least
/// its first character), and an empty field by nothing.
pub proof fn lemma_display_keys_nonempty(r: Seq<(String, String)>, fields: Seq<String>)
    requires
        are_shortest_prefixes(r, fields),
    ensures
        forall|i: int|
            #![trigger r[i]]
            0 <= i < r.len() ==> r[i].1@.is_prefix_of(fields[i]@) && (fields[i]@.len() > 0 ==> 1
                <= r[i].1@.len() <= fields[i]@.len()),
{
    assert forall|i: int| #![trigger r[i]] 0 <= i < r.len() implies r[i].1@.is_prefix_of(
        fields[i]@,
    ) && (fields[i]@.len() > 0 ==> 1 <= r[i].1@.len() <= fields[i]@.len()) by {
        lemma_shortest_prefix(views(fields), fields[i]@);
    }
}

/// A single watched field is told apart by its first character alone.
pub proof fn lemma_single_field_prefix(f: Seq<char>)
    requires
        f.len() > 0,
    ensures
        shortest_prefix(seq![f], f) == f.take(1),
{
    let fields = seq![f];
    assert(fields.drop_last() =~= Seq::<Seq<char>>::empty());
    assert(prefix_count(Seq::<Seq<char>>::empty(), f.take(1)) == 0);
    assert(f.take(1) =~= f.subrange(0, 1));
    assert(f.take(1).is_prefix_of(fields.last()));
    assert(prefix_count(fields, f.take(1)) == 1);
}

proof fn lemma_prefix_search(fields: Seq<Seq<char>>, f: Seq<char>, len: nat)
    requires
        len >= 1,
    ensures
        prefix_search(fields, f, len).is_prefix_of(f),
        prefix_search(fields, f, len).len() < f.len() ==> prefix_count(
            fields,
            prefix_search(fields, f, len),
        ) == 1,
        forall|k: int|
            len <= k < prefix_search(fields, f, len).len() ==> prefix_count(
                fields,
                #[trigger] f.take(k),
            ) != 1,
        len <= f.len() ==> prefix_search(fields, f, len).len() >= len,
    decreases f.len() + 1 - len,
{
    let r = prefix_search(fields, f, len);
    if len > f.len() {
        assert(f.take(f.len() as int) =~= f);
    } else if prefix_count(fields, f.take(len as int)) == 1 {
        assert(r.len() == len);
    } else {
        lemma_prefix_search(fields, f, len + 1);
        if len == f.len() {
            assert(f.take(f.len() as int) =~= f);
        }
    }
}

/// The field states of a context never outgrow their capacity.
pub proof fn lemma_states_bounded(
    old: Seq<(Seq<char>, Seq<char>, Seq<char>, i64)>,
    items: Seq<(Seq<char>, Seq<char>, Seq<char>, i64)>,
)
    requires
        old.len() <= FIELD_STATE_CAPACITY,
    ensures
        states_after(old, items).len() <= FIELD_STATE_CAPACITY,
{
}

/// The constant denominator's steps: `+` makes it ten times larger (the
/// largest `u64` where that overflows, 1 from 0), `-` ten times smaller (at
/// least 1), and `-` after an uncut `+` gives back what there was.
pub proof fn lemma_const_den_steps(d: u64)
    ensures
        0 < d && d * 10 <= u64::MAX ==> const_den_up(d) == d * 10 && const_den_down(
            const_den_up(d),
        ) == d,
        d * 10 > u64::MAX ==> const_den_up(d) == u64::MAX,
        d == 0 ==> const_den_up(d) == 1,
        d >= 10 ==> const_den_down(d) == d / 10,
        d < 10 ==> const_den_down(d) == 1,
{
    if 0 < d && d * 10 <= u64::MAX {
        assert((d * 10) / 10 == d);
        assert(d * 10 >= 10);
    }
}

/// Pressing `+` (or `=`) and then `-` on the chart: the first makes the
/// constant denominator ten times larger, the second restores the state,
/// where the larger value fits.
pub proof fn lemma_plus_then_minus(
    a0: App,
    k1: KeyPress,
    a1: App,
    act1: Action,
    k2: KeyPress,
    a2: App,
    act2: Action,
)
    requires
        k1.code == KeyCode::Char('+') || k1.code == KeyCode::Char('='),
        k2.code == KeyCode::Char('-'),
        0 < a0.value_cfg.const_den,
        a0.value_cfg.const_den * 10 <= u64::MAX,
        key_rel(a0, k1, a1, act1),
        key_rel(a1, k2, a2, act2),
    ensures
        a1.value_cfg.const_den == a0.value_cfg.const_den * 10,
        a1.value_cfg.mode == a0.value_cfg.mode,
        a2 == a0,
{
    lemma_const_den_steps(a0.value_cfg.const_den);
}

/// In the open palette, Up moves the selection one entry up unless it is on
/// the first entry, and Down one entry down unless it is on the custom line
/// (the entry after the last command); the palette stays open, and the
/// custom line is edited exactly when it is selected.
pub proof fn lemma_palette_up_down(a0: App, code: KeyCode, a1: App, act: Action)
    requires
        a0.cmd_cfg.commands@.len() <= usize::MAX,
        code == KeyCode::Up || code == KeyCode::Down,
        palette_key_rel(a0, code, a1, act),
    ensures
        code == KeyCode::Up && a0.cmd_palette.selected > 0 ==> a1.cmd_palette.selected
            == a0.cmd_palette.selected - 1,
        code == KeyCode::Up && a0.cmd_palette.selected == 0 ==> a1.cmd_palette.selected == 0,
        code == KeyCode::Down && a0.cmd_palette.selected < a0.cmd_cfg.commands@.len()
            ==> a1.cmd_palette.selected == a0.cmd_palette.selected + 1,
        code == KeyCode::Down && a0.cmd_palette.selected >= a0.cmd_cfg.commands@.len()
            ==> a1.cmd_palette.selected == a0.cmd_palette.selected,
        a1.cmd_palette.open == a0.cmd_palette.open,
        a1.cmd_palette.editing_custom == (a1.cmd_palette.selected == a0.cmd_cfg.commands@.len()),
        a1.cmd_cfg == a0.cmd_cfg,
        a1.contexts == a0.contexts,
{
}

/// Down then Up in the open palette, from a command, comes back to it.
pub proof fn lemma_palette_down_then_up(
    a0: App,
    a1: App,
    act1: Action,
    a2: App,
    act2: Action,
)
    requires
        a0.cmd_cfg.commands@.len() <= usize::MAX,
        a0.cmd_palette.selected < a0.cmd_cfg.commands@.len(),
        palette_key_rel(a0, KeyCode::Down, a1, act1),
        palette_key_rel(a1, KeyCode::Up, a2, act2),
    ensures
        a2.cmd_palette.selected == a0.cmd_palette.selected,
        !a2.cmd_palette.editing_custom,
{
    lemma_palette_up_down(a0, KeyCode::Down, a1, act1);
    lemma_palette_up_down(a1, KeyCode::Up, a2, act2);
}

/// How far each scrolling key moves on the chart, where it is not cut off
/// at a bound: `h`/`r` move the context row by 4 columns and `H`/`L` by 12,
/// page up/down move the list by 5 rows, `K`/`J` move the log by one line
/// and stop it following, and `[`/`]` shrink or grow the log pane by a row.
pub proof fn lemma_view_key_amounts(a0: App, k: KeyPress, a1: App, act: Action)
    requires
        key_rel(a0, k, a1, act),
    ensures
        k.code == KeyCode::Char('h') ==> a1.context_hscroll == if a0.context_hscroll >= 4 {
            a0.context_hscroll - 4
        } else {
            0
        },
        k.code == KeyCode::Char('H') ==> a1.context_hscroll == if a0.context_hscroll >= 12 {
            a0.context_hscroll - 12
        } else {
            0
        },
        k.code == KeyCode::Char('r') && a0.context_hscroll + 4 <= u16::MAX ==> a1.context_hscroll
            == a0.context_hscroll + 4,
        k.code == KeyCode::Char('L') && a0.context_hscroll + 12 <= u16::MAX
            ==> a1.context_hscroll == a0.context_hscroll + 12,
        k.code == KeyCode::PageDown && a0.list_offset + 5 <= usize::MAX ==> a1.list_offset
            == a0.list_offset + 5,
        k.code == KeyCode::PageUp && a0.list_offset >= 5 ==> a1.list_offset == a0.list_offset - 5,
        k.code == KeyCode::Char('J') ==> !a1.log_follow && (a0.log_scroll < u16::MAX
            ==> a1.log_scroll == a0.log_scroll + 1),
        k.code == KeyCode::Char('K') ==> !a1.log_follow && (a0.log_scroll > 0 ==> a1.log_scroll
            == a0.log_scroll - 1),
        k.code == KeyCode::Char('[') && a0.log_height > 3 ==> a1.log_height == a0.log_height - 1,
        k.code == KeyCode::Char(']') && a0.log_height < 30 ==> a1.log_height == a0.log_height + 1,
{
}

/// How far the mouse moves things: the wheel scrolls the log by three lines
/// and stops it following, and a click on screen row `r` (the first row
/// being the frame) makes context `r - 1` active where there is one.
pub proof fn lemma_mouse_amounts(a0: App, kind: MouseKind, row: u16, a1: App, act: Action)
    requires
        mouse_rel(a0, kind, row, a1, act),
    ensures
        kind == MouseKind::ScrollDown ==> !a1.log_follow && (a0.log_scroll + 3 <= u16::MAX
            ==> a1.log_scroll == a0.log_scroll + 3),
        kind == MouseKind::ScrollUp ==> !a1.log_follow && (a0.log_scroll >= 3 ==> a1.log_scroll
            == a0.log_scroll - 3),
        kind == MouseKind::Down && 1 <= row && row - 1 < a0.contexts@.len() ==> a1.active == row
            - 1,
        kind == MouseKind::Down && row - 1 >= a0.contexts@.len() ==> a1 == a0,
{
}

/// Following the log shows its newest line: each entry takes three lines
/// and the pane's frame two, so the scroll is the entries' lines less the
/// pane's inner height, or 0 where they fit.
pub proof fn lemma_tail_scroll(n: nat, height: u16)
    requires
        n <= LOG_CAPACITY,
        height >= 2,
    ensures
        3 * n >= height - 2 ==> tail_scroll(n, height) == 3 * n - (height - 2),
        3 * n < height - 2 ==> tail_scroll(n, height) == 0,
{
}

} // verus!
