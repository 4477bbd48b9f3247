//! The data the chart keeps: samples, series, bounded buffers, contexts and
//! the display modes.
use std::collections::VecDeque;
use vstd::prelude::*;

use crate::text::{decimal, decimal_int, push_i64, push_u64, string_push};

verus! {

/// A literal as an owned string.
pub fn lit(s: &str) -> (r: String)
    ensures
        r@ == s@,
{
    s.to_owned()
}

/// Reads the system clock, as `SystemTime::now().duration_since(UNIX_EPOCH)`
/// gives it: whether the clock is at or after the UNIX epoch, and its
/// distance from the epoch (the error's duration where it is before) in
/// whole seconds and the microseconds beyond them, which `subsec_micros`
/// keeps under a million. The reading depends on the clock, so nothing more
/// is claimed of it.
#[verifier::external_body]
pub(crate) fn clock_reading() -> (r: (bool, u64, u32))
    ensures
        r.2 < 1_000_000,
{
    match std::time::SystemTime::now().duration_since(std::time::UNIX_EPOCH) {
        Ok(d) => (true, d.as_secs(), d.subsec_micros()),
        Err(e) => (false, e.duration().as_secs(), e.duration().subsec_micros()),
    }
}

/// The signed microseconds since the epoch of a clock reading.
pub open spec fn reading_micros(after_epoch: bool, secs: u64, sub: u32) -> int {
    if after_epoch {
        secs * 1_000_000 + sub
    } else {
        -(secs * 1_000_000 + sub)
    }
}

/// The microseconds since the epoch of a clock reading (negative before
/// it), where they fit in an `i64`.
pub fn signed_micros(after_epoch: bool, secs: u64, sub: u32) -> (r: Option<i64>)
    ensures
        match r {
            Some(m) => m == reading_micros(after_epoch, secs, sub),
            None => reading_micros(after_epoch, secs, sub) < i64::MIN || reading_micros(
                after_epoch,
                secs,
                sub,
            ) > i64::MAX,
        },
{
    if secs > 9_223_372_036_855 {
        assert(secs * 1_000_000 + sub > 9_223_372_036_855_000_000) by (nonlinear_arith)
            requires
                secs > 9_223_372_036_855,
        ;
        return None;
    }
    let total: i128 = secs as i128 * 1_000_000 + sub as i128;
    let m: i128 = if after_epoch {
        total
    } else {
        -total
    };
    if m < -9_223_372_036_854_775_808 || m > 9_223_372_036_854_775_807 {
        None
    } else {
        Some(m as i64)
    }
}

/// The current time in microseconds since the UNIX epoch (negative before
/// it); the nearest `i64` where the clock is beyond that range.
pub fn now_micros() -> i64 {
    let (after_epoch, secs, sub) = clock_reading();
    match signed_micros(after_epoch, secs, sub) {
        Some(m) => m,
        None => {
            if after_epoch {
                i64::MAX
            } else {
                i64::MIN
            }
        },
    }
}

/// The pattern of a wall-clock time, `HH:MM:SS`.
pub const CLOCK_PATTERN: &'static str = "%H:%M:%S";

/// The pattern of a full log time, `YYYY-MM-DD HH:MM:SS.ffffffZ`.
pub const LOG_TIME_PATTERN: &'static str = "%Y-%m-%d %H:%M:%S.%6fZ";

/// What chrono writes for the UTC time `micros` microseconds after the
/// epoch in `pattern`; `None` where the time is out of chrono's range.
pub uninterp spec fn utc_text(micros: i64, pattern: Seq<char>) -> Option<Seq<char>>;

/// Calls `chrono::DateTime::<Utc>::from_timestamp_micros(micros)` and
/// `format(pattern).to_string()` on the time it gives. The text is named
/// `utc_text` of the arguments and nothing more is claimed; the patterns
/// are the two that this library uses, both valid for chrono.
#[verifier::external_body]
pub(crate) fn format_utc_micros(micros: i64, pattern: &str) -> (r: Option<String>)
    requires
        pattern@ == CLOCK_PATTERN@ || pattern@ == LOG_TIME_PATTERN@,
    ensures
        match r {
            Some(s) => utc_text(micros, pattern@) == Some(s@),
            None => utc_text(micros, pattern@) is None,
        },
{
    chrono::DateTime::<chrono::Utc>::from_timestamp_micros(micros).map(
        |t| t.format(pattern).to_string(),
    )
}

/// The text of a UTC time in `pattern`, or nothing where chrono has none.
pub open spec fn utc_text_or_empty(micros: i64, pattern: Seq<char>) -> Seq<char> {
    match utc_text(micros, pattern) {
        Some(t) => t,
        None => seq![],
    }
}

/// The wall-clock time `HH:MM:SS` (UTC) of `micros`; empty where chrono
/// cannot represent the time.
pub fn clock_time(micros: i64) -> (s: String)
    ensures
        s@ == utc_text_or_empty(micros, CLOCK_PATTERN@),
{
    match format_utc_micros(micros, CLOCK_PATTERN) {
        Some(t) => t,
        None => String::new(),
    }
}

/// One data point: its time in microseconds and a numerator and denominator.
#[derive(Clone, Copy, Debug, PartialEq, Eq, Structural)]
pub struct Sample {
    pub x_us: i64,
    pub num: u64,
    pub den: u64,
}

/// A numbered dataset or an event series named by one character.
#[derive(Clone, Copy, Debug, PartialEq, Eq, Hash, Structural)]
pub enum SeriesKey {
    Numeric(usize),
    Event(char),
}

impl SeriesKey {
    pub open spec fn display_name_spec(self) -> Seq<char> {
        match self {
            SeriesKey::Numeric(n) => seq!['d', 's'] + decimal(n as nat),
            SeriesKey::Event(ch) => seq!['e', 'v', 'e', 'n', 't', ':', ch],
        }
    }

    pub fn is_event(&self) -> (b: bool)
        ensures
            b == (*self is Event),
    {
        match self {
            SeriesKey::Event(_) => true,
            SeriesKey::Numeric(_) => false,
        }
    }

    /// `ds<n>` for a dataset, `event:<c>` for an event series.
    pub fn display_name(&self) -> (s: String)
        ensures
            s@ == self.display_name_spec(),
    {
        let mut s = String::new();
        match self {
            SeriesKey::Numeric(n) => {
                string_push(&mut s, 'd');
                string_push(&mut s, 's');
                push_u64(&mut s, *n as u64);
            },
            SeriesKey::Event(ch) => {
                string_push(&mut s, 'e');
                string_push(&mut s, 'v');
                string_push(&mut s, 'e');
                string_push(&mut s, 'n');
                string_push(&mut s, 't');
                string_push(&mut s, ':');
                string_push(&mut s, *ch);
            },
        }
        assert(s@ =~= self.display_name_spec());
        s
    }
}

/// What `push` leaves in a queue that holds at most `max` items: the oldest
/// item leaves when the queue is full.
pub open spec fn push_evicting<T>(q: Seq<T>, x: T, max: nat) -> Seq<T> {
    if q.len() >= max && q.len() > 0 {
        q.drop_first().push(x)
    } else {
        q.push(x)
    }
}

/// The samples of one series, at most `max` of them, oldest first.
#[derive(Debug)]
pub struct DatasetInfo {
    pub points: VecDeque<Sample>,
    pub max: usize,
}

/// The number of samples a series keeps.
pub const DATASET_CAPACITY: usize = 200;

/// The number of log lines a context keeps.
pub const LOG_CAPACITY: usize = 100;

/// The number of field states a context keeps.
pub const FIELD_STATE_CAPACITY: usize = 64;

impl DatasetInfo {
    pub fn new() -> (d: Self)
        ensures
            d.points@ == Seq::<Sample>::empty(),
            d.max == DATASET_CAPACITY,
    {
        DatasetInfo { points: VecDeque::with_capacity(200), max: 200 }
    }

    /// Appends `s`, dropping the oldest sample first when `max` are held.
    pub fn add(&mut self, s: Sample)
        ensures
            final(self).max == old(self).max,
            final(self).points@ == push_evicting(old(self).points@, s, old(self).max as nat),
    {
        if self.points.len() >= self.max {
            self.points.pop_front();
        }
        self.points.push_back(s);
    }
}

/// A JSON value: its shape and, where serialising it succeeded, its compact
/// text as `serde_json::to_string` writes it.
#[derive(Debug)]
pub struct JsonValue {
    pub kind: JsonKind,
    pub text: Option<String>,
}

#[derive(Debug)]
pub enum JsonKind {
    Null,
    Bool(bool),
    Number,
    Str(String),
    Array(Vec<JsonValue>),
    Object(Vec<(String, JsonValue)>),
}

/// The text of an event: the raw payload and, where it is JSON, its value.
#[derive(Debug)]
pub struct EventMeta {
    pub raw: String,
    pub parsed_json: Option<JsonValue>,
}

/// One line of a context's log; `ts` is in microseconds since the epoch.
#[derive(Debug)]
pub struct LogEntry {
    pub ts: i64,
    pub text: String,
    pub event: Option<EventMeta>,
}

/// The log of a context, at most `LOG_CAPACITY` entries, oldest first.
#[derive(Debug)]
pub struct LogBuffer {
    pub msgs: VecDeque<LogEntry>,
}

impl LogBuffer {
    pub fn new() -> (b: Self)
        ensures
            b.msgs@.len() == 0,
    {
        LogBuffer { msgs: VecDeque::new() }
    }

    /// Appends `entry`, dropping the oldest entry first when full.
    pub fn add(&mut self, entry: LogEntry)
        ensures
            final(self).msgs@ == push_evicting(old(self).msgs@, entry, LOG_CAPACITY as nat),
    {
        if self.msgs.len() >= 100 {
            self.msgs.pop_front();
        }
        self.msgs.push_back(entry);
    }
}

/// The latest value seen of a watched event field.
#[derive(Debug)]
pub struct FieldStateEntry {
    pub field: String,
    pub display_key: String,
    pub value_text: String,
    pub event_ts: i64,
}

/// A terminal color.
#[derive(Clone, Copy, Debug, PartialEq, Eq, Structural)]
pub enum Color {
    Reset,
    Black,
    Red,
    Green,
    Yellow,
    Blue,
    Magenta,
    Cyan,
    Gray,
    DarkGray,
    LightRed,
    LightGreen,
    LightYellow,
    LightBlue,
    LightMagenta,
    LightCyan,
    White,
    Rgb(u8, u8, u8),
    Indexed(u8),
}

/// A named stream of series and its log; `created_at` is in microseconds
/// since the epoch. The series are held in `order`, with the samples of
/// `order[i]` in `datasets[i]` and its color in `colors[i]`.
#[derive(Debug)]
pub struct Context {
    pub name: String,
    pub created_at: i64,
    pub datasets: Vec<DatasetInfo>,
    pub order: Vec<SeriesKey>,
    pub logs: LogBuffer,
    pub colors: Vec<Color>,
    pub event_field_colors: Vec<(String, Color)>,
    pub field_states: VecDeque<FieldStateEntry>,
}

/// No key occurs twice.
pub open spec fn keys_unique(s: Seq<SeriesKey>) -> bool {
    forall|i: int, j: int| 0 <= i < j < s.len() ==> s[i] != s[j]
}

/// No name occurs twice.
pub open spec fn names_unique<V>(s: Seq<(String, V)>) -> bool {
    forall|i: int, j: int| 0 <= i < j < s.len() ==> s[i].0@ != s[j].0@
}

/// Whole seconds from `a` to `b` microseconds, truncated toward zero.
pub open spec fn whole_seconds(a: int, b: int) -> int {
    let d = b - a;
    if d >= 0 {
        d / 1_000_000
    } else {
        -((-d) / 1_000_000)
    }
}

/// `<s>s`, `<m>m <s>s`, `<h>h <m>m` or `<d>d`, by the size of `t` seconds.
pub open spec fn age_text(t: int) -> Seq<char> {
    if t < 60 {
        decimal_int(t) + seq!['s']
    } else if t < 3600 {
        decimal((t / 60) as nat) + seq!['m', ' '] + decimal((t % 60) as nat) + seq!['s']
    } else if t < 86400 {
        decimal((t / 3600) as nat) + seq!['h', ' '] + decimal(((t % 3600) / 60) as nat) + seq![
            'm',
        ]
    } else {
        decimal((t / 86400) as nat) + seq!['d']
    }
}

impl Context {
    pub open spec fn wf(self) -> bool {
        &&& self.datasets@.len() == self.order@.len()
        &&& self.colors@.len() == self.order@.len()
        &&& keys_unique(self.order@)
        &&& names_unique(self.event_field_colors@)
    }

    /// A context created at `created_at`, holding nothing yet.
    pub fn new_at(name: String, created_at: i64) -> (c: Self)
        ensures
            c.wf(),
            c.name == name,
            c.created_at == created_at,
            c.order@.len() == 0,
            c.logs.msgs@.len() == 0,
            c.event_field_colors@.len() == 0,
            c.field_states@.len() == 0,
    {
        Context {
            name,
            created_at,
            datasets: Vec::new(),
            order: Vec::new(),
            logs: LogBuffer::new(),
            colors: Vec::new(),
            event_field_colors: Vec::new(),
            field_states: VecDeque::new(),
        }
    }

    /// A context created now.
    pub fn new(name: String) -> (c: Self)
        ensures
            c.wf(),
            c.name == name,
            c.order@.len() == 0,
            c.logs.msgs@.len() == 0,
            c.event_field_colors@.len() == 0,
            c.field_states@.len() == 0,
    {
        Context::new_at(name, now_micros())
    }

    /// The age of the context at `now` (microseconds), in its largest unit.
    pub fn age_string_at(&self, now: i64) -> (s: String)
        ensures
            s@ == age_text(whole_seconds(self.created_at as int, now as int)),
    {
        let d: i128 = now as i128 - self.created_at as i128;
        let t: i128 = if d >= 0 {
            d / 1_000_000
        } else {
            -((-d) / 1_000_000)
        };
        assert(-20_000_000_000_000 <= t <= 20_000_000_000_000) by (nonlinear_arith)
            requires
                -20_000_000_000_000_000_000 <= d <= 20_000_000_000_000_000_000,
                d >= 0 ==> t == d / 1_000_000,
                d < 0 ==> t == -((-d) / 1_000_000),
        ;
        let mut s = String::new();
        if t < 60 {
            push_i64(&mut s, t as i64);
            string_push(&mut s, 's');
        } else if t < 3600 {
            push_u64(&mut s, (t / 60) as u64);
            string_push(&mut s, 'm');
            string_push(&mut s, ' ');
            push_u64(&mut s, (t % 60) as u64);
            string_push(&mut s, 's');
        } else if t < 86400 {
            push_u64(&mut s, (t / 3600) as u64);
            string_push(&mut s, 'h');
            string_push(&mut s, ' ');
            push_u64(&mut s, ((t % 3600) / 60) as u64);
            string_push(&mut s, 'm');
        } else {
            push_u64(&mut s, (t / 86400) as u64);
            string_push(&mut s, 'd');
        }
        assert(s@ =~= age_text(t as int));
        s
    }

    /// The age of the context now, in its largest unit.
    pub fn age_string(&self) -> (s: String)
        ensures
            exists|now: i64| s@ == age_text(whole_seconds(self.created_at as int, now as int)),
    {
        self.age_string_at(now_micros())
    }

    /// The position of `key` among the context's series.
    pub fn series_index(&self, key: SeriesKey) -> (r: Option<usize>)
        ensures
            match r {
                Some(i) => i < self.order@.len() && self.order@[i as int] == key,
                None => !self.order@.contains(key),
            },
    {
        let mut i: usize = 0;
        while i < self.order.len()
            invariant
                i <= self.order@.len(),
                forall|k: int| 0 <= k < i ==> self.order@[k] != key,
            decreases self.order@.len() - i,
        {
            if self.order[i] == key {
                return Some(i);
            }
            i += 1;
        }
        None
    }
}

#[derive(Clone, Copy, Debug, PartialEq, Eq, Structural)]
pub enum ValueMode {
    Ratio,
    Numerator,
    NumeratorPerConst,
}

impl ValueMode {
    /// The mode after this one in the cycle ratio, numerator, numerator per
    /// constant.
    pub open spec fn after(self) -> ValueMode {
        match self {
            ValueMode::Ratio => ValueMode::Numerator,
            ValueMode::Numerator => ValueMode::NumeratorPerConst,
            ValueMode::NumeratorPerConst => ValueMode::Ratio,
        }
    }

    /// The next mode in the cycle ratio, numerator, numerator per constant.
    pub fn next(self) -> (m: Self)
        ensures
            m == self.after(),
    {
        match self {
            ValueMode::Ratio => ValueMode::Numerator,
            ValueMode::Numerator => ValueMode::NumeratorPerConst,
            ValueMode::NumeratorPerConst => ValueMode::Ratio,
        }
    }

    pub fn name(self) -> (s: &'static str)
        ensures
            s@ == match self {
                ValueMode::Ratio => "num/den"@,
                ValueMode::Numerator => "num"@,
                ValueMode::NumeratorPerConst => "num/const"@,
            },
    {
        match self {
            ValueMode::Ratio => "num/den",
            ValueMode::Numerator => "num",
            ValueMode::NumeratorPerConst => "num/const",
        }
    }
}

/// How a sample becomes a value, and the constant denominator.
#[derive(Clone, Copy, Debug)]
pub struct ValueConfig {
    pub mode: ValueMode,
    pub const_den: u64,
}

impl Default for ValueConfig {
    fn default() -> (c: Self)
        ensures
            c.mode == ValueMode::Ratio,
            c.const_den == 1_000_000,
    {
        ValueConfig { mode: ValueMode::Ratio, const_den: 1_000_000 }
    }
}

impl ValueConfig {
    /// The fraction whose quotient is the value of `s`, or `None` where the
    /// value is undefined (a zero denominator).
    pub open spec fn ratio_spec(self, s: Sample) -> Option<(u64, u64)> {
        match self.mode {
            ValueMode::Ratio => if s.den == 0 {
                None
            } else {
                Some((s.num, s.den))
            },
            ValueMode::Numerator => Some((s.num, 1u64)),
            ValueMode::NumeratorPerConst => if self.const_den == 0 {
                None
            } else {
                Some((s.num, self.const_den))
            },
        }
    }

    /// The numerator and denominator whose quotient is the plotted value of
    /// `s`; `None` where the value is undefined.
    pub fn value_ratio(&self, s: &Sample) -> (r: Option<(u64, u64)>)
        ensures
            r == self.ratio_spec(*s),
    {
        match self.mode {
            ValueMode::Ratio => {
                if s.den == 0 {
                    None
                } else {
                    Some((s.num, s.den))
                }
            },
            ValueMode::Numerator => Some((s.num, 1)),
            ValueMode::NumeratorPerConst => {
                if self.const_den == 0 {
                    None
                } else {
                    Some((s.num, self.const_den))
                }
            },
        }
    }

    /// `num/den`, `num`, or `num/<const_den>`.
    pub fn label(&self) -> (s: String)
        ensures
            s@ == match self.mode {
                ValueMode::Ratio => "num/den"@,
                ValueMode::Numerator => "num"@,
                ValueMode::NumeratorPerConst => "num/"@ + decimal(self.const_den as nat),
            },
    {
        match self.mode {
            ValueMode::Ratio => lit("num/den"),
            ValueMode::Numerator => lit("num"),
            ValueMode::NumeratorPerConst => {
                let mut s = lit("num/");
                push_u64(&mut s, self.const_den);
                s
            },
        }
    }
}

#[derive(Clone, Copy, Debug, PartialEq, Eq, Structural)]
pub enum ScaleMode {
    Linear,
    Log10,
}

impl ScaleMode {
    /// The other scale.
    pub open spec fn other(self) -> ScaleMode {
        match self {
            ScaleMode::Linear => ScaleMode::Log10,
            ScaleMode::Log10 => ScaleMode::Linear,
        }
    }

    pub fn toggle(self) -> (m: Self)
        ensures
            m == self.other(),
    {
        match self {
            ScaleMode::Linear => ScaleMode::Log10,
            ScaleMode::Log10 => ScaleMode::Linear,
        }
    }

    pub fn name(self) -> (s: &'static str)
        ensures
            s@ == match self {
                ScaleMode::Linear => "linear"@,
                ScaleMode::Log10 => "log10"@,
            },
    {
        match self {
            ScaleMode::Linear => "linear",
            ScaleMode::Log10 => "log10",
        }
    }
}

/// Stepping the value mode changes it, and three steps come back to where
/// they started.
pub proof fn lemma_value_mode_cycle(m: ValueMode)
    ensures
        m.after() != m,
        m.after().after() != m,
        m.after().after().after() == m,
{
}

/// Toggling the scale changes it, and toggling twice restores it.
pub proof fn lemma_scale_toggle_involution(m: ScaleMode)
    ensures
        m.other() != m,
        m.other().other() == m,
{
}

/// A bounded queue never outgrows its capacity: pushing onto one within it
/// leaves one within it, with the new item last and the items it keeps in
/// their order; only when it was full does the oldest item leave.
pub proof fn lemma_push_evicting_bounded<T>(q: Seq<T>, x: T, max: nat)
    requires
        q.len() <= max,
        max > 0,
    ensures
        ({
            let r = push_evicting(q, x, max);
            &&& r.len() == if q.len() < max {
                q.len() + 1
            } else {
                max
            }
            &&& r.len() <= max
            &&& r.last() == x
            &&& r == q.push(x).subrange(q.len() + 1 - r.len(), (q.len() + 1) as int)
        }),
{
    let r = push_evicting(q, x, max);
    assert(r =~= q.push(x).subrange(q.len() + 1 - r.len(), (q.len() + 1) as int));
}

/// What each mode plots for a sample: the ratio `num/den` wherever the
/// denominator is not 0, whatever the numerator; the numerator itself
/// (over 1); or the numerator over the constant denominator wherever that
/// is not 0. A value is missing only for a zero denominator.
pub proof fn lemma_value_fractions(cfg: ValueConfig, s: Sample)
    ensures
        cfg.mode == ValueMode::Ratio && s.den != 0 ==> cfg.ratio_spec(s) == Some((s.num, s.den)),
        cfg.mode == ValueMode::Ratio && s.den == 0 ==> cfg.ratio_spec(s) is None,
        cfg.mode == ValueMode::Numerator ==> cfg.ratio_spec(s) == Some((s.num, 1u64)),
        cfg.mode == ValueMode::NumeratorPerConst && cfg.const_den != 0 ==> cfg.ratio_spec(s)
            == Some((s.num, cfg.const_den)),
        cfg.mode == ValueMode::NumeratorPerConst && cfg.const_den == 0 ==> cfg.ratio_spec(s) is None,
        cfg.ratio_spec(s) matches Some((n, d)) ==> n == s.num && d != 0,
{
}

/// A context's age by its size: `t` seconds under a minute reads `<t>s`;
/// `m` minutes and `s` seconds under an hour read `<m>m <s>s`; `h` hours
/// and `m` minutes (and any seconds) under a day read `<h>h <m>m`; and `d`
/// days (and anything less) read `<d>d`.
pub proof fn lemma_age_text_units(d: nat, h: nat, m: nat, s: nat)
    requires
        h < 24,
        m < 60,
        s < 60,
    ensures
        age_text(s as int) == decimal(s) + seq!['s'],
        m >= 1 ==> age_text((60 * m + s) as int) == decimal(m) + seq!['m', ' '] + decimal(s) + seq!['s'],
        h >= 1 ==> age_text((3600 * h + 60 * m + s) as int) == decimal(h) + seq!['h', ' '] + decimal(m)
            + seq!['m'],
        d >= 1 ==> age_text((86400 * d + 3600 * h + 60 * m + s) as int) == decimal(d) + seq!['d'],
{
    assert((60 * m + s) / 60 == m && (60 * m + s) % 60 == s) by (nonlinear_arith)
        requires
            s < 60,
    ;
    let t = 3600 * h + 60 * m + s;
    assert(t / 3600 == h && (t % 3600) / 60 == m) by (nonlinear_arith)
        requires
            t == 3600 * h + 60 * m + s,
            m < 60,
            s < 60,
    ;
    let u = 86400 * d + 3600 * h + 60 * m + s;
    assert(u / 86400 == d) by (nonlinear_arith)
        requires
            u == 86400 * d + 3600 * h + 60 * m + s,
            h < 24,
            m < 60,
            s < 60,
    ;
}

/// The age is counted in whole seconds from the creation time, rounded
/// toward zero: a context is `k` seconds old from `k` seconds after its
/// creation until just before `k + 1`.
pub proof fn lemma_whole_seconds(created: int, k: nat, r: nat)
    requires
        r < 1_000_000,
    ensures
        whole_seconds(created, created + 1_000_000 * k + r) == k,
{
    assert((1_000_000 * k + r) / 1_000_000 == k) by (nonlinear_arith)
        requires
            r < 1_000_000,
    ;
}

} // verus!
