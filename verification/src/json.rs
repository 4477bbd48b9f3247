//! JSON payloads: reading them with `serde_json`, and the text forms the
//! log and the field states show.
use vstd::prelude::*;

use crate::app::App;
use crate::model::{lit, names_unique, Color, JsonKind, JsonValue};
use vstd::utf8::encode_utf8;

verus! {

#[verifier::external_type_specification]
#[verifier::external_body]
pub struct ExSerdeJsonValue(serde_json::Value);

/// What `serde_json::from_str::<serde_json::Value>` makes of a text, in the
/// library's own form; `None` where the text is not JSON.
pub uninterp spec fn json_parse(raw: Seq<char>) -> Option<JsonValue>;

/// Calls `serde_json::from_str::<serde_json::Value>` and converts the value.
/// The result is named `json_parse` of the text and nothing more is claimed.
#[verifier::external_body]
pub(crate) fn parse_json(raw: &str) -> (r: Option<JsonValue>)
    ensures
        r == json_parse(raw@),
{
    serde_json::from_str::<serde_json::Value>(raw).ok().map(|v| json_of_value(&v))
}

/// Converts a `serde_json::Value` node by node, keeping with each node the
/// text that `serde_json::to_string` writes for it.
#[verifier::external_body]
fn json_of_value(v: &serde_json::Value) -> JsonValue {
    let kind = match v {
        serde_json::Value::Null => JsonKind::Null,
        serde_json::Value::Bool(b) => JsonKind::Bool(*b),
        serde_json::Value::Number(_) => JsonKind::Number,
        serde_json::Value::String(s) => JsonKind::Str(s.clone()),
        serde_json::Value::Array(a) => JsonKind::Array(a.iter().map(json_of_value).collect()),
        serde_json::Value::Object(m) => JsonKind::Object(
            m.iter().map(|(k, x)| (k.clone(), json_of_value(x))).collect(),
        ),
    };
    JsonValue { kind, text: serde_json::to_string(v).ok() }
}


/// The object keys of a value, in the order in which the value holds its
/// entries (the order in which `serde_json` iterates an object: sorted by
/// key): each key is followed by the keys inside its value.
pub open spec fn json_keys(v: JsonValue) -> Seq<Seq<char>>
    decreases v,
{
    match v.kind {
        JsonKind::Array(items) => items_keys(items@),
        JsonKind::Object(entries) => entries_keys(entries@),
        _ => seq![],
    }
}

pub open spec fn items_keys(items: Seq<JsonValue>) -> Seq<Seq<char>>
    decreases items,
{
    if items.len() == 0 {
        seq![]
    } else {
        items_keys(items.subrange(0, items.len() - 1)) + json_keys(items[items.len() - 1])
    }
}

pub open spec fn entries_keys(entries: Seq<(String, JsonValue)>) -> Seq<Seq<char>>
    decreases entries,
{
    if entries.len() == 0 {
        seq![]
    } else {
        entries_keys(entries.subrange(0, entries.len() - 1)) + seq![
            entries[entries.len() - 1].0@,
        ] + json_keys(entries[entries.len() - 1].1)
    }
}


/// The value recorded for `k` in an association list, if any.
pub open spec fn lookup<V>(list: Seq<(String, V)>, k: Seq<char>) -> Option<V> {
    if exists|i: int| 0 <= i < list.len() && list[i].0@ == k {
        let i = choose|i: int| 0 <= i < list.len() && list[i].0@ == k;
        Some(list[i].1)
    } else {
        None
    }
}

pub proof fn lemma_lookup_at<V>(list: Seq<(String, V)>, k: Seq<char>, j: int)
    requires
        names_unique(list),
        0 <= j < list.len(),
        list[j].0@ == k,
    ensures
        lookup(list, k) == Some(list[j].1),
{
    let i = choose|i: int| 0 <= i < list.len() && list[i].0@ == k;
    if i < j {
        assert(list[i].0@ != list[j].0@);
    } else if j < i {
        assert(list[j].0@ != list[i].0@);
    }
}

pub proof fn lemma_lookup_none<V>(list: Seq<(String, V)>, k: Seq<char>)
    requires
        forall|i: int| 0 <= i < list.len() ==> #[trigger] list[i].0@ != k,
    ensures
        lookup(list, k) is None,
{
}

/// Where `list` has a key, it is found; otherwise the search fails.
pub fn find_key<V>(list: &Vec<(String, V)>, k: &str) -> (r: Option<usize>)
    ensures
        match r {
            Some(j) => j < list@.len() && list@[j as int].0@ == k@ && forall|i: int|
                0 <= i < j ==> #[trigger] list@[i].0@ != k@,
            None => forall|i: int| 0 <= i < list@.len() ==> #[trigger] list@[i].0@ != k@,
        },
{
    let mut i: usize = 0;
    while i < list.len()
        invariant
            i <= list@.len(),
            forall|m: int| 0 <= m < i ==> #[trigger] list@[m].0@ != k@,
        decreases list@.len() - i,
    {
        if str_eq(list[i].0.as_str(), k) {
            return Some(i);
        }
        i += 1;
    }
    None
}

/// Whether two strings hold the same characters.
pub fn str_eq(a: &str, b: &str) -> (r: bool)
    ensures
        r == (a@ == b@),
{
    let x = crate::text::to_chars(a);
    let y = crate::text::to_chars(b);
    if x.len() != y.len() {
        return false;
    }
    let mut i: usize = 0;
    while i < x.len()
        invariant
            x@ == a@,
            y@ == b@,
            x@.len() == y@.len(),
            i <= x@.len(),
            forall|m: int| 0 <= m < i ==> x@[m] == y@[m],
        decreases x@.len() - i,
    {
        if x[i] != y[i] {
            return false;
        }
        i += 1;
    }
    assert(x@ =~= y@);
    true
}

pub const FNV_OFFSET: u64 = 1469598103934665603;

pub const FNV_PRIME: u64 = 1099511628211;

/// The 64-bit FNV-1a hash of some bytes.
pub open spec fn fnv1a(b: Seq<u8>) -> u64
    decreases b.len(),
{
    if b.len() == 0 {
        FNV_OFFSET
    } else {
        (fnv1a(b.drop_last()) ^ (b.last() as u64)).wrapping_mul(FNV_PRIME)
    }
}

/// The palette from which event field names take their colors.
pub open spec fn field_palette(i: int) -> Color {
    if i == 0 {
        Color::Cyan
    } else if i == 1 {
        Color::Yellow
    } else if i == 2 {
        Color::Green
    } else if i == 3 {
        Color::Magenta
    } else if i == 4 {
        Color::LightBlue
    } else if i == 5 {
        Color::LightCyan
    } else if i == 6 {
        Color::LightGreen
    } else if i == 7 {
        Color::LightMagenta
    } else if i == 8 {
        Color::LightYellow
    } else {
        Color::Blue
    }
}

/// The color of an event field name: the palette entry that the FNV-1a hash
/// of its UTF-8 bytes picks.
pub open spec fn field_color(name: Seq<char>) -> Color {
    field_palette((fnv1a(encode_utf8(name)) % 10) as int)
}

/// The colors recorded after recording, for every key of `keys` not yet
/// present, the color of its name.
pub open spec fn with_key_colors(cache: Seq<(String, Color)>, keys: Seq<Seq<char>>, k: Seq<char>) -> Option<
    Color,
> {
    match lookup(cache, k) {
        Some(c) => Some(c),
        None => if keys.contains(k) {
            Some(field_color(k))
        } else {
            None
        },
    }
}

/// Records the color of `k` unless one is recorded.
fn record_key_color(cache: &mut Vec<(String, Color)>, k: &String)
    requires
        names_unique(old(cache)@),
    ensures
        names_unique(final(cache)@),
        forall|q: Seq<char>|
            lookup(final(cache)@, q) == with_key_colors(old(cache)@, seq![k@], q),
{
    let ghost old_list = cache@;
    match find_key(cache, k.as_str()) {
        Some(j) => {
            proof {
                lemma_lookup_at(old_list, k@, j as int);
                assert forall|q: Seq<char>| lookup(cache@, q) == with_key_colors(old_list, seq![k@], q) by {
                    if q != k@ {
                        assert(!seq![k@].contains(q)) by {
                            if seq![k@].contains(q) {
                                assert(seq![k@][0] == q);
                            }
                        }
                    }
                }
            }
        },
        None => {
            let c = App::color_for_json_field_name(k.as_str());
            cache.push((k.clone(), c));
            proof {
                let new_list = cache@;
                assert(names_unique(new_list)) by {
                    assert forall|a: int, b: int| 0 <= a < b < new_list.len() implies new_list[a].0@
                        != new_list[b].0@ by {
                        if b == old_list.len() {
                            assert(old_list[a].0@ != k@);
                        } else {
                            assert(new_list[a] == old_list[a] && new_list[b] == old_list[b]);
                        }
                    }
                }
                lemma_lookup_at(new_list, k@, old_list.len() as int);
                assert forall|q: Seq<char>| lookup(new_list, q) == with_key_colors(
                    old_list,
                    seq![k@],
                    q,
                ) by {
                    if q == k@ {
                        lemma_lookup_none(old_list, k@);
                        assert(seq![k@][0] == q);
                    } else {
                        assert(!seq![k@].contains(q)) by {
                            if seq![k@].contains(q) {
                                assert(seq![k@][0] == q);
                            }
                        }
                        if exists|i: int| 0 <= i < old_list.len() && old_list[i].0@ == q {
                            let i = choose|i: int| 0 <= i < old_list.len() && old_list[i].0@ == q;
                            lemma_lookup_at(old_list, q, i);
                            lemma_lookup_at(new_list, q, i);
                        } else {
                            assert forall|i: int| 0 <= i < new_list.len() implies #[trigger] new_list[i].0@
                                != q by {
                                if i < old_list.len() {
                                    assert(new_list[i] == old_list[i]);
                                }
                            }
                            lemma_lookup_none(new_list, q);
                        }
                    }
                }
            }
        },
    }
}

/// A field keeps the color it first got, and taking in the same JSON value
/// a second time changes no color.
pub proof fn lemma_field_colors_stable(
    c0: Seq<(String, Color)>,
    c1: Seq<(String, Color)>,
    keys: Seq<Seq<char>>,
)
    requires
        forall|q: Seq<char>| #[trigger] lookup(c1, q) == with_key_colors(c0, keys, q),
    ensures
        forall|q: Seq<char>| #[trigger] lookup(c0, q) is Some ==> lookup(c1, q) == lookup(c0, q),
        forall|q: Seq<char>| #[trigger] with_key_colors(c1, keys, q) == lookup(c1, q),
{
    assert forall|q: Seq<char>| #[trigger] lookup(c0, q) is Some implies lookup(c1, q) == lookup(
        c0,
        q,
    ) by {
        assert(lookup(c1, q) == with_key_colors(c0, keys, q));
    }
    assert forall|q: Seq<char>| #[trigger] with_key_colors(c1, keys, q) == lookup(c1, q) by {
        assert(lookup(c1, q) == with_key_colors(c0, keys, q));
    }
}

proof fn lemma_with_key_colors_chain(
    c0: Seq<(String, Color)>,
    c1: Seq<(String, Color)>,
    c2: Seq<(String, Color)>,
    a: Seq<Seq<char>>,
    b: Seq<Seq<char>>,
)
    requires
        forall|q: Seq<char>| lookup(c1, q) == with_key_colors(c0, a, q),
        forall|q: Seq<char>| lookup(c2, q) == with_key_colors(c1, b, q),
    ensures
        forall|q: Seq<char>| lookup(c2, q) == with_key_colors(c0, a + b, q),
{
    assert forall|q: Seq<char>| lookup(c2, q) == with_key_colors(c0, a + b, q) by {
        assert(lookup(c1, q) == with_key_colors(c0, a, q));
        assert(lookup(c2, q) == with_key_colors(c1, b, q));
        if a.contains(q) {
            let i = choose|i: int| 0 <= i < a.len() && a[i] == q;
            assert((a + b)[i] == q);
        } else if b.contains(q) {
            let i = choose|i: int| 0 <= i < b.len() && b[i] == q;
            assert((a + b)[a.len() + i] == q);
        } else {
            assert(!(a + b).contains(q)) by {
                if (a + b).contains(q) {
                    let i = choose|i: int| 0 <= i < (a + b).len() && (a + b)[i] == q;
                    if i < a.len() {
                        assert(a[i] == q);
                    } else {
                        assert(b[i - a.len()] == q);
                    }
                }
            }
        }
    }
}

/// Gives every object key inside `value` a color, keeping the colors
/// already recorded.
#[verifier::rlimit(40)]
pub fn collect_json_field_colors(value: &JsonValue, cache: &mut Vec<(String, Color)>)
    requires
        names_unique(old(cache)@),
    ensures
        names_unique(final(cache)@),
        forall|q: Seq<char>|
            lookup(final(cache)@, q) == with_key_colors(old(cache)@, json_keys(*value), q),
    decreases value,
{
    let ghost c0 = cache@;
    match &value.kind {
        JsonKind::Object(entries) => {
            let mut i: usize = 0;
            while i < entries.len()
                invariant
                    i <= entries@.len(),
                    value.kind == JsonKind::Object(*entries),
                    names_unique(cache@),
                    forall|q: Seq<char>|
                        lookup(cache@, q) == with_key_colors(c0, entries_keys(entries@.subrange(0, i as int)), q),
                decreases entries@.len() - i,
            {
                let ghost c1 = cache@;
                let (k, v) = &entries[i];
                record_key_color(cache, k);
                let ghost c2 = cache@;
                proof {
                    lemma_with_key_colors_chain(c0, c1, c2, entries_keys(entries@.subrange(0, i as int)), seq![k@]);
                }
                proof {
                    assert(decreases_to!(*value => value.kind));
                    assert(value.kind->Object_0 == *entries);
                    assert(decreases_to!(value.kind => value.kind->Object_0));
                    assert(decreases_to!(*entries => entries@));
                    assert(decreases_to!(entries@ => entries@[i as int]));
                    assert(decreases_to!(entries@[i as int] => entries@[i as int].1));
                    assert(decreases_to!(*value => *v));
                }
                collect_json_field_colors(v, cache);
                proof {
                    let pre = entries_keys(entries@.subrange(0, i as int));
                    lemma_with_key_colors_chain(c0, c2, cache@, pre + seq![k@], json_keys(*v));
                    let sub = entries@.subrange(0, i + 1);
                    assert(sub.subrange(0, sub.len() - 1) =~= entries@.subrange(0, i as int));
                    assert(sub[sub.len() - 1] == entries@[i as int]);
                }
                i += 1;
            }
            assert(entries@.subrange(0, entries@.len() as int) =~= entries@);
        },
        JsonKind::Array(items) => {
            let mut i: usize = 0;
            while i < items.len()
                invariant
                    i <= items@.len(),
                    value.kind == JsonKind::Array(*items),
                    names_unique(cache@),
                    forall|q: Seq<char>|
                        lookup(cache@, q) == with_key_colors(c0, items_keys(items@.subrange(0, i as int)), q),
                decreases items@.len() - i,
            {
                let ghost c1 = cache@;
                proof {
                    assert(decreases_to!(*value => value.kind));
                    assert(value.kind->Array_0 == *items);
                    assert(decreases_to!(value.kind => value.kind->Array_0));
                    assert(decreases_to!(*items => items@));
                    assert(decreases_to!(items@ => items@[i as int]));
                    assert(decreases_to!(*value => items@[i as int]));
                }
                collect_json_field_colors(&items[i], cache);
                proof {
                    let pre = items_keys(items@.subrange(0, i as int));
                    lemma_with_key_colors_chain(c0, c1, cache@, pre, json_keys(items@[i as int]));
                    let sub = items@.subrange(0, i + 1);
                    assert(sub.subrange(0, sub.len() - 1) =~= items@.subrange(0, i as int));
                    assert(sub[sub.len() - 1] == items@[i as int]);
                }
                i += 1;
            }
            assert(items@.subrange(0, items@.len() as int) =~= items@);
        },
        _ => {
            proof {
                assert forall|q: Seq<char>| lookup(cache@, q) == with_key_colors(c0, json_keys(*value), q) by {
                    assert(!json_keys(*value).contains(q));
                }
            }
        },
    }
}


/// The value of the first entry for `k`, as a JSON object lookup finds it.
pub open spec fn assoc_first<V>(list: Seq<(String, V)>, k: Seq<char>) -> Option<V>
    decreases list.len(),
{
    if list.len() == 0 {
        None
    } else if list[0].0@ == k {
        Some(list[0].1)
    } else {
        assoc_first(list.drop_first(), k)
    }
}

pub proof fn lemma_assoc_first_at<V>(list: Seq<(String, V)>, k: Seq<char>, j: int)
    requires
        0 <= j < list.len(),
        list[j].0@ == k,
        forall|i: int| 0 <= i < j ==> #[trigger] list[i].0@ != k,
    ensures
        assoc_first(list, k) == Some(list[j].1),
    decreases j,
{
    if j > 0 {
        let rest = list.drop_first();
        assert forall|i: int| 0 <= i < j - 1 implies #[trigger] rest[i].0@ != k by {
            assert(rest[i] == list[i + 1]);
        }
        lemma_assoc_first_at(rest, k, j - 1);
    }
}

pub proof fn lemma_assoc_first_none<V>(list: Seq<(String, V)>, k: Seq<char>)
    requires
        forall|i: int| 0 <= i < list.len() ==> #[trigger] list[i].0@ != k,
    ensures
        assoc_first(list, k) is None,
    decreases list.len(),
{
    if list.len() > 0 {
        let rest = list.drop_first();
        assert forall|i: int| 0 <= i < rest.len() implies #[trigger] rest[i].0@ != k by {
            assert(rest[i] == list[i + 1]);
        }
        lemma_assoc_first_none(rest, k);
    }
}

/// The text shown for a field value: a string as it is, any other value as
/// its compact JSON, or `<invalid-json>` where that could not be written.
pub open spec fn compact_text(v: JsonValue) -> Seq<char> {
    match v.kind {
        JsonKind::Str(s) => s@,
        _ => match v.text {
            Some(t) => t@,
            None => "<invalid-json>"@,
        },
    }
}

pub fn compact_json_scalar(v: &JsonValue) -> (s: String)
    ensures
        s@ == compact_text(*v),
{
    match &v.kind {
        JsonKind::Str(s) => s.clone(),
        _ => match &v.text {
            Some(t) => t.clone(),
            None => lit("<invalid-json>"),
        },
    }
}

} // verus!
