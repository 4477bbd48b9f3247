//! Character-level helpers shared by the line protocol, the configuration
//! parsers and the display code: whitespace, trimming, splitting and the
//! decimal notation of integers.
use vstd::prelude::*;
use vstd::utf8::encode_utf8;

verus! {

/// Appends one character to a string.
#[verifier::external_body]
pub(crate) fn string_push(s: &mut String, c: char)
    ensures
        final(s)@ == old(s)@.push(c),
{
    s.push(c);
}

/// Removes the last character of a string, if there is one.
#[verifier::external_body]
pub(crate) fn string_pop(s: &mut String) -> (r: Option<char>)
    ensures
        old(s)@.len() > 0 ==> final(s)@ == old(s)@.drop_last() && r == Some(old(s)@.last()),
        old(s)@.len() == 0 ==> final(s)@ == old(s)@ && r is None,
{
    s.pop()
}

/// The characters of a string, in order.
pub fn to_chars(s: &str) -> (v: Vec<char>)
    ensures
        v@ == s@,
{
    let mut v: Vec<char> = Vec::new();
    for c in it: s.chars()
        invariant
            v@ == it.seq().take(it.index()),
            it.seq() == s@,
    {
        v.push(c);
    }
    v
}

/// A string holding the characters `v[from..to]`.
pub fn string_of(v: &Vec<char>, from: usize, to: usize) -> (s: String)
    requires
        from <= to <= v@.len(),
    ensures
        s@ == v@.subrange(from as int, to as int),
{
    let mut s = String::new();
    let mut i = from;
    while i < to
        invariant
            from <= i <= to <= v@.len(),
            s@ == v@.subrange(from as int, i as int),
        decreases to - i,
    {
        string_push(&mut s, v[i]);
        i += 1;
    }
    s
}

/// A string holding all of `v`.
pub fn string_from(v: &Vec<char>) -> (s: String)
    ensures
        s@ == v@,
{
    string_of(v, 0, v.len())
}

/// Appends the characters of `t` to `s`.
pub fn push_str(s: &mut String, t: &str)
    ensures
        final(s)@ == old(s)@ + t@,
{
    for c in it: t.chars()
        invariant
            s@ == old(s)@ + it.seq().take(it.index()),
            it.seq() == t@,
    {
        string_push(s, c);
    }
}

// ---------------------------------------------------------------- whitespace

/// Unicode `White_Space`, the property that `char::is_whitespace` tests.
pub open spec fn is_ws(c: char) -> bool {
    let u = c as u32;
    ||| 0x09 <= u <= 0x0D
    ||| u == 0x20
    ||| u == 0x85
    ||| u == 0xA0
    ||| u == 0x1680
    ||| 0x2000 <= u <= 0x200A
    ||| u == 0x2028
    ||| u == 0x2029
    ||| u == 0x202F
    ||| u == 0x205F
    ||| u == 0x3000
}

pub fn is_whitespace(c: char) -> (b: bool)
    ensures
        b == is_ws(c),
{
    let u = c as u32;
    (0x09 <= u && u <= 0x0D) || u == 0x20 || u == 0x85 || u == 0xA0 || u == 0x1680 || (0x2000
        <= u && u <= 0x200A) || u == 0x2028 || u == 0x2029 || u == 0x202F || u == 0x205F || u
        == 0x3000
}

/// `s` without its leading whitespace.
pub open spec fn trim_start(s: Seq<char>) -> Seq<char>
    decreases s.len(),
{
    if s.len() > 0 && is_ws(s[0]) {
        trim_start(s.drop_first())
    } else {
        s
    }
}

/// `s` without its trailing whitespace.
pub open spec fn trim_end(s: Seq<char>) -> Seq<char>
    decreases s.len(),
{
    if s.len() > 0 && is_ws(s.last()) {
        trim_end(s.drop_last())
    } else {
        s
    }
}

/// `s` without leading and trailing whitespace, as `str::trim` gives it.
pub open spec fn trim(s: Seq<char>) -> Seq<char> {
    trim_end(trim_start(s))
}

/// The bounds `(a, b)` with `v[a..b]` equal to `trim(v[from..to])`.
pub fn trim_bounds(v: &Vec<char>, from: usize, to: usize) -> (r: (usize, usize))
    requires
        from <= to <= v@.len(),
    ensures
        from <= r.0 <= r.1 <= to,
        v@.subrange(r.0 as int, r.1 as int) == trim(v@.subrange(from as int, to as int)),
{
    let ghost w = v@.subrange(from as int, to as int);
    let mut i = from;
    while i < to && is_whitespace(v[i])
        invariant
            from <= i <= to <= v@.len(),
            w == v@.subrange(from as int, to as int),
            trim_start(w) == trim_start(v@.subrange(i as int, to as int)),
        decreases to - i,
    {
        assert(v@.subrange(i as int, to as int).drop_first() =~= v@.subrange(i + 1, to as int));
        i += 1;
    }
    assert(trim_start(w) == v@.subrange(i as int, to as int));
    let mut j = to;
    while j > i && is_whitespace(v[j - 1])
        invariant
            from <= i <= j <= to <= v@.len(),
            trim(w) == trim_end(v@.subrange(i as int, j as int)),
        decreases j,
    {
        assert(v@.subrange(i as int, j as int).drop_last() =~= v@.subrange(i as int, j - 1));
        j -= 1;
    }
    (i, j)
}

/// `str::trim`, as a new string.
pub fn trim_str(s: &str) -> (t: String)
    ensures
        t@ == trim(s@),
{
    let v = to_chars(s);
    let (a, b) = trim_bounds(&v, 0, v.len());
    assert(v@.subrange(0, v@.len() as int) =~= v@);
    string_of(&v, a, b)
}

// ---------------------------------------------------------------- splitting

/// The pieces that `split_whitespace` gives, as a left fold: the words
/// finished so far and the word being read.
pub open spec fn words_state(s: Seq<char>) -> (Seq<Seq<char>>, Seq<char>)
    decreases s.len(),
{
    if s.len() == 0 {
        (seq![], seq![])
    } else {
        let (ws, cur) = words_state(s.drop_last());
        let c = s.last();
        if is_ws(c) {
            if cur.len() > 0 {
                (ws.push(cur), seq![])
            } else {
                (ws, cur)
            }
        } else {
            (ws, cur.push(c))
        }
    }
}

/// The non-empty runs of non-whitespace characters of `s`, in order, as
/// `str::split_whitespace` gives them.
pub open spec fn words(s: Seq<char>) -> Seq<Seq<char>> {
    let (ws, cur) = words_state(s);
    if cur.len() > 0 {
        ws.push(cur)
    } else {
        ws
    }
}

/// The pieces of `s` between occurrences of `sep`, as a left fold.
pub open spec fn split_state(s: Seq<char>, sep: char) -> (Seq<Seq<char>>, Seq<char>)
    decreases s.len(),
{
    if s.len() == 0 {
        (seq![], seq![])
    } else {
        let (ps, cur) = split_state(s.drop_last(), sep);
        let c = s.last();
        if c == sep {
            (ps.push(cur), seq![])
        } else {
            (ps, cur.push(c))
        }
    }
}

/// The pieces of `s` between occurrences of `sep`, empty ones included, as
/// `str::split` with a character gives them.
pub open spec fn split(s: Seq<char>, sep: char) -> Seq<Seq<char>> {
    let (ps, cur) = split_state(s, sep);
    ps.push(cur)
}

/// The views of a vector of strings.
pub open spec fn views(v: Seq<String>) -> Seq<Seq<char>> {
    v.map_values(|x: String| x@)
}

/// The views of a vector of character vectors.
pub open spec fn char_views(v: Seq<Vec<char>>) -> Seq<Seq<char>> {
    v.map_values(|x: Vec<char>| x@)
}

/// `split_whitespace` over characters.
pub fn split_ws_chars(v: &Vec<char>) -> (r: Vec<Vec<char>>)
    ensures
        char_views(r@) == words(v@),
{
    let mut ws: Vec<Vec<char>> = Vec::new();
    let mut cur: Vec<char> = Vec::new();
    let mut i: usize = 0;
    while i < v.len()
        invariant
            i <= v@.len(),
            (char_views(ws@), cur@) == words_state(v@.take(i as int)),
        decreases v@.len() - i,
    {
        let c = v[i];
        assert(v@.take(i + 1).drop_last() =~= v@.take(i as int));
        if is_whitespace(c) {
            if cur.len() > 0 {
                let done = cur;
                ws.push(done);
                cur = Vec::new();
                proof {
                    lemma_char_views_push(ws@);
                }
            }
        } else {
            cur.push(c);
        }
        i += 1;
    }
    assert(v@.take(v@.len() as int) =~= v@);
    if cur.len() > 0 {
        let last = cur;
        ws.push(last);
        proof {
            lemma_char_views_push(ws@);
        }
    }
    ws
}

proof fn lemma_char_views_push(w: Seq<Vec<char>>)
    requires
        w.len() > 0,
    ensures
        char_views(w) =~= char_views(w.drop_last()).push(w.last()@),
{
}

/// `str::split_whitespace` over a string.
pub fn split_whitespace(s: &str) -> (r: Vec<String>)
    ensures
        views(r@) == words(s@),
{
    let v = to_chars(s);
    let parts = split_ws_chars(&v);
    let mut out: Vec<String> = Vec::new();
    let mut k: usize = 0;
    while k < parts.len()
        invariant
            k <= parts@.len(),
            out@.len() == k,
            views(out@) =~= char_views(parts@).take(k as int),
        decreases parts@.len() - k,
    {
        let p = string_from(&parts[k]);
        out.push(p);
        assert(views(out@) =~= char_views(parts@).take(k + 1)) by {
            assert(out@[k as int]@ == parts@[k as int]@);
        }
        k += 1;
    }
    assert(char_views(parts@).take(parts@.len() as int) =~= char_views(parts@));
    out
}


/// `str::split` with a character, over characters.
pub fn split_chars(v: &Vec<char>, from: usize, to: usize, sep: char) -> (r: Vec<Vec<char>>)
    requires
        from <= to <= v@.len(),
    ensures
        char_views(r@) == split(v@.subrange(from as int, to as int), sep),
{
    let ghost w = v@.subrange(from as int, to as int);
    let mut ps: Vec<Vec<char>> = Vec::new();
    let mut cur: Vec<char> = Vec::new();
    let mut i: usize = from;
    while i < to
        invariant
            from <= i <= to <= v@.len(),
            w == v@.subrange(from as int, to as int),
            (char_views(ps@), cur@) == split_state(w.take(i - from), sep),
        decreases to - i,
    {
        let c = v[i];
        assert(w.take(i + 1 - from).drop_last() =~= w.take(i - from));
        assert(w.take(i + 1 - from).last() == c);
        if c == sep {
            let done = cur;
            ps.push(done);
            cur = Vec::new();
            proof {
                lemma_char_views_push(ps@);
            }
        } else {
            cur.push(c);
        }
        i += 1;
    }
    assert(w.take(to - from) =~= w);
    let last = cur;
    ps.push(last);
    proof {
        lemma_char_views_push(ps@);
    }
    ps
}

/// Index of the first `c` in `v[from..to]`.
pub fn find_char(v: &Vec<char>, from: usize, to: usize, c: char) -> (r: Option<usize>)
    requires
        from <= to <= v@.len(),
    ensures
        match r {
            Some(i) => from <= i < to && v@[i as int] == c && forall|k: int|
                from <= k < i ==> v@[k] != c,
            None => forall|k: int| from <= k < to ==> v@[k] != c,
        },
{
    let mut i = from;
    while i < to
        invariant
            from <= i <= to <= v@.len(),
            forall|k: int| from <= k < i ==> v@[k] != c,
        decreases to - i,
    {
        if v[i] == c {
            return Some(i);
        }
        i += 1;
    }
    None
}

/// `char::to_ascii_lowercase`.
pub open spec fn ascii_lower(c: char) -> char {
    if 'A' <= c <= 'Z' {
        ((c as u32) + 32) as char
    } else {
        c
    }
}

/// `str::to_ascii_lowercase` over characters.
pub open spec fn lower(s: Seq<char>) -> Seq<char> {
    s.map_values(|c: char| ascii_lower(c))
}

pub fn to_ascii_lower(c: char) -> (r: char)
    ensures
        r == ascii_lower(c),
{
    if 'A' <= c && c <= 'Z' {
        let u = (c as u32) + 32;
        assert(0x61 <= u <= 0x7A);
        char_of_ascii(u)
    } else {
        c
    }
}

/// The character with ASCII code `u`.
fn char_of_ascii(u: u32) -> (c: char)
    requires
        u < 0x80,
    ensures
        c == u as char,
{
    let b: u8 = u as u8;
    b as char
}

/// Whether the characters `v[from..to]` equal `t`.
pub fn slice_eq(v: &Vec<char>, from: usize, to: usize, t: &Vec<char>) -> (b: bool)
    requires
        from <= to <= v@.len(),
    ensures
        b == (v@.subrange(from as int, to as int) == t@),
{
    if to - from != t.len() {
        return false;
    }
    let mut i: usize = 0;
    while i < t.len()
        invariant
            from <= to <= v@.len(),
            to - from == t@.len(),
            i <= t@.len(),
            forall|k: int| 0 <= k < i ==> v@[from + k] == t@[k],
        decreases t@.len() - i,
    {
        if v[from + i] != t[i] {
            assert(v@.subrange(from as int, to as int)[i as int] != t@[i as int]);
            return false;
        }
        i += 1;
    }
    assert(v@.subrange(from as int, to as int) =~= t@);
    true
}

/// Whether `trim(v[from..to])`, lower-cased, equals `t`.
pub fn trimmed_lower_eq(v: &Vec<char>, from: usize, to: usize, t: &str) -> (b: bool)
    requires
        from <= to <= v@.len(),
    ensures
        b == (lower(trim(v@.subrange(from as int, to as int))) == t@),
{
    let (a, z) = trim_bounds(v, from, to);
    let tv = to_chars(t);
    if z - a != tv.len() {
        assert(lower(v@.subrange(a as int, z as int)).len() == z - a);
        return false;
    }
    let mut i: usize = 0;
    while i < tv.len()
        invariant
            a <= z <= v@.len(),
            z - a == tv@.len(),
            tv@ == t@,
            from <= to <= v@.len(),
            v@.subrange(a as int, z as int) == trim(v@.subrange(from as int, to as int)),
            i <= tv@.len(),
            forall|k: int| 0 <= k < i ==> ascii_lower(v@[a + k]) == tv@[k],
        decreases tv@.len() - i,
    {
        if to_ascii_lower(v[a + i]) != tv[i] {
            assert(lower(v@.subrange(a as int, z as int))[i as int] != tv@[i as int]);
            return false;
        }
        i += 1;
    }
    assert(lower(v@.subrange(a as int, z as int)) =~= tv@);
    true
}

// ---------------------------------------------------------------- decimal

pub open spec fn is_digit(c: char) -> bool {
    '0' <= c <= '9'
}

pub open spec fn digit_val(c: char) -> nat {
    ((c as u32) - 48) as nat
}

/// The value of a run of decimal digits.
pub open spec fn digits_value(d: Seq<char>) -> nat
    decreases d.len(),
{
    if d.len() == 0 {
        0
    } else {
        digits_value(d.drop_last()) * 10 + digit_val(d.last())
    }
}

pub open spec fn all_digits(d: Seq<char>) -> bool {
    forall|i: int| 0 <= i < d.len() ==> is_digit(#[trigger] d[i])
}

/// The digits of an unsigned number: `s` without one leading `+`.
pub open spec fn unsigned_body(s: Seq<char>) -> Seq<char> {
    if s.len() > 0 && s[0] == '+' {
        s.drop_first()
    } else {
        s
    }
}

/// What `str::parse` gives for an unsigned integer type whose largest
/// value is `max`: an optional `+`, then one or more ASCII digits.
pub open spec fn parse_unsigned(s: Seq<char>, max: nat) -> Option<nat> {
    let d = unsigned_body(s);
    if d.len() > 0 && all_digits(d) && digits_value(d) <= max {
        Some(digits_value(d))
    } else {
        None
    }
}

/// What `str::parse` gives for a signed integer type with range
/// `[min, max]`: an optional sign, then one or more ASCII digits.
pub open spec fn parse_signed(s: Seq<char>, min: int, max: int) -> Option<int> {
    if s.len() > 0 && s[0] == '-' {
        let d = s.drop_first();
        if d.len() > 0 && all_digits(d) && min <= -digits_value(d) {
            Some(-digits_value(d))
        } else {
            None
        }
    } else {
        let d = unsigned_body(s);
        if d.len() > 0 && all_digits(d) && digits_value(d) <= max {
            Some(digits_value(d) as int)
        } else {
            None
        }
    }
}

pub open spec fn parse_u64_spec(s: Seq<char>) -> Option<u64> {
    match parse_unsigned(s, u64::MAX as nat) {
        Some(n) => Some(n as u64),
        None => None,
    }
}

pub open spec fn parse_usize_spec(s: Seq<char>) -> Option<usize> {
    match parse_unsigned(s, usize::MAX as nat) {
        Some(n) => Some(n as usize),
        None => None,
    }
}

pub open spec fn parse_i64_spec(s: Seq<char>) -> Option<i64> {
    match parse_signed(s, i64::MIN as int, i64::MAX as int) {
        Some(n) => Some(n as i64),
        None => None,
    }
}

proof fn lemma_digits_prefix_mono(d: Seq<char>, i: int, j: int)
    requires
        0 <= i <= j <= d.len(),
        all_digits(d),
    ensures
        digits_value(d.take(i)) <= digits_value(d.take(j)),
    decreases j - i,
{
    if i < j {
        lemma_digits_prefix_mono(d, i, j - 1);
        assert(d.take(j).drop_last() =~= d.take(j - 1));
    }
}

/// The value of the digits `v[from..to]`, where it fits in a `u64`.
fn digits_u64(v: &Vec<char>, from: usize, to: usize) -> (r: Option<u64>)
    requires
        from <= to <= v@.len(),
    ensures
        ({
            let d = v@.subrange(from as int, to as int);
            match r {
                Some(n) => all_digits(d) && n == digits_value(d),
                None => !(all_digits(d) && digits_value(d) <= u64::MAX),
            }
        }),
{
    let ghost d = v@.subrange(from as int, to as int);
    let mut acc: u64 = 0;
    let mut i = from;
    while i < to
        invariant
            from <= i <= to <= v@.len(),
            d == v@.subrange(from as int, to as int),
            all_digits(d.take(i - from)),
            acc == digits_value(d.take(i - from)),
        decreases to - i,
    {
        let c = v[i];
        assert(d.take(i + 1 - from).drop_last() =~= d.take(i - from));
        if !('0' <= c && c <= '9') {
            assert(!is_digit(d[i - from]));
            return None;
        }
        let dv = (c as u32 - 48) as u64;
        assert(d.take(i + 1 - from).last() == c);
        assert(digits_value(d.take(i + 1 - from)) == acc * 10 + dv);
        let m = acc.checked_mul(10);
        match m {
            None => {
                proof {
                    if all_digits(d) {
                        lemma_digits_prefix_mono(d, i + 1 - from, d.len() as int);
                        assert(d.take(d.len() as int) =~= d);
                    }
                }
                return None;
            },
            Some(m) => {
                match m.checked_add(dv) {
                    None => {
                        proof {
                            if all_digits(d) {
                                lemma_digits_prefix_mono(d, i + 1 - from, d.len() as int);
                                assert(d.take(d.len() as int) =~= d);
                            }
                        }
                        return None;
                    },
                    Some(n) => {
                        acc = n;
                    },
                }
            },
        }
        i += 1;
    }
    assert(d.take(to - from) =~= d);
    Some(acc)
}

/// `str::parse::<u64>` over `v[from..to]`.
pub fn parse_u64_chars(v: &Vec<char>, from: usize, to: usize) -> (r: Option<u64>)
    requires
        from <= to <= v@.len(),
    ensures
        r == parse_u64_spec(v@.subrange(from as int, to as int)),
{
    let ghost s = v@.subrange(from as int, to as int);
    let start = if from < to && v[from] == '+' {
        assert(s.drop_first() =~= v@.subrange(from + 1, to as int));
        from + 1
    } else {
        from
    };
    if start == to {
        return None;
    }
    digits_u64(v, start, to)
}

/// `str::parse::<usize>` over `v[from..to]`.
pub fn parse_usize_chars(v: &Vec<char>, from: usize, to: usize) -> (r: Option<usize>)
    requires
        from <= to <= v@.len(),
    ensures
        r == parse_usize_spec(v@.subrange(from as int, to as int)),
{
    match parse_u64_chars(v, from, to) {
        Some(n) => {
            if n as u128 <= usize::MAX as u128 {
                Some(n as usize)
            } else {
                None
            }
        },
        None => {
            proof {
                assert(usize::MAX <= u64::MAX);
            }
            None
        },
    }
}

/// `str::parse::<i64>` over `v[from..to]`.
pub fn parse_i64_chars(v: &Vec<char>, from: usize, to: usize) -> (r: Option<i64>)
    requires
        from <= to <= v@.len(),
    ensures
        r == parse_i64_spec(v@.subrange(from as int, to as int)),
{
    let ghost s = v@.subrange(from as int, to as int);
    if from < to && v[from] == '-' {
        assert(s.drop_first() =~= v@.subrange(from + 1, to as int));
        if from + 1 == to {
            return None;
        }
        match digits_u64(v, from + 1, to) {
            Some(m) => {
                if m <= 9223372036854775807 {
                    Some(-(m as i64))
                } else if m == 9223372036854775808 {
                    Some(i64::MIN)
                } else {
                    None
                }
            },
            None => None,
        }
    } else {
        let start = if from < to && v[from] == '+' {
            assert(s.drop_first() =~= v@.subrange(from + 1, to as int));
            from + 1
        } else {
            from
        };
        if start == to {
            return None;
        }
        match digits_u64(v, start, to) {
            Some(m) => {
                if m <= 9223372036854775807 {
                    Some(m as i64)
                } else {
                    None
                }
            },
            None => None,
        }
    }
}

/// `str::parse::<u64>`.
pub fn parse_u64(s: &str) -> (r: Option<u64>)
    ensures
        r == parse_u64_spec(s@),
{
    let v = to_chars(s);
    assert(v@.subrange(0, v@.len() as int) =~= v@);
    parse_u64_chars(&v, 0, v.len())
}

/// `str::parse::<i64>`.
pub fn parse_i64(s: &str) -> (r: Option<i64>)
    ensures
        r == parse_i64_spec(s@),
{
    let v = to_chars(s);
    assert(v@.subrange(0, v@.len() as int) =~= v@);
    parse_i64_chars(&v, 0, v.len())
}

/// `str::parse::<usize>`.
pub fn parse_usize(s: &str) -> (r: Option<usize>)
    ensures
        r == parse_usize_spec(s@),
{
    let v = to_chars(s);
    assert(v@.subrange(0, v@.len() as int) =~= v@);
    parse_usize_chars(&v, 0, v.len())
}

pub open spec fn digit_char(d: nat) -> char {
    if d == 0 {
        '0'
    } else if d == 1 {
        '1'
    } else if d == 2 {
        '2'
    } else if d == 3 {
        '3'
    } else if d == 4 {
        '4'
    } else if d == 5 {
        '5'
    } else if d == 6 {
        '6'
    } else if d == 7 {
        '7'
    } else if d == 8 {
        '8'
    } else {
        '9'
    }
}

/// The decimal notation of a natural number, without leading zeros.
pub open spec fn decimal(n: nat) -> Seq<char>
    decreases n,
{
    if n < 10 {
        seq![digit_char(n)]
    } else {
        decimal(n / 10).push(digit_char(n % 10))
    }
}

/// The decimal notation of an integer, with `-` before a negative one.
pub open spec fn decimal_int(n: int) -> Seq<char> {
    if n < 0 {
        seq!['-'] + decimal((-n) as nat)
    } else {
        decimal(n as nat)
    }
}

fn digit_to_char(d: u64) -> (c: char)
    requires
        d < 10,
    ensures
        c == digit_char(d as nat),
{
    if d == 0 {
        '0'
    } else if d == 1 {
        '1'
    } else if d == 2 {
        '2'
    } else if d == 3 {
        '3'
    } else if d == 4 {
        '4'
    } else if d == 5 {
        '5'
    } else if d == 6 {
        '6'
    } else if d == 7 {
        '7'
    } else if d == 8 {
        '8'
    } else {
        '9'
    }
}

/// Appends the decimal notation of `n`.
pub fn push_u64(s: &mut String, n: u64)
    ensures
        final(s)@ == old(s)@ + decimal(n as nat),
    decreases n,
{
    if n >= 10 {
        push_u64(s, n / 10);
    }
    string_push(s, digit_to_char(n % 10));
    proof {
        if n >= 10 {
            assert(decimal(n as nat) == decimal((n / 10) as nat).push(digit_char((n % 10) as nat)));
        }
    }
}

/// Appends the decimal notation of `n`.
pub fn push_i64(s: &mut String, n: i64)
    ensures
        final(s)@ == old(s)@ + decimal_int(n as int),
{
    if n < 0 {
        string_push(s, '-');
        let m: u64 = (-(n as i128)) as u64;
        push_u64(s, m);
    } else {
        push_u64(s, n as u64);
    }
}

proof fn lemma_decimal_digits(n: nat)
    ensures
        decimal(n).len() > 0,
        all_digits(decimal(n)),
        digits_value(decimal(n)) == n,
    decreases n,
{
    lemma_digit_char(n % 10);
    if n < 10 {
        lemma_digit_char(n);
        assert(decimal(n).drop_last() =~= Seq::<char>::empty());
        assert(digits_value(decimal(n)) == digits_value(decimal(n).drop_last()) * 10 + digit_val(
            decimal(n).last(),
        ));
    } else {
        lemma_decimal_digits(n / 10);
        let d = decimal(n);
        assert(d.drop_last() =~= decimal(n / 10));
        assert(d.last() == digit_char(n % 10));
        assert(digits_value(d) == digits_value(d.drop_last()) * 10 + digit_val(d.last()));
        assert(n == (n / 10) * 10 + n % 10) by (nonlinear_arith);
    }
}

proof fn lemma_digit_char(k: nat)
    requires
        k < 10,
    ensures
        is_digit(digit_char(k)),
        digit_val(digit_char(k)) == k,
{
}

/// Reading back the decimal notation of a natural number that fits the
/// type gives that number.
pub proof fn lemma_parse_unsigned_decimal(n: nat, max: nat)
    requires
        n <= max,
    ensures
        parse_unsigned(decimal(n), max) == Some(n),
{
    lemma_decimal_digits(n);
    assert(is_digit(decimal(n)[0]));
}

/// `u64` values survive being written in decimal and read back.
pub proof fn lemma_u64_round_trip(n: u64)
    ensures
        parse_u64_spec(decimal(n as nat)) == Some(n),
{
    lemma_parse_unsigned_decimal(n as nat, u64::MAX as nat);
}

/// `i64` values survive being written in decimal and read back.
pub proof fn lemma_i64_round_trip(n: i64)
    ensures
        parse_i64_spec(decimal_int(n as int)) == Some(n),
{
    if n < 0 {
        let m = (-n) as nat;
        lemma_decimal_digits(m);
        let s = decimal_int(n as int);
        assert(s.drop_first() =~= decimal(m));
    } else {
        lemma_decimal_digits(n as nat);
        assert(is_digit(decimal(n as nat)[0]));
    }
}


// ---------------------------------------------------------------- lists

/// The trimmed, non-empty items among `ps`, in order.
pub open spec fn nonempty_trimmed(ps: Seq<Seq<char>>) -> Seq<Seq<char>>
    decreases ps.len(),
{
    if ps.len() == 0 {
        seq![]
    } else {
        let rest = nonempty_trimmed(ps.drop_last());
        let t = trim(ps.last());
        if t.len() > 0 {
            rest.push(t)
        } else {
            rest
        }
    }
}

/// The items of a `;`-separated list, trimmed, empty ones left out.
pub open spec fn list_items(s: Seq<char>) -> Seq<Seq<char>> {
    nonempty_trimmed(split(s, ';'))
}

/// The trimmed, non-empty pieces of `v[from..to]` between occurrences of
/// `sep`, each as bounds into `v`.
pub fn trimmed_pieces(v: &Vec<char>, from: usize, to: usize, sep: char) -> (r: Vec<String>)
    requires
        from <= to <= v@.len(),
    ensures
        views(r@) == nonempty_trimmed(split(v@.subrange(from as int, to as int), sep)),
{
    let pieces = split_chars(v, from, to, sep);
    let ghost ps = char_views(pieces@);
    let mut out: Vec<String> = Vec::new();
    let mut k: usize = 0;
    while k < pieces.len()
        invariant
            k <= pieces@.len(),
            ps == char_views(pieces@),
            views(out@) == nonempty_trimmed(ps.take(k as int)),
        decreases pieces@.len() - k,
    {
        let p = &pieces[k];
        let (a, b) = trim_bounds(p, 0, p.len());
        assert(p@.subrange(0, p@.len() as int) =~= p@);
        assert(ps.take(k + 1).drop_last() =~= ps.take(k as int));
        assert(ps.take(k + 1).last() == p@);
        if a < b {
            let t = string_of(p, a, b);
            let ghost before = out@;
            out.push(t);
            assert(views(out@) =~= views(before).push(t@));
        }
        k += 1;
    }
    assert(ps.take(pieces@.len() as int) =~= ps);
    out
}

/// The items of a `;`-separated list, trimmed, empty ones left out.
pub fn split_list(s: &str) -> (r: Vec<String>)
    ensures
        views(r@) == list_items(s@),
{
    let v = to_chars(s);
    assert(v@.subrange(0, v@.len() as int) =~= v@);
    trimmed_pieces(&v, 0, v.len(), ';')
}

/// The pieces joined, with `sep` between each two.
pub open spec fn join(parts: Seq<Seq<char>>, sep: Seq<char>) -> Seq<char>
    decreases parts.len(),
{
    if parts.len() == 0 {
        seq![]
    } else if parts.len() == 1 {
        parts[0]
    } else {
        join(parts.drop_last(), sep) + sep + parts.last()
    }
}

/// `parts[from..]` joined with single spaces, as `[..].join(" ")` gives it.
pub fn join_spaces_from(parts: &Vec<String>, from: usize) -> (s: String)
    requires
        from <= parts@.len(),
    ensures
        s@ == join(views(parts@).subrange(from as int, parts@.len() as int), seq![' ']),
{
    let ghost ps = views(parts@).subrange(from as int, parts@.len() as int);
    let mut s = String::new();
    let mut i: usize = from;
    while i < parts.len()
        invariant
            from <= i <= parts@.len(),
            ps == views(parts@).subrange(from as int, parts@.len() as int),
            s@ == join(ps.take(i - from), seq![' ']),
        decreases parts@.len() - i,
    {
        assert(ps.take(i + 1 - from).drop_last() =~= ps.take(i - from));
        assert(ps.take(i + 1 - from).last() == parts@[i as int]@);
        if i > from {
            string_push(&mut s, ' ');
        }
        push_str(&mut s, parts[i].as_str());
        proof {
            if i == from {
                assert(ps.take(1) =~= seq![parts@[i as int]@]);
                assert(s@ =~= join(ps.take(1), seq![' ']));
            } else {
                assert(s@ =~= join(ps.take(i - from), seq![' ']) + seq![' '] + parts@[i as int]@);
            }
        }
        i += 1;
    }
    assert(ps.take(parts@.len() - from) =~= ps);
    s
}

/// The first `n` characters of `s`, or all of them where there are fewer.
pub open spec fn take_chars(s: Seq<char>, n: nat) -> Seq<char> {
    if s.len() <= n {
        s
    } else {
        s.take(n as int)
    }
}

/// `s.chars().take(n).collect::<String>()`.
pub fn take_str(s: &str, n: usize) -> (r: String)
    ensures
        r@ == take_chars(s@, n as nat),
{
    let v = to_chars(s);
    let end = if v.len() <= n {
        v.len()
    } else {
        n
    };
    assert(v@.subrange(0, v@.len() as int) =~= v@);
    string_of(&v, 0, end)
}


/// A non-empty run of characters none of which is whitespace: what
/// `words` gives.
pub open spec fn is_word(w: Seq<char>) -> bool {
    w.len() > 0 && forall|i: int| 0 <= i < w.len() ==> !is_ws(#[trigger] w[i])
}

/// Reading on through a run of non-whitespace characters only lengthens
/// the word being read.
proof fn lemma_words_state_append(s: Seq<char>, w: Seq<char>)
    requires
        forall|i: int| 0 <= i < w.len() ==> !is_ws(#[trigger] w[i]),
    ensures
        words_state(s + w) == (words_state(s).0, words_state(s).1 + w),
    decreases w.len(),
{
    if w.len() == 0 {
        assert(s + w =~= s);
        assert(words_state(s).1 + w =~= words_state(s).1);
    } else {
        let w0 = w.drop_last();
        assert(!is_ws(w[w.len() - 1]));
        lemma_words_state_append(s, w0);
        assert((s + w).drop_last() =~= s + w0);
        assert((s + w).last() == w.last());
        assert(words_state(s).1 + w0 + seq![w.last()] =~= words_state(s).1 + w);
    }
}

/// The state after reading non-empty words joined by single spaces: all
/// but the last word finished, the last one being read.
proof fn lemma_words_state_join(q: Seq<Seq<char>>)
    requires
        q.len() > 0,
        forall|i: int| 0 <= i < q.len() ==> is_word(#[trigger] q[i]),
    ensures
        words_state(join(q, seq![' '])) == (q.drop_last(), q.last()),
    decreases q.len(),
{
    assert(is_word(q[q.len() - 1]));
    if q.len() == 1 {
        lemma_words_state_append(seq![], q[0]);
        assert(Seq::<char>::empty() + q[0] =~= q[0]);
        assert(q.drop_last() =~= Seq::<Seq<char>>::empty());
        assert(Seq::<char>::empty() + q[0] =~= q[0]);
    } else {
        let q0 = q.drop_last();
        assert forall|i: int| 0 <= i < q0.len() implies is_word(#[trigger] q0[i]) by {
            assert(q0[i] == q[i]);
        }
        lemma_words_state_join(q0);
        let a = join(q0, seq![' ']);
        assert(is_word(q0[q0.len() - 1]));
        let b = a + seq![' '];
        assert(b.drop_last() =~= a);
        assert(is_ws(b.last()));
        assert(q0.drop_last().push(q0.last()) =~= q0);
        assert(words_state(b) == (q0, Seq::<char>::empty()));
        lemma_words_state_append(b, q.last());
        assert(Seq::<char>::empty() + q.last() =~= q.last());
        assert(join(q, seq![' ']) == b + q.last());
    }
}

/// Words joined by single spaces split back into the same words.
pub proof fn lemma_words_join(q: Seq<Seq<char>>)
    requires
        forall|i: int| 0 <= i < q.len() ==> is_word(#[trigger] q[i]),
    ensures
        words(join(q, seq![' '])) == q,
{
    if q.len() == 0 {
        assert(join(q, seq![' ']) =~= Seq::<char>::empty());
        assert(words_state(Seq::<char>::empty()) == (Seq::<Seq<char>>::empty(), Seq::<char>::empty()));
    } else {
        lemma_words_state_join(q);
        assert(is_word(q[q.len() - 1]));
        assert(q.drop_last().push(q.last()) =~= q);
    }
}

/// Joining a joined tail onto a list is joining the whole list.
pub proof fn lemma_join_flatten(f: Seq<Seq<char>>, r: Seq<Seq<char>>, sep: Seq<char>)
    requires
        f.len() > 0,
        r.len() > 0,
    ensures
        join(f.push(join(r, sep)), sep) == join(f + r, sep),
    decreases r.len(),
{
    assert(f.push(join(r, sep)).drop_last() =~= f);
    if r.len() == 1 {
        assert((f + r).drop_last() =~= f);
        assert((f + r).last() == r[0]);
    } else {
        let r0 = r.drop_last();
        lemma_join_flatten(f, r0, sep);
        assert((f + r).drop_last() =~= f + r0);
        assert((f + r).last() == r.last());
        assert(f.push(join(r0, sep)).drop_last() =~= f);
        assert(join(f.push(join(r, sep)), sep) =~= join(f, sep) + sep + (join(r0, sep) + sep
            + r.last()));
        assert(join(f.push(join(r0, sep)), sep) =~= join(f, sep) + sep + join(r0, sep));
    }
}

/// What `words` gives is words.
pub proof fn lemma_words_are_words(s: Seq<char>)
    ensures
        forall|i: int| 0 <= i < words(s).len() ==> is_word(#[trigger] words(s)[i]),
{
    lemma_words_state_clean(s);
}

proof fn lemma_words_state_clean(s: Seq<char>)
    ensures
        forall|i: int|
            0 <= i < words_state(s).0.len() ==> is_word(#[trigger] words_state(s).0[i]),
        forall|i: int| 0 <= i < words_state(s).1.len() ==> !is_ws(#[trigger] words_state(s).1[i]),
    decreases s.len(),
{
    if s.len() > 0 {
        lemma_words_state_clean(s.drop_last());
        let (ws, cur) = words_state(s.drop_last());
        if !is_ws(s.last()) {
            assert forall|i: int| 0 <= i < cur.push(s.last()).len() implies !is_ws(
                #[trigger] cur.push(s.last())[i],
            ) by {
                if i < cur.len() {
                    assert(cur.push(s.last())[i] == cur[i]);
                }
            }
        } else if cur.len() > 0 {
            assert(is_word(cur));
            assert forall|i: int| 0 <= i < ws.push(cur).len() implies is_word(
                #[trigger] ws.push(cur)[i],
            ) by {
                if i < ws.len() {
                    assert(ws.push(cur)[i] == ws[i]);
                }
            }
        }
    }
}

/// A text without whitespace is its own trim.
pub proof fn lemma_trim_word(w: Seq<char>)
    requires
        forall|i: int| 0 <= i < w.len() ==> !is_ws(#[trigger] w[i]),
    ensures
        trim(w) == w,
{
    if w.len() > 0 {
        assert(!is_ws(w[0]));
        assert(!is_ws(w[w.len() - 1]));
    }
}

/// The decimal notation of an integer is a word.
pub proof fn lemma_decimal_int_word(n: int)
    ensures
        is_word(decimal_int(n)),
{
    let m: nat = if n < 0 {
        (-n) as nat
    } else {
        n as nat
    };
    lemma_decimal_digits(m);
    let d = decimal(m);
    assert forall|i: int| 0 <= i < d.len() implies !is_ws(#[trigger] d[i]) by {
        assert(is_digit(d[i]));
    }
    if n < 0 {
        let s = decimal_int(n);
        assert forall|i: int| 0 <= i < s.len() implies !is_ws(#[trigger] s[i]) by {
            if i > 0 {
                assert(s[i] == d[i - 1]);
            }
        }
    }
}

/// `s` without its last character, or `s` where it is empty.
pub open spec fn drop_last_char(s: Seq<char>) -> Seq<char> {
    if s.len() > 0 {
        s.drop_last()
    } else {
        s
    }
}


/// The UTF-8 bytes of two texts one after the other are the bytes of each.
pub proof fn lemma_encode_utf8_concat(a: Seq<char>, b: Seq<char>)
    ensures
        encode_utf8(a + b) == encode_utf8(a) + encode_utf8(b),
    decreases a.len(),
{
    if a.len() > 0 {
        lemma_encode_utf8_concat(a.drop_first(), b);
        assert((a + b).drop_first() =~= a.drop_first() + b);
        assert((a + b)[0] == a[0]);
        assert(encode_utf8(a + b) =~= encode_utf8(a) + encode_utf8(b));
    } else {
        assert(a + b =~= b);
        assert(encode_utf8(a) =~= Seq::<u8>::empty());
        assert(encode_utf8(a) + encode_utf8(b) =~= encode_utf8(b));
    }
}

} // verus!
