//! Commands that the chart can send: their configuration, the argument
//! specifications, and the palette in which the user picks and fills them.
use vstd::prelude::*;

use crate::model::{lit, names_unique};
use crate::text::{drop_last_char, parse_i64, parse_i64_spec, push_str, string_pop, string_push};
use crate::text::{
    find_char, list_items, lower, split, split_chars, split_list,
    string_of, to_chars, trim, trim_bounds, trim_str, trimmed_lower_eq, views, char_views,
};

verus! {

#[derive(Clone, Copy, Debug, PartialEq, Eq, Structural)]
pub enum ArgType {
    Int,
    Float,
    String,
}

/// The argument type that a (trimmed, case-insensitive) name stands for.
pub open spec fn arg_type_spec(s: Seq<char>) -> Option<ArgType> {
    let t = lower(trim(s));
    if t == "int"@ {
        Some(ArgType::Int)
    } else if t == "float"@ {
        Some(ArgType::Float)
    } else if t == "string"@ {
        Some(ArgType::String)
    } else {
        None
    }
}

impl ArgType {
    /// `int`, `float` or `string`, ignoring case and surrounding whitespace.
    pub fn parse(raw: &str) -> (r: Option<Self>)
        ensures
            r == arg_type_spec(raw@),
    {
        let v = to_chars(raw);
        assert(v@.subrange(0, v@.len() as int) =~= v@);
        if trimmed_lower_eq(&v, 0, v.len(), "int") {
            Some(ArgType::Int)
        } else if trimmed_lower_eq(&v, 0, v.len(), "float") {
            Some(ArgType::Float)
        } else if trimmed_lower_eq(&v, 0, v.len(), "string") {
            Some(ArgType::String)
        } else {
            None
        }
    }
}

#[derive(Clone, Copy, Debug, PartialEq, Eq, Structural)]
pub enum ArgTransform {
    Plain,
    Mul1e9U64,
}

/// The transform that a (trimmed, case-insensitive) name stands for; the
/// empty name is no transform.
pub open spec fn transform_spec(s: Seq<char>) -> Option<ArgTransform> {
    let t = lower(trim(s));
    if t == ""@ {
        Some(ArgTransform::Plain)
    } else if t == "mul_1e9_u64"@ {
        Some(ArgTransform::Mul1e9U64)
    } else {
        None
    }
}

impl ArgTransform {
    pub fn parse(raw: &str) -> (r: Option<Self>)
        ensures
            r == transform_spec(raw@),
    {
        let v = to_chars(raw);
        assert(v@.subrange(0, v@.len() as int) =~= v@);
        if trimmed_lower_eq(&v, 0, v.len(), "") {
            Some(ArgTransform::Plain)
        } else if trimmed_lower_eq(&v, 0, v.len(), "mul_1e9_u64") {
            Some(ArgTransform::Mul1e9U64)
        } else {
            Option::None
        }
    }

    pub fn name(&self) -> (s: &'static str)
        ensures
            s@ == match self {
                ArgTransform::Plain => ""@,
                ArgTransform::Mul1e9U64 => "mul_1e9_u64"@,
            },
    {
        match self {
            ArgTransform::Plain => "",
            ArgTransform::Mul1e9U64 => "mul_1e9_u64",
        }
    }
}

#[derive(Debug)]
pub struct CommandArgSpec {
    pub name: String,
    pub arg_type: ArgType,
    pub transform: ArgTransform,
    pub default_value: String,
}

/// An argument specification as plain values.
pub open spec fn arg_view(a: CommandArgSpec) -> (Seq<char>, ArgType, ArgTransform, Seq<char>) {
    (a.name@, a.arg_type, a.transform, a.default_value@)
}

pub open spec fn arg_views(args: Seq<CommandArgSpec>) -> Seq<
    (Seq<char>, ArgType, ArgTransform, Seq<char>),
> {
    args.map_values(|a: CommandArgSpec| arg_view(a))
}

#[derive(Debug)]
pub struct CommandSpec {
    pub name: String,
    pub args: Vec<CommandArgSpec>,
}

#[derive(Debug)]
pub struct CommandConfig {
    pub tcp_addr: Option<String>,
    pub commands: Vec<CommandSpec>,
}

/// `s` cut at its first `c`: the text before and the text after; all of `s`
/// and nothing where `c` does not occur.
pub open spec fn split_once(s: Seq<char>, c: char) -> (Seq<char>, Seq<char>) {
    if s.contains(c) {
        let i = choose|i: int|
            0 <= i < s.len() && s[i] == c && forall|k: int| 0 <= k < i ==> s[k] != c;
        (s.take(i), s.skip(i + 1))
    } else {
        (s, seq![])
    }
}

/// What one `name:type[:transform][=default]` item specifies.
pub open spec fn one_arg_spec(s: Seq<char>) -> Option<(Seq<char>, ArgType, ArgTransform, Seq<char>)> {
    let (left, dflt) = split_once(s, '=');
    let parts = split(left, ':');
    if parts.len() == 2 {
        match arg_type_spec(trim(parts[1])) {
            Some(t) => Some((trim(parts[0]), t, ArgTransform::Plain, trim(dflt))),
            None => None,
        }
    } else if parts.len() == 3 {
        match (arg_type_spec(trim(parts[1])), transform_spec(trim(parts[2]))) {
            (Some(t), Some(x)) => Some((trim(parts[0]), t, x, trim(dflt))),
            _ => None,
        }
    } else {
        None
    }
}

/// The argument specifications among `ps` that are well formed, in order.
pub open spec fn arg_specs_of(ps: Seq<Seq<char>>) -> Seq<
    (Seq<char>, ArgType, ArgTransform, Seq<char>),
>
    decreases ps.len(),
{
    if ps.len() == 0 {
        seq![]
    } else {
        let rest = arg_specs_of(ps.drop_last());
        match one_arg_spec(ps.last()) {
            Some(a) => rest.push(a),
            None => rest,
        }
    }
}

proof fn lemma_first_occurrence_unique(s: Seq<char>, c: char, i: int, j: int)
    requires
        0 <= i < s.len() && s[i] == c && forall|k: int| 0 <= k < i ==> s[k] != c,
        0 <= j < s.len() && s[j] == c && forall|k: int| 0 <= k < j ==> s[k] != c,
    ensures
        i == j,
{
    if i < j {
        assert(s[i] != c);
    } else if j < i {
        assert(s[j] != c);
    }
}

/// Parses one `name:type[:transform][=default]` item.
pub fn parse_one_arg_spec(raw: &str) -> (r: Option<CommandArgSpec>)
    ensures
        match r {
            Some(a) => one_arg_spec(raw@) == Some(arg_view(a)),
            None => one_arg_spec(raw@) is None,
        },
{
    let v = to_chars(raw);
    let ghost s = v@;
    let (left_end, dflt_start) = match find_char(&v, 0, v.len(), '=') {
        Some(i) => {
            proof {
                assert(s.contains('='));
                let j = choose|j: int|
                    0 <= j < s.len() && s[j] == '=' && forall|k: int| 0 <= k < j ==> s[k] != '=';
                lemma_first_occurrence_unique(s, '=', i as int, j);
                assert(s.take(i as int) =~= v@.subrange(0, i as int));
                assert(s.skip(i + 1) =~= v@.subrange(i + 1, v@.len() as int));
            }
            (i, i + 1)
        },
        None => {
            proof {
                assert(!s.contains('='));
                assert(s =~= v@.subrange(0, v@.len() as int));
                assert(v@.subrange(v@.len() as int, v@.len() as int) =~= Seq::<char>::empty());
            }
            (v.len(), v.len())
        },
    };
    assert(split_once(s, '=') == (v@.subrange(0, left_end as int), v@.subrange(
        dflt_start as int,
        v@.len() as int,
    )));
    let parts = split_chars(&v, 0, left_end, ':');
    let ghost ps = char_views(parts@);
    let n = parts.len();
    if n != 2 && n != 3 {
        return None;
    }
    let p0 = &parts[0];
    let p1 = &parts[1];
    assert(ps[0] == p0@ && ps[1] == p1@);
    assert(p0@.subrange(0, p0@.len() as int) =~= p0@);
    assert(p1@.subrange(0, p1@.len() as int) =~= p1@);
    let (a0, b0) = trim_bounds(p0, 0, p0.len());
    let (a1, b1) = trim_bounds(p1, 0, p1.len());
    let ty_text = string_of(p1, a1, b1);
    let arg_type = match ArgType::parse(ty_text.as_str()) {
        Some(t) => t,
        None => return None,
    };
    let transform = if n == 3 {
        let p2 = &parts[2];
        assert(ps[2] == p2@);
        assert(p2@.subrange(0, p2@.len() as int) =~= p2@);
        let (a2, b2) = trim_bounds(p2, 0, p2.len());
        let tr_text = string_of(p2, a2, b2);
        match ArgTransform::parse(tr_text.as_str()) {
            Some(x) => x,
            None => return None,
        }
    } else {
        ArgTransform::Plain
    };
    let name = string_of(p0, a0, b0);
    let (da, db) = trim_bounds(&v, dflt_start, v.len());
    let default_value = string_of(&v, da, db);
    Some(CommandArgSpec { name, arg_type, transform, default_value })
}

/// Parses a `;`-separated list of argument specifications, leaving out the
/// empty and the malformed ones.
pub fn parse_arg_specs(raw: &str) -> (r: Vec<CommandArgSpec>)
    ensures
        arg_views(r@) == arg_specs_of(list_items(raw@)),
{
    let items = split_list(raw);
    let ghost ps = views(items@);
    let mut out: Vec<CommandArgSpec> = Vec::new();
    let mut k: usize = 0;
    while k < items.len()
        invariant
            k <= items@.len(),
            ps == views(items@),
            ps == list_items(raw@),
            arg_views(out@) == arg_specs_of(ps.take(k as int)),
        decreases items@.len() - k,
    {
        assert(ps.take(k + 1).drop_last() =~= ps.take(k as int));
        assert(ps.take(k + 1).last() == items@[k as int]@);
        match parse_one_arg_spec(items[k].as_str()) {
            Some(a) => {
                let ghost before = out@;
                out.push(a);
                assert(arg_views(out@) =~= arg_views(before).push(arg_view(a)));
            },
            None => {},
        }
        k += 1;
    }
    assert(ps.take(items@.len() as int) =~= ps);
    out
}

impl CommandSpec {
    /// The command `name` with the arguments that `raw` specifies.
    pub fn from_raw(name: String, raw: &str) -> (c: Self)
        ensures
            c.name == name,
            arg_views(c.args@) == arg_specs_of(list_items(raw@)),
    {
        CommandSpec { name, args: parse_arg_specs(raw) }
    }
}

/// The command names that a `;`-separated list gives.
pub fn command_names(raw: &str) -> (r: Vec<String>)
    ensures
        views(r@) == list_items(raw@),
{
    split_list(raw)
}

impl CommandConfig {
    /// The configuration from the raw value of `CHART_CMD_TCP` and the
    /// commands already read; a blank address is no address.
    pub fn from_values(tcp: Option<String>, commands: Vec<CommandSpec>) -> (c: Self)
        ensures
            c.commands == commands,
            match c.tcp_addr {
                Some(a) => tcp matches Some(t) && trim(t@).len() > 0 && a@ == trim(t@),
                None => !(tcp matches Some(t) && trim(t@).len() > 0),
            },
    {
        let tcp_addr = match tcp {
            Some(t) => {
                let a = trim_str(t.as_str());
                if a.as_str().is_empty() {
                    None
                } else {
                    Some(a)
                }
            },
            None => None,
        };
        CommandConfig { tcp_addr, commands }
    }

    /// Whether a command socket is configured.
    pub fn enabled(&self) -> (b: bool)
        ensures
            b == self.tcp_addr is Some,
    {
        self.tcp_addr.is_some()
    }
}


/// The inputs recorded for the command `name`, if any.
pub open spec fn inputs_for(list: Seq<(String, Vec<String>)>, name: Seq<char>) -> Option<
    Seq<Seq<char>>,
> {
    if exists|i: int| 0 <= i < list.len() && list[i].0@ == name {
        let i = choose|i: int| 0 <= i < list.len() && list[i].0@ == name;
        Some(views(list[i].1@))
    } else {
        None
    }
}

/// The default values of the arguments, in order.
pub open spec fn defaults_of(args: Seq<CommandArgSpec>) -> Seq<Seq<char>> {
    args.map_values(|a: CommandArgSpec| a.default_value@)
}

/// The command picker: which command is selected, the argument being
/// edited, the inputs typed so far for each command, and a status line.
#[derive(Debug)]
pub struct CommandPalette {
    pub open: bool,
    pub selected: usize,
    pub custom_input: String,
    pub editing_custom: bool,
    pub arg_index: usize,
    pub arg_inputs_by_command: Vec<(String, Vec<String>)>,
    pub status: Option<String>,
}

impl Default for CommandPalette {
    fn default() -> (p: Self)
        ensures
            !p.open,
            p.selected == 0,
            p.custom_input@.len() == 0,
            !p.editing_custom,
            p.arg_index == 0,
            p.arg_inputs_by_command@.len() == 0,
            p.status is None,
    {
        CommandPalette {
            open: false,
            selected: 0,
            custom_input: String::new(),
            editing_custom: false,
            arg_index: 0,
            arg_inputs_by_command: Vec::new(),
            status: None,
        }
    }
}

proof fn lemma_inputs_for_at(list: Seq<(String, Vec<String>)>, name: Seq<char>, j: int)
    requires
        names_unique(list),
        0 <= j < list.len(),
        list[j].0@ == name,
    ensures
        inputs_for(list, name) == Some(views(list[j].1@)),
{
    let i = choose|i: int| 0 <= i < list.len() && list[i].0@ == name;
    if i != j {
        if i < j {
            assert(list[i].0@ != list[j].0@);
        } else {
            assert(list[j].0@ != list[i].0@);
        }
    }
}

proof fn lemma_replace_inputs(list: Seq<(String, Vec<String>)>, j: int, v: Vec<String>)
    requires
        names_unique(list),
        0 <= j < list.len(),
    ensures
        ({
            let new_list = list.update(j, (list[j].0, v));
            &&& names_unique(new_list)
            &&& inputs_for(new_list, list[j].0@) == Some(views(v@))
            &&& forall|k: Seq<char>|
                k != list[j].0@ ==> inputs_for(new_list, k) == inputs_for(list, k)
        }),
{
    let new_list = list.update(j, (list[j].0, v));
    assert(names_unique(new_list)) by {
        assert forall|a: int, b: int| 0 <= a < b < new_list.len() implies new_list[a].0@
            != new_list[b].0@ by {
            assert(list[a].0@ != list[b].0@);
        }
    }
    lemma_inputs_for_at(new_list, list[j].0@, j);
    assert forall|k: Seq<char>| k != list[j].0@ implies inputs_for(new_list, k) == inputs_for(
        list,
        k,
    ) by {
        if exists|i: int| 0 <= i < list.len() && list[i].0@ == k {
            let i = choose|i: int| 0 <= i < list.len() && list[i].0@ == k;
            lemma_inputs_for_at(list, k, i);
            lemma_inputs_for_at(new_list, k, i);
        } else {
            assert forall|i: int| 0 <= i < new_list.len() implies new_list[i].0@ != k by {
                if i != j {
                    assert(new_list[i] == list[i]);
                }
            }
        }
    }
}

/// The values of the defaults of `spec`'s arguments.
fn default_inputs(spec: &CommandSpec) -> (r: Vec<String>)
    ensures
        views(r@) == defaults_of(spec.args@),
{
    let mut r: Vec<String> = Vec::new();
    let mut k: usize = 0;
    while k < spec.args.len()
        invariant
            k <= spec.args@.len(),
            views(r@) =~= defaults_of(spec.args@).take(k as int),
        decreases spec.args@.len() - k,
    {
        let d = spec.args[k].default_value.clone();
        let ghost before = r@;
        r.push(d);
        assert(views(r@) =~= views(before).push(d@));
        k += 1;
    }
    r
}

/// A copy of a vector of strings.
pub fn clone_strings(v: &Vec<String>) -> (r: Vec<String>)
    ensures
        r@ == v@,
{
    let mut r: Vec<String> = Vec::new();
    let mut k: usize = 0;
    while k < v.len()
        invariant
            k <= v@.len(),
            r@ =~= v@.take(k as int),
        decreases v@.len() - k,
    {
        r.push(v[k].clone());
        k += 1;
    }
    r
}

/// `p1` is `p0` made consistent with the selected command of `cfg`: the
/// command's inputs exist and match its argument count, and the argument
/// cursor lies within them; nothing else changes.
pub open spec fn synced(p0: CommandPalette, cfg: CommandConfig, p1: CommandPalette) -> bool {
    &&& p1.wf()
    &&& p1.open == p0.open
    &&& p1.selected == p0.selected
    &&& p1.custom_input == p0.custom_input
    &&& p1.editing_custom == p0.editing_custom
    &&& p1.status == p0.status
    &&& p0.editing_custom || p0.selected >= cfg.commands@.len() ==> {
        &&& p1.arg_index == 0
        &&& p1.arg_inputs_by_command == p0.arg_inputs_by_command
    }
    &&& !p0.editing_custom && p0.selected < cfg.commands@.len() ==> {
        let spec = cfg.commands@[p0.selected as int];
        let n = spec.args@.len();
        let kept = match inputs_for(p0.arg_inputs_by_command@, spec.name@) {
            Some(v) => v.len() == n,
            None => false,
        };
        &&& inputs_for(p1.arg_inputs_by_command@, spec.name@) == Some(
            if kept {
                inputs_for(p0.arg_inputs_by_command@, spec.name@)->0
            } else {
                defaults_of(spec.args@)
            },
        )
        &&& forall|k: Seq<char>|
            k != spec.name@ ==> inputs_for(p1.arg_inputs_by_command@, k) == inputs_for(
                p0.arg_inputs_by_command@,
                k,
            )
        &&& p1.arg_index == if n == 0 {
            0
        } else if p0.arg_index >= n {
            (n - 1) as usize
        } else {
            p0.arg_index
        }
    }
}

/// The inputs that the palette edits for the selected command: those
/// recorded, or the defaults where none are.
pub open spec fn entry_inputs(p: CommandPalette, cfg: CommandConfig) -> Seq<Seq<char>> {
    let spec = cfg.commands@[p.selected as int];
    match inputs_for(p.arg_inputs_by_command@, spec.name@) {
        Some(v) => v,
        None => defaults_of(spec.args@),
    }
}

/// `p1` is `p0` with the argument under the cursor of the selected command
/// changed by `edit`; unchanged while the custom line is edited or where
/// nothing valid is selected.
pub open spec fn arg_edited(
    p0: CommandPalette,
    cfg: CommandConfig,
    p1: CommandPalette,
    edit: spec_fn(Seq<char>) -> Seq<char>,
) -> bool {
    if p0.editing_custom || p0.selected >= cfg.commands@.len() {
        p1 == p0
    } else {
        let name = cfg.commands@[p0.selected as int].name@;
        let cur = entry_inputs(p0, cfg);
        let new_v = if p0.arg_index < cur.len() {
            cur.update(p0.arg_index as int, edit(cur[p0.arg_index as int]))
        } else {
            cur
        };
        &&& p1.wf()
        &&& inputs_for(p1.arg_inputs_by_command@, name) == Some(new_v)
        &&& forall|k: Seq<char>|
            k != name ==> inputs_for(p1.arg_inputs_by_command@, k) == inputs_for(
                p0.arg_inputs_by_command@,
                k,
            )
        &&& p1.open == p0.open
        &&& p1.selected == p0.selected
        &&& p1.custom_input == p0.custom_input
        &&& p1.editing_custom == p0.editing_custom
        &&& p1.arg_index == p0.arg_index
        &&& p1.status == p0.status
    }
}

impl CommandPalette {
    pub open spec fn wf(self) -> bool {
        names_unique(self.arg_inputs_by_command@)
    }

    /// The inputs shown for the selected command: none while the custom
    /// line is edited or where nothing valid is selected.
    pub open spec fn current_inputs(self, cfg: CommandConfig) -> Seq<Seq<char>> {
        if self.editing_custom || self.selected >= cfg.commands@.len() {
            seq![]
        } else {
            match inputs_for(self.arg_inputs_by_command@, cfg.commands@[self.selected as int].name@) {
                Some(v) => v,
                None => seq![],
            }
        }
    }

    /// Where the inputs of command `name` are recorded.
    fn find_entry(&self, name: &String) -> (r: Option<usize>)
        ensures
            match r {
                Some(j) => j < self.arg_inputs_by_command@.len()
                    && self.arg_inputs_by_command@[j as int].0@ == name@,
                None => forall|i: int|
                    0 <= i < self.arg_inputs_by_command@.len()
                        ==> #[trigger] self.arg_inputs_by_command@[i].0@ != name@,
            },
    {
        let mut i: usize = 0;
        while i < self.arg_inputs_by_command.len()
            invariant
                i <= self.arg_inputs_by_command@.len(),
                forall|k: int| 0 <= k < i ==> #[trigger] self.arg_inputs_by_command@[k].0@ != name@,
            decreases self.arg_inputs_by_command@.len() - i,
        {
            if self.arg_inputs_by_command[i].0 == *name {
                return Some(i);
            }
            i += 1;
        }
        None
    }

    /// Records the default inputs for command `spec` where none are
    /// recorded, and gives their position.
    fn entry_or_defaults(&mut self, spec: &CommandSpec) -> (j: usize)
        requires
            old(self).wf(),
        ensures
            final(self).wf(),
            j < final(self).arg_inputs_by_command@.len(),
            final(self).arg_inputs_by_command@[j as int].0@ == spec.name@,
            inputs_for(final(self).arg_inputs_by_command@, spec.name@) == Some(
                match inputs_for(old(self).arg_inputs_by_command@, spec.name@) {
                    Some(v) => v,
                    None => defaults_of(spec.args@),
                },
            ),
            forall|k: Seq<char>|
                k != spec.name@ ==> inputs_for(final(self).arg_inputs_by_command@, k) == inputs_for(
                    old(self).arg_inputs_by_command@,
                    k,
                ),
            final(self).open == old(self).open,
            final(self).selected == old(self).selected,
            final(self).custom_input == old(self).custom_input,
            final(self).editing_custom == old(self).editing_custom,
            final(self).arg_index == old(self).arg_index,
            final(self).status == old(self).status,
    {
        let ghost old_list = self.arg_inputs_by_command@;
        match self.find_entry(&spec.name) {
            Some(j) => {
                proof {
                    lemma_inputs_for_at(old_list, spec.name@, j as int);
                }
                j
            },
            None => {
                let d = default_inputs(spec);
                let name = spec.name.clone();
                self.arg_inputs_by_command.push((name, d));
                let ghost new_list = self.arg_inputs_by_command@;
                let j = self.arg_inputs_by_command.len() - 1;
                proof {
                    assert(names_unique(new_list)) by {
                        assert forall|a: int, b: int| 0 <= a < b < new_list.len() implies new_list[a].0@
                            != new_list[b].0@ by {
                            if b == j {
                                assert(old_list[a].0@ != spec.name@);
                            } else {
                                assert(new_list[a] == old_list[a] && new_list[b] == old_list[b]);
                            }
                        }
                    }
                    lemma_inputs_for_at(new_list, spec.name@, j as int);
                    assert(inputs_for(old_list, spec.name@) is None);
                    assert forall|k: Seq<char>| k != spec.name@ implies inputs_for(new_list, k)
                        == inputs_for(old_list, k) by {
                        if exists|i: int| 0 <= i < old_list.len() && old_list[i].0@ == k {
                            let i = choose|i: int| 0 <= i < old_list.len() && old_list[i].0@ == k;
                            lemma_inputs_for_at(old_list, k, i);
                            assert(new_list[i] == old_list[i]);
                            lemma_inputs_for_at(new_list, k, i);
                        } else {
                            assert forall|i: int| 0 <= i < new_list.len() implies new_list[i].0@
                                != k by {
                                if i < old_list.len() {
                                    assert(new_list[i] == old_list[i]);
                                }
                            }
                        }
                    }
                }
                j
            },
        }
    }

    /// Keeps the palette consistent with the selected command: its inputs
    /// exist and match its argument count, and the argument cursor lies
    /// within them.
    pub fn sync_with_selection(&mut self, cfg: &CommandConfig)
        requires
            old(self).wf(),
        ensures
            synced(*old(self), *cfg, *final(self)),
    {
        if self.editing_custom {
            self.arg_index = 0;
            return;
        }
        if self.selected >= cfg.commands.len() {
            self.arg_index = 0;
            return;
        }
        let spec = &cfg.commands[self.selected];
        let ghost old_list = self.arg_inputs_by_command@;
        let j = self.entry_or_defaults(spec);
        let ghost mid_list = self.arg_inputs_by_command@;
        proof {
            lemma_inputs_for_at(mid_list, spec.name@, j as int);
        }
        if self.arg_inputs_by_command[j].1.len() != spec.args.len() {
            let d = default_inputs(spec);
            let name = spec.name.clone();
            self.arg_inputs_by_command.set(j, (name, d));
            proof {
                let new_list = self.arg_inputs_by_command@;
                assert(names_unique(new_list)) by {
                    assert forall|a: int, b: int| 0 <= a < b < new_list.len() implies new_list[a].0@
                        != new_list[b].0@ by {
                        assert(mid_list[a].0@ != mid_list[b].0@);
                        if a != j {
                            assert(new_list[a] == mid_list[a]);
                        }
                        if b != j {
                            assert(new_list[b] == mid_list[b]);
                        }
                    }
                }
                lemma_inputs_for_at(new_list, spec.name@, j as int);
                assert forall|k: Seq<char>| k != spec.name@ implies inputs_for(new_list, k)
                    == inputs_for(mid_list, k) by {
                    if exists|i: int| 0 <= i < mid_list.len() && mid_list[i].0@ == k {
                        let i = choose|i: int| 0 <= i < mid_list.len() && mid_list[i].0@ == k;
                        lemma_inputs_for_at(mid_list, k, i);
                        assert(i != j);
                        assert(new_list[i] == mid_list[i]);
                        lemma_inputs_for_at(new_list, k, i);
                    } else {
                        assert forall|i: int| 0 <= i < new_list.len() implies new_list[i].0@
                            != k by {
                            if i != j {
                                assert(new_list[i] == mid_list[i]);
                            }
                        }
                    }
                }
            }
        }
        let arg_len = self.arg_inputs_by_command[j].1.len();
        proof {
            let fin = self.arg_inputs_by_command@;
            lemma_inputs_for_at(fin, spec.name@, j as int);
            assert(forall|k: Seq<char>|
                k != spec.name@ ==> inputs_for(fin, k) == inputs_for(mid_list, k));
            assert forall|k: Seq<char>| k != spec.name@ implies inputs_for(fin, k) == inputs_for(
                old_list,
                k,
            ) by {
                assert(inputs_for(fin, k) == inputs_for(mid_list, k));
                assert(inputs_for(mid_list, k) == inputs_for(old_list, k));
            }
            assert(views(fin[j as int].1@).len() == fin[j as int].1@.len());
        }
        if arg_len == 0 {
            self.arg_index = 0;
        } else if self.arg_index >= arg_len {
            self.arg_index = arg_len - 1;
        }
    }

    /// A copy of the inputs shown for the selected command.
    pub fn current_arg_inputs(&self, cfg: &CommandConfig) -> (r: Vec<String>)
        requires
            self.wf(),
        ensures
            views(r@) == self.current_inputs(*cfg),
    {
        if self.editing_custom || self.selected >= cfg.commands.len() {
            let r: Vec<String> = Vec::new();
            assert(views(r@) =~= Seq::<Seq<char>>::empty());
            return r;
        }
        let spec = &cfg.commands[self.selected];
        match self.find_entry(&spec.name) {
            Some(j) => {
                proof {
                    lemma_inputs_for_at(self.arg_inputs_by_command@, spec.name@, j as int);
                }
                clone_strings(&self.arg_inputs_by_command[j].1)
            },
            None => {
                let r: Vec<String> = Vec::new();
                assert(views(r@) =~= Seq::<Seq<char>>::empty());
                r
            },
        }
    }

    /// The inputs of the selected command, recorded with their defaults
    /// first where none were; `None` while the custom line is edited or
    /// where nothing valid is selected.
    pub fn current_arg_inputs_mut<'a>(&'a mut self, cfg: &'a CommandConfig) -> (r: Option<
        &'a mut Vec<String>,
    >)
        requires
            old(self).wf(),
        ensures
            r is None <==> (old(self).editing_custom || old(self).selected
                >= cfg.commands@.len()),
            r is None ==> *final(self) == *old(self),
            r matches Some(m) ==> {
                let name = cfg.commands@[old(self).selected as int].name@;
                &&& views(m@) == match inputs_for(old(self).arg_inputs_by_command@, name) {
                    Some(v) => v,
                    None => defaults_of(cfg.commands@[old(self).selected as int].args@),
                }
                &&& final(self).wf()
                &&& inputs_for(final(self).arg_inputs_by_command@, name) == Some(views(final(m)@))
                &&& forall|k: Seq<char>|
                    k != name ==> inputs_for(final(self).arg_inputs_by_command@, k) == inputs_for(
                        old(self).arg_inputs_by_command@,
                        k,
                    )
                &&& final(self).open == old(self).open
                &&& final(self).selected == old(self).selected
                &&& final(self).custom_input == old(self).custom_input
                &&& final(self).editing_custom == old(self).editing_custom
                &&& final(self).arg_index == old(self).arg_index
                &&& final(self).status == old(self).status
            },
    {
        if self.editing_custom || self.selected >= cfg.commands.len() {
            return None;
        }
        let spec = &cfg.commands[self.selected];
        let j = self.entry_or_defaults(spec);
        let ghost mid_list = self.arg_inputs_by_command@;
        proof {
            lemma_inputs_for_at(mid_list, spec.name@, j as int);
        }
        let r = &mut self.arg_inputs_by_command[j].1;
        proof {
            lemma_replace_inputs(mid_list, j as int, *final(r));
        }
        Some(r)
    }

    /// Types `c` into the argument under the cursor of the selected command.
    pub fn push_arg_char(&mut self, cfg: &CommandConfig, c: char)
        requires
            old(self).wf(),
        ensures
            arg_edited(*old(self), *cfg, *final(self), |s: Seq<char>| s.push(c)),
    {
        let ghost p0 = *self;
        let arg_index = self.arg_index;
        if let Some(inputs) = self.current_arg_inputs_mut(cfg) {
            let ghost before = inputs@;
            if arg_index < inputs.len() {
                string_push(&mut inputs[arg_index], c);
                assert(views(inputs@) =~= views(before).update(
                    arg_index as int,
                    views(before)[arg_index as int].push(c),
                ));
            }
        }
    }

    /// Erases the last character of the argument under the cursor of the
    /// selected command.
    pub fn pop_arg_char(&mut self, cfg: &CommandConfig)
        requires
            old(self).wf(),
        ensures
            arg_edited(*old(self), *cfg, *final(self), |s: Seq<char>| drop_last_char(s)),
    {
        let arg_index = self.arg_index;
        if let Some(inputs) = self.current_arg_inputs_mut(cfg) {
            let ghost before = inputs@;
            if arg_index < inputs.len() {
                string_pop(&mut inputs[arg_index]);
                assert(views(inputs@) =~= views(before).update(
                    arg_index as int,
                    drop_last_char(views(before)[arg_index as int]),
                ));
            }
        }
    }
}


/// The raw text of each argument: what was typed for it, or its default
/// where nothing was.
pub open spec fn resolved_inputs(args: Seq<CommandArgSpec>, inputs: Seq<Seq<char>>) -> Seq<
    Seq<char>,
> {
    Seq::new(
        args.len(),
        |i: int|
            if i < inputs.len() {
                inputs[i]
            } else {
                args[i].default_value@
            },
    )
}

/// The raw text of each argument of `spec`: the input at its position, or
/// its default where there is none.
pub fn resolve_arg_inputs(spec: &CommandSpec, inputs: &Vec<String>) -> (r: Vec<String>)
    ensures
        views(r@) == resolved_inputs(spec.args@, views(inputs@)),
{
    let mut r: Vec<String> = Vec::new();
    let mut i: usize = 0;
    while i < spec.args.len()
        invariant
            i <= spec.args@.len(),
            r@.len() == i,
            forall|k: int|
                #![trigger r@[k]]
                0 <= k < i ==> r@[k]@ == resolved_inputs(spec.args@, views(inputs@))[k],
        decreases spec.args@.len() - i,
    {
        let v = if i < inputs.len() {
            inputs[i].clone()
        } else {
            spec.args[i].default_value.clone()
        };
        r.push(v);
        i += 1;
    }
    assert(views(r@) =~= resolved_inputs(spec.args@, views(inputs@)));
    r
}

impl ArgType {
    /// `int`, `float` or `string`.
    pub fn label(&self) -> (s: &'static str)
        ensures
            s@ == match self {
                ArgType::Int => "int"@,
                ArgType::Float => "float"@,
                ArgType::String => "string"@,
            },
    {
        match self {
            ArgType::Int => "int",
            ArgType::Float => "float",
            ArgType::String => "string",
        }
    }
}

/// The error for an `int` argument that does not read as one.
pub open spec fn int_error(raw: Seq<char>) -> Seq<char> {
    "expected int, got '"@ + raw + "'"@
}

/// The value of an `int` argument: its trimmed text read as an `i64`.
pub fn parse_int_arg(raw: &str) -> (r: Result<i64, String>)
    ensures
        match r {
            Ok(v) => parse_i64_spec(trim(raw@)) == Some(v),
            Err(e) => parse_i64_spec(trim(raw@)) is None && e@ == int_error(raw@),
        },
{
    let t = trim_str(raw);
    match parse_i64(t.as_str()) {
        Some(v) => Ok(v),
        None => {
            let mut e = lit("expected int, got '");
            push_str(&mut e, raw);
            push_str(&mut e, "'");
            Err(e)
        },
    }
}

/// The error that names the argument whose value is bad.
pub open spec fn arg_error_spec(name: Seq<char>, e: Seq<char>) -> Seq<char> {
    "arg '"@ + name + "' invalid: "@ + e
}

/// `arg '<name>' invalid: <e>`.
pub fn arg_error(name: &str, e: &str) -> (r: String)
    ensures
        r@ == arg_error_spec(name@, e@),
{
    let mut r = lit("arg '");
    push_str(&mut r, name);
    push_str(&mut r, "' invalid: ");
    push_str(&mut r, e);
    r
}

/// After syncing on a command, the palette holds one input per argument of
/// that command, and the argument cursor is on one of them (or at 0 where
/// the command takes none).
pub proof fn lemma_synced_inputs_fit(p0: CommandPalette, cfg: CommandConfig, p1: CommandPalette)
    requires
        synced(p0, cfg, p1),
        !p0.editing_custom,
        p0.selected < cfg.commands@.len(),
    ensures
        p1.current_inputs(cfg).len() == cfg.commands@[p0.selected as int].args@.len(),
        p1.arg_index == 0 || p1.arg_index < p1.current_inputs(cfg).len(),
{
}

/// Syncing twice is syncing once: the second sync keeps the inputs of
/// every command and the argument cursor where the first left them.
pub proof fn lemma_sync_idempotent(
    p0: CommandPalette,
    cfg: CommandConfig,
    p1: CommandPalette,
    p2: CommandPalette,
)
    requires
        synced(p0, cfg, p1),
        synced(p1, cfg, p2),
    ensures
        p2.arg_index == p1.arg_index,
        p2.current_inputs(cfg) == p1.current_inputs(cfg),
        forall|k: Seq<char>|
            #[trigger] inputs_for(p2.arg_inputs_by_command@, k) == inputs_for(
                p1.arg_inputs_by_command@,
                k,
            ),
{
    if !p0.editing_custom && p0.selected < cfg.commands@.len() {
        let spec = cfg.commands@[p0.selected as int];
        assert(inputs_for(p2.arg_inputs_by_command@, spec.name@) == inputs_for(
            p1.arg_inputs_by_command@,
            spec.name@,
        ));
    }
}

} // verus!
