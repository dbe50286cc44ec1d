//! Validators that the configuration linter applies to themes,
//! colorschemes and the main configuration, together with the fixed key
//! tables they consult.

use vstd::prelude::*;
use crate::text::{
    append_str, char_is_ascii_alnum, char_is_ascii_alpha, char_is_whitespace, chars_of, is_ascii_alnum,
    is_ascii_alpha, is_whitespace, last_index, rfind_char, slice_chars, str_eq, str_in, string_from,
    string_of, strs_view,
};

verus! {

/// The separator used when listing items in lint messages.
pub const LIST_SEP: &'static str = ", ";

/// The keys every segment may carry, whatever its type.
pub open spec fn generic_keys_spec() -> Seq<Seq<char>> {
    seq![
        "exclude_modes"@, "include_modes"@, "exclude_function"@, "include_function"@,
        "width"@, "align"@, "name"@, "draw_soft_divider"@, "draw_hard_divider"@,
        "priority"@, "after"@, "before"@, "display"@,
    ]
}

/// The keys a segment of the given type may carry besides the generic ones.
pub open spec fn type_keys_spec(segment_type: Seq<char>) -> Option<Seq<Seq<char>>> {
    if segment_type == "function"@ {
        Some(seq!["function"@, "args"@, "draw_inner_divider"@])
    } else if segment_type == "string"@ {
        Some(seq!["contents"@, "type"@, "highlight_groups"@, "divider_highlight_group"@])
    } else if segment_type == "segment_list"@ {
        Some(seq!["function"@, "segments"@, "args"@, "type"@])
    } else {
        None
    }
}

/// The keys a segment of the given type must carry.
pub open spec fn required_keys_spec(segment_type: Seq<char>) -> Option<Seq<Seq<char>>> {
    if segment_type == "function"@ {
        Some(seq!["function"@])
    } else if segment_type == "string"@ {
        Some(Seq::empty())
    } else if segment_type == "segment_list"@ {
        Some(seq!["function"@, "segments"@])
    } else {
        None
    }
}

/// The keys that name a segment's highlighting.
pub open spec fn highlight_keys_spec() -> Seq<Seq<char>> {
    seq!["highlight_groups"@, "name"@]
}

/// The keys every segment may carry, whatever its type.
pub fn generic_keys() -> (r: Vec<&'static str>)
    ensures
        strs_view(r@) == generic_keys_spec(),
{
    let r = vec![
        "exclude_modes", "include_modes", "exclude_function", "include_function", "width",
        "align", "name", "draw_soft_divider", "draw_hard_divider", "priority", "after", "before",
        "display",
    ];
    assert(strs_view(r@) =~= generic_keys_spec());
    r
}

/// The extra keys allowed for each segment type, as `(type, keys)` pairs.
pub fn type_keys() -> (r: Vec<(&'static str, Vec<&'static str>)>)
    ensures
        r.len() == 3,
        forall|i: int|
            0 <= i < 3 ==> type_keys_spec(#[trigger] r@[i].0@) == Some(strs_view(r@[i].1@)),
        r@[0].0@ == "function"@,
        r@[1].0@ == "string"@,
        r@[2].0@ == "segment_list"@,
{
    let f = type_keys_for("function");
    let s = type_keys_for("string");
    let l = type_keys_for("segment_list");
    let r = vec![
        ("function", f.unwrap()),
        ("string", s.unwrap()),
        ("segment_list", l.unwrap()),
    ];
    r
}

/// The extra keys allowed for `segment_type`, or `None` for an unknown type.
pub fn type_keys_for(segment_type: &str) -> (r: Option<Vec<&'static str>>)
    ensures
        match r {
            Some(v) => type_keys_spec(segment_type@) == Some(strs_view(v@)),
            None => type_keys_spec(segment_type@) is None,
        },
{
    if str_eq(segment_type, "function") {
        let v = vec!["function", "args", "draw_inner_divider"];
        assert(strs_view(v@) =~= seq!["function"@, "args"@, "draw_inner_divider"@]);
        Some(v)
    } else if str_eq(segment_type, "string") {
        let v = vec!["contents", "type", "highlight_groups", "divider_highlight_group"];
        assert(strs_view(v@) =~= seq![
            "contents"@,
            "type"@,
            "highlight_groups"@,
            "divider_highlight_group"@,
        ]);
        Some(v)
    } else if str_eq(segment_type, "segment_list") {
        let v = vec!["function", "segments", "args", "type"];
        assert(strs_view(v@) =~= seq!["function"@, "segments"@, "args"@, "type"@]);
        Some(v)
    } else {
        None
    }
}

/// The keys required for each segment type, as `(type, keys)` pairs.
pub fn required_keys() -> (r: Vec<(&'static str, Vec<&'static str>)>)
    ensures
        r.len() == 3,
        forall|i: int|
            0 <= i < 3 ==> required_keys_spec(#[trigger] r@[i].0@) == Some(strs_view(r@[i].1@)),
        r@[0].0@ == "function"@,
        r@[1].0@ == "string"@,
        r@[2].0@ == "segment_list"@,
{
    let f = required_keys_for("function");
    let s = required_keys_for("string");
    let l = required_keys_for("segment_list");
    vec![("function", f.unwrap()), ("string", s.unwrap()), ("segment_list", l.unwrap())]
}

/// The keys required for `segment_type`, or `None` for an unknown type.
pub fn required_keys_for(segment_type: &str) -> (r: Option<Vec<&'static str>>)
    ensures
        match r {
            Some(v) => required_keys_spec(segment_type@) == Some(strs_view(v@)),
            None => required_keys_spec(segment_type@) is None,
        },
{
    if str_eq(segment_type, "function") {
        let v = vec!["function"];
        assert(strs_view(v@) =~= seq!["function"@]);
        Some(v)
    } else if str_eq(segment_type, "string") {
        let v: Vec<&'static str> = Vec::new();
        assert(strs_view(v@) =~= Seq::<Seq<char>>::empty());
        Some(v)
    } else if str_eq(segment_type, "segment_list") {
        let v = vec!["function", "segments"];
        assert(strs_view(v@) =~= seq!["function"@, "segments"@]);
        Some(v)
    } else {
        None
    }
}

/// The keys that name a segment's highlighting.
pub fn highlight_keys() -> (r: Vec<&'static str>)
    ensures
        strs_view(r@) == highlight_keys_spec(),
{
    let r = vec!["highlight_groups", "name"];
    assert(strs_view(r@) =~= highlight_keys_spec());
    r
}

/// `s` split at its last `'.'`: the part before and the part after; the
/// whole of `s` is the second part when it holds no `'.'`.
pub open spec fn split_last_dot(s: Seq<char>) -> Option<(Seq<char>, Seq<char>)> {
    match last_index(s, '.') {
        Some(i) => Some((s.subrange(0, i), s.subrange(i + 1, s.len() as int))),
        None => None,
    }
}

/// Splits `s` at its last `'.'` when there is one.
fn split_at_last_dot(s: &str) -> (r: Option<(String, String)>)
    ensures
        match r {
            Some(p) => split_last_dot(s@) == Some((p.0@, p.1@)),
            None => split_last_dot(s@) is None,
        },
{
    let cs = chars_of(s);
    match rfind_char(&cs, '.') {
        Some(i) => {
            let a = slice_chars(&cs, 0, i);
            let b = slice_chars(&cs, i + 1, cs.len());
            Some((string_of(&a), string_of(&b)))
        },
        None => None,
    }
}

/// The `(module, function)` pair a configured function name resolves to:
/// a dotted name splits at its last dot, an undotted one uses `default_module`.
pub open spec fn function_strings(name: Seq<char>, default_module: Seq<char>) -> (Seq<char>, Seq<char>) {
    match split_last_dot(name) {
        Some(p) => p,
        None => (default_module, name),
    }
}

/// Resolves a configured function name into its `(module, function)` pair.
pub fn get_function_strings(function_name: &str, default_module: &str) -> (r: (String, String))
    ensures
        (r.0@, r.1@) == function_strings(function_name@, default_module@),
{
    match split_at_last_dot(function_name) {
        Some(p) => p,
        None => (string_from(default_module), string_from(function_name)),
    }
}

/// The outcome of one lint check: whether to go on, whether the caller
/// should echo the diagnostic, and whether a problem was found.
#[derive(Debug, Clone, Copy, PartialEq, Eq, Structural)]
pub struct LintResult {
    pub proceed: bool,
    pub echo: bool,
    pub hadproblem: bool,
}

/// No problem was found.
pub open spec fn lint_ok() -> LintResult {
    LintResult { proceed: true, echo: false, hadproblem: false }
}

/// A problem that stops further checks and is echoed.
pub open spec fn lint_failed() -> LintResult {
    LintResult { proceed: false, echo: true, hadproblem: true }
}

/// A problem that is echoed but lets the checks go on.
pub open spec fn lint_warned() -> LintResult {
    LintResult { proceed: true, echo: true, hadproblem: true }
}

/// A problem already reported by the check itself; the checks go on.
pub open spec fn lint_problem() -> LintResult {
    LintResult { proceed: true, echo: false, hadproblem: true }
}

impl LintResult {
    /// No problem was found.
    pub fn ok() -> (r: Self)
        ensures
            r == lint_ok(),
    {
        Self { proceed: true, echo: false, hadproblem: false }
    }

    /// A problem that stops further checks.
    pub fn failed() -> (r: Self)
        ensures
            r == lint_failed(),
    {
        Self { proceed: false, echo: true, hadproblem: true }
    }

    /// A problem that lets the checks go on.
    pub fn warned() -> (r: Self)
        ensures
            r == lint_warned(),
    {
        Self { proceed: true, echo: true, hadproblem: true }
    }
}

fn problem() -> (r: LintResult)
    ensures
        r == lint_problem(),
{
    LintResult { proceed: true, echo: false, hadproblem: true }
}

/// The registry of names that several functions share: each name maps to
/// the `(module, function)` pairs registered for it, without duplicates.
#[derive(Debug)]
pub struct CommonNames {
    pub entries: Vec<(String, String, String)>,
}

/// The registry as a set of `(name, module, function)` triples.
pub open spec fn common_names_view(entries: Seq<(String, String, String)>) -> Set<(Seq<char>, Seq<char>, Seq<char>)> {
    Set::new(|t: (Seq<char>, Seq<char>, Seq<char>)| exists|i: int| 0 <= i < entries.len() && (#[trigger] entries[i]).0@ == t.0 && entries[i].1@ == t.1 && entries[i].2@ == t.2)
}

/// No triple occurs twice.
pub open spec fn common_names_unique(entries: Seq<(String, String, String)>) -> bool {
    forall|i: int, j: int|
        0 <= i < j < entries.len() ==> !((#[trigger] entries[i]).0@ == (#[trigger] entries[j]).0@
            && entries[i].1@ == entries[j].1@ && entries[i].2@ == entries[j].2@)
}

/// The `(module, function)` pairs of `entries` registered under `name`.
pub open spec fn pairs_for(entries: Seq<(String, String, String)>, name: Seq<char>) -> Seq<(Seq<char>, Seq<char>)>
    decreases entries.len(),
{
    if entries.len() == 0 {
        Seq::empty()
    } else {
        let rest = pairs_for(entries.drop_last(), name);
        let e = entries.last();
        if e.0@ == name {
            rest.push((e.1@, e.2@))
        } else {
            rest
        }
    }
}

/// The views of a list of string pairs.
pub open spec fn pairs_view(v: Seq<(String, String)>) -> Seq<(Seq<char>, Seq<char>)> {
    v.map_values(|p: (String, String)| (p.0@, p.1@))
}

proof fn lemma_pairs_for_step(entries: Seq<(String, String, String)>, name: Seq<char>, i: int)
    requires
        0 <= i < entries.len(),
    ensures
        pairs_for(entries.take(i + 1), name) == if entries[i].0@ == name {
            pairs_for(entries.take(i), name).push((entries[i].1@, entries[i].2@))
        } else {
            pairs_for(entries.take(i), name)
        },
{
    assert(entries.take(i + 1).drop_last() =~= entries.take(i));
}

impl CommonNames {
    /// The registry's contents.
    pub open spec fn view(&self) -> Set<(Seq<char>, Seq<char>, Seq<char>)> {
        common_names_view(self.entries@)
    }

    /// The registry holds no duplicate triple.
    pub open spec fn wf(&self) -> bool {
        common_names_unique(self.entries@)
    }

    /// The pairs registered under `name`, in registration order.
    pub open spec fn pairs_for(&self, name: Seq<char>) -> Seq<(Seq<char>, Seq<char>)> {
        pairs_for(self.entries@, name)
    }

    /// The pairs registered under `name`, in registration order.
    pub fn get(&self, name: &str) -> (r: Vec<(String, String)>)
        ensures
            pairs_view(r@) == self.pairs_for(name@),
    {
        let mut out: Vec<(String, String)> = Vec::new();
        let mut i: usize = 0;
        while i < self.entries.len()
            invariant
                i <= self.entries.len(),
                pairs_view(out@) == pairs_for(self.entries@.take(i as int), name@),
            decreases self.entries.len() - i,
        {
            let e = &self.entries[i];
            proof {
                lemma_pairs_for_step(self.entries@, name@, i as int);
            }
            if str_eq(e.0.as_str(), name) {
                let m = string_from(e.1.as_str());
                let f = string_from(e.2.as_str());
                out.push((m, f));
                assert(pairs_view(out@) =~= pairs_for(self.entries@.take(i as int), name@).push((e.1@, e.2@)));
            }
            i = i + 1;
        }
        assert(self.entries@.take(self.entries.len() as int) =~= self.entries@);
        out
    }

    /// Whether anything is registered under `name`.
    pub fn contains_key(&self, name: &str) -> (r: bool)
        ensures
            r == exists|m: Seq<char>, f: Seq<char>| self.view().contains((name@, m, f)),
    {
        let mut i: usize = 0;
        while i < self.entries.len()
            invariant
                i <= self.entries.len(),
                forall|j: int| 0 <= j < i ==> (#[trigger] self.entries@[j]).0@ != name@,
            decreases self.entries.len() - i,
        {
            if str_eq(self.entries[i].0.as_str(), name) {
                let ghost e = self.entries@[i as int];
                assert(self.view().contains((name@, e.1@, e.2@)));
                return true;
            }
            i = i + 1;
        }
        false
    }
}

/// An empty registry of common names.
pub fn common_names() -> (r: CommonNames)
    ensures
        r.view() == Set::<(Seq<char>, Seq<char>, Seq<char>)>::empty(),
        r.wf(),
{
    let r = CommonNames { entries: Vec::new() };
    assert(r.view() =~= Set::<(Seq<char>, Seq<char>, Seq<char>)>::empty());
    r
}

/// Registering a name is idempotent: registering the same triple again
/// leaves the registry as it was after the first time.
pub proof fn law_register_common_name_idempotent(registry: Set<(Seq<char>, Seq<char>, Seq<char>)>, name: Seq<char>, cmodule: Seq<char>, cname: Seq<char>)
    ensures
        registry.insert((name, cmodule, cname)).insert((name, cmodule, cname)) == registry.insert((name, cmodule, cname)),
{
    assert(registry.insert((name, cmodule, cname)).insert((name, cmodule, cname)) =~= registry.insert((name, cmodule, cname)));
}

/// Registers `(cmodule, cname)` under `name`; registering a pair twice has
/// no further effect.
pub fn register_common_name(names: &mut CommonNames, name: &str, cmodule: &str, cname: &str)
    requires
        old(names).wf(),
    ensures
        final(names).wf(),
        final(names).view() == old(names).view().insert((name@, cmodule@, cname@)),
{
    let mut i: usize = 0;
    while i < names.entries.len()
        invariant
            i <= names.entries.len(),
            names.entries@ == old(names).entries@,
            common_names_unique(names.entries@),
            forall|j: int|
                0 <= j < i ==> !((#[trigger] names.entries@[j]).0@ == name@ && names.entries@[j].1@
                    == cmodule@ && names.entries@[j].2@ == cname@),
        decreases names.entries.len() - i,
    {
        let e = &names.entries[i];
        if str_eq(e.0.as_str(), name) && str_eq(e.1.as_str(), cmodule) && str_eq(e.2.as_str(), cname) {
            assert(names.view().contains((name@, cmodule@, cname@)));
            assert(names.view() =~= old(names).view().insert((name@, cmodule@, cname@)));
            return;
        }
        i = i + 1;
    }
    let ghost before = names.entries@;
    names.entries.push((string_from(name), string_from(cmodule), string_from(cname)));
    assert(names.view() =~= old(names).view().insert((name@, cmodule@, cname@))) by {
        assert forall|t: (Seq<char>, Seq<char>, Seq<char>)| names.view().contains(t) <==> old(names).view().insert((name@, cmodule@, cname@)).contains(t) by {
            if names.view().contains(t) {
                let k = choose|k: int| 0 <= k < names.entries@.len() && (#[trigger] names.entries@[k]).0@ == t.0 && names.entries@[k].1@ == t.1 && names.entries@[k].2@ == t.2;
                if k < before.len() {
                    assert(before[k] == names.entries@[k]);
                }
            }
            if old(names).view().contains(t) {
                let k = choose|k: int| 0 <= k < before.len() && (#[trigger] before[k]).0@ == t.0 && before[k].1@ == t.1 && before[k].2@ == t.2;
                assert(names.entries@[k] == before[k]);
            }
            if t == (name@, cmodule@, cname@) {
                assert(names.entries@[before.len() as int].0@ == name@);
            }
        }
    }
    assert forall|a: int, b: int| 0 <= a < b < names.entries@.len() implies !((#[trigger] names.entries@[a]).0@ == (#[trigger] names.entries@[b]).0@
            && names.entries@[a].1@ == names.entries@[b].1@ && names.entries@[a].2@ == names.entries@[b].2@) by {
        if b == before.len() {
            assert(names.entries@[a] == before[a]);
        } else {
            assert(names.entries@[a] == before[a]);
            assert(names.entries@[b] == before[b]);
        }
    }
}

/// The numeric value of a logging level name.
pub open spec fn log_level_value(level: Seq<char>) -> Option<int> {
    if level == "CRITICAL"@ {
        Some(50)
    } else if level == "ERROR"@ {
        Some(40)
    } else if level == "WARNING"@ {
        Some(30)
    } else if level == "INFO"@ {
        Some(20)
    } else if level == "DEBUG"@ {
        Some(10)
    } else if level == "NOTSET"@ {
        Some(0)
    } else {
        None
    }
}

fn log_level_value_of(level: &str) -> (r: Option<u32>)
    ensures
        match r {
            Some(v) => log_level_value(level@) == Some(v as int),
            None => log_level_value(level@) is None,
        },
{
    if str_eq(level, "CRITICAL") {
        Some(50)
    } else if str_eq(level, "ERROR") {
        Some(40)
    } else if str_eq(level, "WARNING") {
        Some(30)
    } else if str_eq(level, "INFO") {
        Some(20)
    } else if str_eq(level, "DEBUG") {
        Some(10)
    } else if str_eq(level, "NOTSET") {
        Some(0)
    } else {
        None
    }
}

/// What checking a log file's level `this` against the top level `top`
/// gives.
pub open spec fn log_file_level_check(this: Seq<char>, top: Seq<char>) -> LintResult {
    match (log_level_value(this), log_level_value(top)) {
        (Some(t), Some(tp)) => if t < tp {
            lint_warned()
        } else {
            lint_ok()
        },
        _ => lint_ok(),
    }
}

/// The logging levels, from the least severe to the most.
pub open spec fn levels_in_order() -> Seq<Seq<char>> {
    seq!["NOTSET"@, "DEBUG"@, "INFO"@, "WARNING"@, "ERROR"@, "CRITICAL"@]
}

/// The logging levels are strictly ordered NOTSET < DEBUG < INFO < WARNING
/// < ERROR < CRITICAL, worth 0, 10, 20, 30, 40 and 50: a log file at a
/// level strictly below the top level is warned about, and one at the top
/// level or above passes.
pub proof fn law_log_levels_ordered(i: int, j: int)
    requires
        0 <= i < 6,
        0 <= j < 6,
    ensures
        log_level_value(levels_in_order()[i]) == Some(10 * i),
        i < j ==> log_file_level_check(levels_in_order()[i], levels_in_order()[j]) == lint_warned(),
        i >= j ==> log_file_level_check(levels_in_order()[i], levels_in_order()[j]) == lint_ok(),
{
    reveal_strlit("CRITICAL");
    reveal_strlit("ERROR");
    reveal_strlit("WARNING");
    reveal_strlit("INFO");
    reveal_strlit("DEBUG");
    reveal_strlit("NOTSET");
    let l = levels_in_order();
    assert(l[0] == "NOTSET"@ && l[1] == "DEBUG"@ && l[2] == "INFO"@ && l[3] == "WARNING"@ && l[4] == "ERROR"@ && l[5] == "CRITICAL"@);
    assert("NOTSET"@ != "CRITICAL"@ && "NOTSET"@ != "ERROR"@ && "NOTSET"@ != "WARNING"@ && "NOTSET"@ != "INFO"@ && "NOTSET"@ != "DEBUG"@) by {
        assert("NOTSET"@[0] != "CRITICAL"@[0] && "NOTSET"@[0] != "ERROR"@[0] && "NOTSET"@[0] != "WARNING"@[0]
            && "NOTSET"@[0] != "INFO"@[0] && "NOTSET"@[0] != "DEBUG"@[0]);
    }
    assert("DEBUG"@ != "CRITICAL"@ && "DEBUG"@ != "ERROR"@ && "DEBUG"@ != "WARNING"@ && "DEBUG"@ != "INFO"@) by {
        assert("DEBUG"@[0] != "CRITICAL"@[0] && "DEBUG"@[0] != "ERROR"@[0] && "DEBUG"@[0] != "WARNING"@[0] && "DEBUG"@[0] != "INFO"@[0]);
    }
    assert("INFO"@ != "CRITICAL"@ && "INFO"@ != "ERROR"@ && "INFO"@ != "WARNING"@) by {
        assert("INFO"@[0] != "CRITICAL"@[0] && "INFO"@[0] != "ERROR"@[0] && "INFO"@[0] != "WARNING"@[0]);
    }
    assert("WARNING"@ != "CRITICAL"@ && "WARNING"@ != "ERROR"@) by {
        assert("WARNING"@[0] != "CRITICAL"@[0] && "WARNING"@[0] != "ERROR"@[0]);
    }
    assert("ERROR"@ != "CRITICAL"@) by {
        assert("ERROR"@[0] != "CRITICAL"@[0]);
    }
}

/// Checks that a log file's level is at least as severe as the top level:
/// a less severe level is a warning; unknown level names are not judged.
pub fn check_log_file_level(this_level: &str, top_level: &str) -> (r: LintResult)
    ensures
        r == log_file_level_check(this_level@, top_level@),
        r == match (log_level_value(this_level@), log_level_value(top_level@)) {
            (Some(t), Some(top)) => if t < top {
                lint_warned()
            } else {
                lint_ok()
            },
            _ => lint_ok(),
        },
{
    let top_val = match log_level_value_of(top_level) {
        Some(v) => v,
        None => return LintResult::ok(),
    };
    let this_val = match log_level_value_of(this_level) {
        Some(v) => v,
        None => return LintResult::ok(),
    };
    if this_val < top_val {
        LintResult::warned()
    } else {
        LintResult::ok()
    }
}

/// The names of the logging handler classes.
pub open spec fn known_handlers() -> Seq<Seq<char>> {
    seq![
        "StreamHandler"@, "FileHandler"@, "NullHandler"@, "WatchedFileHandler"@,
        "BaseRotatingHandler"@, "RotatingFileHandler"@, "TimedRotatingFileHandler"@,
        "SocketHandler"@, "DatagramHandler"@, "SysLogHandler"@, "SMTPHandler"@,
        "NTEventLogHandler"@, "HTTPHandler"@, "BufferingHandler"@, "MemoryHandler"@,
        "QueueHandler"@, "QueueListener"@,
    ]
}

/// Checks that a logging handler name names a known handler class.
pub fn check_logging_handler(handler_name: &str) -> (r: LintResult)
    ensures
        r == if known_handlers().contains(handler_name@) {
            lint_ok()
        } else {
            lint_failed()
        },
{
    let known = [
        "StreamHandler", "FileHandler", "NullHandler", "WatchedFileHandler", "BaseRotatingHandler",
        "RotatingFileHandler", "TimedRotatingFileHandler", "SocketHandler", "DatagramHandler",
        "SysLogHandler", "SMTPHandler", "NTEventLogHandler", "HTTPHandler", "BufferingHandler",
        "MemoryHandler", "QueueHandler", "QueueListener",
    ];
    assert(strs_view(known@) =~= known_handlers());
    if str_in(&known, handler_name) {
        LintResult::ok()
    } else {
        LintResult::failed()
    }
}

/// A colour reference must be non-empty and hold no white space.
pub fn check_color(color: &str) -> (r: LintResult)
    ensures
        r == if color@.len() == 0 || exists|i: int| 0 <= i < color@.len() && is_whitespace(#[trigger] color@[i]) {
            lint_failed()
        } else {
            lint_ok()
        },
{
    let cs = chars_of(color);
    if cs.len() == 0 {
        return LintResult::failed();
    }
    let mut i: usize = 0;
    while i < cs.len()
        invariant
            i <= cs.len(),
            cs@ == color@,
            forall|j: int| 0 <= j < i ==> !is_whitespace(#[trigger] cs@[j]),
        decreases cs.len() - i,
    {
        if char_is_whitespace(cs[i]) {
            return LintResult::failed();
        }
        i = i + 1;
    }
    LintResult::ok()
}

/// A highlight group name is identifier-like: a letter or `_` first, then
/// letters, digits, `_` or `:`.
pub open spec fn valid_hl_group_name(s: Seq<char>) -> bool {
    &&& s.len() > 0
    &&& (is_ascii_alpha(s[0]) || s[0] == '_')
    &&& forall|i: int| 1 <= i < s.len() ==> (is_ascii_alnum(#[trigger] s[i]) || s[i] == '_' || s[i] == ':')
}

/// Checks the shape of a highlight group name.
pub fn check_hl_group_name(hl_group: &str) -> (r: LintResult)
    ensures
        r == if valid_hl_group_name(hl_group@) {
            lint_ok()
        } else {
            lint_failed()
        },
{
    let cs = chars_of(hl_group);
    if cs.len() == 0 {
        return LintResult::failed();
    }
    let first = cs[0];
    if !char_is_ascii_alpha(first) && first != '_' {
        return LintResult::failed();
    }
    let mut i: usize = 1;
    while i < cs.len()
        invariant
            1 <= i <= cs.len(),
            cs@ == hl_group@,
            is_ascii_alpha(cs@[0]) || cs@[0] == '_',
            forall|j: int| 1 <= j < i ==> (is_ascii_alnum(#[trigger] cs@[j]) || cs@[j] == '_' || cs@[j] == ':'),
        decreases cs.len() - i,
    {
        let c = cs[i];
        if !char_is_ascii_alnum(c) && c != '_' && c != ':' {
            return LintResult::failed();
        }
        i = i + 1;
    }
    LintResult::ok()
}

/// Checks that an extension is known and has themes and colorschemes
/// configured (per extension or at top level). Returns
/// `(hadsomedirs, hadproblem)`.
pub fn check_ext(
    ext: &str,
    available_exts: &[&str],
    has_themes_for_ext: bool,
    has_colorschemes_for_ext: bool,
    has_top_themes: bool,
    has_top_colorschemes: bool,
) -> (r: (bool, bool))
    ensures
        r == if !strs_view(available_exts@).contains(ext@) {
            (false, true)
        } else {
            (
                has_themes_for_ext || has_top_themes || has_colorschemes_for_ext || has_top_colorschemes,
                !(has_themes_for_ext || has_top_themes) || !(has_colorschemes_for_ext || has_top_colorschemes),
            )
        },
{
    if !str_in(available_exts, ext) {
        return (false, true);
    }
    let mut hadsomedirs = false;
    let mut hadproblem = false;
    if !has_themes_for_ext && !has_top_themes {
        hadproblem = true;
    } else {
        hadsomedirs = true;
    }
    if !has_colorschemes_for_ext && !has_top_colorschemes {
        hadproblem = true;
    } else {
        hadsomedirs = true;
    }
    (hadsomedirs, hadproblem)
}

/// Checks that a theme or colorscheme is configured for a known extension,
/// either for that extension or at top level.
pub fn check_config(
    d: &str,
    theme: &str,
    ext: &str,
    available_exts: &[&str],
    has_theme_for_ext: bool,
    has_top_theme: bool,
) -> (r: LintResult)
    ensures
        r == if !strs_view(available_exts@).contains(ext@) {
            lint_warned()
        } else if has_theme_for_ext || has_top_theme {
            lint_ok()
        } else {
            lint_problem()
        },
{
    if !str_in(available_exts, ext) {
        return LintResult::warned();
    }
    if has_theme_for_ext || has_top_theme {
        LintResult::ok()
    } else {
        problem()
    }
}

/// Membership check shared by the group and theme validators.
fn member_check(item: &str, known: &[&str]) -> (r: LintResult)
    ensures
        r == if strs_view(known@).contains(item@) {
            lint_ok()
        } else {
            lint_problem()
        },
{
    if str_in(known, item) {
        LintResult::ok()
    } else {
        problem()
    }
}

/// Checks that `theme` is one of the top-level themes.
pub fn check_top_theme(theme: &str, top_themes: &[&str]) -> (r: LintResult)
    ensures
        r == if strs_view(top_themes@).contains(theme@) {
            lint_ok()
        } else {
            lint_problem()
        },
{
    member_check(theme, top_themes)
}

/// Checks that a translated group name is a defined group.
pub fn check_translated_group_name(group: &str, defined_groups: &[&str]) -> (r: LintResult)
    ensures
        r == if strs_view(defined_groups@).contains(group@) {
            lint_ok()
        } else {
            lint_problem()
        },
{
    check_group(group, defined_groups)
}

/// Checks that a group name is defined in the colorscheme.
pub fn check_group(group: &str, defined_groups: &[&str]) -> (r: LintResult)
    ensures
        r == if strs_view(defined_groups@).contains(group@) {
            lint_ok()
        } else {
            lint_problem()
        },
{
    member_check(group, defined_groups)
}

/// Whether every key of `segment_keys` is allowed for a segment type whose
/// extra keys are `type_keys`.
pub open spec fn keys_allowed(segment_keys: Seq<Seq<char>>, type_keys: Seq<Seq<char>>) -> bool {
    forall|i: int|
        0 <= i < segment_keys.len() ==> (generic_keys_spec().contains(#[trigger] segment_keys[i])
            || type_keys.contains(segment_keys[i]))
}

/// Whether every required key is among `segment_keys`.
pub open spec fn keys_present(segment_keys: Seq<Seq<char>>, required: Seq<Seq<char>>) -> bool {
    forall|i: int| 0 <= i < required.len() ==> segment_keys.contains(#[trigger] required[i])
}

/// Whether some key of `segment_keys` names the highlighting.
pub open spec fn has_highlight_key(segment_keys: Seq<Seq<char>>) -> bool {
    exists|i: int| 0 <= i < segment_keys.len() && highlight_keys_spec().contains(#[trigger] segment_keys[i])
}

/// The lint verdict on a segment's keys for its type.
pub open spec fn key_compatibility(segment_keys: Seq<Seq<char>>, segment_type: Seq<char>) -> LintResult {
    match (type_keys_spec(segment_type), required_keys_spec(segment_type)) {
        (Some(tk), Some(rk)) => LintResult {
            proceed: true,
            echo: false,
            hadproblem: !keys_allowed(segment_keys, tk) || !keys_present(segment_keys, rk) || (
            segment_type != "function"@ && !has_highlight_key(segment_keys)),
        },
        _ => LintResult { proceed: false, echo: false, hadproblem: true },
    }
}

/// Checks a segment's keys against its type: every key must be generic or
/// allowed for the type, every required key must be present, and a
/// segment that is not a function must name its highlighting.
pub fn check_key_compatibility(segment_keys: &[&str], segment_type: &str) -> (r: LintResult)
    ensures
        r == key_compatibility(strs_view(segment_keys@), segment_type@),
{
    let tk = match type_keys_for(segment_type) {
        Some(v) => v,
        None => {
            return LintResult { proceed: false, echo: false, hadproblem: true };
        },
    };
    let rk = required_keys_for(segment_type).unwrap();
    let gk = generic_keys();
    let ghost keys = strs_view(segment_keys@);
    let mut hadproblem = false;
    let mut allowed = true;
    let mut i: usize = 0;
    while i < segment_keys.len()
        invariant
            i <= segment_keys.len(),
            keys == strs_view(segment_keys@),
            strs_view(gk@) == generic_keys_spec(),
            type_keys_spec(segment_type@) == Some(strs_view(tk@)),
            allowed == forall|j: int|
                0 <= j < i ==> (generic_keys_spec().contains(#[trigger] keys[j]) || strs_view(
                    tk@,
                ).contains(keys[j])),
        decreases segment_keys.len() - i,
    {
        let k = segment_keys[i];
        assert(keys[i as int] == k@);
        if !str_in(&gk, k) && !str_in(&tk, k) {
            allowed = false;
        }
        i = i + 1;
    }
    if !allowed {
        hadproblem = true;
    }
    let mut present = true;
    let mut i: usize = 0;
    while i < rk.len()
        invariant
            i <= rk.len(),
            keys == strs_view(segment_keys@),
            present == forall|j: int| 0 <= j < i ==> keys.contains(#[trigger] strs_view(rk@)[j]),
        decreases rk.len() - i,
    {
        assert(strs_view(rk@)[i as int] == rk@[i as int]@);
        if !str_in(segment_keys, rk[i]) {
            present = false;
        }
        i = i + 1;
    }
    if !present {
        hadproblem = true;
    }
    if !str_eq(segment_type, "function") {
        let hk = highlight_keys();
        let mut has_hl = false;
        let mut i: usize = 0;
        while i < segment_keys.len()
            invariant
                i <= segment_keys.len(),
                keys == strs_view(segment_keys@),
                strs_view(hk@) == highlight_keys_spec(),
                has_hl == exists|j: int| 0 <= j < i && highlight_keys_spec().contains(#[trigger] keys[j]),
            decreases segment_keys.len() - i,
        {
            assert(keys[i as int] == segment_keys@[i as int]@);
            if str_in(&hk, segment_keys[i]) {
                has_hl = true;
            }
            i = i + 1;
        }
        if !has_hl {
            hadproblem = true;
        }
    }
    LintResult { proceed: true, echo: false, hadproblem }
}

/// Checks that a segment module can be imported, as judged by
/// `is_importable`.
pub fn check_segment_module<F: Fn(&str) -> bool>(module: &str, is_importable: F) -> (r: LintResult)
    requires
        call_requires(is_importable, (module,)),
    ensures
        exists|b: bool|
            call_ensures(is_importable, (module,), b) && r == if b {
                lint_ok()
            } else {
                lint_problem()
            },
{
    let b = is_importable(module);
    if b {
        LintResult::ok()
    } else {
        problem()
    }
}

/// The module a selector function defaults to for `ext`.
pub open spec fn selectors_module(ext: Seq<char>) -> Seq<char> {
    "powerline.selectors."@ + ext
}

/// The `(module, function)` pair an include/exclude function name resolves
/// to; an empty or missing module defaults to the selectors of `ext`.
pub open spec fn exinclude_function(name: Seq<char>, ext: Seq<char>) -> (Seq<char>, Seq<char>) {
    let (m, f) = match split_last_dot(name) {
        Some(p) => p,
        None => (Seq::empty(), name),
    };
    if m.len() == 0 {
        (selectors_module(ext), f)
    } else {
        (m, f)
    }
}

/// Resolves an include/exclude function name into `(module, function)`.
pub fn check_exinclude_function(name: &str, ext: &str) -> (r: (String, String))
    ensures
        (r.0@, r.1@) == exinclude_function(name@, ext@),
{
    let (module, function) = match split_at_last_dot(name) {
        Some(p) => p,
        None => (String::new(), string_from(name)),
    };
    let mc = chars_of(module.as_str());
    if mc.len() == 0 {
        let mut m = chars_of("powerline.selectors.");
        append_str(&mut m, ext);
        (string_of(&m), function)
    } else {
        (module, function)
    }
}

/// The module a segment function defaults to for `ext`.
pub open spec fn segments_module(ext: Seq<char>) -> Seq<char> {
    "powerline.segments."@ + ext
}

/// Resolves a segment's function name, when it has one, into its
/// `(module, function)` pair, defaulting to the segments of `ext`.
pub fn get_one_segment_function(function_name: Option<&str>, ext: &str) -> (r: Option<(String, String)>)
    ensures
        match function_name {
            None => r is None,
            Some(n) => r matches Some(p) && (p.0@, p.1@) == function_strings(n@, segments_module(ext@)),
        },
{
    match function_name {
        None => None,
        Some(n) => {
            let mut m = chars_of("powerline.segments.");
            append_str(&mut m, ext);
            let dm = string_of(&m);
            Some(get_function_strings(n, dm.as_str()))
        },
    }
}

/// The module a matcher function defaults to for `ext`.
pub open spec fn matchers_module(ext: Seq<char>) -> Seq<char> {
    "powerline.matchers."@ + ext
}

/// Resolves a matcher function name into `(module, function)`, defaulting
/// to the matchers of `ext`.
pub fn check_matcher_func(ext: &str, match_name: &str) -> (r: (String, String))
    ensures
        (r.0@, r.1@) == function_strings(match_name@, matchers_module(ext@)),
{
    let mut m = chars_of("powerline.matchers.");
    append_str(&mut m, ext);
    let dm = string_of(&m);
    get_function_strings(match_name, dm.as_str())
}

/// Checks that a highlight group exists.
pub fn check_highlight_group(hl_group: &str, available_groups: &[&str]) -> (r: LintResult)
    ensures
        r == if strs_view(available_groups@).contains(hl_group@) {
            lint_ok()
        } else {
            lint_problem()
        },
{
    member_check(hl_group, available_groups)
}

/// Checks that every highlight group of a list exists.
pub fn check_highlight_groups(hl_groups: &[&str], available_groups: &[&str]) -> (r: LintResult)
    ensures
        r == if forall|i: int| 0 <= i < hl_groups@.len() ==> strs_view(available_groups@).contains(
            #[trigger] hl_groups@[i]@,
        ) {
            lint_ok()
        } else {
            lint_problem()
        },
{
    let mut i: usize = 0;
    while i < hl_groups.len()
        invariant
            i <= hl_groups.len(),
            forall|j: int| 0 <= j < i ==> strs_view(available_groups@).contains(#[trigger] hl_groups@[j]@),
        decreases hl_groups.len() - i,
    {
        if !str_in(available_groups, hl_groups[i]) {
            return problem();
        }
        i = i + 1;
    }
    LintResult::ok()
}

} // verus!
