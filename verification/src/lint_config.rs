//! The top of the lint: the common names it knows, the results of the
//! checks, and which files under the configuration directories it reads.

use vstd::prelude::*;
use crate::lint_checks::{register_common_name, CommonNames};
use crate::regex_calls::{regex_is_match, regex_match};
use crate::text::{append_str, chars_of, slice_chars, str_eq, string_from, string_of};

verus! {

/// Registers the names that configurations may use without a module: the
/// `player` segment.
pub fn register_common_names(names: &mut CommonNames)
    requires
        old(names).wf(),
    ensures
        final(names).wf(),
        final(names).view() == old(names).view().insert(("player"@, "powerline.segments.common.players"@, "_player"@)),
{
    register_common_name(names, "player", "powerline.segments.common.players", "_player");
}

/// Whether a check goes on, and whether it found a problem.
#[derive(Debug, Clone, Copy, PartialEq, Eq, Structural)]
pub struct CheckResult {
    pub proceed: bool,
    pub hadproblem: bool,
}

impl CheckResult {
    /// Go on, no problem.
    pub fn ok() -> (r: Self)
        ensures
            r == (CheckResult { proceed: true, hadproblem: false }),
    {
        CheckResult { proceed: true, hadproblem: false }
    }

    /// Stop, a problem.
    pub fn failed() -> (r: Self)
        ensures
            r == (CheckResult { proceed: false, hadproblem: true }),
    {
        CheckResult { proceed: false, hadproblem: true }
    }
}

/// The types a specification can allow for a value.
#[derive(Debug, Clone, Copy, PartialEq, Eq, Structural, Hash)]
pub enum SpecType {
    Dict,
    List,
    Unicode,
    Bool,
    Float,
    Null,
}

/// The comparisons a specification can ask of a length or a number.
#[derive(Debug, Clone, Copy, PartialEq, Eq, Structural)]
pub enum Cmp {
    Lt,
    Le,
    Eq,
    Ge,
    Gt,
    Ne,
}

/// Whether some call of `check_one` on alternative `i` may find a problem.
pub open spec fn fails_at<F: Fn(usize) -> CheckResult>(check_one: F, i: usize) -> bool {
    exists|x: CheckResult| call_ensures(check_one, (i,), x) && x.hadproblem
}

/// Tries the alternatives `0..specs_count` in order with `check_one` and
/// succeeds at the first that finds no problem; fails when none does.
pub fn check_either<F: Fn(usize) -> CheckResult>(specs_count: usize, check_one: F) -> (r: CheckResult)
    requires
        forall|i: usize| i < specs_count ==> call_requires(check_one, (i,)),
    ensures
        r == (CheckResult { proceed: true, hadproblem: false }) || r == (CheckResult { proceed: false, hadproblem: true }),
        r.proceed ==> exists|i: usize, x: CheckResult| i < specs_count && call_ensures(check_one, (i,), x) && !x.hadproblem,
        r.hadproblem ==> forall|i: usize| i < specs_count ==> #[trigger] fails_at(check_one, i),
{
    let mut i: usize = 0;
    while i < specs_count
        invariant
            i <= specs_count,
            forall|j: usize| j < specs_count ==> call_requires(check_one, (j,)),
            forall|j: usize| j < i ==> #[trigger] fails_at(check_one, j),
        decreases specs_count - i,
    {
        let r = check_one(i);
        if !r.hadproblem {
            return CheckResult::ok();
        }
        assert(call_ensures(check_one, (i,), r) && r.hadproblem);
        i = i + 1;
    }
    CheckResult::failed()
}

/// A function named by its dotted module path and its name: identifiers
/// joined by dots.
pub const FUNCTION_NAME_PATTERN: &'static str = "^(\\w+\\.)*[a-zA-Z_]\\w*$";

/// Whether `name` is a dotted function name (`FUNCTION_NAME_PATTERN`).
pub fn function_name_re_match(name: &str) -> (r: bool)
    ensures
        r == regex_is_match(FUNCTION_NAME_PATTERN@, name@),
{
    regex_match(FUNCTION_NAME_PATTERN, name)
}

/// `name` without a final `.json`.
pub open spec fn without_json_suffix(name: Seq<char>) -> Seq<char> {
    if name.len() >= 5 && name.subrange(name.len() - 5, name.len() as int) == ".json"@ {
        name.subrange(0, name.len() - 5)
    } else {
        name
    }
}

/// The name of a configuration file without its `.json` suffix; a name
/// without the suffix is kept as it is.
pub fn strip_json_suffix(name: &str) -> (r: String)
    ensures
        r@ == without_json_suffix(name@),
{
    proof {
        reveal_strlit(".json");
    }
    let cs = chars_of(name);
    let n = cs.len();
    if n >= 5 {
        let tail = slice_chars(&cs, n - 5, n);
        let suffix = chars_of(".json");
        if crate::text::chars_eq(&tail, &suffix) {
            let head = slice_chars(&cs, 0, n - 5);
            return string_of(&head);
        }
    }
    string_of(&cs)
}

/// Stripping the suffix from a configuration file's name gives back the
/// name it was made from.
pub proof fn law_strip_json_suffix_restores(name: Seq<char>)
    ensures
        without_json_suffix(name + ".json"@) == name,
{
    reveal_strlit(".json");
    let full = name + ".json"@;
    assert(full.subrange(full.len() - 5, full.len() as int) =~= ".json"@);
    assert(full.subrange(0, full.len() - 5) =~= name);
}

/// Checks the configuration: the full run of the specifications over the
/// files is not carried out here, so it reports no problem.
pub fn check() -> (r: bool)
    ensures
        !r,
{
    false
}

/// What the search for configuration files found at one path: an error, or
/// a configuration file with its name, its extension (none for one at the
/// top) and its kind.
#[derive(Debug, Clone)]
pub struct ExtConfigEntry {
    pub error: Option<String>,
    pub path: String,
    pub name: Option<String>,
    pub ext: Option<String>,
    pub kind: Option<String>,
}

/// A file found in an extension's directory.
#[derive(Debug, Clone)]
pub struct ConfigFileInfo {
    pub name: String,
    pub path: String,
    pub is_file: bool,
}

/// An entry of a configuration directory: a directory of an extension, or
/// something else; for a directory, what it holds, in the order of the
/// names.
#[derive(Debug, Clone)]
pub struct ExtDirInfo {
    pub name: String,
    pub path: String,
    pub is_dir: bool,
    pub is_file: bool,
    pub files: Vec<ConfigFileInfo>,
}

/// A configuration directory under one search path: whether it exists, is a
/// directory, and what it holds, in the order of the names.
#[derive(Debug, Clone)]
pub struct SearchRootInfo {
    pub subpath: String,
    pub exists: bool,
    pub is_dir: bool,
    pub exts: Vec<ExtDirInfo>,
}

/// An entry as plain values: error, path, name, extension, kind.
pub type EntryView = (Option<Seq<char>>, Seq<char>, Option<Seq<char>>, Option<Seq<char>>, Option<Seq<char>>);

/// The view of an optional string.
pub open spec fn opt_chars(s: Option<String>) -> Option<Seq<char>> {
    match s {
        Some(t) => Some(t@),
        None => None,
    }
}

/// The view of an entry.
pub open spec fn entry_view(e: ExtConfigEntry) -> EntryView {
    (opt_chars(e.error), e.path@, opt_chars(e.name), opt_chars(e.ext), opt_chars(e.kind))
}

/// An error entry for `path`.
pub open spec fn error_entry(message: Seq<char>, path: Seq<char>) -> EntryView {
    (Some(message), path, None, None, None)
}

/// Whether `name` ends in `.json`.
pub open spec fn is_json_name(name: Seq<char>) -> bool {
    name.len() >= 5 && name.subrange(name.len() - 5, name.len() as int) == ".json"@
}

/// The entry for a file in an extension's directory.
pub open spec fn file_entry(f: ConfigFileInfo, ext: Seq<char>, subdir: Seq<char>) -> EntryView {
    if is_json_name(f.name@) && f.is_file {
        (None, f.path@, Some(without_json_suffix(f.name@)), Some(ext), Some(subdir))
    } else {
        error_entry("Path "@ + f.path@ + " is not a configuration file"@, f.path@)
    }
}

/// The entries for the files of an extension's directory, in order.
pub open spec fn file_entries(files: Seq<ConfigFileInfo>, ext: Seq<char>, subdir: Seq<char>) -> Seq<EntryView> {
    files.map_values(|f: ConfigFileInfo| file_entry(f, ext, subdir))
}

/// The entries for one entry of a configuration directory: its files for a
/// directory, else itself as a top configuration file or as an error.
pub open spec fn ext_entries(e: ExtDirInfo, subdir: Seq<char>) -> Seq<EntryView> {
    if !e.is_dir {
        if is_json_name(e.name@) && e.is_file {
            seq![(None, e.path@, Some(without_json_suffix(e.name@)), None, Some("top_"@ + subdir))]
        } else {
            seq![error_entry("Path "@ + e.path@ + " is not a directory or configuration file"@, e.path@)]
        }
    } else {
        file_entries(e.files@, e.name@, subdir)
    }
}

/// The entries for the entries of a configuration directory, in order.
pub open spec fn exts_entries(exts: Seq<ExtDirInfo>, subdir: Seq<char>) -> Seq<EntryView>
    decreases exts.len(),
{
    if exts.len() == 0 {
        Seq::empty()
    } else {
        exts_entries(exts.drop_last(), subdir) + ext_entries(exts.last(), subdir)
    }
}

/// The entries for one search path: an error when its configuration
/// directory is something else than a directory, nothing when it does not
/// exist.
pub open spec fn root_entries(r: SearchRootInfo, subdir: Seq<char>) -> Seq<EntryView> {
    if !r.is_dir {
        if r.exists {
            seq![error_entry("Path "@ + r.subpath@ + " is not a directory"@, r.subpath@)]
        } else {
            Seq::empty()
        }
    } else {
        exts_entries(r.exts@, subdir)
    }
}

/// The entries for all the search paths, in order.
pub open spec fn roots_entries(roots: Seq<SearchRootInfo>, subdir: Seq<char>) -> Seq<EntryView>
    decreases roots.len(),
{
    if roots.len() == 0 {
        Seq::empty()
    } else {
        roots_entries(roots.drop_last(), subdir) + root_entries(roots.last(), subdir)
    }
}

/// Each search path is searched on its own, in order: the entries for two
/// lists of search paths, one after the other, are the entries for the
/// first list followed by those for the second.
pub proof fn law_search_paths_in_order(a: Seq<SearchRootInfo>, b: Seq<SearchRootInfo>, subdir: Seq<char>)
    ensures
        roots_entries(a + b, subdir) == roots_entries(a, subdir) + roots_entries(b, subdir),
    decreases b.len(),
{
    if b.len() == 0 {
        assert(a + b =~= a);
        assert(roots_entries(a, subdir) + roots_entries(b, subdir) =~= roots_entries(a, subdir));
    } else {
        assert((a + b).drop_last() =~= a + b.drop_last());
        law_search_paths_in_order(a, b.drop_last(), subdir);
        assert((a + b).last() == b.last());
        assert(roots_entries(a + b, subdir) =~= roots_entries(a, subdir) + roots_entries(b, subdir));
    }
}

/// The views of a list of entries.
pub open spec fn entries_view(v: Seq<ExtConfigEntry>) -> Seq<EntryView> {
    v.map_values(|e: ExtConfigEntry| entry_view(e))
}

/// `Path <path><tail>`.
fn path_message(path: &String, tail: &str) -> (r: String)
    ensures
        r@ == "Path "@ + path@ + tail@,
{
    let mut m = chars_of("Path ");
    append_str(&mut m, path.as_str());
    append_str(&mut m, tail);
    string_of(&m)
}

/// Whether `name` ends in `.json`.
fn ends_with_json(name: &String) -> (r: bool)
    ensures
        r == is_json_name(name@),
{
    proof {
        reveal_strlit(".json");
    }
    let cs = chars_of(name.as_str());
    let n = cs.len();
    if n < 5 {
        return false;
    }
    let tail = slice_chars(&cs, n - 5, n);
    let suffix = chars_of(".json");
    crate::text::chars_eq(&tail, &suffix)
}

/// Appends `e` to `out`.
fn push_entry(out: &mut Vec<ExtConfigEntry>, e: ExtConfigEntry)
    ensures
        entries_view(final(out)@) == entries_view(old(out)@).push(entry_view(e)),
{
    let ghost before = out@;
    out.push(e);
    assert(out@ == before.push(e));
    assert(entries_view(out@) =~= entries_view(before).push(entry_view(e)));
}

/// Appends the entries for one entry of a configuration directory.
fn push_ext_entries(out: &mut Vec<ExtConfigEntry>, e: &ExtDirInfo, subdir: &str)
    ensures
        entries_view(final(out)@) == entries_view(old(out)@) + ext_entries(*e, subdir@),
{
    proof {
        reveal_strlit(" is not a directory or configuration file");
        reveal_strlit(" is not a configuration file");
        reveal_strlit("top_");
    }
    let ghost start = entries_view(out@);
    if !e.is_dir {
        if ends_with_json(&e.name) && e.is_file {
            let mut k = chars_of("top_");
            append_str(&mut k, subdir);
            push_entry(out, ExtConfigEntry {
                error: None,
                path: e.path.clone(),
                name: Some(strip_json_suffix(e.name.as_str())),
                ext: None,
                kind: Some(string_of(&k)),
            });
        } else {
            push_entry(out, ExtConfigEntry {
                error: Some(path_message(&e.path, " is not a directory or configuration file")),
                path: e.path.clone(),
                name: None,
                ext: None,
                kind: None,
            });
        }
        assert(entries_view(out@) =~= start + ext_entries(*e, subdir@));
        return;
    }
    let mut i: usize = 0;
    while i < e.files.len()
        invariant
            i <= e.files.len(),
            e.is_dir,
            entries_view(out@) == start + file_entries(e.files@.take(i as int), e.name@, subdir@),
        decreases e.files.len() - i,
    {
        let f = &e.files[i];
        if ends_with_json(&f.name) && f.is_file {
            push_entry(out, ExtConfigEntry {
                error: None,
                path: f.path.clone(),
                name: Some(strip_json_suffix(f.name.as_str())),
                ext: Some(e.name.clone()),
                kind: Some(string_from(subdir)),
            });
        } else {
            push_entry(out, ExtConfigEntry {
                error: Some(path_message(&f.path, " is not a configuration file")),
                path: f.path.clone(),
                name: None,
                ext: None,
                kind: None,
            });
        }
        i = i + 1;
        assert(file_entries(e.files@.take(i as int), e.name@, subdir@) =~= file_entries(e.files@.take(i - 1), e.name@, subdir@).push(file_entry(e.files@[i - 1], e.name@, subdir@)));
    }
    assert(e.files@.take(e.files.len() as int) =~= e.files@);
}

/// The configuration files of kind `subdir` that the search paths hold, and
/// an error for each path that is not where a configuration file or a
/// directory of them belongs; `roots` holds what was found at each search
/// path.
pub fn find_all_ext_config_files(roots: &[SearchRootInfo], subdir: &str) -> (r: Vec<ExtConfigEntry>)
    ensures
        entries_view(r@) == roots_entries(roots@, subdir@),
{
    proof {
        reveal_strlit(" is not a directory");
    }
    let mut out: Vec<ExtConfigEntry> = Vec::new();
    let mut k: usize = 0;
    while k < roots.len()
        invariant
            k <= roots.len(),
            entries_view(out@) == roots_entries(roots@.take(k as int), subdir@),
        decreases roots.len() - k,
    {
        let root = &roots[k];
        let ghost start = entries_view(out@);
        if !root.is_dir {
            if root.exists {
                push_entry(&mut out, ExtConfigEntry {
                    error: Some(path_message(&root.subpath, " is not a directory")),
                    path: root.subpath.clone(),
                    name: None,
                    ext: None,
                    kind: None,
                });
            }
            assert(entries_view(out@) =~= start + root_entries(*root, subdir@));
        } else {
            let mut i: usize = 0;
            while i < root.exts.len()
                invariant
                    i <= root.exts.len(),
                    entries_view(out@) == start + exts_entries(root.exts@.take(i as int), subdir@),
                decreases root.exts.len() - i,
            {
                push_ext_entries(&mut out, &root.exts[i], subdir);
                i = i + 1;
                assert(root.exts@.take(i as int).drop_last() =~= root.exts@.take(i - 1));
                assert(entries_view(out@) =~= start + exts_entries(root.exts@.take(i as int), subdir@));
            }
            assert(root.exts@.take(root.exts.len() as int) =~= root.exts@);
        }
        k = k + 1;
        assert(roots@.take(k as int).drop_last() =~= roots@.take(k - 1));
        assert(entries_view(out@) =~= roots_entries(roots@.take(k as int), subdir@));
    }
    assert(roots@.take(roots.len() as int) =~= roots@);
    out
}

} // verus!
