//! Matchers that pick a theme for special editor buffers: help and quickfix
//! windows, the command-line window, and the windows of a few plugins.

use vstd::prelude::*;
use crate::regex_calls::{regex_bytes_is_match, regex_bytes_match};
use crate::text::str_eq;

verus! {

/// What the matchers read of a buffer: its options, as (name, value) pairs
/// where the first pair for a name counts, and its name as bytes.
#[derive(Debug, Clone)]
pub struct MatcherInfo {
    pub buffer_options: Vec<(String, String)>,
    pub buffer_name: Option<Vec<u8>>,
}

impl Default for MatcherInfo {
    /// A buffer with no options and no name.
    fn default() -> (r: Self)
        ensures
            r.buffer_options@.len() == 0,
            r.buffer_name is None,
    {
        MatcherInfo { buffer_options: Vec::new(), buffer_name: None }
    }
}

/// The value of option `name` in `opts`: that of the first pair for the
/// name, or the empty string when there is none.
pub open spec fn option_value(opts: Seq<(String, String)>, name: Seq<char>) -> Seq<char>
    decreases opts.len(),
{
    if opts.len() == 0 {
        Seq::empty()
    } else if opts[0].0@ == name {
        opts[0].1@
    } else {
        option_value(opts.drop_first(), name)
    }
}

/// The value of the buffer's option `name` (empty when it is not set).
pub fn vim_getbufoption(matcher_info: &MatcherInfo, name: &str) -> (r: String)
    ensures
        r@ == option_value(matcher_info.buffer_options@, name@),
{
    let opts = &matcher_info.buffer_options;
    assert(opts@.subrange(0, opts@.len() as int) =~= opts@);
    let mut i: usize = 0;
    while i < opts.len()
        invariant
            i <= opts.len(),
            opts@ == matcher_info.buffer_options@,
            option_value(opts@, name@) == option_value(opts@.subrange(i as int, opts@.len() as int), name@),
        decreases opts.len() - i,
    {
        assert(opts@.subrange(i as int, opts@.len() as int).drop_first() =~= opts@.subrange(i + 1, opts@.len() as int));
        if str_eq(opts[i].0.as_str(), name) {
            let v = opts[i].1.clone();
            let ghost rest = opts@.subrange(i as int, opts@.len() as int);
            assert(rest[0] == opts@[i as int]);
            assert(rest.len() > 0 && rest[0].0@ == name@);
            assert(option_value(rest, name@) == rest[0].1@);
            assert(v@ == opts@[i as int].1@);
            return v;
        }
        i = i + 1;
    }
    String::new()
}

/// The buffer's name, if it has one.
pub fn buffer_name(matcher_info: &MatcherInfo) -> (r: Option<Vec<u8>>)
    ensures
        match (r, matcher_info.buffer_name) {
            (Some(a), Some(b)) => a@ == b@,
            (None, None) => true,
            _ => false,
        },
{
    match &matcher_info.buffer_name {
        Some(n) => {
            let mut out: Vec<u8> = Vec::new();
            let mut i: usize = 0;
            while i < n.len()
                invariant
                    i <= n.len(),
                    out@ == n@.take(i as int),
                decreases n.len() - i,
            {
                out.push(n[i]);
                i = i + 1;
                assert(out@ =~= n@.take(i as int));
            }
            assert(n@.take(n.len() as int) =~= n@);
            Some(out)
        },
        None => None,
    }
}

/// The index of the last `/` in `name`, if there is one.
pub open spec fn last_slash(name: Seq<u8>) -> Option<int>
    decreases name.len(),
{
    if name.len() == 0 {
        None
    } else if name.last() == 47u8 {
        Some(name.len() - 1)
    } else {
        last_slash(name.drop_last())
    }
}

/// The part of `name` after its last `/` (all of it when there is none).
pub open spec fn basename(name: Seq<u8>) -> Seq<u8> {
    match last_slash(name) {
        Some(i) => name.subrange(i + 1, name.len() as int),
        None => name,
    }
}

proof fn last_slash_in_prefix(name: Seq<u8>, k: int)
    requires
        0 <= k <= name.len(),
        forall|j: int| k <= j < name.len() ==> name[j] != 47u8,
    ensures
        last_slash(name) == last_slash(name.take(k)),
    decreases name.len() - k,
{
    if k < name.len() {
        assert(name.drop_last().take(k) =~= name.take(k));
        last_slash_in_prefix(name.drop_last(), k);
    } else {
        assert(name.take(k) =~= name);
    }
}

proof fn lemma_no_slash(name: Seq<u8>)
    requires
        forall|j: int| 0 <= j < name.len() ==> name[j] != 47u8,
    ensures
        last_slash(name) is None,
    decreases name.len(),
{
    if name.len() > 0 {
        assert forall|j: int| 0 <= j < name.drop_last().len() implies name.drop_last()[j] != 47u8 by {
            assert(name.drop_last()[j] == name[j]);
        }
        lemma_no_slash(name.drop_last());
        assert(name.last() == name[name.len() - 1]);
    }
}

proof fn lemma_last_slash_is_last(name: Seq<u8>)
    ensures
        last_slash(name) matches Some(i) ==> 0 <= i < name.len() && name[i] == 47u8 && forall|j: int| i < j < name.len() ==> name[j] != 47u8,
    decreases name.len(),
{
    if name.len() > 0 && name.last() != 47u8 {
        lemma_last_slash_is_last(name.drop_last());
        if last_slash(name.drop_last()) is Some {
            let i = last_slash(name.drop_last())->0;
            assert forall|j: int| i < j < name.len() implies name[j] != 47u8 by {
                if j < name.len() - 1 {
                    assert(name.drop_last()[j] == name[j]);
                }
            }
        }
    }
}

/// The part after the last `/` holds no `/`: taking it again changes
/// nothing.
pub proof fn law_basename_idempotent(name: Seq<u8>)
    ensures
        basename(basename(name)) == basename(name),
{
    lemma_last_slash_is_last(name);
    let b = basename(name);
    match last_slash(name) {
        Some(i) => {
            assert forall|j: int| 0 <= j < b.len() implies b[j] != 47u8 by {
                assert(b[j] == name[i + 1 + j]);
            }
            lemma_no_slash(b);
        },
        None => {},
    }
}

/// The part of `name` after its last `/`.
pub fn basename_of(name: &Vec<u8>) -> (r: Vec<u8>)
    ensures
        r@ == basename(name@),
{
    let mut k: usize = name.len();
    while k > 0 && name[k - 1] != 47u8
        invariant
            k <= name.len(),
            forall|j: int| k <= j < name.len() ==> name@[j] != 47u8,
        decreases k,
    {
        k = k - 1;
    }
    proof {
        last_slash_in_prefix(name@, k as int);
    }
    proof {
        if k > 0 {
            assert(name@.take(k as int).drop_last() =~= name@.take(k - 1));
            assert(name@.take(k as int).last() == 47u8);
        } else {
            assert(name@.take(0) =~= Seq::<u8>::empty());
        }
    }
    let mut out: Vec<u8> = Vec::new();
    let mut i: usize = k;
    while i < name.len()
        invariant
            k <= i <= name.len(),
            out@ == name@.subrange(k as int, i as int),
        decreases name.len() - i,
    {
        out.push(name[i]);
        i = i + 1;
        assert(out@ =~= name@.subrange(k as int, i as int));
    }
    proof {
        if k > 0 {
            assert(name@[k - 1] == 47u8);
            assert(forall|j: int| k <= j < name@.len() ==> name@[j] != 47u8);
        }
    }
    assert(name@.subrange(0, name@.len() as int) =~= name@);
    out
}

/// Whether the buffer's name, after its last `/`, is `target`.
fn basename_is(matcher_info: &MatcherInfo, target: &[u8]) -> (r: bool)
    ensures
        r == (matcher_info.buffer_name matches Some(n) && basename(n@) == target@),
{
    match buffer_name(matcher_info) {
        Some(n) => {
            let b = basename_of(&n);
            assert(matcher_info.buffer_name is Some);
            assert(basename(matcher_info.buffer_name->0@) == b@);
            if b.len() != target.len() {
                assert(b@ != target@);
                return false;
            }
            let mut i: usize = 0;
            while i < b.len()
                invariant
                    i <= b.len(),
                    b.len() == target.len(),
                    matcher_info.buffer_name is Some,
                    basename(matcher_info.buffer_name->0@) == b@,
                    forall|j: int| 0 <= j < i ==> b@[j] == target@[j],
                decreases b.len() - i,
            {
                if b[i] != target[i] {
                    assert(b@[i as int] != target@[i as int]);
                    return false;
                }
                i = i + 1;
            }
            assert(b@ =~= target@);
            true
        },
        None => false,
    }
}

/// A help window: its `buftype` is `help`.
pub fn help(matcher_info: &MatcherInfo) -> (r: bool)
    ensures
        r == (option_value(matcher_info.buffer_options@, "buftype"@) == "help"@),
{
    let v = vim_getbufoption(matcher_info, "buftype");
    str_eq(v.as_str(), "help")
}

/// The command-line window: its name ends in `[Command Line]`.
pub fn cmdwin(matcher_info: &MatcherInfo) -> (r: bool)
    ensures
        r == (matcher_info.buffer_name matches Some(n) && basename(n@) == "[Command Line]"@.map_values(|c: char| c as u8)),
{
    let target: [u8; 14] = [91, 67, 111, 109, 109, 97, 110, 100, 32, 76, 105, 110, 101, 93];
    proof {
        reveal_strlit("[Command Line]");
        assert(target@ =~= "[Command Line]"@.map_values(|c: char| c as u8));
    }
    basename_is(matcher_info, &target)
}

/// A quickfix window: its `buftype` is `quickfix`.
pub fn quickfix(matcher_info: &MatcherInfo) -> (r: bool)
    ensures
        r == (option_value(matcher_info.buffer_options@, "buftype"@) == "quickfix"@),
{
    let v = vim_getbufoption(matcher_info, "buftype");
    str_eq(v.as_str(), "quickfix")
}

/// A Command-T window: its `filetype` is `command-t`, or its name ends in
/// `GoToFile`.
pub fn commandt(matcher_info: &MatcherInfo) -> (r: bool)
    ensures
        r == (option_value(matcher_info.buffer_options@, "filetype"@) == "command-t"@
            || (matcher_info.buffer_name matches Some(n) && basename(n@) == "GoToFile"@.map_values(|c: char| c as u8))),
{
    let v = vim_getbufoption(matcher_info, "filetype");
    if str_eq(v.as_str(), "command-t") {
        return true;
    }
    let target: [u8; 8] = [71, 111, 84, 111, 70, 105, 108, 101];
    proof {
        reveal_strlit("GoToFile");
        assert(target@ =~= "GoToFile"@.map_values(|c: char| c as u8));
    }
    basename_is(matcher_info, &target)
}

/// The Gundo window: its name ends in `__Gundo__`.
pub fn gundo(matcher_info: &MatcherInfo) -> (r: bool)
    ensures
        r == (matcher_info.buffer_name matches Some(n) && basename(n@) == "__Gundo__"@.map_values(|c: char| c as u8)),
{
    let target: [u8; 9] = [95, 95, 71, 117, 110, 100, 111, 95, 95];
    proof {
        reveal_strlit("__Gundo__");
        assert(target@ =~= "__Gundo__"@.map_values(|c: char| c as u8));
    }
    basename_is(matcher_info, &target)
}

/// The Gundo preview window: its name ends in `__Gundo_Preview__`.
pub fn gundo_preview(matcher_info: &MatcherInfo) -> (r: bool)
    ensures
        r == (matcher_info.buffer_name matches Some(n) && basename(n@) == "__Gundo_Preview__"@.map_values(|c: char| c as u8)),
{
    let target: [u8; 17] = [95, 95, 71, 117, 110, 100, 111, 95, 80, 114, 101, 118, 105, 101, 119, 95, 95];
    proof {
        reveal_strlit("__Gundo_Preview__");
        assert(target@ =~= "__Gundo_Preview__"@.map_values(|c: char| c as u8));
    }
    basename_is(matcher_info, &target)
}

/// The pattern of the names of NERDTree windows.
pub const NERD_TREE_PATTERN: &'static str = "NERD_tree_\\d+";

/// A NERDTree window: its name is not empty and, after its last `/`,
/// matches `NERD_tree_\d+`.
pub fn nerdtree(matcher_info: &MatcherInfo) -> (r: bool)
    ensures
        r == (matcher_info.buffer_name matches Some(n) && n@.len() > 0 && regex_bytes_is_match(NERD_TREE_PATTERN@, basename(n@))),
{
    match buffer_name(matcher_info) {
        Some(n) => {
            if n.len() == 0 {
                return false;
            }
            let b = basename_of(&n);
            regex_bytes_match(NERD_TREE_PATTERN, b.as_slice())
        },
        None => false,
    }
}

} // verus!
