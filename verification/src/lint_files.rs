//! What the lint makes of a configuration file once it has tried to load
//! it, and how a file's record is filled in from that.

use vstd::prelude::*;
use crate::json_value::{
    copy_members, get_member, member_value, members_view, set_member, text_value, with_member, JsonValue, JsonView,
};
use crate::text::{append_str, chars_of, string_from, string_of};

verus! {

/// What loading a configuration file gave: whether there was a problem,
/// the configuration when it could be read, and the error when it could
/// not.
#[derive(Debug)]
pub struct LoadJsonResult {
    pub hadproblem: bool,
    pub config: Option<JsonValue>,
    pub error: Option<String>,
}

/// The result of loading the file at `path`: when the file is missing
/// (`loaded` is `None`) a problem with the error `Path not found: ` and
/// the path; else the configuration and whether loading it found a
/// problem, as the loader gave them.
pub fn load_json_file(path: &str, loaded: Option<(Option<JsonValue>, bool)>) -> (r: LoadJsonResult)
    ensures
        match loaded {
            None => r.hadproblem && r.config is None && (r.error matches Some(e) && e@ == "Path not found: "@ + path@),
            Some((config, hadproblem)) => r.hadproblem == hadproblem && r.config == config && r.error is None,
        },
{
    match loaded {
        None => {
            let mut msg = chars_of("Path not found: ");
            append_str(&mut msg, path);
            LoadJsonResult { hadproblem: true, config: None, error: Some(string_of(&msg)) }
        },
        Some((config, hadproblem)) => LoadJsonResult { hadproblem, config, error: None },
    }
}

/// The text path that a file's record names, if it names one.
pub open spec fn path_of(ms: Seq<(Seq<char>, JsonView)>) -> Option<Seq<char>> {
    match member_value(ms, "path"@) {
        Some(JsonView::Text(p)) => Some(p),
        _ => None,
    }
}

/// The record with what loading gave set: `hadproblem`, then `config` when
/// there is one, then `error` when there is one.
pub open spec fn merged_result(ms: Seq<(Seq<char>, JsonView)>, r: LoadJsonResult) -> Seq<(Seq<char>, JsonView)> {
    let m1 = with_member(ms, "hadproblem"@, JsonView::Bool(r.hadproblem));
    let m2 = match r.config {
        Some(c) => with_member(m1, "config"@, c@),
        None => m1,
    };
    match r.error {
        Some(e) => with_member(m2, "error"@, JsonView::Text(e@)),
        None => m2,
    }
}

/// Fills in a file's record from loading the file it names: when the
/// record names a path, `load_json` loads it and `hadproblem`, `config`
/// and `error` are set from what it gave; a record with no path is left
/// as it is.
pub fn updated_with_config<F: Fn(&str) -> LoadJsonResult>(d: &mut Vec<(String, JsonValue)>, load_json: F)
    requires
        forall|p: &str| call_requires(load_json, (p,)),
    ensures
        match path_of(members_view(old(d)@)) {
            None => final(d)@ == old(d)@,
            Some(p) => exists|k: &str, res: LoadJsonResult| {
                &&& k@ == p
                &&& call_ensures(load_json, (k,), res)
                &&& members_view(final(d)@) == merged_result(members_view(old(d)@), res)
            },
        },
{
    let path: Option<String> = match get_member(d, "path") {
        Some(JsonValue::Text(p)) => Some(string_from(p.as_str())),
        _ => None,
    };
    match path {
        None => {},
        Some(p) => {
            let res = load_json(p.as_str());
            let ghost before = members_view(d@);
            set_member(d, "hadproblem", JsonValue::Bool(res.hadproblem));
            match &res.config {
                Some(c) => {
                    set_member(d, "config", c.deep_copy());
                },
                None => {},
            }
            match &res.error {
                Some(e) => {
                    set_member(d, "error", text_value(e.as_str()));
                },
                None => {},
            }
            assert(members_view(d@) == merged_result(before, res));
        },
    }
}

/// A copy of a mapping from names to configurations.
pub fn dict2(d: &Vec<(String, JsonValue)>) -> (r: Vec<(String, JsonValue)>)
    ensures
        members_view(r@) == members_view(d@),
{
    copy_members(d)
}

} // verus!
