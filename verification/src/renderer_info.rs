//! The segment information a renderer hands to its segments: the
//! environment and home directory, the mode, what the caller adds, and the
//! working directory that the environment names.

use vstd::prelude::*;
use crate::json_value::{
    copy_members, get_member, lemma_members_view, member_value, members_view, push_member, set_member,
    text_value, with_member, JsonValue, JsonView,
};
use crate::render_segments::Renderer;
use crate::text::str_eq;

verus! {

/// The environment as a JSON object of texts.
pub open spec fn environ_view(environ: Seq<(String, String)>) -> Seq<(Seq<char>, JsonView)> {
    environ.map_values(|e: (String, String)| (e.0@, JsonView::Text(e.1@)))
}

/// The renderer's own segment information: the environment and the home
/// directory it names (null when it names none).
pub open spec fn base_info(environ: Seq<(String, String)>) -> Seq<(Seq<char>, JsonView)> {
    seq![
        ("environ"@, JsonView::Object(environ_view(environ))),
        ("home"@, match member_value(environ_view(environ), "HOME"@) {
            Some(h) => h,
            None => JsonView::Null,
        }),
    ]
}

/// `ms` with each member of `extra` set in turn.
pub open spec fn updated_with(ms: Seq<(Seq<char>, JsonView)>, extra: Seq<(Seq<char>, JsonView)>) -> Seq<(Seq<char>, JsonView)>
    decreases extra.len(),
{
    if extra.len() == 0 {
        ms
    } else {
        with_member(updated_with(ms, extra.drop_last()), extra.last().0, extra.last().1)
    }
}

/// The working directory that the environment in `info` names, if it
/// names one as text.
pub open spec fn pwd_of(info: Seq<(Seq<char>, JsonView)>) -> Option<Seq<char>> {
    match member_value(info, "environ"@) {
        Some(JsonView::Object(env)) => match member_value(env, "PWD"@) {
            Some(JsonView::Text(p)) => Some(p),
            _ => None,
        },
        _ => None,
    }
}

/// The segment information for one rendering: `base` with `mode` set (null
/// when there is none), then the members of `extra`, then `getcwd` set to
/// the working directory that the environment names, if it names one.
pub open spec fn full_info(
    base: Seq<(Seq<char>, JsonView)>,
    extra: Option<Seq<(Seq<char>, JsonView)>>,
    mode: Option<Seq<char>>,
) -> Seq<(Seq<char>, JsonView)> {
    let with_mode = with_member(base, "mode"@, match mode {
        Some(m) => JsonView::Text(m),
        None => JsonView::Null,
    });
    let updated = match extra {
        Some(e) => updated_with(with_mode, e),
        None => with_mode,
    };
    match pwd_of(updated) {
        Some(p) => with_member(updated, "getcwd"@, JsonView::Text(p)),
        None => updated,
    }
}

impl Renderer {
    /// The segment information every rendering starts from: the process
    /// environment `environ` as `environ`, and the home directory it names
    /// as `home`.
    pub fn segment_info(environ: &Vec<(String, String)>) -> (r: Vec<(String, JsonValue)>)
        ensures
            members_view(r@) == base_info(environ@),
    {
        let mut env: Vec<(String, JsonValue)> = Vec::new();
        let mut i: usize = 0;
        assert(members_view(env@) =~= Seq::<(Seq<char>, JsonView)>::empty());
        assert(environ@.take(0) =~= Seq::<(String, String)>::empty());
        while i < environ.len()
            invariant
                i <= environ@.len(),
                members_view(env@) == environ_view(environ@.take(i as int)),
            decreases environ@.len() - i,
        {
            push_member(&mut env, environ[i].0.as_str(), text_value(environ[i].1.as_str()));
            assert(environ_view(environ@.take(i + 1)) =~= environ_view(environ@.take(i as int)).push((environ@[i as int].0@, JsonView::Text(environ@[i as int].1@))));
            i = i + 1;
        }
        assert(environ@.take(environ@.len() as int) =~= environ@);
        let home = match get_member(&env, "HOME") {
            Some(h) => h.deep_copy(),
            None => JsonValue::Null,
        };
        let mut r: Vec<(String, JsonValue)> = Vec::new();
        assert(members_view(r@) =~= Seq::<(Seq<char>, JsonView)>::empty());
        push_member(&mut r, "environ", JsonValue::Object(env));
        push_member(&mut r, "home", home);
        assert(members_view(r@) =~= base_info(environ@));
        r
    }

    /// The segment information for one rendering: a copy of `base` (the
    /// renderer's own) with `mode` set (null when there is none), then the
    /// members of `segment_info` set in turn, then `getcwd` set to the
    /// working directory that the environment names as `PWD`, if it does.
    pub fn get_segment_info(
        base: &Vec<(String, JsonValue)>,
        segment_info: Option<&Vec<(String, JsonValue)>>,
        mode: Option<&str>,
    ) -> (r: Vec<(String, JsonValue)>)
        ensures
            members_view(r@) == full_info(
                members_view(base@),
                match segment_info { Some(e) => Some(members_view(e@)), None => None },
                match mode { Some(m) => Some(m@), None => None },
            ),
    {
        let mut r = copy_members(base);
        let mode_value = match mode {
            Some(m) => text_value(m),
            None => JsonValue::Null,
        };
        set_member(&mut r, "mode", mode_value);
        let ghost with_mode = members_view(r@);
        match segment_info {
            Some(extra) => {
                let mut i: usize = 0;
                proof {
                    lemma_members_view(extra@);
                    assert(members_view(extra@).take(0) =~= Seq::<(Seq<char>, JsonView)>::empty());
                }
                while i < extra.len()
                    invariant
                        i <= extra@.len(),
                        members_view(extra@).len() == extra@.len(),
                        forall|j: int| 0 <= j < extra@.len() ==> #[trigger] members_view(extra@)[j] == (extra@[j].0@, extra@[j].1@),
                        members_view(r@) == updated_with(with_mode, members_view(extra@).take(i as int)),
                    decreases extra@.len() - i,
                {
                    let v = extra[i].1.deep_copy();
                    set_member(&mut r, extra[i].0.as_str(), v);
                    assert(members_view(extra@).take(i + 1).drop_last() =~= members_view(extra@).take(i as int));
                    i = i + 1;
                }
                assert(members_view(extra@).take(extra@.len() as int) =~= members_view(extra@));
            },
            None => {},
        }
        let ghost updated = members_view(r@);
        let pwd: Option<JsonValue> = match get_member(&r, "environ") {
            Some(JsonValue::Object(env)) => {
                proof {
                    lemma_members_view(env@);
                }
                match get_member(env, "PWD") {
                    Some(JsonValue::Text(p)) => Some(text_value(p.as_str())),
                    _ => None,
                }
            },
            _ => None,
        };
        match pwd {
            Some(p) => {
                set_member(&mut r, "getcwd", p);
            },
            None => {},
        }
        r
    }
}

} // verus!
