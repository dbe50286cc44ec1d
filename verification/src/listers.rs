//! Listers: each turns the segment information into one entry per
//! workspace, output, stack frame, tab page or buffer, as a pair of the
//! entry's segment information and the keys its segments get.

use vstd::prelude::*;
use crate::json_value::{
    copy_members, find_member, integer_value, int_text, natural_value, items_view, key_index, member_keys, members_view,
    push_member, set_member, text_value, view_keys, with_member, JsonValue, JsonView,
};
use crate::text::{append_chars, append_str, chars_of, decimal, decimal_chars, str_eq, string_of, strs_view, string_from, zero_pad, zero_pad_chars};

verus! {

/// The entries of a lister: each entry's segment information and the keys
/// its segments get, as plain values.
pub open spec fn entries_view(r: Seq<(Vec<(String, JsonValue)>, Vec<(String, JsonValue)>)>) -> Seq<(Seq<(Seq<char>, JsonView)>, Seq<(Seq<char>, JsonView)>)> {
    r.map_values(|e: (Vec<(String, JsonValue)>, Vec<(String, JsonValue)>)| (members_view(e.0@), members_view(e.1@)))
}

/// The keys that make a segment drop the divider inside it.
pub open spec fn no_inner_divider() -> Seq<(Seq<char>, JsonView)> {
    seq![("draw_inner_divider"@, JsonView::Null)]
}

/// `{"draw_inner_divider": null}`.
fn no_inner_divider_members() -> (r: Vec<(String, JsonValue)>)
    ensures
        members_view(r@) == no_inner_divider(),
{
    let mut r: Vec<(String, JsonValue)> = Vec::new();
    assert(members_view(r@) =~= Seq::<(Seq<char>, JsonView)>::empty());
    push_member(&mut r, "draw_inner_divider", JsonValue::Null);
    r
}

/// An i3 workspace: its name, the output it is on, and whether it is
/// visible, urgent or focused.
#[derive(Debug, Clone)]
pub struct I3Workspace {
    pub name: String,
    pub output: String,
    pub visible: bool,
    pub urgent: bool,
    pub focused: bool,
}

/// The workspace is in the state `state` (`visible`, `urgent` or
/// `focused`).
pub open spec fn has_state(w: I3Workspace, state: Seq<char>) -> bool {
    (state == "visible"@ && w.visible) || (state == "urgent"@ && w.urgent) || (state == "focused"@ && w.focused)
}

/// Asking for one state lists the workspaces in that state and no others:
/// `focused` those that have the focus, `visible` those that are visible,
/// `urgent` those that are urgent, whatever else holds of them; asking for
/// no state lists them all. Naming an output lists the workspaces on that
/// output and no others.
pub proof fn law_single_state_filter(w: I3Workspace, o: Seq<char>)
    ensures
        workspace_shown(w, None, Some(o)) <==> w.output@ == o,
        workspace_shown(w, Some(seq!["focused"@]), None) <==> w.focused,
        workspace_shown(w, Some(seq!["visible"@]), None) <==> w.visible,
        workspace_shown(w, Some(seq!["urgent"@]), None) <==> w.urgent,
        workspace_shown(w, None, None),
        workspace_shown(w, Some(Seq::empty()), None),
{
    reveal_strlit("visible");
    reveal_strlit("urgent");
    reveal_strlit("focused");
    let f = seq!["focused"@];
    let v = seq!["visible"@];
    let u = seq!["urgent"@];
    assert("focused"@ != "visible"@ && "focused"@ != "urgent"@ && "visible"@ != "urgent"@) by {
        assert("focused"@[0] != "visible"@[0]);
        assert("focused"@[0] != "urgent"@[0]);
        assert("visible"@[0] != "urgent"@[0]);
    }
    if w.focused {
        assert(has_state(w, f[0]));
    }
    if w.visible {
        assert(has_state(w, v[0]));
    }
    if w.urgent {
        assert(has_state(w, u[0]));
    }
}

/// The workspace is listed: it is in one of the states of `only_show`
/// (any workspace when that is unset or empty) and on `output` (any
/// output when that is unset).
pub open spec fn workspace_shown(w: I3Workspace, only_show: Option<Seq<Seq<char>>>, output: Option<Seq<char>>) -> bool {
    &&& match only_show {
        None => true,
        Some(states) => states.len() == 0 || exists|i: int| 0 <= i < states.len() && has_state(w, #[trigger] states[i]),
    }
    &&& match output {
        None => true,
        Some(o) => w.output@ == o,
    }
}

/// The workspace as a JSON object.
pub open spec fn workspace_view(w: I3Workspace) -> JsonView {
    JsonView::Object(seq![
        ("name"@, JsonView::Text(w.name@)),
        ("output"@, JsonView::Text(w.output@)),
        ("visible"@, JsonView::Bool(w.visible)),
        ("urgent"@, JsonView::Bool(w.urgent)),
        ("focused"@, JsonView::Bool(w.focused)),
    ])
}

/// The segment information of a workspace's entry: `info` with `output`
/// and `workspace` set.
pub open spec fn workspace_info(info: Seq<(Seq<char>, JsonView)>, w: I3Workspace) -> Seq<(Seq<char>, JsonView)> {
    with_member(with_member(info, "output"@, JsonView::Text(w.output@)), "workspace"@, workspace_view(w))
}

/// The listed workspaces, in order.
pub open spec fn shown_workspaces(ws: Seq<I3Workspace>, only_show: Option<Seq<Seq<char>>>, output: Option<Seq<char>>) -> Seq<I3Workspace> {
    ws.filter(|w: I3Workspace| workspace_shown(w, only_show, output))
}

/// The states given as plain values.
pub open spec fn states_view(only_show: Option<&[&str]>) -> Option<Seq<Seq<char>>> {
    match only_show {
        Some(states) => Some(strs_view(states@)),
        None => None,
    }
}

/// The optional text given as a plain value.
pub open spec fn opt_view(s: Option<&str>) -> Option<Seq<char>> {
    match s {
        Some(t) => Some(t@),
        None => None,
    }
}

/// Whether the workspace is listed.
fn is_shown(w: &I3Workspace, only_show: Option<&[&str]>, output: Option<&str>) -> (r: bool)
    ensures
        r == workspace_shown(*w, states_view(only_show), opt_view(output)),
{
    proof {
        reveal_strlit("visible");
        reveal_strlit("urgent");
        reveal_strlit("focused");
    }
    let in_state = match only_show {
        None => true,
        Some(states) => {
            if states.len() == 0 {
                true
            } else {
                let mut found = false;
                let mut i: usize = 0;
                while i < states.len()
                    invariant
                        i <= states@.len(),
                        found == exists|j: int| 0 <= j < i && has_state(*w, #[trigger] strs_view(states@)[j]),
                    decreases states@.len() - i,
                {
                    assert(strs_view(states@)[i as int] == states@[i as int]@);
                    let s = states[i];
                    let hit = (str_eq(s, "visible") && w.visible) || (str_eq(s, "urgent") && w.urgent) || (str_eq(s, "focused") && w.focused);
                    assert(hit == has_state(*w, strs_view(states@)[i as int]));
                    found = found || hit;
                    i = i + 1;
                }
                found
            }
        },
    };
    let on_output = match output {
        None => true,
        Some(o) => str_eq(w.output.as_str(), o),
    };
    in_state && on_output
}

/// The workspace as a JSON object.
fn workspace_object(w: &I3Workspace) -> (r: JsonValue)
    ensures
        r@ == workspace_view(*w),
{
    let mut o: Vec<(String, JsonValue)> = Vec::new();
    assert(members_view(o@) =~= Seq::<(Seq<char>, JsonView)>::empty());
    push_member(&mut o, "name", text_value(w.name.as_str()));
    push_member(&mut o, "output", text_value(w.output.as_str()));
    push_member(&mut o, "visible", JsonValue::Bool(w.visible));
    push_member(&mut o, "urgent", JsonValue::Bool(w.urgent));
    push_member(&mut o, "focused", JsonValue::Bool(w.focused));
    assert(members_view(o@) =~= seq![
        ("name"@, JsonView::Text(w.name@)),
        ("output"@, JsonView::Text(w.output@)),
        ("visible"@, JsonView::Bool(w.visible)),
        ("urgent"@, JsonView::Bool(w.urgent)),
        ("focused"@, JsonView::Bool(w.focused)),
    ]);
    JsonValue::Object(o)
}

/// One entry per listed workspace of `workspaces`, in order: a copy of
/// `segment_info` with `output` set to the workspace's output and
/// `workspace` to the workspace, paired with `{"draw_inner_divider":
/// null}`. A workspace is listed when it is in one of the states of
/// `only_show` (`visible`, `urgent`, `focused`; any workspace when
/// `only_show` is unset or empty) and, when `output` is set, on that
/// output.
pub fn workspace_lister_for(
    segment_info: &Vec<(String, JsonValue)>,
    workspaces: &[I3Workspace],
    only_show: Option<&[&str]>,
    output: Option<&str>,
) -> (r: Vec<(Vec<(String, JsonValue)>, Vec<(String, JsonValue)>)>)
    ensures
        r@.len() == shown_workspaces(workspaces@, states_view(only_show), opt_view(output)).len(),
        forall|j: int| 0 <= j < r@.len() ==> #[trigger] entries_view(r@)[j] == (
            workspace_info(members_view(segment_info@), shown_workspaces(workspaces@, states_view(only_show), opt_view(output))[j]),
            no_inner_divider(),
        ),
{
    let ghost states = states_view(only_show);
    let ghost out_view = opt_view(output);
    let ghost pred = |w: I3Workspace| workspace_shown(w, states, out_view);
    let mut r: Vec<(Vec<(String, JsonValue)>, Vec<(String, JsonValue)>)> = Vec::new();
    let mut i: usize = 0;
    proof {
        reveal(Seq::filter);
        assert(workspaces@.take(0) =~= Seq::<I3Workspace>::empty());
    }
    while i < workspaces.len()
        invariant
            i <= workspaces@.len(),
            states == states_view(only_show),
            out_view == opt_view(output),
            pred == (|w: I3Workspace| workspace_shown(w, states, out_view)),
            r@.len() == workspaces@.take(i as int).filter(pred).len(),
            forall|j: int| 0 <= j < r@.len() ==> #[trigger] entries_view(r@)[j] == (
                workspace_info(members_view(segment_info@), workspaces@.take(i as int).filter(pred)[j]),
                no_inner_divider(),
            ),
        decreases workspaces@.len() - i,
    {
        let w = &workspaces[i];
        let ghost before = r@;
        assert(workspaces@.take(i + 1).drop_last() =~= workspaces@.take(i as int));
        proof {
            reveal(Seq::filter);
        }
        if is_shown(w, only_show, output) {
            let mut info = copy_members(segment_info);
            set_member(&mut info, "output", text_value(w.output.as_str()));
            set_member(&mut info, "workspace", workspace_object(w));
            let second = no_inner_divider_members();
            r.push((info, second));
            assert forall|j: int| 0 <= j < r@.len() implies #[trigger] entries_view(r@)[j] == (
                workspace_info(members_view(segment_info@), workspaces@.take(i + 1).filter(pred)[j]),
                no_inner_divider(),
            ) by {
                if j < before.len() {
                    assert(entries_view(r@)[j] == entries_view(before)[j]);
                }
            }
        } else {
            assert forall|j: int| 0 <= j < r@.len() implies #[trigger] entries_view(r@)[j] == (
                workspace_info(members_view(segment_info@), workspaces@.take(i + 1).filter(pred)[j]),
                no_inner_divider(),
            ) by {
                assert(entries_view(r@)[j] == entries_view(before)[j]);
            }
        }
        i = i + 1;
    }
    assert(workspaces@.take(workspaces@.len() as int) =~= workspaces@);
    r
}

/// The output to list workspaces for: `output` when given, else the
/// text member `output` of the segment information, if it has one.
pub open spec fn effective_output(output: Option<Seq<char>>, info: Seq<(Seq<char>, JsonView)>) -> Option<Seq<char>> {
    match output {
        Some(o) => Some(o),
        None => match key_index(view_keys(info), "output"@) {
            Some(i) => match info[i].1 {
                JsonView::Text(t) => Some(t),
                _ => None,
            },
            None => None,
        },
    }
}

/// The entries of `workspace_lister_for` for the workspaces that i3
/// reports, with `output` defaulting to the one in `segment_info`.
pub fn workspace_lister(
    segment_info: &Vec<(String, JsonValue)>,
    workspaces: &[I3Workspace],
    only_show: Option<&[&str]>,
    output: Option<&str>,
) -> (r: Vec<(Vec<(String, JsonValue)>, Vec<(String, JsonValue)>)>)
    ensures
        r@.len() == shown_workspaces(workspaces@, states_view(only_show), effective_output(opt_view(output), members_view(segment_info@))).len(),
        forall|j: int| 0 <= j < r@.len() ==> #[trigger] entries_view(r@)[j] == (
            workspace_info(members_view(segment_info@), shown_workspaces(workspaces@, states_view(only_show), effective_output(opt_view(output), members_view(segment_info@)))[j]),
            no_inner_divider(),
        ),
{
    proof {
        crate::json_value::lemma_members_view(segment_info@);
        crate::json_value::lemma_key_index(member_keys(segment_info@), "output"@);
    }
    let chosen: Option<&str> = match output {
        Some(o) => Some(o),
        None => match find_member(segment_info, "output") {
            Some(i) => match &segment_info[i].1 {
                JsonValue::Text(t) => Some(t.as_str()),
                _ => None,
            },
            None => None,
        },
    };
    assert(opt_view(chosen) == effective_output(opt_view(output), members_view(segment_info@)));
    workspace_lister_for(segment_info, workspaces, only_show, chosen)
}

/// The segment information of an output's entry: `info` with `output`
/// set to its name.
pub open spec fn output_info(info: Seq<(Seq<char>, JsonView)>, name: Seq<char>) -> Seq<(Seq<char>, JsonView)> {
    with_member(info, "output"@, JsonView::Text(name))
}

/// One entry per connected output of `outputs` (their names, in order): a
/// copy of `segment_info` with `output` set to the name, paired with
/// `{"draw_inner_divider": null}`.
pub fn output_lister(segment_info: &Vec<(String, JsonValue)>, outputs: &[String]) -> (r: Vec<(Vec<(String, JsonValue)>, Vec<(String, JsonValue)>)>)
    ensures
        r@.len() == outputs@.len(),
        forall|j: int| 0 <= j < r@.len() ==> #[trigger] entries_view(r@)[j] == (
            output_info(members_view(segment_info@), outputs@[j]@),
            no_inner_divider(),
        ),
{
    let mut r: Vec<(Vec<(String, JsonValue)>, Vec<(String, JsonValue)>)> = Vec::new();
    let mut i: usize = 0;
    while i < outputs.len()
        invariant
            i <= outputs@.len(),
            r@.len() == i,
            forall|j: int| 0 <= j < r@.len() ==> #[trigger] entries_view(r@)[j] == (
                output_info(members_view(segment_info@), outputs@[j]@),
                no_inner_divider(),
            ),
        decreases outputs@.len() - i,
    {
        let ghost before = r@;
        let mut info = copy_members(segment_info);
        set_member(&mut info, "output", text_value(outputs[i].as_str()));
        r.push((info, no_inner_divider_members()));
        assert forall|j: int| 0 <= j < r@.len() implies #[trigger] entries_view(r@)[j] == (
            output_info(members_view(segment_info@), outputs@[j]@),
            no_inner_divider(),
        ) by {
            if j < before.len() {
                assert(entries_view(r@)[j] == entries_view(before)[j]);
            }
        }
        i = i + 1;
    }
    r
}

/// A frame of the debugger's stack.
#[derive(Debug)]
pub struct PdbFrame(pub JsonValue);

/// The debugger's state that the frame lister reads: the stack, outermost
/// frame first, and how deep it was when the prompt first came up.
#[derive(Debug)]
pub struct PdbSegmentInfo {
    pub stack: Vec<PdbFrame>,
    pub initial_stack_length: usize,
}

impl Default for PdbSegmentInfo {
    fn default() -> (r: Self)
        ensures
            r.stack@.len() == 0,
            r.initial_stack_length == 0,
    {
        PdbSegmentInfo { stack: Vec::new(), initial_stack_length: 0 }
    }
}

/// The frames listed: all of them with `full_stack`, else those past the
/// first `initial_stack_length`; of those, the last `maxframes`.
pub open spec fn listed_frames(stack: Seq<JsonView>, initial_stack_length: nat, full_stack: bool, maxframes: nat) -> Seq<JsonView> {
    let frames = if full_stack {
        stack
    } else if initial_stack_length <= stack.len() {
        stack.skip(initial_stack_length as int)
    } else {
        Seq::empty()
    };
    if frames.len() > maxframes {
        frames.skip(frames.len() - maxframes)
    } else {
        frames
    }
}

/// The stack's frames as plain values.
pub open spec fn frames_view(stack: Seq<PdbFrame>) -> Seq<JsonView> {
    stack.map_values(|f: PdbFrame| f.0@)
}

/// The segment information of a frame's entry.
pub open spec fn frame_info(frame: JsonView, initial_stack_length: nat) -> Seq<(Seq<char>, JsonView)> {
    seq![("curframe"@, frame), ("initial_stack_length"@, JsonView::Number(int_text(initial_stack_length as int)))]
}

/// One entry per listed frame, outermost first: the frame as `curframe`
/// and the number of frames skipped as `initial_stack_length` (none with
/// `full_stack`), paired with no keys. With `full_stack` every frame is
/// listed, else those past the first `initial_stack_length`; of those,
/// the last `maxframes`.
pub fn frame_lister(segment_info: &PdbSegmentInfo, full_stack: bool, maxframes: usize) -> (r: Vec<(Vec<(String, JsonValue)>, Vec<(String, JsonValue)>)>)
    ensures
        r@.len() == listed_frames(frames_view(segment_info.stack@), segment_info.initial_stack_length as nat, full_stack, maxframes as nat).len(),
        forall|j: int| 0 <= j < r@.len() ==> #[trigger] entries_view(r@)[j] == (
            frame_info(
                listed_frames(frames_view(segment_info.stack@), segment_info.initial_stack_length as nat, full_stack, maxframes as nat)[j],
                if full_stack { 0 } else { segment_info.initial_stack_length as nat },
            ),
            Seq::<(Seq<char>, JsonView)>::empty(),
        ),
{
    let stack = &segment_info.stack;
    let skipped: usize = if full_stack { 0 } else { segment_info.initial_stack_length };
    let first: usize = if skipped <= stack.len() { skipped } else { stack.len() };
    let count: usize = stack.len() - first;
    let from: usize = if count > maxframes { first + (count - maxframes) } else { first };
    let ghost listed = listed_frames(frames_view(stack@), segment_info.initial_stack_length as nat, full_stack, maxframes as nat);
    assert(listed =~= frames_view(stack@).subrange(from as int, stack@.len() as int));
    let mut r: Vec<(Vec<(String, JsonValue)>, Vec<(String, JsonValue)>)> = Vec::new();
    let mut i: usize = from;
    while i < stack.len()
        invariant
            from <= i <= stack@.len(),
            listed == frames_view(stack@).subrange(from as int, stack@.len() as int),
            r@.len() == i - from,
            forall|j: int| 0 <= j < r@.len() ==> #[trigger] entries_view(r@)[j] == (
                frame_info(listed[j], skipped as nat),
                Seq::<(Seq<char>, JsonView)>::empty(),
            ),
        decreases stack@.len() - i,
    {
        let ghost before = r@;
        let mut info: Vec<(String, JsonValue)> = Vec::new();
        assert(members_view(info@) =~= Seq::<(Seq<char>, JsonView)>::empty());
        push_member(&mut info, "curframe", stack[i].0.deep_copy());
        push_member(&mut info, "initial_stack_length", natural_value(skipped as u128));
        let second: Vec<(String, JsonValue)> = Vec::new();
        assert(members_view(second@) =~= Seq::<(Seq<char>, JsonView)>::empty());
        assert(listed[i - from] == stack@[i as int].0@);
        assert(members_view(info@) =~= frame_info(listed[i - from], skipped as nat));
        r.push((info, second));
        assert forall|j: int| 0 <= j < r@.len() implies #[trigger] entries_view(r@)[j] == (
            frame_info(listed[j], skipped as nat),
            Seq::<(Seq<char>, JsonView)>::empty(),
        ) by {
            if j < before.len() {
                assert(entries_view(r@)[j] == entries_view(before)[j]);
            }
        }
        i = i + 1;
    }
    r
}

/// A Vim buffer: its number, its name if it has one, and whether it is
/// modified and listed.
#[derive(Debug, Clone)]
pub struct VimBuffer {
    pub number: i64,
    pub name: Option<String>,
    pub modified: bool,
    pub listed: bool,
}

/// A Vim window: its number, its Powerline window id and the buffer it
/// shows.
#[derive(Debug, Clone)]
pub struct VimWindow {
    pub number: i64,
    pub window_id: i64,
    pub buffer: VimBuffer,
}

/// A Vim tab page: its number and its current window.
#[derive(Debug, Clone)]
pub struct VimTabpage {
    pub number: i64,
    pub window: VimWindow,
}

/// An integer as a JSON number.
pub open spec fn int_view(n: int) -> JsonView {
    JsonView::Number(int_text(n))
}

/// The buffer as a JSON object.
pub open spec fn buffer_view(b: VimBuffer) -> JsonView {
    JsonView::Object(seq![
        ("number"@, int_view(b.number as int)),
        ("name"@, match b.name { Some(n) => JsonView::Text(n@), None => JsonView::Null }),
        ("modified"@, JsonView::Bool(b.modified)),
        ("listed"@, JsonView::Bool(b.listed)),
    ])
}

/// The window as a JSON object.
pub open spec fn window_view(w: VimWindow) -> JsonView {
    JsonView::Object(seq![
        ("number"@, int_view(w.number as int)),
        ("window_id"@, int_view(w.window_id as int)),
        ("buffer"@, buffer_view(w.buffer)),
    ])
}

/// The tab page as a JSON object.
pub open spec fn tabpage_view(t: VimTabpage) -> JsonView {
    JsonView::Object(seq![
        ("number"@, int_view(t.number as int)),
        ("window"@, window_view(t.window)),
    ])
}

/// `info` with the tab page's `tabpage`, `tabnr`, `window`, `winnr`,
/// `window_id`, `buffer` and `bufnr` set.
pub open spec fn tabpage_info(info: Seq<(Seq<char>, JsonView)>, t: VimTabpage) -> Seq<(Seq<char>, JsonView)> {
    let w = t.window;
    let i1 = with_member(info, "tabpage"@, tabpage_view(t));
    let i2 = with_member(i1, "tabnr"@, int_view(t.number as int));
    let i3 = with_member(i2, "window"@, window_view(w));
    let i4 = with_member(i3, "winnr"@, int_view(w.number as int));
    let i5 = with_member(i4, "window_id"@, int_view(w.window_id as int));
    let i6 = with_member(i5, "buffer"@, buffer_view(w.buffer));
    with_member(i6, "bufnr"@, int_view(w.buffer.number as int))
}

/// `info` with no window (`window`, `winnr` and `window_id` null) and the
/// buffer's `buffer` and `bufnr` set.
pub open spec fn buffer_info(info: Seq<(Seq<char>, JsonView)>, b: VimBuffer) -> Seq<(Seq<char>, JsonView)> {
    let i1 = with_member(info, "window"@, JsonView::Null);
    let i2 = with_member(i1, "winnr"@, JsonView::Null);
    let i3 = with_member(i2, "window_id"@, JsonView::Null);
    let i4 = with_member(i3, "buffer"@, buffer_view(b));
    with_member(i4, "bufnr"@, int_view(b.number as int))
}

/// The absolute value of `d`.
pub open spec fn abs(d: int) -> nat {
    if d < 0 { (-d) as nat } else { d as nat }
}

/// `1 + 0.001 * |d|` as decimal text with three decimals.
pub open spec fn multiplier_view(d: int) -> JsonView {
    let t = 1000 + abs(d);
    JsonView::Number(decimal(t / 1000) + "."@ + zero_pad(decimal(t % 1000), 3))
}

/// An integer as a JSON number.
fn int_member(n: i64) -> (r: JsonValue)
    ensures
        r@ == int_view(n as int),
{
    integer_value(n)
}

/// The buffer as a JSON object.
fn buffer_object(b: &VimBuffer) -> (r: JsonValue)
    ensures
        r@ == buffer_view(*b),
{
    let mut o: Vec<(String, JsonValue)> = Vec::new();
    assert(members_view(o@) =~= Seq::<(Seq<char>, JsonView)>::empty());
    push_member(&mut o, "number", int_member(b.number));
    let name = match &b.name {
        Some(n) => text_value(n.as_str()),
        None => JsonValue::Null,
    };
    push_member(&mut o, "name", name);
    push_member(&mut o, "modified", JsonValue::Bool(b.modified));
    push_member(&mut o, "listed", JsonValue::Bool(b.listed));
    assert(members_view(o@) =~= seq![
        ("number"@, int_view(b.number as int)),
        ("name"@, match b.name { Some(n) => JsonView::Text(n@), None => JsonView::Null }),
        ("modified"@, JsonView::Bool(b.modified)),
        ("listed"@, JsonView::Bool(b.listed)),
    ]);
    JsonValue::Object(o)
}

/// The window as a JSON object.
fn window_object(w: &VimWindow) -> (r: JsonValue)
    ensures
        r@ == window_view(*w),
{
    let mut o: Vec<(String, JsonValue)> = Vec::new();
    assert(members_view(o@) =~= Seq::<(Seq<char>, JsonView)>::empty());
    push_member(&mut o, "number", int_member(w.number));
    push_member(&mut o, "window_id", int_member(w.window_id));
    push_member(&mut o, "buffer", buffer_object(&w.buffer));
    assert(members_view(o@) =~= seq![
        ("number"@, int_view(w.number as int)),
        ("window_id"@, int_view(w.window_id as int)),
        ("buffer"@, buffer_view(w.buffer)),
    ]);
    JsonValue::Object(o)
}

/// The tab page as a JSON object.
fn tabpage_object(t: &VimTabpage) -> (r: JsonValue)
    ensures
        r@ == tabpage_view(*t),
{
    let mut o: Vec<(String, JsonValue)> = Vec::new();
    assert(members_view(o@) =~= Seq::<(Seq<char>, JsonView)>::empty());
    push_member(&mut o, "number", int_member(t.number));
    push_member(&mut o, "window", window_object(&t.window));
    assert(members_view(o@) =~= seq![
        ("number"@, int_view(t.number as int)),
        ("window"@, window_view(t.window)),
    ]);
    JsonValue::Object(o)
}

/// A copy of `segment_info` with the tab page's `tabpage`, `tabnr`,
/// `window`, `winnr`, `window_id`, `buffer` and `bufnr` set.
pub fn tabpage_updated_segment_info(segment_info: &Vec<(String, JsonValue)>, tabpage: &VimTabpage) -> (r: Vec<(String, JsonValue)>)
    ensures
        members_view(r@) == tabpage_info(members_view(segment_info@), *tabpage),
{
    let window = &tabpage.window;
    let mut info = copy_members(segment_info);
    set_member(&mut info, "tabpage", tabpage_object(tabpage));
    set_member(&mut info, "tabnr", int_member(tabpage.number));
    set_member(&mut info, "window", window_object(window));
    set_member(&mut info, "winnr", int_member(window.number));
    set_member(&mut info, "window_id", int_member(window.window_id));
    set_member(&mut info, "buffer", buffer_object(&window.buffer));
    set_member(&mut info, "bufnr", int_member(window.buffer.number));
    info
}

/// A copy of `segment_info` with no window (`window`, `winnr` and
/// `window_id` null) and the buffer's `buffer` and `bufnr` set.
pub fn buffer_updated_segment_info(segment_info: &Vec<(String, JsonValue)>, buffer: &VimBuffer) -> (r: Vec<(String, JsonValue)>)
    ensures
        members_view(r@) == buffer_info(members_view(segment_info@), *buffer),
{
    let mut info = copy_members(segment_info);
    set_member(&mut info, "window", JsonValue::Null);
    set_member(&mut info, "winnr", JsonValue::Null);
    set_member(&mut info, "window_id", JsonValue::Null);
    set_member(&mut info, "buffer", buffer_object(buffer));
    set_member(&mut info, "bufnr", int_member(buffer.number));
    info
}

/// `1 + 0.001 * |number - current|` as a JSON number.
fn multiplier_value(number: i64, current: i64) -> (r: JsonValue)
    ensures
        r@ == multiplier_view(number - current),
{
    let d: i128 = (number as i128) - (current as i128);
    let magnitude: u128 = if d < 0 { (0i128 - d) as u128 } else { d as u128 };
    let t: u128 = 1000 + magnitude;
    let mut cs = decimal_chars(t / 1000);
    append_str(&mut cs, ".");
    let frac = decimal_chars(t % 1000);
    let padded = zero_pad_chars(&frac, 3);
    append_chars(&mut cs, &padded);
    proof {
        reveal_strlit(".");
    }
    JsonValue::Number(string_of(&cs))
}

/// Sets `priority_multiplier` of `dct` to `1 + 0.001 * |number - current|`:
/// the further an entry is from the current one, the sooner its segments
/// are dropped.
pub fn add_multiplier(number: i64, current: i64, dct: &mut Vec<(String, JsonValue)>)
    ensures
        members_view(final(dct)@) == with_member(members_view(old(dct)@), "priority_multiplier"@, multiplier_view(number - current)),
{
    set_member(dct, "priority_multiplier", multiplier_value(number, current));
}

/// The keys the segments of a tab page's or buffer's entry get.
pub open spec fn entry_keys_view(prefix: Seq<char>, d: int) -> Seq<(Seq<char>, JsonView)> {
    seq![
        ("highlight_group_prefix"@, JsonView::Text(prefix)),
        ("divider_highlight_group"@, JsonView::Text("tab:divider"@)),
        ("priority_multiplier"@, multiplier_view(d)),
    ]
}

/// `{"highlight_group_prefix": prefix, "divider_highlight_group":
/// "tab:divider"}` with the priority multiplier added.
fn entry_keys_members(prefix: &str, number: i64, current: i64) -> (r: Vec<(String, JsonValue)>)
    ensures
        members_view(r@) == entry_keys_view(prefix@, number - current),
{
    let mut o: Vec<(String, JsonValue)> = Vec::new();
    assert(members_view(o@) =~= Seq::<(Seq<char>, JsonView)>::empty());
    push_member(&mut o, "highlight_group_prefix", text_value(prefix));
    push_member(&mut o, "divider_highlight_group", text_value("tab:divider"));
    proof {
        reveal_strlit("highlight_group_prefix");
        reveal_strlit("divider_highlight_group");
        reveal_strlit("priority_multiplier");
        assert("priority_multiplier"@.len() == 19);
        assert("highlight_group_prefix"@.len() == 22);
        assert("divider_highlight_group"@.len() == 23);
        crate::json_value::lemma_key_index(member_keys(o@), "priority_multiplier"@);
        crate::json_value::lemma_members_view(o@);
        assert(member_keys(o@) =~= seq!["highlight_group_prefix"@, "divider_highlight_group"@]);
        assert(key_index(view_keys(members_view(o@)), "priority_multiplier"@) is None);
    }
    let ghost before = members_view(o@);
    add_multiplier(number, current, &mut o);
    assert(members_view(o@) == before.push(("priority_multiplier"@, multiplier_view(number - current))));
    assert(members_view(o@) =~= entry_keys_view(prefix@, number - current));
    o
}

/// The number of the current tab page or buffer: its own when there is
/// one, else 1.
pub open spec fn current_number(n: Option<i64>) -> int {
    match n {
        Some(c) => c as int,
        None => 1,
    }
}

/// One entry per tab page of `tabpages`, in order: a copy of
/// `segment_info` with the tab page's details set, paired with the
/// highlight group prefix `tab` for the current tab page (`tab_nc` for the
/// others), the divider group `tab:divider` and a priority multiplier
/// that grows with the distance from the current tab page.
pub fn tablister_for(
    segment_info: &Vec<(String, JsonValue)>,
    tabpages: &[VimTabpage],
    current: Option<&VimTabpage>,
) -> (r: Vec<(Vec<(String, JsonValue)>, Vec<(String, JsonValue)>)>)
    ensures
        r@.len() == tabpages@.len(),
        forall|j: int| 0 <= j < r@.len() ==> #[trigger] entries_view(r@)[j] == {
            let t = tabpages@[j];
            let cur = current_number(match current { Some(c) => Some(c.number), None => None });
            (
                tabpage_info(members_view(segment_info@), t),
                entry_keys_view(if t.number as int == cur { "tab"@ } else { "tab_nc"@ }, t.number - cur),
            )
        },
{
    let cur: i64 = match current {
        Some(c) => c.number,
        None => 1,
    };
    let mut r: Vec<(Vec<(String, JsonValue)>, Vec<(String, JsonValue)>)> = Vec::new();
    let mut i: usize = 0;
    while i < tabpages.len()
        invariant
            i <= tabpages@.len(),
            r@.len() == i,
            cur == current_number(match current { Some(c) => Some(c.number), None => None }),
            forall|j: int| 0 <= j < r@.len() ==> #[trigger] entries_view(r@)[j] == {
                let t = tabpages@[j];
                (
                    tabpage_info(members_view(segment_info@), t),
                    entry_keys_view(if t.number as int == cur { "tab"@ } else { "tab_nc"@ }, t.number - cur),
                )
            },
        decreases tabpages@.len() - i,
    {
        let ghost before = r@;
        let t = &tabpages[i];
        let prefix = if t.number == cur { "tab" } else { "tab_nc" };
        let info = tabpage_updated_segment_info(segment_info, t);
        let keys = entry_keys_members(prefix, t.number, cur);
        r.push((info, keys));
        assert forall|j: int| 0 <= j < r@.len() implies #[trigger] entries_view(r@)[j] == {
            let t = tabpages@[j];
            (
                tabpage_info(members_view(segment_info@), t),
                entry_keys_view(if t.number as int == cur { "tab"@ } else { "tab_nc"@ }, t.number - cur),
            )
        } by {
            if j < before.len() {
                assert(entries_view(r@)[j] == entries_view(before)[j]);
            }
        }
        i = i + 1;
    }
    r
}

/// The entries of `tablister_for` for the tab pages that Vim lists.
pub fn tablister(
    segment_info: &Vec<(String, JsonValue)>,
    tabpages: &[VimTabpage],
    current: Option<&VimTabpage>,
) -> (r: Vec<(Vec<(String, JsonValue)>, Vec<(String, JsonValue)>)>)
    ensures
        r@.len() == tabpages@.len(),
        forall|j: int| 0 <= j < r@.len() ==> #[trigger] entries_view(r@)[j] == {
            let t = tabpages@[j];
            let cur = current_number(match current { Some(c) => Some(c.number), None => None });
            (
                tabpage_info(members_view(segment_info@), t),
                entry_keys_view(if t.number as int == cur { "tab"@ } else { "tab_nc"@ }, t.number - cur),
            )
        },
{
    tablister_for(segment_info, tabpages, current)
}

/// The buffer is the current one: there is a current buffer and it has
/// the same number.
pub open spec fn is_current_buffer(b: VimBuffer, current: Option<i64>) -> bool {
    current matches Some(c) && b.number == c
}

/// The buffer is listed: it is the current one, unlisted buffers are
/// shown, or it is listed in Vim.
pub open spec fn buffer_shown(b: VimBuffer, current: Option<i64>, show_unlisted: bool) -> bool {
    is_current_buffer(b, current) || show_unlisted || b.listed
}

/// The listed buffers, in order.
pub open spec fn shown_buffers(bs: Seq<VimBuffer>, current: Option<i64>, show_unlisted: bool) -> Seq<VimBuffer> {
    bs.filter(|b: VimBuffer| buffer_shown(b, current, show_unlisted))
}

/// The highlight group prefix of a buffer's entry: `buf` for the current
/// buffer, `buf_nc` for the others, with `_mod` added when it is
/// modified.
pub open spec fn buffer_prefix(b: VimBuffer, current: Option<i64>) -> Seq<char> {
    (if is_current_buffer(b, current) { "buf"@ } else { "buf_nc"@ }) + (if b.modified { "_mod"@ } else { Seq::empty() })
}

/// The number of the current buffer, if there is one.
pub open spec fn current_buffer_number(current: Option<&VimBuffer>) -> Option<i64> {
    match current {
        Some(c) => Some(c.number),
        None => None,
    }
}

/// One entry per listed buffer of `buffers`, in order: a copy of
/// `segment_info` with no window and the buffer's details set, paired
/// with the buffer's highlight group prefix (`buf` or `buf_nc`, with
/// `_mod` when modified), the divider group `tab:divider` and a priority
/// multiplier that grows with the distance from the current buffer. A
/// buffer is listed when it is the current one, when `show_unlisted`
/// holds, or when it is listed in Vim.
pub fn bufferlister_for(
    segment_info: &Vec<(String, JsonValue)>,
    buffers: &[VimBuffer],
    current: Option<&VimBuffer>,
    show_unlisted: bool,
) -> (r: Vec<(Vec<(String, JsonValue)>, Vec<(String, JsonValue)>)>)
    ensures
        r@.len() == shown_buffers(buffers@, current_buffer_number(current), show_unlisted).len(),
        forall|j: int| 0 <= j < r@.len() ==> #[trigger] entries_view(r@)[j] == {
            let b = shown_buffers(buffers@, current_buffer_number(current), show_unlisted)[j];
            let cur = current_number(current_buffer_number(current));
            (buffer_info(members_view(segment_info@), b), entry_keys_view(buffer_prefix(b, current_buffer_number(current)), b.number - cur))
        },
{
    let ghost cur_no = current_buffer_number(current);
    let ghost pred = |b: VimBuffer| buffer_shown(b, cur_no, show_unlisted);
    let cur: i64 = match current {
        Some(c) => c.number,
        None => 1,
    };
    let mut r: Vec<(Vec<(String, JsonValue)>, Vec<(String, JsonValue)>)> = Vec::new();
    let mut i: usize = 0;
    proof {
        reveal(Seq::filter);
        assert(buffers@.take(0) =~= Seq::<VimBuffer>::empty());
    }
    while i < buffers.len()
        invariant
            i <= buffers@.len(),
            cur_no == current_buffer_number(current),
            cur == current_number(cur_no),
            pred == (|b: VimBuffer| buffer_shown(b, cur_no, show_unlisted)),
            r@.len() == buffers@.take(i as int).filter(pred).len(),
            forall|j: int| 0 <= j < r@.len() ==> #[trigger] entries_view(r@)[j] == {
                let b = buffers@.take(i as int).filter(pred)[j];
                (buffer_info(members_view(segment_info@), b), entry_keys_view(buffer_prefix(b, cur_no), b.number - cur))
            },
        decreases buffers@.len() - i,
    {
        let ghost before = r@;
        let b = &buffers[i];
        assert(buffers@.take(i + 1).drop_last() =~= buffers@.take(i as int));
        proof {
            reveal(Seq::filter);
        }
        let is_current = match current {
            Some(c) => b.number == c.number,
            None => false,
        };
        if is_current || show_unlisted || b.listed {
            let base = if is_current { "buf" } else { "buf_nc" };
            let prefix: String = if b.modified {
                let mut cs = chars_of(base);
                append_str(&mut cs, "_mod");
                string_of(&cs)
            } else {
                string_from(base)
            };
            assert(prefix@ == buffer_prefix(*b, cur_no)) by {
                assert(base@ + Seq::<char>::empty() =~= base@);
            }
            let info = buffer_updated_segment_info(segment_info, b);
            let keys = entry_keys_members(prefix.as_str(), b.number, cur);
            r.push((info, keys));
            assert forall|j: int| 0 <= j < r@.len() implies #[trigger] entries_view(r@)[j] == {
                let bb = buffers@.take(i + 1).filter(pred)[j];
                (buffer_info(members_view(segment_info@), bb), entry_keys_view(buffer_prefix(bb, cur_no), bb.number - cur))
            } by {
                if j < before.len() {
                    assert(entries_view(r@)[j] == entries_view(before)[j]);
                }
            }
        } else {
            assert forall|j: int| 0 <= j < r@.len() implies #[trigger] entries_view(r@)[j] == {
                let bb = buffers@.take(i + 1).filter(pred)[j];
                (buffer_info(members_view(segment_info@), bb), entry_keys_view(buffer_prefix(bb, cur_no), bb.number - cur))
            } by {
                assert(entries_view(r@)[j] == entries_view(before)[j]);
            }
        }
        i = i + 1;
    }
    assert(buffers@.take(buffers@.len() as int) =~= buffers@);
    r
}

/// The entries of `bufferlister_for` for the buffers that Vim has.
pub fn bufferlister(
    segment_info: &Vec<(String, JsonValue)>,
    buffers: &[VimBuffer],
    current: Option<&VimBuffer>,
    show_unlisted: bool,
) -> (r: Vec<(Vec<(String, JsonValue)>, Vec<(String, JsonValue)>)>)
    ensures
        r@.len() == shown_buffers(buffers@, current_buffer_number(current), show_unlisted).len(),
        forall|j: int| 0 <= j < r@.len() ==> #[trigger] entries_view(r@)[j] == {
            let b = shown_buffers(buffers@, current_buffer_number(current), show_unlisted)[j];
            let cur = current_number(current_buffer_number(current));
            (buffer_info(members_view(segment_info@), b), entry_keys_view(buffer_prefix(b, current_buffer_number(current)), b.number - cur))
        },
{
    bufferlister_for(segment_info, buffers, current, show_unlisted)
}

} // verus!
