//! Laying out a statusline: preparing the segments, measuring them with
//! their dividers and padding, dropping segments that do not fit, spreading
//! the room left over on the spacers, and putting the text together.
//!
//! Colors and attributes are carried as integers that identify them (equal
//! colors share an integer), and a segment's priority as an integer that
//! orders segments as their priorities do.

use vstd::prelude::*;
use crate::char_map::CharMap;
use crate::renderer::{translate_np, translated, width_data};
use crate::json_value::{get_member, member_value, members_view, JsonValue, JsonView};
use crate::text::{append_chars, chars_of, repeat_char, repeat_chars, string_from, string_of, string_views};

verus! {

/// The side of the line a segment stands on.
#[derive(Debug, Clone, Copy, PartialEq, Eq, Structural)]
pub enum Side {
    Left,
    Right,
}

/// The colors and attributes of a highlight, each identified by an integer.
#[derive(Debug, Clone, Copy, PartialEq, Eq, Structural)]
pub struct Highlight {
    pub fg: u64,
    pub bg: u64,
    pub attrs: u64,
}

/// A segment as the renderer lays it out.
///
/// `literal_width` and `literal_text` are the literal contents: when the
/// text is not empty the segment is shown as that text, without dividers,
/// and takes `literal_width` columns. `divider_highlight` is the highlight
/// of the segment's divider group, when it has one. `len`, `rendered_raw`
/// and `rendered_hl` are filled in by the renderer.
#[derive(Debug, Clone)]
pub struct Segment {
    pub contents: String,
    pub literal_width: usize,
    pub literal_text: String,
    pub contents_len: usize,
    pub side: Side,
    pub highlight: Highlight,
    pub divider_highlight: Option<Highlight>,
    pub draw_soft_divider: bool,
    pub draw_hard_divider: bool,
    pub priority: Option<i64>,
    pub has_truncate: bool,
    pub has_expand: bool,
    pub len: usize,
    pub rendered_raw: String,
    pub rendered_hl: String,
}

/// What the layout reads of a theme: the spaces beside dividers, the outer
/// padding, the highlight beyond the ends of the line, and the dividers.
#[derive(Debug, Clone)]
pub struct ThemeInfo {
    pub spaces: usize,
    pub outer_padding: usize,
    pub empty_highlight: Highlight,
    pub left_soft: String,
    pub left_hard: String,
    pub right_soft: String,
    pub right_hard: String,
}

/// The widths of the four dividers.
#[derive(Debug, Clone, Copy, PartialEq, Eq, Structural)]
pub struct DividerWidths {
    pub left_soft: usize,
    pub left_hard: usize,
    pub right_soft: usize,
    pub right_hard: usize,
}

/// The widths of the theme's dividers, in characters.
pub open spec fn divider_widths_of(theme: ThemeInfo) -> DividerWidths {
    DividerWidths {
        left_soft: theme.left_soft@.len() as usize,
        left_hard: theme.left_hard@.len() as usize,
        right_soft: theme.right_soft@.len() as usize,
        right_hard: theme.right_hard@.len() as usize,
    }
}

/// The widths of the theme's dividers, in characters.
pub fn compute_divider_widths(theme: &ThemeInfo) -> (r: DividerWidths)
    ensures
        r.left_soft == theme.left_soft@.len(),
        r.left_hard == theme.left_hard@.len(),
        r.right_soft == theme.right_soft@.len(),
        r.right_hard == theme.right_hard@.len(),
        r == divider_widths_of(*theme),
{
    DividerWidths {
        left_soft: chars_of(theme.left_soft.as_str()).len(),
        left_hard: chars_of(theme.left_hard.as_str()).len(),
        right_soft: chars_of(theme.right_soft.as_str()).len(),
        right_hard: chars_of(theme.right_hard.as_str()).len(),
    }
}

/// Whether a segment is shown as its literal text.
pub open spec fn is_literal(s: Segment) -> bool {
    s.literal_text@.len() > 0
}

/// The first index at or after `from` of a segment that is not literal.
pub open spec fn next_plain(segs: Seq<Segment>, from: int) -> Option<int>
    decreases segs.len() - from,
{
    if from < 0 || from >= segs.len() {
        None
    } else if !is_literal(segs[from]) {
        Some(from)
    } else {
        next_plain(segs, from + 1)
    }
}

/// The last index before `to` of a segment that is not literal.
pub open spec fn prev_plain(segs: Seq<Segment>, to: int) -> Option<int>
    decreases to,
{
    if to <= 0 || to > segs.len() {
        None
    } else if !is_literal(segs[to - 1]) {
        Some(to - 1)
    } else {
        prev_plain(segs, to - 1)
    }
}

/// The highlight that segment `i` is compared with to choose its divider:
/// on the left, the next segment that is not literal (the theme's empty
/// highlight after the last); on the right, the previous one (the empty
/// highlight before the first).
pub open spec fn compare_highlight(segs: Seq<Segment>, i: int, empty: Highlight) -> Highlight {
    if segs[i].side == Side::Left {
        match next_plain(segs, i + 1) {
            Some(j) => segs[j].highlight,
            None => empty,
        }
    } else {
        match prev_plain(segs, i) {
            Some(j) => segs[j].highlight,
            None => empty,
        }
    }
}

/// Whether segment `i` has a soft divider: its background is that of the
/// segment it is compared with.
pub open spec fn soft_divider(segs: Seq<Segment>, i: int, empty: Highlight) -> bool {
    compare_highlight(segs, i, empty).bg == segs[i].highlight.bg
}

/// Whether segment `i` draws its divider.
pub open spec fn draws_divider(segs: Seq<Segment>, i: int, empty: Highlight) -> bool {
    if soft_divider(segs, i, empty) {
        segs[i].draw_soft_divider
    } else {
        segs[i].draw_hard_divider
    }
}

/// Whether segment `i` takes the outer padding: the first segment that is
/// not literal on the left, the last one on the right.
pub open spec fn takes_padding(segs: Seq<Segment>, i: int) -> bool {
    (segs[i].side == Side::Left && next_plain(segs, 0) == Some(i)) || (segs[i].side == Side::Right && prev_plain(segs, segs.len() as int) == Some(i))
}

/// The width of segment `i`'s divider.
pub open spec fn divider_width(segs: Seq<Segment>, i: int, empty: Highlight, w: DividerWidths) -> nat {
    let soft = soft_divider(segs, i, empty);
    (if segs[i].side == Side::Left {
        if soft { w.left_soft } else { w.left_hard }
    } else {
        if soft { w.right_soft } else { w.right_hard }
    }) as nat
}

/// The width of segment `i` on the line: its contents, and, when it is not
/// literal, its outer padding and its divider with the spaces beside it.
pub open spec fn segment_width(segs: Seq<Segment>, i: int, theme: ThemeInfo, w: DividerWidths) -> nat {
    if is_literal(segs[i]) {
        segs[i].contents_len as nat
    } else {
        segs[i].contents_len as nat + (if takes_padding(segs, i) { theme.outer_padding as nat } else { 0nat }) + (if draws_divider(segs, i, theme.empty_highlight) {
            divider_width(segs, i, theme.empty_highlight, w) + theme.spaces as nat
        } else {
            0nat
        })
    }
}

/// The width of the first `n` segments.
pub open spec fn widths_sum(segs: Seq<Segment>, n: int, theme: ThemeInfo, w: DividerWidths) -> nat
    decreases n,
{
    if n <= 0 {
        0
    } else {
        widths_sum(segs, n - 1, theme, w) + segment_width(segs, n - 1, theme, w)
    }
}

/// The width of the whole line.
pub open spec fn line_width(segs: Seq<Segment>, theme: ThemeInfo, w: DividerWidths) -> nat {
    widths_sum(segs, segs.len() as int, theme, w)
}

proof fn lemma_widths_sum_monotone(segs: Seq<Segment>, a: int, b: int, theme: ThemeInfo, w: DividerWidths)
    requires
        a <= b,
    ensures
        widths_sum(segs, a, theme, w) <= widths_sum(segs, b, theme, w),
    decreases b - a,
{
    if a < b {
        lemma_widths_sum_monotone(segs, a, b - 1, theme, w);
    }
}

/// Whether `after` is `before` with only the layout's results changed.
pub open spec fn same_input(before: Segment, after: Segment) -> bool {
    &&& after.contents == before.contents
    &&& after.literal_width == before.literal_width
    &&& after.literal_text == before.literal_text
    &&& after.contents_len == before.contents_len
    &&& after.side == before.side
    &&& after.highlight == before.highlight
    &&& after.divider_highlight == before.divider_highlight
    &&& after.draw_soft_divider == before.draw_soft_divider
    &&& after.draw_hard_divider == before.draw_hard_divider
    &&& after.priority == before.priority
    &&& after.has_truncate == before.has_truncate
    &&& after.has_expand == before.has_expand
}

/// Finds the first segment at or after `from` that is not literal.
fn find_next_plain(segs: &Vec<Segment>, from: usize) -> (r: Option<usize>)
    ensures
        match r {
            Some(j) => next_plain(segs@, from as int) == Some(j as int) && j < segs@.len(),
            None => next_plain(segs@, from as int) is None,
        },
    decreases segs.len() - from,
{
    if from >= segs.len() {
        return None;
    }
    if chars_of(segs[from].literal_text.as_str()).len() == 0 {
        proof {
            assert(segs@[from as int].literal_text@.len() == 0);
        }
        Some(from)
    } else {
        find_next_plain(segs, from + 1)
    }
}

/// Finds the last segment before `to` that is not literal.
fn find_prev_plain(segs: &Vec<Segment>, to: usize) -> (r: Option<usize>)
    ensures
        match r {
            Some(j) => prev_plain(segs@, to as int) == Some(j as int) && j < segs@.len(),
            None => prev_plain(segs@, to as int) is None,
        },
    decreases to,
{
    if to == 0 || to > segs.len() {
        return None;
    }
    if chars_of(segs[to - 1].literal_text.as_str()).len() == 0 {
        Some(to - 1)
    } else {
        find_prev_plain(segs, to - 1)
    }
}

/// Measures each segment on the line, records its width in `len`, and
/// gives the width of the whole line.
pub fn _render_length(theme: &ThemeInfo, segments: &mut Vec<Segment>, divider_widths: &DividerWidths) -> (r: usize)
    requires
        line_width(old(segments)@, *theme, *divider_widths) <= usize::MAX,
    ensures
        r == line_width(old(segments)@, *theme, *divider_widths),
        final(segments)@.len() == old(segments)@.len(),
        forall|i: int| 0 <= i < old(segments)@.len() ==> #[trigger] same_input(old(segments)@[i], final(segments)@[i]),
        forall|i: int| 0 <= i < old(segments)@.len() ==> #[trigger] final(segments)@[i].len == segment_width(old(segments)@, i, *theme, *divider_widths)
            && final(segments)@[i].rendered_raw == old(segments)@[i].rendered_raw
            && final(segments)@[i].rendered_hl == old(segments)@[i].rendered_hl,
{
    let ghost segs = segments@;
    let n = segments.len();
    let first = find_next_plain(segments, 0);
    let last = find_prev_plain(segments, n);
    let mut ret: usize = 0;
    let mut index: usize = 0;
    while index < n
        invariant
            n == segs.len(),
            segments@.len() == n,
            index <= n,
            line_width(segs, *theme, *divider_widths) <= usize::MAX,
            ret == widths_sum(segs, index as int, *theme, *divider_widths),
            match first {
                Some(j) => next_plain(segs, 0) == Some(j as int),
                None => next_plain(segs, 0) is None,
            },
            match last {
                Some(j) => prev_plain(segs, n as int) == Some(j as int),
                None => prev_plain(segs, n as int) is None,
            },
            forall|i: int| 0 <= i < n ==> #[trigger] same_input(segs[i], segments@[i]),
            forall|i: int| 0 <= i < n ==> #[trigger] segments@[i].rendered_raw == segs[i].rendered_raw
                && segments@[i].rendered_hl == segs[i].rendered_hl,
            forall|i: int| 0 <= i < index ==> #[trigger] segments@[i].len == segment_width(segs, i, *theme, *divider_widths),
        decreases n - index,
    {
        proof {
            lemma_widths_sum_monotone(segs, index + 1, n as int, *theme, *divider_widths);
        }
        let ghost cur = segments@;
        assert(same_input(segs[index as int], cur[index as int]));
        let seg_len: usize;
        if chars_of(segments[index].literal_text.as_str()).len() == 0 {
            assert(!is_literal(segs[index as int]));
            proof {
                assert forall|k: int| 0 <= k <= n implies next_plain(cur, k) == next_plain(segs, k) && prev_plain(cur, k) == prev_plain(segs, k) by {
                    lemma_plain_same(segs, cur, k);
                }
            }
            let neighbour = if segments[index].side == Side::Left {
                match find_next_plain(segments, index + 1) {
                    Some(j) => {
                        assert(same_input(segs[j as int], cur[j as int]));
                        segments[j].highlight
                    },
                    None => theme.empty_highlight,
                }
            } else {
                match find_prev_plain(segments, index) {
                    Some(j) => {
                        assert(same_input(segs[j as int], cur[j as int]));
                        segments[j].highlight
                    },
                    None => theme.empty_highlight,
                }
            };
            assert(neighbour == compare_highlight(segs, index as int, theme.empty_highlight));
            let soft = neighbour.bg == segments[index].highlight.bg;
            assert(soft == soft_divider(segs, index as int, theme.empty_highlight));
            let is_first = match first {
                Some(j) => j == index,
                None => false,
            };
            let is_last = match last {
                Some(j) => j == index,
                None => false,
            };
            let outer_padding: usize = if (segments[index].side == Side::Left && is_first) || (segments[index].side == Side::Right && is_last) {
                theme.outer_padding
            } else {
                0
            };
            assert(outer_padding == (if takes_padding(segs, index as int) { theme.outer_padding as nat } else { 0nat }));
            let draw = if soft { segments[index].draw_soft_divider } else { segments[index].draw_hard_divider };
            assert(draw == draws_divider(segs, index as int, theme.empty_highlight));
            let dw: usize = if segments[index].side == Side::Left {
                if soft { divider_widths.left_soft } else { divider_widths.left_hard }
            } else {
                if soft { divider_widths.right_soft } else { divider_widths.right_hard }
            };
            assert(dw == divider_width(segs, index as int, theme.empty_highlight, *divider_widths));
            proof {
                lemma_widths_sum_monotone(segs, index + 1, n as int, *theme, *divider_widths);
            }
            seg_len = if draw {
                segments[index].contents_len + outer_padding + dw + theme.spaces
            } else {
                segments[index].contents_len + outer_padding
            };
        } else {
            assert(is_literal(segs[index as int]));
            seg_len = segments[index].contents_len;
        }
        assert(seg_len == segment_width(segs, index as int, *theme, *divider_widths));
        let mut seg = segments[index].clone_segment();
        seg.len = seg_len;
        segments.set(index, seg);
        proof {
            assert forall|i: int| 0 <= i < n implies #[trigger] same_input(segs[i], segments@[i]) by {
                if i != index {
                    assert(segments@[i] == cur[i]);
                }
            }
            assert forall|i: int| 0 <= i < n implies #[trigger] segments@[i].rendered_raw == segs[i].rendered_raw
                && segments@[i].rendered_hl == segs[i].rendered_hl by {
                if i != index {
                    assert(segments@[i] == cur[i]);
                }
            }
            assert forall|i: int| 0 <= i < index + 1 implies #[trigger] segments@[i].len == segment_width(segs, i, *theme, *divider_widths) by {
                if i != index {
                    assert(segments@[i] == cur[i]);
                }
            }
        }
        ret = ret + seg_len;
        index = index + 1;
    }
    assert forall|i: int| 0 <= i < n implies #[trigger] segments@[i].len == segment_width(segs, i, *theme, *divider_widths)
        && segments@[i].rendered_raw == segs[i].rendered_raw
        && segments@[i].rendered_hl == segs[i].rendered_hl by {
        assert(segments@[i].rendered_raw == segs[i].rendered_raw);
    }
    ret
}

/// Segments that agree on what is literal agree on which segments come
/// next and before.
proof fn lemma_plain_same(a: Seq<Segment>, b: Seq<Segment>, k: int)
    requires
        a.len() == b.len(),
        forall|i: int| 0 <= i < a.len() ==> #[trigger] same_input(a[i], b[i]),
    ensures
        next_plain(b, k) == next_plain(a, k),
        prev_plain(b, k) == prev_plain(a, k),
    decreases a.len() - k,
{
    if 0 <= k < a.len() {
        assert(same_input(a[k], b[k]));
        lemma_plain_same(a, b, k + 1);
    }
    lemma_prev_same(a, b, k);
}

proof fn lemma_prev_same(a: Seq<Segment>, b: Seq<Segment>, k: int)
    requires
        a.len() == b.len(),
        forall|i: int| 0 <= i < a.len() ==> #[trigger] same_input(a[i], b[i]),
    ensures
        prev_plain(b, k) == prev_plain(a, k),
    decreases k,
{
    if 0 < k <= a.len() {
        assert(same_input(a[k - 1], b[k - 1]));
        lemma_prev_same(a, b, k - 1);
    }
}

impl Segment {
    /// A copy of this segment.
    pub fn clone_segment(&self) -> (r: Segment)
        ensures
            r == *self,
    {
        Segment {
            contents: self.contents.clone(),
            literal_width: self.literal_width,
            literal_text: self.literal_text.clone(),
            contents_len: self.contents_len,
            side: self.side,
            highlight: self.highlight,
            divider_highlight: self.divider_highlight,
            draw_soft_divider: self.draw_soft_divider,
            draw_hard_divider: self.draw_hard_divider,
            priority: self.priority,
            has_truncate: self.has_truncate,
            has_expand: self.has_expand,
            len: self.len,
            rendered_raw: self.rendered_raw.clone(),
            rendered_hl: self.rendered_hl.clone(),
        }
    }
}

/// `s` with each character that `table` holds replaced by its text.
pub open spec fn escaped(table: Map<char, String>, s: Seq<char>) -> Seq<char>
    decreases s.len(),
{
    if s.len() == 0 {
        Seq::empty()
    } else {
        escaped(table, s.drop_last()) + if table.dom().contains(s.last()) {
            table[s.last()]@
        } else {
            seq![s.last()]
        }
    }
}

/// Whether a theme configuration asks for spaces to be shown as
/// non-breaking spaces: unless its `use_non_breaking_spaces` is `false`.
pub open spec fn uses_nbsp(theme_config: Seq<(Seq<char>, JsonView)>) -> bool {
    member_value(theme_config, "use_non_breaking_spaces"@) != Some(JsonView::Bool(false))
}

/// A renderer: its theme configuration and local themes, how it escapes
/// characters in its output, the display width of each East Asian width
/// class, its theme, and the themes it has shut down, in order.
#[derive(Debug)]
pub struct Renderer {
    pub theme_config: Vec<(String, JsonValue)>,
    pub local_themes: Vec<(String, JsonValue)>,
    pub character_translations: CharMap<String>,
    pub width_data: CharMap<u8>,
    pub theme: JsonValue,
    pub shutdown_called: Vec<String>,
}

impl Renderer {
    /// A renderer with the theme configuration `theme_config`, which shows
    /// spaces as non-breaking spaces unless it says otherwise, with
    /// ambiguous characters `ambiwidth` wide; its theme is null.
    pub fn new(theme_config: Vec<(String, JsonValue)>, local_themes: Vec<(String, JsonValue)>, ambiwidth: u8) -> (r: Self)
        ensures
            r.theme_config@ == theme_config@,
            r.local_themes@ == local_themes@,
            r.character_translations.wf(),
            r.width_data.wf(),
            uses_nbsp(members_view(theme_config@)) ==> r.character_translations@.dom() == set![' '] && r.character_translations@[' ']@ == "\u{a0}"@,
            !uses_nbsp(members_view(theme_config@)) ==> r.character_translations@.dom() == Set::<char>::empty(),
            r.width_data@ == map!['N' => 1u8, 'a' => 1u8, 'A' => ambiwidth, 'H' => 1u8, 'W' => 2u8, 'F' => 2u8],
            r.theme@ == JsonView::Null,
            r.shutdown_called@.len() == 0,
    {
        let use_nbsp = match get_member(&theme_config, "use_non_breaking_spaces") {
            Some(JsonValue::Bool(b)) => *b,
            _ => true,
        };
        let mut t: CharMap<String> = CharMap::new();
        if use_nbsp {
            t.insert_new(' ', string_from(crate::renderer::NBSP));
            assert(t@.dom() =~= set![' ']);
        } else {
            assert(t@.dom() =~= Set::<char>::empty());
        }
        Renderer {
            theme_config,
            local_themes,
            character_translations: t,
            width_data: width_data(ambiwidth),
            theme: JsonValue::Null,
            shutdown_called: Vec::new(),
        }
    }

    /// The theme to render with: the renderer's own, whatever `matcher_info`
    /// says.
    pub fn get_theme(&self, matcher_info: Option<&JsonValue>) -> (r: JsonValue)
        ensures
            r@ == self.theme@,
    {
        self.theme.deep_copy()
    }

    /// Shuts the renderer's theme down, which is recorded as `theme`.
    pub fn shutdown(&mut self)
        ensures
            string_views(final(self).shutdown_called@) == string_views(old(self).shutdown_called@).push("theme"@),
            final(self).theme == old(self).theme,
            final(self).theme_config == old(self).theme_config,
            final(self).local_themes == old(self).local_themes,
            final(self).character_translations == old(self).character_translations,
            final(self).width_data == old(self).width_data,
    {
        self.shutdown_called.push(string_from("theme"));
        assert(string_views(self.shutdown_called@) =~= string_views(old(self).shutdown_called@).push("theme"@));
    }

    /// `string` with the characters of the translation table replaced.
    pub fn escape(&self, string: &str) -> (r: String)
        requires
            self.character_translations.wf(),
        ensures
            r@ == escaped(self.character_translations@, string@),
    {
        let cs = chars_of(string);
        let mut out: Vec<char> = Vec::new();
        let mut i: usize = 0;
        while i < cs.len()
            invariant
                i <= cs.len(),
                self.character_translations.wf(),
                out@ == escaped(self.character_translations@, cs@.take(i as int)),
            decreases cs.len() - i,
        {
            let c = cs[i];
            match self.character_translations.get(&c) {
                Some(repl) => {
                    let rc = chars_of(repl.as_str());
                    append_chars(&mut out, &rc);
                },
                None => {
                    out.push(c);
                },
            }
            i = i + 1;
            assert(cs@.take(i as int).drop_last() =~= cs@.take(i - 1));
        }
        assert(cs@.take(cs.len() as int) =~= cs@);
        string_of(&out)
    }

    /// The highlighted text: the style's output, then the contents (none
    /// when there are none).
    pub fn hl(contents: Option<&str>, hlstyle_output: &str) -> (r: String)
        ensures
            r@ == hlstyle_output@ + match contents {
                Some(c) => c@,
                None => Seq::<char>::empty(),
            },
    {
        let mut out = chars_of(hlstyle_output);
        match contents {
            Some(c) => {
                let cc = chars_of(c);
                append_chars(&mut out, &cc);
            },
            None => {
                assert(out@ + Seq::<char>::empty() =~= out@);
            },
        }
        string_of(&out)
    }

    /// Translates the non-printable characters of each segment's contents
    /// and, when asked, records its width: that of its literal contents
    /// when it has them, else the number of characters of its contents.
    pub fn _prepare_segments(segments: &mut Vec<Segment>, calculate_contents_len: bool)
        ensures
            final(segments)@.len() == old(segments)@.len(),
            forall|i: int| 0 <= i < old(segments)@.len() ==> {
                let (a, b) = (#[trigger] old(segments)@[i], final(segments)@[i]);
                &&& b.contents@ == translated(a.contents@)
                &&& b.contents_len == if calculate_contents_len {
                    if is_literal(a) { a.literal_width as int } else { translated(a.contents@).len() as int }
                } else {
                    a.contents_len as int
                }
                &&& b.literal_width == a.literal_width && b.literal_text == a.literal_text && b.side == a.side
                &&& b.highlight == a.highlight && b.divider_highlight == a.divider_highlight
                &&& b.draw_soft_divider == a.draw_soft_divider && b.draw_hard_divider == a.draw_hard_divider
                &&& b.priority == a.priority && b.has_truncate == a.has_truncate && b.has_expand == a.has_expand
                &&& b.len == a.len && b.rendered_raw == a.rendered_raw && b.rendered_hl == a.rendered_hl
            },
    {
        let ghost segs = segments@;
        let n = segments.len();
        let mut i: usize = 0;
        while i < n
            invariant
                n == segs.len(),
                segments@.len() == n,
                i <= n,
                forall|j: int| i <= j < n ==> #[trigger] segments@[j] == segs[j],
                forall|j: int| 0 <= j < i ==> {
                    let (a, b) = (#[trigger] segs[j], segments@[j]);
                    &&& b.contents@ == translated(a.contents@)
                    &&& b.contents_len == if calculate_contents_len {
                        if is_literal(a) { a.literal_width as int } else { translated(a.contents@).len() as int }
                    } else {
                        a.contents_len as int
                    }
                    &&& b.literal_width == a.literal_width && b.literal_text == a.literal_text && b.side == a.side
                    &&& b.highlight == a.highlight && b.divider_highlight == a.divider_highlight
                    &&& b.draw_soft_divider == a.draw_soft_divider && b.draw_hard_divider == a.draw_hard_divider
                    &&& b.priority == a.priority && b.has_truncate == a.has_truncate && b.has_expand == a.has_expand
                    &&& b.len == a.len && b.rendered_raw == a.rendered_raw && b.rendered_hl == a.rendered_hl
                },
            decreases n - i,
        {
            let ghost cur = segments@;
            let mut seg = segments[i].clone_segment();
            seg.contents = translate_np(segments[i].contents.as_str());
            if calculate_contents_len {
                if chars_of(seg.literal_text.as_str()).len() != 0 {
                    seg.contents_len = seg.literal_width;
                } else {
                    seg.contents_len = chars_of(seg.contents.as_str()).len();
                }
            }
            segments.set(i, seg);
            proof {
                assert forall|j: int| i < j < n implies #[trigger] segments@[j] == segs[j] by {
                    assert(segments@[j] == cur[j]);
                }
                assert forall|j: int| 0 <= j < i implies segments@[j] == cur[j] by {}
            }
            i = i + 1;
        }
    }
}

/// The text of the divider on `side` of kind soft or hard.
pub open spec fn divider_text(theme: ThemeInfo, side: Side, soft: bool) -> Seq<char> {
    if side == Side::Left {
        if soft { theme.left_soft@ } else { theme.left_hard@ }
    } else {
        if soft { theme.right_soft@ } else { theme.right_hard@ }
    }
}

/// Segment `i`'s contents with its outer padding, and the spaces on the
/// side of its divider when it draws one.
pub open spec fn contents_raw(segs: Seq<Segment>, i: int, theme: ThemeInfo) -> Seq<char> {
    let pad = if takes_padding(segs, i) { repeat_char(' ', theme.outer_padding as nat) } else { Seq::empty() };
    let spaces = if draws_divider(segs, i, theme.empty_highlight) { repeat_char(' ', theme.spaces as nat) } else { Seq::empty() };
    if segs[i].side == Side::Left {
        pad + segs[i].contents@ + spaces
    } else {
        spaces + segs[i].contents@ + pad
    }
}

/// The escaped text of segment `i`'s divider, when it draws one.
pub open spec fn divider_raw(segs: Seq<Segment>, i: int, theme: ThemeInfo, table: Map<char, String>) -> Seq<char> {
    if draws_divider(segs, i, theme.empty_highlight) {
        escaped(table, divider_text(theme, segs[i].side, soft_divider(segs, i, theme.empty_highlight)))
    } else {
        Seq::empty()
    }
}

/// The raw text of segment `i`: the spaces of its literal width for a
/// literal segment; else its contents and its divider, the divider on the
/// outer side.
pub open spec fn rendered_raw_of(segs: Seq<Segment>, i: int, theme: ThemeInfo, table: Map<char, String>) -> Seq<char> {
    if is_literal(segs[i]) {
        repeat_char(' ', segs[i].literal_width as nat)
    } else if segs[i].side == Side::Left {
        contents_raw(segs, i, theme) + divider_raw(segs, i, theme, table)
    } else {
        divider_raw(segs, i, theme, table) + contents_raw(segs, i, theme)
    }
}

/// The colors of segment `i`'s divider: a soft divider takes the colors of
/// the segment's divider group (of the segment itself when it has none); a
/// hard one goes from the segment's background to the neighbour's.
pub open spec fn divider_colors(segs: Seq<Segment>, i: int, empty: Highlight) -> (u64, u64) {
    if soft_divider(segs, i, empty) {
        match segs[i].divider_highlight {
            Some(h) => (h.fg, h.bg),
            None => (segs[i].highlight.fg, segs[i].highlight.bg),
        }
    } else {
        (segs[i].highlight.bg, compare_highlight(segs, i, empty).bg)
    }
}

/// Whether `out` is a text that `hl` may give for `text` in the colors
/// `fg` on `bg` with attributes `attrs`.
pub open spec fn hl_gives<H: Fn(&str, u64, u64, Option<u64>) -> String>(hl: H, text: Seq<char>, fg: u64, bg: u64, attrs: Option<u64>, out: Seq<char>) -> bool {
    exists|t: &str, o: String| t@ == text && o@ == out && #[trigger] call_ensures(hl, (t, fg, bg, attrs), o)
}

/// Whether `out` is a highlighted text that `hl` may give for segment `i`:
/// its escaped contents in its own highlight, and, when it draws a divider,
/// the divider in the divider's colors without attributes; without a
/// divider the contents are highlighted also when highlighting is not
/// asked for; with one, nothing is highlighted then.
pub open spec fn rendered_hl_ok<H: Fn(&str, u64, u64, Option<u64>) -> String>(hl: H, segs: Seq<Segment>, i: int, theme: ThemeInfo, table: Map<char, String>, render_highlighted: bool, out: Seq<char>) -> bool {
    if is_literal(segs[i]) {
        out == segs[i].literal_text@
    } else {
        let h = segs[i].highlight;
        let contents = escaped(table, contents_raw(segs, i, theme));
        if draws_divider(segs, i, theme.empty_highlight) {
            if render_highlighted {
                let (dfg, dbg) = divider_colors(segs, i, theme.empty_highlight);
                exists|c: Seq<char>, d: Seq<char>| #[trigger] hl_gives(hl, contents, h.fg, h.bg, Some(h.attrs), c) && #[trigger] hl_gives(hl, divider_raw(segs, i, theme, table), dfg, dbg, None, d)
                    && out == if segs[i].side == Side::Left { c + d } else { d + c }
            } else {
                out == Seq::<char>::empty()
            }
        } else {
            hl_gives(hl, contents, h.fg, h.bg, Some(h.attrs), out)
        }
    }
}

/// The text of the divider on `side` of kind soft or hard.
fn divider_of(theme: &ThemeInfo, side: Side, soft: bool) -> (r: &String)
    ensures
        r@ == divider_text(*theme, side, soft),
{
    match side {
        Side::Left => if soft { &theme.left_soft } else { &theme.left_hard },
        Side::Right => if soft { &theme.right_soft } else { &theme.right_hard },
    }
}

/// Whether `now` holds the rendering of segment `i` of `segs`, and `copy`
/// is a copy of it.
pub open spec fn rendered_ok<H: Fn(&str, u64, u64, Option<u64>) -> String>(hl: H, segs: Seq<Segment>, i: int, theme: ThemeInfo, table: Map<char, String>, render_highlighted: bool, now: Segment, copy: Segment) -> bool {
    &&& now.rendered_raw@ == rendered_raw_of(segs, i, theme, table)
    &&& rendered_hl_ok(hl, segs, i, theme, table, render_highlighted, now.rendered_hl@)
    &&& copy == now
}

/// A copy of a list of segments.
fn copy_segments(segments: &Vec<Segment>) -> (r: Vec<Segment>)
    ensures
        r@ == segments@,
{
    let mut out: Vec<Segment> = Vec::new();
    let mut i: usize = 0;
    while i < segments.len()
        invariant
            i <= segments.len(),
            out@ == segments@.take(i as int),
        decreases segments.len() - i,
    {
        out.push(segments[i].clone_segment());
        i = i + 1;
        assert(out@ =~= segments@.take(i as int));
    }
    assert(segments@.take(segments.len() as int) =~= segments@);
    out
}

impl Renderer {
    /// The raw and the highlighted text of segment `index`.
    fn render_one<H: Fn(&str, u64, u64, Option<u64>) -> String>(
        &self,
        theme: &ThemeInfo,
        segments: &Vec<Segment>,
        index: usize,
        render_highlighted: bool,
        hl_fn: &H,
    ) -> (r: (String, String))
        requires
            index < segments@.len(),
            self.character_translations.wf(),
            forall|t: &str, fg: u64, bg: u64, a: Option<u64>| call_requires(*hl_fn, (t, fg, bg, a)),
        ensures
            r.0@ == rendered_raw_of(segments@, index as int, *theme, self.character_translations@),
            rendered_hl_ok(*hl_fn, segments@, index as int, *theme, self.character_translations@, render_highlighted, r.1@),
    {
        let ghost segs = segments@;
        let ghost table = self.character_translations@;
        let n = segments.len();
        let out_raw: String;
        let out_hl: String;
            if chars_of(segments[index].literal_text.as_str()).len() == 0 {
                assert(!is_literal(segs[index as int]));
                let neighbour = if segments[index].side == Side::Left {
                    match find_next_plain(segments, index + 1) {
                        Some(j) => segments[j].highlight,
                        None => theme.empty_highlight,
                    }
                } else {
                    match find_prev_plain(segments, index) {
                        Some(j) => segments[j].highlight,
                        None => theme.empty_highlight,
                    }
                };
                assert(neighbour == compare_highlight(segs, index as int, theme.empty_highlight));
                let h = segments[index].highlight;
                let soft = neighbour.bg == h.bg;
                let first = find_next_plain(segments, 0);
                let last = find_prev_plain(segments, n);
                let is_first = match first {
                    Some(j) => j == index,
                    None => false,
                };
                let is_last = match last {
                    Some(j) => j == index,
                    None => false,
                };
                let side = segments[index].side;
                let pad: Vec<char> = if (side == Side::Left && is_first) || (side == Side::Right && is_last) {
                    repeat_chars(' ', theme.outer_padding)
                } else {
                    Vec::new()
                };
                assert(pad@ == (if takes_padding(segs, index as int) { repeat_char(' ', theme.outer_padding as nat) } else { Seq::<char>::empty() }));
                let draw = if soft { segments[index].draw_soft_divider } else { segments[index].draw_hard_divider };
                assert(draw == draws_divider(segs, index as int, theme.empty_highlight));
                let contents = chars_of(segments[index].contents.as_str());
                let mut raw: Vec<char> = Vec::new();
                if draw {
                    let divider_raw = self.escape(divider_of(theme, side, soft).as_str());
                    let spaces = repeat_chars(' ', theme.spaces);
                    if side == Side::Left {
                        append_chars(&mut raw, &pad);
                        append_chars(&mut raw, &contents);
                        append_chars(&mut raw, &spaces);
                    } else {
                        append_chars(&mut raw, &spaces);
                        append_chars(&mut raw, &contents);
                        append_chars(&mut raw, &pad);
                    }
                    assert(raw@ == contents_raw(segs, index as int, *theme));
                    let (dfg, dbg) = if soft {
                        match segments[index].divider_highlight {
                            Some(dh) => (dh.fg, dh.bg),
                            None => (h.fg, h.bg),
                        }
                    } else {
                        (h.bg, neighbour.bg)
                    };
                    assert((dfg, dbg) == divider_colors(segs, index as int, theme.empty_highlight));
                    let raw_text = string_of(&raw);
                    let dr = chars_of(divider_raw.as_str());
                    let mut full: Vec<char> = Vec::new();
                    let mut hl_text: Vec<char> = Vec::new();
                    if side == Side::Left {
                        append_chars(&mut full, &raw);
                        append_chars(&mut full, &dr);
                    } else {
                        append_chars(&mut full, &dr);
                        append_chars(&mut full, &raw);
                    }
                    if render_highlighted {
                        let esc = self.escape(raw_text.as_str());
                        let c = hl_fn(esc.as_str(), h.fg, h.bg, Some(h.attrs));
                        let d = hl_fn(divider_raw.as_str(), dfg, dbg, None);
                        assert(hl_gives(*hl_fn, escaped(table, contents_raw(segs, index as int, *theme)), h.fg, h.bg, Some(h.attrs), c@));
                        assert(hl_gives(*hl_fn, divider_raw@, dfg, dbg, None, d@));
                        let cc = chars_of(c.as_str());
                        let dd = chars_of(d.as_str());
                        if side == Side::Left {
                            append_chars(&mut hl_text, &cc);
                            append_chars(&mut hl_text, &dd);
                        } else {
                            append_chars(&mut hl_text, &dd);
                            append_chars(&mut hl_text, &cc);
                        }
                    }
                    assert(full@ =~= rendered_raw_of(segs, index as int, *theme, table));
                    assert(rendered_hl_ok(*hl_fn, segs, index as int, *theme, table, render_highlighted, hl_text@));
                    out_raw = string_of(&full);
                    out_hl = string_of(&hl_text);
                } else {
                    if side == Side::Left {
                        append_chars(&mut raw, &pad);
                        append_chars(&mut raw, &contents);
                    } else {
                        append_chars(&mut raw, &contents);
                        append_chars(&mut raw, &pad);
                    }
                    assert(raw@ =~= contents_raw(segs, index as int, *theme));
                    let raw_text = string_of(&raw);
                    let esc = self.escape(raw_text.as_str());
                    let c = hl_fn(esc.as_str(), h.fg, h.bg, Some(h.attrs));
                    assert(hl_gives(*hl_fn, escaped(table, contents_raw(segs, index as int, *theme)), h.fg, h.bg, Some(h.attrs), c@));
                    assert(raw_text@ =~= rendered_raw_of(segs, index as int, *theme, table));
                    assert(rendered_hl_ok(*hl_fn, segs, index as int, *theme, table, render_highlighted, c@));
                    out_raw = raw_text;
                    out_hl = c;
                }
            } else {
                assert(is_literal(segs[index as int]));
                out_raw = string_of(&repeat_chars(' ', segments[index].literal_width));
                out_hl = segments[index].literal_text.clone();
            }
        (out_raw, out_hl)
    }

    /// Renders each segment: its raw text and its highlighted text, made
    /// with `hl_fn` (text, foreground, background, attributes); the
    /// highlighted text is made only when `render_highlighted` is set,
    /// except for a segment without a divider. Gives the rendered segments.
    pub fn _render_segments<H: Fn(&str, u64, u64, Option<u64>) -> String>(
        &self,
        theme: &ThemeInfo,
        segments: &mut Vec<Segment>,
        render_highlighted: bool,
        hl_fn: &H,
    ) -> (r: Vec<Segment>)
        requires
            self.character_translations.wf(),
            forall|t: &str, fg: u64, bg: u64, a: Option<u64>| call_requires(*hl_fn, (t, fg, bg, a)),
        ensures
            final(segments)@.len() == old(segments)@.len(),
            r@.len() == old(segments)@.len(),
            forall|i: int| 0 <= i < old(segments)@.len() ==> #[trigger] same_input(old(segments)@[i], final(segments)@[i])
                && final(segments)@[i].len == old(segments)@[i].len
                && rendered_ok(*hl_fn, old(segments)@, i, *theme, self.character_translations@, render_highlighted, final(segments)@[i], r@[i]),
    {
        let ghost segs = segments@;
        let ghost table = self.character_translations@;
        let n = segments.len();
        let original = copy_segments(segments);
        let mut out: Vec<Segment> = Vec::new();
        let mut index: usize = 0;
        while index < n
            invariant
                n == segs.len(),
                original@ == segs,
                segments@.len() == n,
                out@.len() == index,
                index <= n,
                table == self.character_translations@,
                self.character_translations.wf(),
                forall|t: &str, fg: u64, bg: u64, a: Option<u64>| call_requires(*hl_fn, (t, fg, bg, a)),
                forall|i: int| 0 <= i < n ==> #[trigger] same_input(segs[i], segments@[i]) && segments@[i].len == segs[i].len,
                forall|i: int| 0 <= i < index ==> #[trigger] rendered_ok(*hl_fn, segs, i, *theme, table, render_highlighted, segments@[i], out@[i]),
            decreases n - index,
        {
            let ghost cur = segments@;
            assert(same_input(segs[index as int], cur[index as int]));
            let (raw_text, hl_text) = self.render_one(theme, &original, index, render_highlighted, hl_fn);
            let mut seg = segments[index].clone_segment();
            seg.rendered_raw = raw_text;
            seg.rendered_hl = hl_text;
            assert(same_input(segs[index as int], seg) && seg.len == segs[index as int].len);
            assert(seg.rendered_raw@ == rendered_raw_of(segs, index as int, *theme, table));
            assert(rendered_hl_ok(*hl_fn, segs, index as int, *theme, table, render_highlighted, seg.rendered_hl@));
            let copy = seg.clone_segment();
            let ghost out_before = out@;
            let ghost seg_g = seg;
            segments.set(index, seg);
            out.push(copy);
            proof {
                assert(segments@[index as int] == seg_g);
                assert(out@[index as int] == copy);
                assert(rendered_ok(*hl_fn, segs, index as int, *theme, table, render_highlighted, segments@[index as int], out@[index as int]));
                assert forall|i: int| 0 <= i < index implies #[trigger] rendered_ok(*hl_fn, segs, i, *theme, table, render_highlighted, segments@[i], out@[i]) by {
                    assert(segments@[i] == cur[i] && out@[i] == out_before[i]);
                }
                assert forall|i: int| 0 <= i < n implies #[trigger] same_input(segs[i], segments@[i]) && segments@[i].len == segs[i].len by {
                    if i != index {
                        assert(segments@[i] == cur[i]);
                    }
                }
            }
            index = index + 1;
        }
        assert forall|i: int| 0 <= i < n implies #[trigger] same_input(segs[i], segments@[i])
            && segments@[i].len == segs[i].len
            && rendered_ok(*hl_fn, segs, i, *theme, table, render_highlighted, segments@[i], out@[i]) by {
            assert(rendered_ok(*hl_fn, segs, i, *theme, table, render_highlighted, segments@[i], out@[i]));
        }
        out
    }
}

/// The priority of segment `j` (when it has one).
pub open spec fn prio(segs: Seq<Segment>, j: int) -> i64 {
    segs[j].priority->0
}

/// `order` lists the first `n` segments that have a priority, from the
/// highest priority down, segments of equal priority in their order on the
/// line.
pub open spec fn is_priority_order(segs: Seq<Segment>, n: int, order: Seq<usize>) -> bool {
    &&& forall|k: int| 0 <= k < order.len() ==> (#[trigger] order[k]) < n && segs[order[k] as int].priority is Some
    &&& forall|i: int| 0 <= i < n && (#[trigger] segs[i]).priority is Some ==> order.contains(i as usize)
    &&& order.no_duplicates()
    &&& forall|k: int, l: int| 0 <= k < l < order.len() ==> prio(segs, #[trigger] order[k] as int) > prio(segs, #[trigger] order[l] as int)
        || (prio(segs, order[k] as int) == prio(segs, order[l] as int) && order[k] < order[l])
}

/// Whether segment `j` has a priority of at least `p`.
fn ranks_at_least(segments: &Vec<Segment>, j: usize, p: i64) -> (r: bool)
    requires
        j < segments@.len(),
    ensures
        r == (segments@[j as int].priority is Some && prio(segments@, j as int) >= p),
{
    match segments[j].priority {
        Some(q) => q >= p,
        None => false,
    }
}

/// Putting `i` at position `k` of an order of the first `i` segments, after
/// those of at least its priority and before those of less, gives an order
/// of the first `i + 1` segments.
proof fn lemma_insert_keeps_priority_order(segs: Seq<Segment>, before: Seq<usize>, k: int, i: int)
    requires
        0 <= k <= before.len(),
        0 <= i < segs.len(),
        i < usize::MAX,
        segs[i].priority is Some,
        is_priority_order(segs, i, before),
        forall|m: int| 0 <= m < k ==> prio(segs, #[trigger] before[m] as int) >= prio(segs, i),
        forall|m: int| k <= m < before.len() ==> prio(segs, #[trigger] before[m] as int) < prio(segs, i),
    ensures
        is_priority_order(segs, i + 1, before.insert(k, i as usize)),
{
    let o = before.insert(k, i as usize);
    assert forall|m: int| 0 <= m < o.len() implies (#[trigger] o[m]) < i + 1 && segs[o[m] as int].priority is Some by {
        if m < k {
            assert(o[m] == before[m]);
        } else if m > k {
            assert(o[m] == before[m - 1]);
        }
    }
    lemma_insert_contains(segs, before, k, i);
    lemma_insert_distinct(before, k, i);
    lemma_insert_sorted(segs, before, k, i);
}

proof fn lemma_insert_contains(segs: Seq<Segment>, before: Seq<usize>, k: int, i: int)
    requires
        0 <= k <= before.len(),
        0 <= i < segs.len(),
        i < usize::MAX,
        forall|j: int| 0 <= j < i && (#[trigger] segs[j]).priority is Some ==> before.contains(j as usize),
    ensures
        forall|j: int| 0 <= j < i + 1 && (#[trigger] segs[j]).priority is Some ==> before.insert(k, i as usize).contains(j as usize),
{
    let o = before.insert(k, i as usize);
    assert forall|j: int| 0 <= j < i + 1 && (#[trigger] segs[j]).priority is Some implies o.contains(j as usize) by {
        if j < i {
            assert(before.contains(j as usize));
            let m = choose|m: int| 0 <= m < before.len() && before[m] == j as usize;
            if m < k {
                assert(o[m] == j as usize);
            } else {
                assert(o[m + 1] == j as usize);
            }
        } else {
            assert(o[k] == i as usize);
        }
    }
}

proof fn lemma_insert_distinct(before: Seq<usize>, k: int, i: int)
    requires
        0 <= k <= before.len(),
        0 <= i < usize::MAX,
        before.no_duplicates(),
        forall|m: int| 0 <= m < before.len() ==> (#[trigger] before[m]) < i,
    ensures
        before.insert(k, i as usize).no_duplicates(),
{
    let o = before.insert(k, i as usize);
    assert forall|a: int, b: int| 0 <= a < o.len() && 0 <= b < o.len() && a != b implies o[a] != o[b] by {
        if a != k && b != k {
            let a2 = if a < k { a } else { a - 1 };
            let b2 = if b < k { b } else { b - 1 };
            assert(o[a] == before[a2] && o[b] == before[b2]);
        } else if a == k {
            let b2 = if b < k { b } else { b - 1 };
            assert(o[b] == before[b2]);
        } else {
            let a2 = if a < k { a } else { a - 1 };
            assert(o[a] == before[a2]);
        }
    }
}

proof fn lemma_insert_sorted(segs: Seq<Segment>, before: Seq<usize>, k: int, i: int)
    requires
        0 <= k <= before.len(),
        0 <= i < segs.len(),
        i < usize::MAX,
        forall|m: int| 0 <= m < before.len() ==> (#[trigger] before[m]) < i,
        forall|a: int, b: int| 0 <= a < b < before.len() ==> prio(segs, #[trigger] before[a] as int) > prio(segs, #[trigger] before[b] as int)
            || (prio(segs, before[a] as int) == prio(segs, before[b] as int) && before[a] < before[b]),
        forall|m: int| 0 <= m < k ==> prio(segs, #[trigger] before[m] as int) >= prio(segs, i),
        forall|m: int| k <= m < before.len() ==> prio(segs, #[trigger] before[m] as int) < prio(segs, i),
    ensures
        ({
            let o = before.insert(k, i as usize);
            forall|a: int, b: int| 0 <= a < b < o.len() ==> prio(segs, #[trigger] o[a] as int) > prio(segs, #[trigger] o[b] as int)
                || (prio(segs, o[a] as int) == prio(segs, o[b] as int) && o[a] < o[b])
        }),
{
    let o = before.insert(k, i as usize);
    assert forall|a: int, b: int| 0 <= a < b < o.len() implies prio(segs, #[trigger] o[a] as int) > prio(segs, #[trigger] o[b] as int)
        || (prio(segs, o[a] as int) == prio(segs, o[b] as int) && o[a] < o[b]) by {
        if a < k && b < k {
            assert(o[a] == before[a] && o[b] == before[b]);
        } else if a < k && b == k {
            assert(o[a] == before[a]);
        } else if a < k && b > k {
            assert(o[a] == before[a] && o[b] == before[b - 1]);
        } else if a == k {
            assert(o[b] == before[b - 1]);
        } else {
            assert(o[a] == before[a - 1] && o[b] == before[b - 1]);
        }
    }
}

/// The segments that have a priority, from the highest priority down;
/// segments of equal priority keep their order.
pub fn priority_order(segments: &Vec<Segment>) -> (r: Vec<usize>)
    ensures
        is_priority_order(segments@, segments@.len() as int, r@),
{
    let ghost segs = segments@;
    let mut order: Vec<usize> = Vec::new();
    let mut i: usize = 0;
    while i < segments.len()
        invariant
            segs == segments@,
            i <= segments.len(),
            is_priority_order(segs, i as int, order@),
        decreases segments.len() - i,
    {
        match segments[i].priority {
            Some(p) => {
                let mut k: usize = 0;
                while k < order.len() && ranks_at_least(segments, order[k], p)
                    invariant
                        segs == segments@,
                        i < segments.len(),
                        segs[i as int].priority == Some(p),
                        k <= order.len(),
                        is_priority_order(segs, i as int, order@),
                        forall|m: int| 0 <= m < k ==> prio(segs, #[trigger] order@[m] as int) >= p,
                    decreases order.len() - k,
                {
                    k = k + 1;
                }
                let ghost before = order@;
                proof {
                    if k < before.len() {
                        assert(prio(segs, before[k as int] as int) < p);
                        assert forall|m: int| k <= m < before.len() implies prio(segs, #[trigger] before[m] as int) < p by {
                            if m > k {
                                assert(prio(segs, before[k as int] as int) > prio(segs, before[m] as int) || prio(segs, before[k as int] as int) == prio(segs, before[m] as int));
                            }
                        }
                    }
                }
                order.insert(k, i);
                proof {
                    lemma_insert_keeps_priority_order(segs, before, k as int, i as int);
                }
            },
            None => {
                proof {
                    assert forall|j: int| 0 <= j < i + 1 && (#[trigger] segs[j]).priority is Some implies order@.contains(j as usize) by {
                        if j == i {
                            assert(false);
                        }
                    }
                }
            },
        }
        i = i + 1;
    }
    order
}

/// The segments that `kept` keeps, in order.
pub open spec fn kept_segs(segs: Seq<Segment>, kept: Seq<bool>) -> Seq<Segment>
    decreases segs.len(),
{
    if segs.len() == 0 {
        Seq::empty()
    } else {
        let init = kept_segs(segs.drop_last(), kept);
        if kept[segs.len() - 1] { init.push(segs.last()) } else { init }
    }
}

/// `kept` with the segments `ids` dropped.
pub open spec fn without_ids(kept: Seq<bool>, ids: Seq<usize>) -> Seq<bool> {
    Seq::new(kept.len(), |i: int| kept[i] && !ids.contains(i as usize))
}

/// How many of the segments in `order` the quick pass drops: it drops them
/// one by one, taking each one's width off `diff`, until `diff` is used up.
pub open spec fn quick_drop_count(order: Seq<usize>, widths: Seq<nat>, diff: int) -> nat
    decreases order.len(),
{
    if order.len() == 0 {
        0
    } else {
        let rest = diff - widths[order[0] as int];
        if rest <= 0 {
            1
        } else {
            1 + quick_drop_count(order.drop_first(), widths, rest)
        }
    }
}

/// The careful pass: drops the segments of `rest` one by one, measuring the
/// line again after each, until it fits in `width`.
pub open spec fn careful_drop(segs: Seq<Segment>, kept: Seq<bool>, rest: Seq<usize>, width: int, theme: ThemeInfo, w: DividerWidths) -> Seq<bool>
    decreases rest.len(),
{
    if rest.len() == 0 {
        kept
    } else {
        let k2 = kept.update(rest[0] as int, false);
        if line_width(kept_segs(segs, k2), theme, w) <= width {
            k2
        } else {
            careful_drop(segs, k2, rest.drop_first(), width, theme, w)
        }
    }
}

/// The widths of the segments as the first measurement gives them.
pub open spec fn first_widths(segs: Seq<Segment>, theme: ThemeInfo, w: DividerWidths) -> Seq<nat> {
    Seq::new(segs.len(), |i: int| segment_width(segs, i, theme, w))
}

/// Which segments stay on a line of `width` columns: all when they fit;
/// else segments are dropped in `order` (the order of their priorities):
/// on a line of more than a hundred segments a quick pass first drops as
/// many as the excess width asks for, measured once; then, while the line
/// does not fit, segments are dropped one at a time.
pub open spec fn drop_mask(segs: Seq<Segment>, order: Seq<usize>, width: int, theme: ThemeInfo, w: DividerWidths) -> Seq<bool> {
    let all = Seq::new(segs.len(), |i: int| true);
    let cw = line_width(segs, theme, w) as int;
    if cw <= width {
        all
    } else {
        let k: int = if segs.len() > 100 { quick_drop_count(order, first_widths(segs, theme, w), cw - width) as int } else { 0 };
        let kept1 = without_ids(all, order.take(k));
        let cw1 = line_width(kept_segs(segs, kept1), theme, w) as int;
        if cw1 > width {
            careful_drop(segs, kept1, order.skip(k), width, theme, w)
        } else {
            kept1
        }
    }
}

/// Whether `after` is `before` with the room left on the line spread on its
/// spacers: with `room` columns and `n` spacers, each takes `room / n`
/// spaces after its contents, and the first `room % n` one more.
pub open spec fn spread_ok(before: Seq<Segment>, after: Seq<Segment>, room: nat) -> bool {
    let n = spacer_count(before, before.len() as int);
    &&& after.len() == before.len()
    &&& forall|i: int| 0 <= i < before.len() ==> {
        let (a, b) = (#[trigger] before[i], after[i]);
        &&& b.contents@ == if a.has_expand {
            a.contents@ + repeat_char(' ', (room / n + if spacer_count(before, i) < room % n { 1nat } else { 0nat }) as nat)
        } else {
            a.contents@
        }
        &&& b.literal_width == a.literal_width && b.literal_text == a.literal_text && b.contents_len == a.contents_len
        &&& b.side == a.side && b.highlight == a.highlight && b.divider_highlight == a.divider_highlight
        &&& b.draw_soft_divider == a.draw_soft_divider && b.draw_hard_divider == a.draw_hard_divider
        &&& b.priority == a.priority && b.has_truncate == a.has_truncate && b.has_expand == a.has_expand
    }
}

/// The number of spacers among the first `n` segments.
pub open spec fn spacer_count(segs: Seq<Segment>, n: int) -> nat
    decreases n,
{
    if n <= 0 {
        0
    } else {
        spacer_count(segs, n - 1) + if segs[n - 1].has_expand { 1nat } else { 0nat }
    }
}

/// The concatenation of the texts `parts`.
pub open spec fn concat(parts: Seq<Seq<char>>) -> Seq<char>
    decreases parts.len(),
{
    if parts.len() == 0 {
        Seq::empty()
    } else {
        concat(parts.drop_last()) + parts.last()
    }
}

/// The raw texts of all the segments, one after the other.
pub open spec fn line_raw(segs: Seq<Segment>, theme: ThemeInfo, table: Map<char, String>) -> Seq<char> {
    concat(Seq::new(segs.len(), |i: int| rendered_raw_of(segs, i, theme, table)))
}

/// Whether `out` is a highlighted line that `hl` may give for `segs`: the
/// highlighted texts of the segments one after the other, then `reset`
/// (only after a line that is not empty when `reset_if_empty` is not set).
pub open spec fn line_hl_ok<H: Fn(&str, u64, u64, Option<u64>) -> String>(hl: H, segs: Seq<Segment>, theme: ThemeInfo, table: Map<char, String>, reset: Seq<char>, reset_if_empty: bool, out: Seq<char>) -> bool {
    exists|parts: Seq<Seq<char>>| {
        &&& parts.len() == segs.len()
        &&& (forall|i: int| 0 <= i < segs.len() ==> #[trigger] rendered_hl_ok(hl, segs, i, theme, table, true, parts[i]))
        &&& out == if reset_if_empty || concat(parts).len() > 0 { concat(parts) + reset } else { concat(parts) }
    }
}

/// The widest divider of the theme.
pub open spec fn max_divider(w: DividerWidths) -> nat {
    let a = if w.left_soft >= w.left_hard { w.left_soft } else { w.left_hard };
    let b = if w.right_soft >= w.right_hard { w.right_soft } else { w.right_hard };
    (if a >= b { a } else { b }) as nat
}

/// A bound on the width that segment `s` can take once prepared, whatever
/// segments stand beside it.
pub open spec fn segment_bound(s: Segment, theme: ThemeInfo, w: DividerWidths) -> nat {
    (if s.literal_width as nat >= 2 * s.contents@.len() { s.literal_width as nat } else { 2 * s.contents@.len() }) + theme.outer_padding as nat + max_divider(w) + theme.spaces as nat
}

/// The sum of the bounds of the first `n` segments.
pub open spec fn bounds_sum(segs: Seq<Segment>, n: int, theme: ThemeInfo, w: DividerWidths) -> nat
    decreases n,
{
    if n <= 0 {
        0
    } else {
        bounds_sum(segs, n - 1, theme, w) + segment_bound(segs[n - 1], theme, w)
    }
}

proof fn lemma_translated_len(s: Seq<char>)
    ensures
        translated(s).len() <= 2 * s.len(),
    decreases s.len(),
{
    if s.len() > 0 {
        lemma_translated_len(s.drop_last());
        vstd::utf8::char_is_scalar(s.last());
        assert(!crate::renderer::is_invalid_code(s.last() as u32));
    }
}

/// Whether `b` is `a` prepared: translated contents, and the contents'
/// width recorded when `calc` is set.
pub open spec fn prepared_from(a: Segment, b: Segment, calc: bool) -> bool {
    &&& b.contents@ == translated(a.contents@)
    &&& b.contents_len == if calc {
        if is_literal(a) { a.literal_width as int } else { translated(a.contents@).len() as int }
    } else {
        a.contents_len as int
    }
    &&& b.literal_width == a.literal_width && b.literal_text == a.literal_text && b.side == a.side
    &&& b.highlight == a.highlight && b.divider_highlight == a.divider_highlight
    &&& b.draw_soft_divider == a.draw_soft_divider && b.draw_hard_divider == a.draw_hard_divider
    &&& b.priority == a.priority && b.has_truncate == a.has_truncate && b.has_expand == a.has_expand
    &&& b.len == a.len && b.rendered_raw == a.rendered_raw && b.rendered_hl == a.rendered_hl
}

/// The width of any segments kept out of prepared ones stays within the
/// sum of the bounds of the segments they were prepared from.
proof fn lemma_kept_width_bound(orig: Seq<Segment>, prep: Seq<Segment>, kept: Seq<bool>, theme: ThemeInfo, w: DividerWidths)
    requires
        orig.len() == prep.len(),
        kept.len() == prep.len(),
        forall|i: int| 0 <= i < prep.len() ==> prepared_from(#[trigger] orig[i], prep[i], true),
    ensures
        line_width(kept_segs(prep, kept), theme, w) <= bounds_sum(orig, orig.len() as int, theme, w),
{
    let ks = kept_segs(prep, kept);
    assert(prep.take(prep.len() as int) =~= prep);
    lemma_kept_from(prep, kept);
    lemma_widths_below(ks, ks.len() as int, theme, w);
    lemma_kept_bounds(orig, prep, kept, prep.len() as int, theme, w);
}

/// Each kept segment is one of the segments, in order.
proof fn lemma_kept_from(prep: Seq<Segment>, kept: Seq<bool>)
    requires
        kept.len() >= prep.len(),
    ensures
        kept_segs(prep, kept).len() <= prep.len(),
    decreases prep.len(),
{
    if prep.len() > 0 {
        lemma_kept_from(prep.drop_last(), kept);
    }
}

/// The width of the first `n` segments is at most the sum of their
/// contents' widths and the widest padding and divider for each.
proof fn lemma_widths_below(ks: Seq<Segment>, n: int, theme: ThemeInfo, w: DividerWidths)
    requires
        0 <= n <= ks.len(),
    ensures
        widths_sum(ks, n, theme, w) <= prepared_bounds_sum(ks, n, theme, w),
    decreases n,
{
    if n > 0 {
        lemma_widths_below(ks, n - 1, theme, w);
        let i = n - 1;
        assert(divider_width(ks, i, theme.empty_highlight, w) <= max_divider(w));
    }
}

/// The sum, over the first `n` segments, of each one's contents width with
/// the widest padding and divider.
pub open spec fn prepared_bounds_sum(segs: Seq<Segment>, n: int, theme: ThemeInfo, w: DividerWidths) -> nat
    decreases n,
{
    if n <= 0 {
        0
    } else {
        prepared_bounds_sum(segs, n - 1, theme, w) + segs[n - 1].contents_len as nat + theme.outer_padding as nat + max_divider(w) + theme.spaces as nat
    }
}

proof fn lemma_kept_bounds(orig: Seq<Segment>, prep: Seq<Segment>, kept: Seq<bool>, n: int, theme: ThemeInfo, w: DividerWidths)
    requires
        orig.len() == prep.len(),
        kept.len() == prep.len(),
        0 <= n <= prep.len(),
        forall|i: int| 0 <= i < prep.len() ==> prepared_from(#[trigger] orig[i], prep[i], true),
    ensures
        prepared_bounds_sum(kept_segs(prep.take(n), kept), kept_segs(prep.take(n), kept).len() as int, theme, w) <= bounds_sum(orig, n, theme, w),
    decreases n,
{
    if n > 0 {
        let t = prep.take(n);
        assert(t.drop_last() =~= prep.take(n - 1));
        lemma_kept_bounds(orig, prep, kept, n - 1, theme, w);
        let a = orig[n - 1];
        let b = prep[n - 1];
        assert(prepared_from(a, b, true));
        lemma_translated_len(a.contents@);
        let ks0 = kept_segs(prep.take(n - 1), kept);
        if kept[n - 1] {
            let ks = ks0.push(b);
            assert(kept_segs(t, kept) == ks);
            assert(ks.drop_last() =~= ks0);
            lemma_prepared_bounds_prefix(ks, ks0.len() as int, theme, w);
        } else {
            assert(kept_segs(t, kept) == ks0);
        }
    }
    if n == prep.len() {
        assert(prep.take(n) =~= prep);
    }
}

proof fn lemma_prepared_bounds_prefix(ks: Seq<Segment>, m: int, theme: ThemeInfo, w: DividerWidths)
    requires
        0 <= m <= ks.len(),
    ensures
        prepared_bounds_sum(ks, m, theme, w) == prepared_bounds_sum(ks.take(m), m, theme, w),
    decreases m,
{
    if m > 0 {
        lemma_prepared_bounds_prefix(ks, m - 1, theme, w);
        assert(ks.take(m).take(m - 1) =~= ks.take(m - 1));
        lemma_prepared_bounds_prefix(ks.take(m), m - 1, theme, w);
    }
}

proof fn lemma_kept_all(segs: Seq<Segment>, kept: Seq<bool>)
    requires
        kept.len() >= segs.len(),
        forall|i: int| 0 <= i < segs.len() ==> kept[i],
    ensures
        kept_segs(segs, kept) == segs,
    decreases segs.len(),
{
    if segs.len() > 0 {
        lemma_kept_all(segs.drop_last(), kept);
        assert(segs.drop_last().push(segs.last()) =~= segs);
    }
}

/// The segments that `kept` keeps, in order.
fn select(segments: &Vec<Segment>, kept: &Vec<bool>) -> (r: Vec<Segment>)
    requires
        kept@.len() == segments@.len(),
    ensures
        r@ == kept_segs(segments@, kept@),
{
    let mut out: Vec<Segment> = Vec::new();
    let mut i: usize = 0;
    while i < segments.len()
        invariant
            i <= segments.len(),
            kept@.len() == segments@.len(),
            out@ == kept_segs(segments@.take(i as int), kept@),
        decreases segments.len() - i,
    {
        assert(segments@.take(i + 1).drop_last() =~= segments@.take(i as int));
        if kept[i] {
            out.push(segments[i].clone_segment());
        }
        i = i + 1;
    }
    assert(segments@.take(segments.len() as int) =~= segments@);
    out
}

/// The highlighted texts of the segments, one after the other.
fn join_hl(segments: &Vec<Segment>) -> (r: Vec<char>)
    ensures
        r@ == concat(Seq::new(segments@.len(), |i: int| segments@[i].rendered_hl@)),
{
    let ghost parts = Seq::new(segments@.len(), |i: int| segments@[i].rendered_hl@);
    let mut out: Vec<char> = Vec::new();
    let mut i: usize = 0;
    while i < segments.len()
        invariant
            i <= segments.len(),
            parts == Seq::new(segments@.len(), |i: int| segments@[i].rendered_hl@),
            out@ == concat(parts.take(i as int)),
        decreases segments.len() - i,
    {
        let c = chars_of(segments[i].rendered_hl.as_str());
        append_chars(&mut out, &c);
        i = i + 1;
        assert(parts.take(i as int).drop_last() =~= parts.take(i - 1));
    }
    assert(parts.take(segments.len() as int) =~= parts);
    out
}

/// The raw texts of the segments, one after the other.
fn join_raw(segments: &Vec<Segment>) -> (r: Vec<char>)
    ensures
        r@ == concat(Seq::new(segments@.len(), |i: int| segments@[i].rendered_raw@)),
{
    let ghost parts = Seq::new(segments@.len(), |i: int| segments@[i].rendered_raw@);
    let mut out: Vec<char> = Vec::new();
    let mut i: usize = 0;
    while i < segments.len()
        invariant
            i <= segments.len(),
            parts == Seq::new(segments@.len(), |i: int| segments@[i].rendered_raw@),
            out@ == concat(parts.take(i as int)),
        decreases segments.len() - i,
    {
        let c = chars_of(segments[i].rendered_raw.as_str());
        append_chars(&mut out, &c);
        i = i + 1;
        assert(parts.take(i as int).drop_last() =~= parts.take(i - 1));
    }
    assert(parts.take(segments.len() as int) =~= parts);
    out
}

/// Spreads `room` columns on the spacers of `segments`; gives whether there
/// was any spacer.
fn spread_spacers(segments: &mut Vec<Segment>, room: usize) -> (r: bool)
    ensures
        spread_ok(old(segments)@, final(segments)@, room as nat),
        r == (spacer_count(old(segments)@, old(segments)@.len() as int) > 0),
        !r ==> final(segments)@ == old(segments)@,
{
    let ghost segs = segments@;
    let n = segments.len();
    let mut count: usize = 0;
    let mut i: usize = 0;
    while i < n
        invariant
            n == segs.len(),
            segs == segments@,
            i <= n,
            count == spacer_count(segs, i as int),
            count <= i,
        decreases n - i,
    {
        if segments[i].has_expand {
            count = count + 1;
        }
        i = i + 1;
    }
    if count == 0 {
        proof {
            assert forall|k: int| 0 <= k < segs.len() implies #[trigger] segs[k].has_expand == false by {
                lemma_spacer_count_monotone(segs, k + 1, segs.len() as int);
            }
        }
        return false;
    }
    let per = room / count;
    let extra = room % count;
    let mut j: usize = 0;
    let mut i: usize = 0;
    while i < n
        invariant
            n == segs.len(),
            segments@.len() == n,
            i <= n,
            count == spacer_count(segs, n as int),
            count > 0,
            per == room / count,
            extra == room % count,
            j == spacer_count(segs, i as int),
            forall|k: int| i <= k < n ==> #[trigger] segments@[k] == segs[k],
            forall|k: int| 0 <= k < i ==> {
                let (a, b) = (#[trigger] segs[k], segments@[k]);
                &&& b.contents@ == if a.has_expand {
                    a.contents@ + repeat_char(' ', (room as nat / count as nat + if spacer_count(segs, k) < room as nat % count as nat { 1nat } else { 0nat }) as nat)
                } else {
                    a.contents@
                }
                &&& b.literal_width == a.literal_width && b.literal_text == a.literal_text && b.contents_len == a.contents_len
                &&& b.side == a.side && b.highlight == a.highlight && b.divider_highlight == a.divider_highlight
                &&& b.draw_soft_divider == a.draw_soft_divider && b.draw_hard_divider == a.draw_hard_divider
                &&& b.priority == a.priority && b.has_truncate == a.has_truncate && b.has_expand == a.has_expand
            },
        decreases n - i,
    {
        let ghost cur = segments@;
        if segments[i].has_expand {
            proof {
                lemma_spacer_count_monotone(segs, i + 1, n as int);
            }
            let pad_n: usize = if j < extra {
                assert(count >= 2);
                assert(per * 2 <= room) by (nonlinear_arith)
                    requires
                        per == room / count,
                        count >= 2,
                ;
                per + 1
            } else {
                per
            };
            let mut seg = segments[i].clone_segment();
            let mut cs = chars_of(seg.contents.as_str());
            let pad = repeat_chars(' ', pad_n);
            append_chars(&mut cs, &pad);
            seg.contents = string_of(&cs);
            segments.set(i, seg);
            j = j + 1;
        }
        proof {
            assert forall|k: int| i < k < n implies #[trigger] segments@[k] == segs[k] by {
                assert(segments@[k] == cur[k]);
            }
        }
        i = i + 1;
    }
    true
}

proof fn lemma_spacer_count_monotone(segs: Seq<Segment>, a: int, b: int)
    requires
        0 <= a <= b,
    ensures
        spacer_count(segs, a) <= spacer_count(segs, b),
    decreases b - a,
{
    if a < b {
        lemma_spacer_count_monotone(segs, a, b - 1);
    }
}

proof fn lemma_without_ids_step(all: Seq<bool>, order: Seq<usize>, k: int)
    requires
        0 <= k < order.len(),
        order[k] < all.len(),
        all.len() <= usize::MAX,
    ensures
        without_ids(all, order.take(k + 1)) == without_ids(all, order.take(k)).update(order[k] as int, false),
{
    let tk = order.take(k);
    let tk1 = order.take(k + 1);
    let a = without_ids(all, tk1);
    let b = without_ids(all, tk).update(order[k] as int, false);
    assert forall|i: int| 0 <= i < all.len() implies a[i] == b[i] by {
        let iu = i as usize;
        assert(iu as int == i);
        if tk1.contains(iu) {
            let m = choose|m: int| 0 <= m < tk1.len() && #[trigger] tk1[m] == iu;
            if m < k {
                assert(tk[m] == iu);
                assert(tk.contains(iu));
            } else {
                assert(iu == order[k]);
            }
        }
        if tk.contains(iu) {
            let m = choose|m: int| 0 <= m < tk.len() && #[trigger] tk[m] == iu;
            assert(tk1[m] == iu);
            assert(tk1.contains(iu));
        }
        if i == order[k] as int {
            assert(tk1[k] == iu);
            assert(tk1.contains(iu));
        }
    }
    assert(a =~= b);
}

/// Drops segments, in `order`, until the line fits in `width` (see
/// `drop_mask`); gives the segments kept, the kept segments as last
/// measured, and the line's width then.
fn drop_to_fit(theme: &ThemeInfo, prepared: &Vec<Segment>, order: &Vec<usize>, width: usize, dw: &DividerWidths) -> (r: (Vec<bool>, Vec<Segment>, usize))
    requires
        is_priority_order(prepared@, prepared@.len() as int, order@),
        forall|mask: Seq<bool>| mask.len() == prepared@.len() ==> #[trigger] line_width(kept_segs(prepared@, mask), *theme, *dw) <= usize::MAX,
    ensures
        r.0@ == drop_mask(prepared@, order@, width as int, *theme, *dw),
        r.1@.len() == kept_segs(prepared@, r.0@).len(),
        forall|i: int| 0 <= i < r.1@.len() ==> #[trigger] same_input(kept_segs(prepared@, r.0@)[i], r.1@[i]),
        r.2 == line_width(kept_segs(prepared@, r.0@), *theme, *dw),
{
    let ghost segs = prepared@;
    let n = prepared.len();
    let mut kept: Vec<bool> = Vec::new();
    let mut i: usize = 0;
    while i < n
        invariant
            i <= n,
            n == segs.len(),
            kept@.len() == i,
            forall|j: int| 0 <= j < i ==> kept@[j],
        decreases n - i,
    {
        kept.push(true);
        i = i + 1;
    }
    let ghost all = Seq::new(n as nat, |j: int| true);
    assert(kept@ =~= all);
    proof {
        lemma_kept_all(segs, kept@);
    }
    let mut cur = select(prepared, &kept);
    let ghost first = cur@;
    assert(first == segs);
    let mut cw = _render_length(theme, &mut cur, dw);
    assert(kept_segs(segs, kept@) == segs);
    if cw <= width {
        return (kept, cur, cw);
    }
    let ghost widths = first_widths(segs, *theme, *dw);
    let ghost diff0: int = cw - width;
    let mut k: usize = 0;
    if n > 100 {
        let mut rem: usize = cw - width;
        let mut done = false;
        assert(order@.skip(0) =~= order@);
        assert(order@.take(0) =~= Seq::<usize>::empty());
        assert(without_ids(all, order@.take(0)) =~= all);
        while k < order.len() && !done
            invariant
                n == segs.len(),
                k <= order@.len(),
                kept@.len() == n,
                cur@.len() == n,
                is_priority_order(segs, n as int, order@),
                forall|j: int| 0 <= j < n ==> #[trigger] cur@[j].len == widths[j],
                widths == first_widths(segs, *theme, *dw),
                kept@ == without_ids(all, order@.take(k as int)),
                !done ==> rem > 0 && quick_drop_count(order@, widths, diff0) == k + quick_drop_count(order@.skip(k as int), widths, rem as int),
                done ==> quick_drop_count(order@, widths, diff0) == k,
            decreases order@.len() - k,
        {
            let id = order[k];
            assert(order@[k as int] == id);
            let wid = cur[id].len;
            proof {
                assert(all.len() == n);
                lemma_without_ids_step(all, order@, k as int);
                assert(order@.skip(k as int).drop_first() =~= order@.skip(k + 1));
                assert(order@.skip(k as int)[0] == id);
            }
            kept.set(id, false);
            k = k + 1;
            if wid >= rem {
                done = true;
            } else {
                rem = rem - wid;
            }
        }
        proof {
            if !done {
                assert(order@.skip(k as int).len() == 0);
            }
        }
        cur = select(prepared, &kept);
        assert(line_width(kept_segs(segs, kept@), *theme, *dw) <= usize::MAX);
        cw = _render_length(theme, &mut cur, dw);
    }
    assert(cw == line_width(kept_segs(segs, kept@), *theme, *dw));
    assert(cur@.len() == kept_segs(segs, kept@).len());
    assert(forall|j: int| 0 <= j < cur@.len() ==> #[trigger] same_input(kept_segs(segs, kept@)[j], cur@[j]));
    let ghost k1 = k as int;
    let ghost kept1 = kept@;
    assert(kept1 == without_ids(all, order@.take(k1)));
    if cw > width {
        let mut done = false;
        while k < order.len() && !done
            invariant
                n == segs.len(),
                segs == prepared@,
                k1 <= k <= order@.len(),
                kept@.len() == n,
                is_priority_order(segs, n as int, order@),
                forall|mask: Seq<bool>| mask.len() == segs.len() ==> #[trigger] line_width(kept_segs(segs, mask), *theme, *dw) <= usize::MAX,
                cw == line_width(kept_segs(segs, kept@), *theme, *dw),
                cur@.len() == kept_segs(segs, kept@).len(),
                forall|j: int| 0 <= j < cur@.len() ==> #[trigger] same_input(kept_segs(segs, kept@)[j], cur@[j]),
                !done ==> cw > width && careful_drop(segs, kept1, order@.skip(k1), width as int, *theme, *dw) == careful_drop(segs, kept@, order@.skip(k as int), width as int, *theme, *dw),
                done ==> careful_drop(segs, kept1, order@.skip(k1), width as int, *theme, *dw) == kept@,
            decreases order@.len() - k,
        {
            let id = order[k];
            proof {
                assert(order@.skip(k as int).drop_first() =~= order@.skip(k + 1));
                assert(order@.skip(k as int)[0] == id);
            }
            kept.set(id, false);
            k = k + 1;
            cur = select(prepared, &kept);
            assert(line_width(kept_segs(segs, kept@), *theme, *dw) <= usize::MAX);
            cw = _render_length(theme, &mut cur, dw);
            if cw <= width {
                done = true;
            }
        }
        proof {
            if !done {
                assert(order@.skip(k as int).len() == 0);
            }
        }
    }
    (kept, cur, cw)
}

proof fn lemma_plain_range(segs: Seq<Segment>, from: int)
    ensures
        next_plain(segs, from) matches Some(j) ==> from <= j < segs.len(),
    decreases segs.len() - from,
{
    if 0 <= from < segs.len() && is_literal(segs[from]) {
        lemma_plain_range(segs, from + 1);
    }
}

proof fn lemma_prev_range(segs: Seq<Segment>, to: int)
    ensures
        prev_plain(segs, to) matches Some(j) ==> 0 <= j < to,
    decreases to,
{
    if 0 < to <= segs.len() && is_literal(segs[to - 1]) {
        lemma_prev_range(segs, to - 1);
    }
}

/// Segments with the same inputs take the same width on the line.
proof fn lemma_line_width_same_input(a: Seq<Segment>, b: Seq<Segment>, theme: ThemeInfo, w: DividerWidths)
    requires
        a.len() == b.len(),
        forall|i: int| 0 <= i < a.len() ==> #[trigger] same_input(a[i], b[i]),
    ensures
        line_width(a, theme, w) == line_width(b, theme, w),
{
    assert forall|k: int| 0 <= k <= a.len() implies next_plain(b, k) == next_plain(a, k) && prev_plain(b, k) == prev_plain(a, k) by {
        lemma_plain_same(a, b, k);
    }
    lemma_widths_sum_same(a, b, a.len() as int, theme, w);
}

proof fn lemma_widths_sum_same(a: Seq<Segment>, b: Seq<Segment>, n: int, theme: ThemeInfo, w: DividerWidths)
    requires
        a.len() == b.len(),
        0 <= n <= a.len(),
        forall|i: int| 0 <= i < a.len() ==> #[trigger] same_input(a[i], b[i]),
        forall|k: int| 0 <= k <= a.len() ==> next_plain(b, k) == next_plain(a, k) && prev_plain(b, k) == prev_plain(a, k),
    ensures
        widths_sum(a, n, theme, w) == widths_sum(b, n, theme, w),
    decreases n,
{
    if n > 0 {
        lemma_widths_sum_same(a, b, n - 1, theme, w);
        let i = n - 1;
        assert(same_input(a[i], b[i]));
        assert(next_plain(b, i + 1) == next_plain(a, i + 1));
        assert(prev_plain(b, i) == prev_plain(a, i));
        assert(next_plain(b, 0) == next_plain(a, 0));
        assert(prev_plain(b, b.len() as int) == prev_plain(a, a.len() as int));
        lemma_plain_range(a, i + 1);
        lemma_prev_range(a, i);
        match next_plain(a, i + 1) {
            Some(j) => { assert(same_input(a[j], b[j])); },
            None => {},
        }
        match prev_plain(a, i) {
            Some(j) => { assert(same_input(a[j], b[j])); },
            None => {},
        }
        assert(segment_width(a, i, theme, w) == segment_width(b, i, theme, w));
    }
}

/// Whether `r` is what rendering the laid-out segments `segs` gives: the
/// highlighted line, the raw line when asked for, and `width_value` as the
/// width when asked for.
pub open spec fn result_ok<H: Fn(&str, u64, u64, Option<u64>) -> String>(
    r: crate::renderer::RenderReturn,
    hl: H,
    segs: Seq<Segment>,
    theme: ThemeInfo,
    table: Map<char, String>,
    reset: Seq<char>,
    reset_if_empty: bool,
    output_raw: bool,
    output_width: bool,
    width_value: int,
) -> bool {
    match r {
        crate::renderer::RenderReturn::Plain(h) => !output_raw && !output_width && line_hl_ok(hl, segs, theme, table, reset, reset_if_empty, h@),
        crate::renderer::RenderReturn::Tuple { highlighted, raw, width } => {
            &&& output_raw || output_width
            &&& line_hl_ok(hl, segs, theme, table, reset, reset_if_empty, highlighted@)
            &&& if output_raw { raw matches Some(x) && x@ == line_raw(segs, theme, table) } else { raw is None }
            &&& if output_width { width matches Some(v) && v == width_value } else { width is None }
        },
    }
}

/// Whether `segs` are the rendered segments `rendered` (their last
/// rendering) hold.
pub open spec fn rendered_from<H: Fn(&str, u64, u64, Option<u64>) -> String>(hl: H, segs: Seq<Segment>, rendered: Seq<Segment>, theme: ThemeInfo, table: Map<char, String>) -> bool {
    &&& rendered.len() == segs.len()
    &&& forall|i: int| 0 <= i < segs.len() ==> #[trigger] rendered_hl_ok(hl, segs, i, theme, table, true, rendered[i].rendered_hl@)
    &&& forall|i: int| 0 <= i < segs.len() ==> #[trigger] rendered[i].rendered_raw@ == rendered_raw_of(segs, i, theme, table)
}

impl Renderer {
    /// Puts the rendered texts together into the result.
    fn assemble<H: Fn(&str, u64, u64, Option<u64>) -> String>(
        &self,
        theme: &ThemeInfo,
        segs: Ghost<Seq<Segment>>,
        rendered: &Vec<Segment>,
        hlstyle_reset: &str,
        reset_if_empty: bool,
        output_raw: bool,
        output_width: bool,
        current_width: usize,
        hl_fn: &H,
    ) -> (r: crate::renderer::RenderReturn)
        requires
            rendered_from(*hl_fn, segs@, rendered@, *theme, self.character_translations@),
        ensures
            result_ok(r, *hl_fn, segs@, *theme, self.character_translations@, hlstyle_reset@, reset_if_empty, output_raw, output_width, current_width as int),
    {
        let ghost table = self.character_translations@;
        let mut h = join_hl(rendered);
        let ghost parts = Seq::new(rendered@.len(), |i: int| rendered@[i].rendered_hl@);
        if reset_if_empty || h.len() > 0 {
            let rc = chars_of(hlstyle_reset);
            append_chars(&mut h, &rc);
        }
        proof {
            assert(parts.len() == segs@.len());
            assert forall|i: int| 0 <= i < segs@.len() implies #[trigger] rendered_hl_ok(*hl_fn, segs@, i, *theme, table, true, parts[i]) by {
                assert(rendered_hl_ok(*hl_fn, segs@, i, *theme, table, true, rendered@[i].rendered_hl@));
            }
            assert(line_hl_ok(*hl_fn, segs@, *theme, table, hlstyle_reset@, reset_if_empty, h@));
        }
        let raw = if output_raw {
            let rw = join_raw(rendered);
            assert(Seq::new(rendered@.len(), |i: int| rendered@[i].rendered_raw@) =~= Seq::new(segs@.len(), |i: int| rendered_raw_of(segs@, i, *theme, table)));
            Some(string_of(&rw))
        } else {
            None
        };
        crate::renderer::construct_returned_value(string_of(&h), raw, current_width, output_raw, output_width)
    }
}

impl Renderer {
    /// Renders a line with the theme that `matcher_info` selects (the
    /// renderer's own: see `get_theme`); `segments` are those that theme
    /// gives for the line. What it gives is what `do_render` gives.
    pub fn render<H: Fn(&str, u64, u64, Option<u64>) -> String>(
        &self,
        width: Option<usize>,
        output_raw: bool,
        output_width: bool,
        matcher_info: Option<&JsonValue>,
        theme: &ThemeInfo,
        segments: Vec<Segment>,
        hlstyle_reset: &str,
        hl_fn: &H,
    ) -> (r: crate::renderer::RenderReturn)
        requires
            self.character_translations.wf(),
            forall|t: &str, fg: u64, bg: u64, a: Option<u64>| call_requires(*hl_fn, (t, fg, bg, a)),
            bounds_sum(segments@, segments@.len() as int, *theme, divider_widths_of(*theme)) <= usize::MAX,
        ensures
            render_ok(r, *hl_fn, segments@, width, output_raw, output_width, *theme, self.character_translations@, hlstyle_reset@),
    {
        let _selected = self.get_theme(matcher_info);
        self.do_render(width, output_raw, output_width, theme, segments, hlstyle_reset, hl_fn)
    }
}

/// The room left on a line of `width` columns by segments `cw` wide.
pub open spec fn room_left(width: int, cw: int) -> int {
    if width >= cw { width - cw } else { 0 }
}

/// Whether `r` is what laying out and rendering `segs` on a line of
/// `width` columns gives, with `prepared` the prepared segments, `order`
/// the order in which they may be dropped and `fin` the segments rendered.
pub open spec fn laid_out<H: Fn(&str, u64, u64, Option<u64>) -> String>(
    r: crate::renderer::RenderReturn,
    hl: H,
    segs: Seq<Segment>,
    width: Option<usize>,
    output_raw: bool,
    output_width: bool,
    theme: ThemeInfo,
    table: Map<char, String>,
    reset: Seq<char>,
    prepared: Seq<Segment>,
    order: Seq<usize>,
    fin: Seq<Segment>,
) -> bool {
    let w = divider_widths_of(theme);
    let calc = output_width || width is Some;
    &&& prepared.len() == segs.len()
    &&& (forall|i: int| 0 <= i < segs.len() ==> #[trigger] prepared_from(segs[i], prepared[i], calc))
    &&& match width {
        None => {
            &&& fin.len() == prepared.len()
            &&& (forall|i: int| 0 <= i < fin.len() ==> #[trigger] same_input(prepared[i], fin[i]))
            &&& result_ok(r, hl, fin, theme, table, reset, true, output_raw, output_width, if output_width { line_width(prepared, theme, w) as int } else { 0 })
        },
        Some(wd) => {
            let kept = kept_segs(prepared, drop_mask(prepared, order, wd as int, theme, w));
            let cw = line_width(kept, theme, w) as int;
            &&& is_priority_order(prepared, prepared.len() as int, order)
            &&& spread_ok(kept, fin, room_left(wd as int, cw) as nat)
            &&& result_ok(r, hl, fin, theme, table, reset, false, output_raw, output_width, if spacer_count(kept, kept.len() as int) > 0 { wd as int } else { cw })
        },
    }
}

/// Whether `r` is what laying out and rendering `segs` on a line of
/// `width` columns gives (see `do_render`).
pub open spec fn render_ok<H: Fn(&str, u64, u64, Option<u64>) -> String>(
    r: crate::renderer::RenderReturn,
    hl: H,
    segs: Seq<Segment>,
    width: Option<usize>,
    output_raw: bool,
    output_width: bool,
    theme: ThemeInfo,
    table: Map<char, String>,
    reset: Seq<char>,
) -> bool {
    exists|prepared: Seq<Segment>, order: Seq<usize>, fin: Seq<Segment>| #[trigger] laid_out(r, hl, segs, width, output_raw, output_width, theme, table, reset, prepared, order, fin)
}

impl Renderer {
    /// Renders a line of `segments` (as the theme gives them for the line):
    /// prepares them; without a `width`, renders them all; with one, drops
    /// segments in the order of their priorities until the line fits (see
    /// `drop_mask`), spreads the room left on the spacers, and renders what
    /// is left. The highlighted line ends with `hlstyle_reset` (when not
    /// empty, with a width). Gives the highlighted line, and the raw line
    /// and the width when asked for.
    pub fn do_render<H: Fn(&str, u64, u64, Option<u64>) -> String>(
        &self,
        width: Option<usize>,
        output_raw: bool,
        output_width: bool,
        theme: &ThemeInfo,
        segments: Vec<Segment>,
        hlstyle_reset: &str,
        hl_fn: &H,
    ) -> (r: crate::renderer::RenderReturn)
        requires
            self.character_translations.wf(),
            forall|t: &str, fg: u64, bg: u64, a: Option<u64>| call_requires(*hl_fn, (t, fg, bg, a)),
            bounds_sum(segments@, segments@.len() as int, *theme, divider_widths_of(*theme)) <= usize::MAX,
        ensures
            render_ok(r, *hl_fn, segments@, width, output_raw, output_width, *theme, self.character_translations@, hlstyle_reset@),
    {
        let ghost orig = segments@;
        let ghost table = self.character_translations@;
        let calc = output_width || width.is_some();
        let mut prepared = segments;
        Self::_prepare_segments(&mut prepared, calc);
        let ghost prep = prepared@;
        let dw = compute_divider_widths(theme);
        proof {
            if calc {
                assert forall|mask: Seq<bool>| mask.len() == prep.len() implies #[trigger] line_width(kept_segs(prep, mask), *theme, dw) <= usize::MAX by {
                    assert forall|i: int| 0 <= i < prep.len() implies prepared_from(#[trigger] orig[i], prep[i], true) by {}
                    lemma_kept_width_bound(orig, prep, mask, *theme, dw);
                }
            }
        }
        match width {
            None => {
                let mut cur = copy_segments(&prepared);
                let mut current_width: usize = 0;
                if output_width {
                    let ghost all = Seq::new(prep.len(), |i: int| true);
                    proof {
                        lemma_kept_all(prep, all);
                        assert(line_width(kept_segs(prep, all), *theme, dw) <= usize::MAX);
                    }
                    current_width = _render_length(theme, &mut cur, &dw);
                }
                let ghost fin = cur@;
                let rendered = self._render_segments(theme, &mut cur, true, hl_fn);
                proof {
                    lemma_rendered_from(*hl_fn, fin, cur@, rendered@, *theme, table);
                }
                let r = self.assemble(theme, Ghost(fin), &rendered, hlstyle_reset, true, output_raw, output_width, current_width, hl_fn);
                proof {
                    assert(forall|i: int| 0 <= i < fin.len() ==> #[trigger] same_input(prep[i], fin[i]));
                    assert(laid_out(r, *hl_fn, orig, width, output_raw, output_width, *theme, table, hlstyle_reset@, prep, Seq::<usize>::empty(), fin));
                }
                r
            },
            Some(wd) => {
                let order = priority_order(&prepared);
                let (kept, mut cur, mut current_width) = drop_to_fit(theme, &prepared, &order, wd, &dw);
                let ghost kept_seq = kept_segs(prep, kept@);
                let ghost cw = current_width;
                let ghost before_spread = cur@;
                let room: usize = if wd >= current_width { wd - current_width } else { 0 };
                let had_spacers = spread_spacers(&mut cur, room);
                let ghost after_spread = cur@;
                proof {
                    lemma_spread_transfer(kept_seq, before_spread, after_spread, room as nat);
                }
                if had_spacers {
                    current_width = wd;
                } else if output_width {
                    proof {
                        lemma_line_width_same_input(kept_seq, before_spread, *theme, dw);
                    }
                    current_width = _render_length(theme, &mut cur, &dw);
                }
                let ghost fin = cur@;
                proof {
                    assert(fin.len() == after_spread.len());
                    assert(forall|i: int| 0 <= i < fin.len() ==> #[trigger] same_input(after_spread[i], fin[i]));
                    lemma_spread_same_input(kept_seq, after_spread, fin, room as nat);
                    assert(room as int == room_left(wd as int, cw as int));
                    assert(current_width as int == if spacer_count(kept_seq, kept_seq.len() as int) > 0 { wd as int } else { cw as int });
                }
                let rendered = self._render_segments(theme, &mut cur, true, hl_fn);
                proof {
                    lemma_rendered_from(*hl_fn, fin, cur@, rendered@, *theme, table);
                }
                let r = self.assemble(theme, Ghost(fin), &rendered, hlstyle_reset, false, output_raw, output_width, current_width, hl_fn);
                proof {
                    assert(laid_out(r, *hl_fn, orig, width, output_raw, output_width, *theme, table, hlstyle_reset@, prep, order@, fin));
                }
                r
            },
        }
    }

    /// The lines above the last one, from the line just above it up to
    /// the second: `lines` holds the segments of each line, the first line
    /// first, and each line of index 1 and up is rendered as `do_render`
    /// renders it, the last first.
    pub fn render_above_lines<H: Fn(&str, u64, u64, Option<u64>) -> String>(
        &self,
        width: Option<usize>,
        output_raw: bool,
        output_width: bool,
        theme: &ThemeInfo,
        lines: Vec<Vec<Segment>>,
        hlstyle_reset: &str,
        hl_fn: &H,
    ) -> (r: Vec<crate::renderer::RenderReturn>)
        requires
            self.character_translations.wf(),
            forall|t: &str, fg: u64, bg: u64, a: Option<u64>| call_requires(*hl_fn, (t, fg, bg, a)),
            forall|l: int| 0 <= l < lines@.len() ==> bounds_sum(#[trigger] lines@[l]@, lines@[l]@.len() as int, *theme, divider_widths_of(*theme)) <= usize::MAX,
        ensures
            r@.len() == if lines@.len() == 0 { 0 } else { lines@.len() - 1 },
            forall|k: int| 0 <= k < r@.len() ==> render_ok(#[trigger] r@[k], *hl_fn, lines@[lines@.len() - 1 - k]@, width, output_raw, output_width, *theme, self.character_translations@, hlstyle_reset@),
    {
        let ghost all = lines@;
        let mut rest = lines;
        let mut out: Vec<crate::renderer::RenderReturn> = Vec::new();
        while rest.len() > 1
            invariant
                self.character_translations.wf(),
                forall|t: &str, fg: u64, bg: u64, a: Option<u64>| call_requires(*hl_fn, (t, fg, bg, a)),
                forall|l: int| 0 <= l < all.len() ==> bounds_sum(#[trigger] all[l]@, all[l]@.len() as int, *theme, divider_widths_of(*theme)) <= usize::MAX,
                rest@.len() <= all.len(),
                all.len() > 0 ==> rest@.len() >= 1,
                rest@ == all.take(rest@.len() as int),
                out@.len() == all.len() - rest@.len(),
                forall|k: int| 0 <= k < out@.len() ==> render_ok(#[trigger] out@[k], *hl_fn, all[all.len() - 1 - k]@, width, output_raw, output_width, *theme, self.character_translations@, hlstyle_reset@),
            decreases rest@.len(),
        {
            let ghost n = rest@.len() as int;
            let segments = match rest.pop() {
                Some(s) => s,
                None => Vec::new(),
            };
            assert(segments == all[n - 1]);
            assert(rest@ =~= all.take(n - 1));
            let rendered = self.do_render(width, output_raw, output_width, theme, segments, hlstyle_reset, hl_fn);
            out.push(rendered);
        }
        out
    }
}

/// A spreading stays true of segments with the same inputs.
proof fn lemma_spread_same_input(kept: Seq<Segment>, after: Seq<Segment>, fin: Seq<Segment>, room: nat)
    requires
        spread_ok(kept, after, room),
        fin.len() == after.len(),
        forall|i: int| 0 <= i < fin.len() ==> #[trigger] same_input(after[i], fin[i]),
    ensures
        spread_ok(kept, fin, room),
{
    let cnt = spacer_count(kept, kept.len() as int);
    assert forall|i: int| 0 <= i < kept.len() implies {
        let (a, b) = (#[trigger] kept[i], fin[i]);
        &&& b.contents@ == if a.has_expand {
            a.contents@ + repeat_char(' ', (room / cnt + if spacer_count(kept, i) < room % cnt { 1nat } else { 0nat }) as nat)
        } else {
            a.contents@
        }
        &&& b.literal_width == a.literal_width && b.literal_text == a.literal_text && b.contents_len == a.contents_len
        &&& b.side == a.side && b.highlight == a.highlight && b.divider_highlight == a.divider_highlight
        &&& b.draw_soft_divider == a.draw_soft_divider && b.draw_hard_divider == a.draw_hard_divider
        &&& b.priority == a.priority && b.has_truncate == a.has_truncate && b.has_expand == a.has_expand
    } by {
        assert(same_input(after[i], fin[i]));
    }
}

/// Spreading works on the segments' inputs alone: it can be stated of any
/// segments with the same inputs.
proof fn lemma_spread_transfer(kept: Seq<Segment>, before: Seq<Segment>, after: Seq<Segment>, room: nat)
    requires
        kept.len() == before.len(),
        forall|i: int| 0 <= i < kept.len() ==> #[trigger] same_input(kept[i], before[i]),
        spread_ok(before, after, room),
    ensures
        spread_ok(kept, after, room),
        spacer_count(kept, kept.len() as int) == spacer_count(before, before.len() as int),
{
    assert forall|n: int| 0 <= n <= kept.len() implies #[trigger] spacer_count(kept, n) == spacer_count(before, n) by {
        lemma_spacer_count_same(kept, before, n);
    }
    let cnt = spacer_count(kept, kept.len() as int);
    assert(cnt == spacer_count(before, before.len() as int));
    assert forall|i: int| 0 <= i < kept.len() implies {
        let (a, b) = (#[trigger] kept[i], after[i]);
        &&& b.contents@ == if a.has_expand {
            a.contents@ + repeat_char(' ', (room / cnt + if spacer_count(kept, i) < room % cnt { 1nat } else { 0nat }) as nat)
        } else {
            a.contents@
        }
        &&& b.literal_width == a.literal_width && b.literal_text == a.literal_text && b.contents_len == a.contents_len
        &&& b.side == a.side && b.highlight == a.highlight && b.divider_highlight == a.divider_highlight
        &&& b.draw_soft_divider == a.draw_soft_divider && b.draw_hard_divider == a.draw_hard_divider
        &&& b.priority == a.priority && b.has_truncate == a.has_truncate && b.has_expand == a.has_expand
    } by {
        assert(same_input(kept[i], before[i]));
        assert(spacer_count(kept, i) == spacer_count(before, i));
        let x = before[i];
        assert(x == before[i]);
    }
}

proof fn lemma_spacer_count_same(a: Seq<Segment>, b: Seq<Segment>, n: int)
    requires
        a.len() == b.len(),
        0 <= n <= a.len(),
        forall|i: int| 0 <= i < a.len() ==> #[trigger] same_input(a[i], b[i]),
    ensures
        spacer_count(a, n) == spacer_count(b, n),
    decreases n,
{
    if n > 0 {
        lemma_spacer_count_same(a, b, n - 1);
        assert(same_input(a[n - 1], b[n - 1]));
    }
}

proof fn lemma_rendered_from<H: Fn(&str, u64, u64, Option<u64>) -> String>(hl: H, fin: Seq<Segment>, now: Seq<Segment>, rendered: Seq<Segment>, theme: ThemeInfo, table: Map<char, String>)
    requires
        now.len() == fin.len(),
        rendered.len() == fin.len(),
        forall|i: int| 0 <= i < fin.len() ==> #[trigger] same_input(fin[i], now[i])
            && now[i].len == fin[i].len
            && rendered_ok(hl, fin, i, theme, table, true, now[i], rendered[i]),
    ensures
        rendered_from(hl, fin, rendered, theme, table),
{
    assert forall|i: int| 0 <= i < fin.len() implies #[trigger] rendered_hl_ok(hl, fin, i, theme, table, true, rendered[i].rendered_hl@) by {
        assert(same_input(fin[i], now[i]));
    }
    assert forall|i: int| 0 <= i < fin.len() implies #[trigger] rendered[i].rendered_raw@ == rendered_raw_of(fin, i, theme, table) by {
        assert(same_input(fin[i], now[i]));
    }
}


/// The quick pass drops no more segments than the order holds.
proof fn lemma_quick_drop_count_bound(order: Seq<usize>, widths: Seq<nat>, diff: int)
    ensures
        quick_drop_count(order, widths, diff) <= order.len(),
    decreases order.len(),
{
    if order.len() > 0 {
        lemma_quick_drop_count_bound(order.drop_first(), widths, diff - widths[order[0] as int]);
    }
}

/// The careful pass only drops segments, only those of `rest`, and stops
/// with a line that fits or with all of `rest` dropped.
proof fn lemma_careful_drop(segs: Seq<Segment>, kept: Seq<bool>, rest: Seq<usize>, width: int, theme: ThemeInfo, w: DividerWidths)
    requires
        forall|j: int| 0 <= j < rest.len() ==> (#[trigger] rest[j]) < kept.len(),
    ensures
        careful_drop(segs, kept, rest, width, theme, w).len() == kept.len(),
        forall|i: int| 0 <= i < kept.len() && #[trigger] careful_drop(segs, kept, rest, width, theme, w)[i] ==> kept[i],
        forall|i: int| 0 <= i < kept.len() && !rest.contains(i as usize) ==> #[trigger] careful_drop(segs, kept, rest, width, theme, w)[i] == kept[i],
        line_width(kept_segs(segs, careful_drop(segs, kept, rest, width, theme, w)), theme, w) <= width
            || forall|j: int| 0 <= j < rest.len() ==> !careful_drop(segs, kept, rest, width, theme, w)[#[trigger] rest[j] as int],
    decreases rest.len(),
{
    if rest.len() > 0 {
        let k2 = kept.update(rest[0] as int, false);
        if line_width(kept_segs(segs, k2), theme, w) > width {
            let tail = rest.drop_first();
            assert forall|j: int| 0 <= j < tail.len() implies (#[trigger] tail[j]) < k2.len() by {
                assert(tail[j] == rest[j + 1]);
            }
            lemma_careful_drop(segs, k2, tail, width, theme, w);
            let r = careful_drop(segs, kept, rest, width, theme, w);
            assert(r == careful_drop(segs, k2, tail, width, theme, w));
            assert forall|i: int| 0 <= i < kept.len() && !rest.contains(i as usize) implies #[trigger] r[i] == kept[i] by {
                assert(rest[0] != i as usize);
                if tail.contains(i as usize) {
                    let j = choose|j: int| 0 <= j < tail.len() && tail[j] == i as usize;
                    assert(rest[j + 1] == i as usize);
                }
            }
            if !(line_width(kept_segs(segs, r), theme, w) <= width) {
                assert forall|j: int| 0 <= j < rest.len() implies !r[#[trigger] rest[j] as int] by {
                    if j > 0 {
                        assert(rest[j] == tail[j - 1]);
                    }
                }
            }
        } else {
            let r = careful_drop(segs, kept, rest, width, theme, w);
            assert(r == k2);
            assert forall|i: int| 0 <= i < kept.len() && !rest.contains(i as usize) implies #[trigger] r[i] == kept[i] by {
                assert(rest[0] != i as usize);
            }
        }
    }
}

/// On a line of `width` columns, the segments that stay fit in it unless
/// every segment that may be dropped (one with a priority) has been; a
/// segment without a priority always stays.
pub proof fn law_kept_segments_fit(segs: Seq<Segment>, order: Seq<usize>, width: int, theme: ThemeInfo)
    requires
        segs.len() <= usize::MAX,
        is_priority_order(segs, segs.len() as int, order),
    ensures
        ({
            let w = divider_widths_of(theme);
            let kept = drop_mask(segs, order, width, theme, w);
            &&& kept.len() == segs.len()
            &&& forall|i: int| 0 <= i < segs.len() && (#[trigger] segs[i]).priority is None ==> kept[i]
            &&& line_width(kept_segs(segs, kept), theme, w) <= width
                || forall|k: int| 0 <= k < order.len() ==> !kept[#[trigger] order[k] as int]
        }),
{
    let w = divider_widths_of(theme);
    let all = Seq::new(segs.len(), |i: int| true);
    let cw = line_width(segs, theme, w) as int;
    let kept = drop_mask(segs, order, width, theme, w);
    if cw <= width {
        lemma_kept_all(segs, all);
    } else {
        let k: int = if segs.len() > 100 { quick_drop_count(order, first_widths(segs, theme, w), cw - width) as int } else { 0 };
        lemma_quick_drop_count_bound(order, first_widths(segs, theme, w), cw - width);
        let dropped = order.take(k);
        let rest = order.skip(k);
        let kept1 = without_ids(all, dropped);
        assert forall|j: int| 0 <= j < rest.len() implies (#[trigger] rest[j]) < kept1.len() by {
            assert(rest[j] == order[j + k]);
        }
        lemma_careful_drop(segs, kept1, rest, width, theme, w);
        assert forall|i: int| 0 <= i < segs.len() && (#[trigger] segs[i]).priority is None implies kept[i] by {
            if order.contains(i as usize) {
                let j = choose|j: int| 0 <= j < order.len() && order[j] == i as usize;
                assert(segs[order[j] as int].priority is Some);
            }
            if dropped.contains(i as usize) {
                let j = choose|j: int| 0 <= j < dropped.len() && dropped[j] == i as usize;
                assert(order[j] == i as usize);
            }
            if rest.contains(i as usize) {
                let j = choose|j: int| 0 <= j < rest.len() && rest[j] == i as usize;
                assert(order[j + k] == i as usize);
            }
        }
        if !(line_width(kept_segs(segs, kept), theme, w) <= width) {
            let cw1 = line_width(kept_segs(segs, kept1), theme, w) as int;
            assert(cw1 > width);
            assert(kept == careful_drop(segs, kept1, rest, width, theme, w));
            assert forall|m: int| 0 <= m < order.len() implies !kept[#[trigger] order[m] as int] by {
                if m < k {
                    assert(dropped[m] == order[m]);
                    assert(dropped.contains(order[m]));
                    assert(!kept1[order[m] as int]);
                } else {
                    assert(rest[m - k] == order[m]);
                }
            }
        }
    }
}

} // verus!
