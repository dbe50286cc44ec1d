//! Error marks that carry the source text, the snippets they print, and the
//! formatting of lint errors from a context and a problem with their marks.

use vstd::prelude::*;
use crate::regex_calls::{escape_non_printable, has_non_printable, regex_match, regex_replace_all_hex};
use crate::text::{
    append_chars, append_str, chars_of, decimal, decimal_chars, hex, hex_chars, join_seqs,
    join_strings, repeat_char, repeat_chars, slice_chars, str_eq, string_of, string_views,
    zero_pad, zero_pad_chars,
};

verus! {

/// The characters that lint messages show escaped: control characters
/// other than tab, newline and carriage return, and DEL.
pub const NON_PRINTABLE_PATTERN: &'static str = "[\\x00-\\x08\\x0B\\x0C\\x0E-\\x1F\\x7F]";

/// Whether `text` holds a character of `NON_PRINTABLE_PATTERN`.
pub fn non_printable_match(text: &str) -> (r: bool)
    ensures
        r == has_non_printable(text@),
{
    regex_match(NON_PRINTABLE_PATTERN, text)
}

/// The `<xNNNN>` escape of a character code.
pub open spec fn hex_escape(code: nat) -> Seq<char> {
    "<x"@ + zero_pad(hex(code), 4) + ">"@
}

/// The escape of the first character of `matched` (of code 0 when empty).
pub open spec fn repl_spec(matched: Seq<char>) -> Seq<char> {
    hex_escape(if matched.len() > 0 { (matched[0] as u32) as nat } else { 0 })
}

/// The `<xNNNN>` escape of the first character of `matched`.
pub fn repl(matched: &str) -> (r: String)
    ensures
        r@ == repl_spec(matched@),
{
    let cs = chars_of(matched);
    let code: u32 = if cs.len() > 0 { cs[0] as u32 } else { 0 };
    let h = hex_chars(code);
    let padded = zero_pad_chars(&h, 4);
    let mut out = chars_of("<x");
    append_chars(&mut out, &padded);
    append_str(&mut out, ">");
    string_of(&out)
}

/// `s` with every tab written as `>---`.
pub open spec fn replace_tabs(s: Seq<char>) -> Seq<char>
    decreases s.len(),
{
    if s.len() == 0 {
        Seq::empty()
    } else {
        let rest = replace_tabs(s.drop_last());
        if s.last() == '\t' {
            rest + ">---"@
        } else {
            rest.push(s.last())
        }
    }
}

/// The printable form of `s`: tabs become `>---`, then the non-printable
/// characters become `<xNNNN>` escapes.
pub open spec fn strtrans_spec(s: Seq<char>) -> Seq<char> {
    escape_non_printable(replace_tabs(s))
}

/// The printable form of `s`.
pub fn strtrans(s: &str) -> (r: String)
    ensures
        r@ == strtrans_spec(s@),
{
    let cs = chars_of(s);
    let mut out: Vec<char> = Vec::new();
    let mut i: usize = 0;
    while i < cs.len()
        invariant
            i <= cs.len(),
            out@ == replace_tabs(cs@.take(i as int)),
        decreases cs.len() - i,
    {
        assert(cs@.take(i + 1).drop_last() =~= cs@.take(i as int));
        if cs[i] == '\t' {
            append_str(&mut out, ">---");
        } else {
            out.push(cs[i]);
        }
        i = i + 1;
    }
    assert(cs@.take(cs.len() as int) =~= cs@);
    let tabs = string_of(&out);
    regex_replace_all_hex(NON_PRINTABLE_PATTERN, tabs.as_str())
}

/// A mark in a named source that may carry the source text, the mark whose
/// value it replaced, and marks merged into it.
#[derive(Debug)]
pub struct RichMark {
    pub name: String,
    pub line: usize,
    pub column: usize,
    pub buffer: Option<Vec<char>>,
    pub pointer: usize,
    pub old_mark: Option<Box<RichMark>>,
    pub merged_marks: Vec<RichMark>,
}

/// What identifies a mark when looking for repeated marks.
pub open spec fn mark_id(m: RichMark) -> (Seq<char>, usize, usize) {
    (m.name@, m.line, m.column)
}

/// A character that ends a snippet: end of input or end of line.
pub open spec fn is_snippet_end(c: char) -> bool {
    c == '\0' || c == '\n'
}

/// The number of consecutive non-ending characters just before `p`.
pub open spec fn left_run(buf: Seq<char>, p: int) -> nat
    decreases p,
{
    if p <= 0 || p > buf.len() || is_snippet_end(buf[p - 1]) {
        0
    } else {
        1 + left_run(buf, p - 1)
    }
}

/// The number of consecutive non-ending characters from `p` on.
pub open spec fn right_run(buf: Seq<char>, p: int) -> nat
    decreases buf.len() - p,
{
    if p < 0 || p >= buf.len() || is_snippet_end(buf[p]) {
        0
    } else {
        1 + right_run(buf, p + 1)
    }
}

/// `n` spaces.
pub open spec fn spaces(n: nat) -> Seq<char> {
    repeat_char(' ', n)
}

/// The snippet around position `p` of `buf`: the current line (shortened
/// with ` ... ` on a side that is longer than half of `max_length`), then a
/// line with a caret under position `p`.
pub open spec fn snippet_of(buf: Seq<char>, p: int, indent: nat, max_length: nat) -> Seq<char> {
    let h = max_length / 2 - 1;
    let lr = left_run(buf, p);
    let rr = right_run(buf, p);
    let (head, start) = if lr > h {
        (" ... "@, p - h - 1 + 5)
    } else {
        (Seq::<char>::empty(), p - lr)
    };
    let (tail, end) = if rr > h {
        (" ... "@, p + h + 1 - 5)
    } else {
        (Seq::<char>::empty(), p + rr)
    };
    let pre = strtrans_spec(buf.subrange(start, p));
    let ch = strtrans_spec(seq![if p < buf.len() { buf[p] } else { '\0' }]);
    let post = strtrans_spec(if p + 1 <= end { buf.subrange(p + 1, end) } else { Seq::empty() });
    spaces(indent) + head + pre + ch + post + tail + "\n"@ + spaces(
        indent + head.len() + (vstd::utf8::encode_utf8(pre).len() as usize) as nat,
    ) + "^"@
}

/// Whether the snippet of `m` can be cut from its source: its pointer lies
/// within the buffer, `max_length` leaves a half of at least 1, and where a
/// side is shortened, the ` ... ` that replaces its end stays on its side
/// of the pointer.
pub open spec fn snippet_fits(m: RichMark, max_length: nat) -> bool {
    let h = max_length / 2 - 1;
    &&& max_length >= 2
    &&& m.buffer matches Some(b) ==> {
        &&& m.pointer <= b.len()
        &&& left_run(b@, m.pointer as int) > h ==> h >= 4
        &&& right_run(b@, m.pointer as int) > h ==> m.pointer + h + 1 >= 5
    }
}

/// The snippet a mark prints, when it carries its source.
pub open spec fn mark_snippet(m: RichMark, indent: nat, max_length: nat) -> Option<Seq<char>> {
    match m.buffer {
        Some(b) => Some(snippet_of(b@, m.pointer as int, indent, max_length)),
        None => None,
    }
}

/// The line naming a mark's place.
pub open spec fn location_line(m: RichMark, indent: nat, head: Seq<char>) -> Seq<char> {
    spaces(indent) + "  "@ + head + "\""@ + m.name@ + "\", line "@ + decimal(m.line as nat + 1)
        + ", column "@ + decimal(m.column as nat + 1)
}

/// The text of a mark followed along the marks whose values it replaced;
/// `processed` holds the marks already printed with their snippets.
pub open spec fn marked_chain(
    m: RichMark,
    indent: nat,
    head: Seq<char>,
    add_snippet: bool,
    processed: Seq<(Seq<char>, usize, usize)>,
) -> Seq<char>
    decreases m, 2nat, 0nat,
{
    let snippet = if add_snippet {
        match mark_snippet(m, indent + 4, 75) {
            Some(s) => ":\n"@ + s,
            None => Seq::empty(),
        }
    } else {
        Seq::empty()
    };
    let base = location_line(m, indent, head) + snippet + merged_part(m, indent);
    let processed2 = if add_snippet {
        processed.push(mark_id(m))
    } else {
        processed
    };
    let replaced = add_snippet && m.old_mark is Some;
    let base2 = if replaced {
        base + "\n"@ + spaces(indent) + "  which replaced value\n"@
    } else {
        base
    };
    let indent2 = if replaced { indent + 4 } else { indent };
    match m.old_mark {
        None => base2,
        Some(o) => if processed2.contains(mark_id(*o)) {
            base2 + "\n<recursive mark>"@
        } else {
            base2 + marked_chain(*o, indent2, head, add_snippet, processed2)
        },
    }
}

/// The text listing the marks merged into `m`.
pub open spec fn merged_part(m: RichMark, indent: nat) -> Seq<char>
    decreases m, 1nat, 0nat,
{
    if m.merged_marks.len() == 0 {
        Seq::empty()
    } else {
        "\n"@ + spaces(indent) + "  with additionally merged\n"@ + marked_chain(
            m.merged_marks@[0],
            indent + 4,
            Seq::empty(),
            false,
            Seq::empty(),
        ) + merged_rest(m, 1, indent)
    }
}

/// The text listing the merged marks of `m` from position `i` on.
pub open spec fn merged_rest(m: RichMark, i: int, indent: nat) -> Seq<char>
    decreases m, 0nat, m.merged_marks.len() - i,
{
    if i < 1 || i >= m.merged_marks.len() {
        Seq::empty()
    } else {
        "\n"@ + spaces(indent) + "  and\n"@ + marked_chain(
            m.merged_marks@[i],
            indent + 4,
            Seq::empty(),
            false,
            Seq::empty(),
        ) + merged_rest(m, i + 1, indent)
    }
}

/// The text of a mark.
pub open spec fn marked_string(m: RichMark, indent: nat, head: Seq<char>, add_snippet: bool) -> Seq<char> {
    marked_chain(m, indent, head, add_snippet, Seq::empty())
}

/// A mark whose pointer lies within its buffer, and so for all the marks
/// it holds.
pub open spec fn mark_wf(m: RichMark) -> bool
    decreases m,
{
    &&& match m.buffer {
        Some(b) => m.pointer <= b.len(),
        None => true,
    }
    &&& match m.old_mark {
        Some(o) => mark_wf(*o),
        None => true,
    }
    &&& forall|i: int| 0 <= i < m.merged_marks.len() ==> mark_wf(#[trigger] m.merged_marks@[i])
}

/// Two optional buffers hold the same characters.
pub open spec fn same_buffer(a: Option<Vec<char>>, b: Option<Vec<char>>) -> bool {
    match (a, b) {
        (Some(x), Some(y)) => x@ == y@,
        (None, None) => true,
        _ => false,
    }
}

/// Two marks agree in every field and in all the marks they hold.
pub open spec fn same_mark(a: RichMark, b: RichMark) -> bool
    decreases a, 1nat,
{
    &&& a.name == b.name
    &&& a.line == b.line
    &&& a.column == b.column
    &&& a.pointer == b.pointer
    &&& same_buffer(a.buffer, b.buffer)
    &&& match (a.old_mark, b.old_mark) {
        (Some(x), Some(y)) => same_mark(*x, *y),
        (None, None) => true,
        _ => false,
    }
    &&& a.merged_marks.len() == b.merged_marks.len()
    &&& forall|i: int| 0 <= i < a.merged_marks.len() ==> same_mark(#[trigger] a.merged_marks@[i], b.merged_marks@[i])
}

/// Two optional old marks agree.
pub open spec fn same_old_mark(a: Option<Box<RichMark>>, b: Option<Box<RichMark>>) -> bool {
    match (a, b) {
        (Some(x), Some(y)) => same_mark(*x, *y),
        (None, None) => true,
        _ => false,
    }
}

/// Two lists of marks agree element by element.
pub open spec fn same_marks(a: Seq<RichMark>, b: Seq<RichMark>) -> bool {
    a.len() == b.len() && forall|i: int| 0 <= i < a.len() ==> same_mark(#[trigger] a[i], b[i])
}

impl RichMark {
    /// A mark without history.
    pub fn new(name: &str, line: usize, column: usize, buffer: Option<Vec<char>>, pointer: usize) -> (r: Self)
        ensures
            r.name@ == name@,
            r.line == line,
            r.column == column,
            r.buffer == buffer,
            r.pointer == pointer,
            r.old_mark is None,
            r.merged_marks@ == Seq::<RichMark>::empty(),
    {
        RichMark {
            name: crate::text::string_from(name),
            line,
            column,
            buffer,
            pointer,
            old_mark: None,
            merged_marks: Vec::new(),
        }
    }

    /// A deep copy of the mark.
    pub fn copy(&self) -> (r: RichMark)
        ensures
            same_mark(r, *self),
        decreases self,
    {
        let buffer = match &self.buffer {
            Some(b) => {
                let c = slice_chars(b, 0, b.len());
                assert(c@ =~= b@);
                Some(c)
            },
            None => None,
        };
        let old_mark = match &self.old_mark {
            Some(o) => Some(Box::new((**o).copy())),
            None => None,
        };
        let mut merged: Vec<RichMark> = Vec::new();
        let mut i: usize = 0;
        while i < self.merged_marks.len()
            invariant
                i <= self.merged_marks.len(),
                merged.len() == i,
                forall|j: int| 0 <= j < i ==> same_mark(#[trigger] merged@[j], self.merged_marks@[j]),
            decreases self.merged_marks.len() - i,
        {
            proof {
                assert(decreases_to!(self => self.merged_marks));
                assert(decreases_to!(self.merged_marks => self.merged_marks@));
                assert(decreases_to!(self.merged_marks@ => self.merged_marks@[i as int]));
            }
            let c = self.merged_marks[i].copy();
            merged.push(c);
            i = i + 1;
        }
        let r = RichMark {
            name: self.name.clone(),
            line: self.line,
            column: self.column,
            buffer,
            pointer: self.pointer,
            old_mark,
            merged_marks: merged,
        };
        r
    }

    /// The snippet around the mark's pointer, when the mark carries its
    /// source.
    pub fn get_snippet(&self, indent: usize, max_length: usize) -> (r: Option<String>)
        requires
            snippet_fits(*self, max_length as nat),
        ensures
            match r {
                Some(s) => mark_snippet(*self, indent as nat, max_length as nat) == Some(s@),
                None => self.buffer is None,
            },
    {
        let prefix = repeat_chars(' ', indent);
        match self.snippet_with_prefix(&prefix, Ghost(indent as nat), max_length) {
            Some(v) => Some(string_of(&v)),
            None => None,
        }
    }

    /// The snippet, indented by `prefix`, which holds `indent` spaces.
    fn snippet_with_prefix(&self, prefix: &Vec<char>, Ghost(indent): Ghost<nat>, max_length: usize) -> (r: Option<Vec<char>>)
        requires
            snippet_fits(*self, max_length as nat),
            prefix@ == spaces(indent),
        ensures
            match r {
                Some(s) => mark_snippet(*self, indent, max_length as nat) == Some(s@),
                None => self.buffer is None,
            },
    {
        let buf = match &self.buffer {
            Some(b) => b,
            None => return None,
        };
        let p = self.pointer;
        let h = max_length / 2 - 1;
        proof {
            lemma_left_run_bound(buf@, p as int);
            lemma_right_run_bound(buf@, p as int);
        }
        let mut head_long = false;
        let mut start = p;
        while start > 0 && !(buf[start - 1] == '\0' || buf[start - 1] == '\n')
            invariant_except_break
                start <= p <= buf.len(),
                p - start <= h,
                left_run(buf@, p as int) > h ==> h >= 4,
                left_run(buf@, p as int) == (p - start) + left_run(buf@, start as int),
                !head_long,
            ensures
                start <= p <= buf.len(),
                head_long ==> left_run(buf@, p as int) > h && start == p - h - 1 + 5,
                !head_long ==> left_run(buf@, p as int) <= h && start == p - left_run(buf@, p as int),
            decreases start,
        {
            start = start - 1;
            if p - start > h {
                head_long = true;
                start = start + 5;
                break;
            }
        }
        let mut tail_long = false;
        let mut end = p;
        while end < buf.len() && !(buf[end] == '\0' || buf[end] == '\n')
            invariant_except_break
                p <= end <= buf.len(),
                end - p <= h,
                right_run(buf@, p as int) > h ==> p + h + 1 >= 5,
                right_run(buf@, p as int) == (end - p) + right_run(buf@, end as int),
                !tail_long,
            ensures
                p <= buf.len(),
                tail_long ==> right_run(buf@, p as int) > h && end == p + h + 1 - 5,
                !tail_long ==> right_run(buf@, p as int) <= h && end == p + right_run(buf@, p as int),
                end <= buf.len(),
            decreases buf.len() - end,
        {
            end = end + 1;
            if end - p > h {
                tail_long = true;
                end = end - 5;
                break;
            }
        }
        let pre = slice_chars(buf, start, p);
        let ch: char = if p < buf.len() { buf[p] } else { '\0' };
        let mut chv: Vec<char> = Vec::new();
        chv.push(ch);
        let post = if p < end { slice_chars(buf, p + 1, end) } else { Vec::new() };
        let pre_s = string_of(&pre);
        let ch_s = string_of(&chv);
        let post_s = string_of(&post);
        let tpre = strtrans(pre_s.as_str());
        let tch = strtrans(ch_s.as_str());
        let tpost = strtrans(post_s.as_str());
        let head_len: usize = if head_long { 5 } else { 0 };
        let mut out: Vec<char> = Vec::new();
        append_chars(&mut out, prefix);
        if head_long {
            append_str(&mut out, " ... ");
        }
        let tpre_c = chars_of(tpre.as_str());
        let tch_c = chars_of(tch.as_str());
        let tpost_c = chars_of(tpost.as_str());
        append_chars(&mut out, &tpre_c);
        append_chars(&mut out, &tch_c);
        append_chars(&mut out, &tpost_c);
        if tail_long {
            append_str(&mut out, " ... ");
        }
        append_str(&mut out, "\n");
        let pre_bytes = tpre.as_str().len();
        let pad1 = prefix;
        let pad2 = repeat_chars(' ', head_len);
        let pad3 = repeat_chars(' ', pre_bytes);
        append_chars(&mut out, pad1);
        append_chars(&mut out, &pad2);
        append_chars(&mut out, &pad3);
        append_str(&mut out, "^");
        proof {
            let hs = if head_long { " ... "@ } else { Seq::<char>::empty() };
            let ts = if tail_long { " ... "@ } else { Seq::<char>::empty() };
            assert(hs.len() == head_len) by {
                reveal_strlit(" ... ");
            }
            assert(pre@ == buf@.subrange(start as int, p as int));
            assert(pad1@ + pad2@ + pad3@ =~= spaces(indent + hs.len() + (vstd::utf8::encode_utf8(tpre@).len() as usize) as nat));
            assert(out@ =~= snippet_of(buf@, p as int, indent, max_length as nat));
        }
        Some(out)
    }

    /// The mark moved `diff` characters further along its line.
    pub fn advance_string(&self, diff: usize) -> (r: RichMark)
        requires
            self.column + diff <= usize::MAX,
            self.pointer + diff <= usize::MAX,
        ensures
            r.column == self.column + diff,
            r.pointer == self.pointer + diff,
            r.name == self.name,
            r.line == self.line,
            same_buffer(r.buffer, self.buffer),
            same_old_mark(r.old_mark, self.old_mark),
            same_marks(r.merged_marks@, self.merged_marks@),
    {
        let mut ret = self.copy();
        ret.column = ret.column + diff;
        ret.pointer = ret.pointer + diff;
        ret
    }
}

/// The identities of a mark and of the marks whose values it replaced,
/// following the chain of old marks.
pub open spec fn chain_ids(m: RichMark) -> Seq<(Seq<char>, usize, usize)>
    decreases m,
{
    match m.old_mark {
        Some(o) => seq![mark_id(m)] + chain_ids(*o),
        None => seq![mark_id(m)],
    }
}

/// Setting an old mark, when it is accepted, leaves a chain of old marks
/// that never comes back to a place it has been: it is accepted only then.
pub proof fn law_old_mark_chain_has_no_repeats(m: RichMark, old_mark: RichMark)
    requires
        (seq![mark_id(m)] + chain_ids(old_mark)).no_duplicates(),
    ensures
        chain_ids(RichMark {
            name: m.name,
            line: m.line,
            column: m.column,
            buffer: m.buffer,
            pointer: m.pointer,
            old_mark: Some(Box::new(old_mark)),
            merged_marks: m.merged_marks,
        }).no_duplicates(),
{
}

/// The identities of a mark list, as stored by the text builder.
pub open spec fn ids_view(v: Seq<(Vec<char>, usize, usize)>) -> Seq<(Seq<char>, usize, usize)> {
    v.map_values(|t: (Vec<char>, usize, usize)| (t.0@, t.1, t.2))
}

fn id_in(v: &Vec<(Vec<char>, usize, usize)>, name: &Vec<char>, line: usize, column: usize) -> (r: bool)
    ensures
        r == ids_view(v@).contains((name@, line, column)),
{
    let mut i: usize = 0;
    while i < v.len()
        invariant
            i <= v.len(),
            forall|j: int| 0 <= j < i ==> ids_view(v@)[j] != (name@, line, column),
        decreases v.len() - i,
    {
        let e = &v[i];
        if e.1 == line && e.2 == column && crate::text::chars_eq(&e.0, name) {
            assert(ids_view(v@)[i as int] == (name@, line, column));
            return true;
        }
        i = i + 1;
    }
    false
}

/// Text for a mark's place: `"name", line L, column C`, with 1-based numbers.
fn location_text(m: &RichMark, ind: &Vec<char>, Ghost(indent): Ghost<nat>, head: &Vec<char>) -> (r: Vec<char>)
    requires
        ind@ == spaces(indent),
    ensures
        r@ == location_line(*m, indent, head@),
{
    let mut out: Vec<char> = Vec::new();
    append_chars(&mut out, ind);
    append_str(&mut out, "  ");
    append_chars(&mut out, head);
    append_str(&mut out, "\"");
    append_str(&mut out, m.name.as_str());
    append_str(&mut out, "\", line ");
    let l = decimal_chars((m.line as u128) + 1);
    append_chars(&mut out, &l);
    append_str(&mut out, ", column ");
    let c = decimal_chars((m.column as u128) + 1);
    append_chars(&mut out, &c);
    out
}

/// Four more spaces of indentation.
fn deeper(ind: &Vec<char>, Ghost(indent): Ghost<nat>) -> (r: Vec<char>)
    requires
        ind@ == spaces(indent),
    ensures
        r@ == spaces(indent + 4),
{
    let mut out: Vec<char> = Vec::new();
    append_chars(&mut out, ind);
    append_str(&mut out, "    ");
    proof {
        reveal_strlit("    ");
    }
    assert(out@ =~= spaces(indent + 4));
    out
}

/// The text of a mark along its chain of old marks (see `marked_chain`).
fn chain_text(
    m: &RichMark,
    ind: &Vec<char>,
    Ghost(indent): Ghost<nat>,
    head: &Vec<char>,
    add_snippet: bool,
    processed: &Vec<(Vec<char>, usize, usize)>,
) -> (r: Vec<char>)
    requires
        ind@ == spaces(indent),
        add_snippet ==> mark_wf(*m),
    ensures
        r@ == marked_chain(*m, indent, head@, add_snippet, ids_view(processed@)),
    decreases *m, 2nat, 0nat,
{
    let mut out = location_text(m, ind, Ghost(indent), head);
    let ind4 = deeper(ind, Ghost(indent));
    if add_snippet {
        match m.snippet_with_prefix(&ind4, Ghost(indent + 4), 75) {
            Some(sn) => {
                append_str(&mut out, ":\n");
                append_chars(&mut out, &sn);
            },
            None => {},
        }
    }
    let mp = merged_text(m, ind, Ghost(indent));
    append_chars(&mut out, &mp);
    let mut processed2: Vec<(Vec<char>, usize, usize)> = Vec::new();
    let mut k: usize = 0;
    while k < processed.len()
        invariant
            k <= processed.len(),
            ids_view(processed2@) == ids_view(processed@).take(k as int),
        decreases processed.len() - k,
    {
        let e = &processed[k];
        let copy = slice_chars(&e.0, 0, e.0.len());
        assert(copy@ =~= e.0@);
        let ghost before = processed2@;
        processed2.push((copy, e.1, e.2));
        assert(ids_view(processed2@) =~= ids_view(before).push(ids_view(processed@)[k as int]));
        assert(ids_view(processed@).take(k + 1) =~= ids_view(processed@).take(k as int).push(ids_view(processed@)[k as int]));
        k = k + 1;
    }
    assert(ids_view(processed@).take(processed.len() as int) =~= ids_view(processed@));
    if add_snippet {
        let name = chars_of(m.name.as_str());
        processed2.push((name, m.line, m.column));
        assert(ids_view(processed2@) =~= ids_view(processed@).push(mark_id(*m)));
    }
    let replaced = add_snippet && m.old_mark.is_some();
    if replaced {
        append_str(&mut out, "\n");
        append_chars(&mut out, ind);
        append_str(&mut out, "  which replaced value\n");
    }
    match &m.old_mark {
        None => out,
        Some(o) => {
            let oname = chars_of(o.name.as_str());
            if id_in(&processed2, &oname, o.line, o.column) {
                append_str(&mut out, "\n<recursive mark>");
                out
            } else {
                let rest = if replaced {
                    chain_text(&**o, &ind4, Ghost(indent + 4), head, add_snippet, &processed2)
                } else {
                    chain_text(&**o, ind, Ghost(indent), head, add_snippet, &processed2)
                };
                append_chars(&mut out, &rest);
                out
            }
        },
    }
}

/// The text listing the marks merged into `m` (see `merged_part`).
fn merged_text(m: &RichMark, ind: &Vec<char>, Ghost(indent): Ghost<nat>) -> (r: Vec<char>)
    requires
        ind@ == spaces(indent),
    ensures
        r@ == merged_part(*m, indent),
    decreases *m, 1nat, 0nat,
{
    let mut out: Vec<char> = Vec::new();
    if m.merged_marks.len() == 0 {
        return out;
    }
    let ind4 = deeper(ind, Ghost(indent));
    let empty: Vec<char> = Vec::new();
    let none: Vec<(Vec<char>, usize, usize)> = Vec::new();
    assert(ids_view(none@) =~= Seq::<(Seq<char>, usize, usize)>::empty());
    append_str(&mut out, "\n");
    append_chars(&mut out, ind);
    append_str(&mut out, "  with additionally merged\n");
    proof {
        assert(decreases_to!(m.merged_marks => m.merged_marks@));
    }
    let first = chain_text(&m.merged_marks[0], &ind4, Ghost(indent + 4), &empty, false, &none);
    append_chars(&mut out, &first);
    let ghost start = out@;
    let mut i: usize = 1;
    while i < m.merged_marks.len()
        invariant
            1 <= i <= m.merged_marks.len(),
            ind@ == spaces(indent),
            ind4@ == spaces(indent + 4),
            empty@ == Seq::<char>::empty(),
            ids_view(none@) == Seq::<(Seq<char>, usize, usize)>::empty(),
            out@ + merged_rest(*m, i as int, indent) == start + merged_rest(*m, 1, indent),
        decreases m.merged_marks.len() - i,
    {
        proof {
            assert(decreases_to!(m.merged_marks => m.merged_marks@));
        }
        let piece = chain_text(&m.merged_marks[i], &ind4, Ghost(indent + 4), &empty, false, &none);
        let ghost before = out@;
        append_str(&mut out, "\n");
        append_chars(&mut out, ind);
        append_str(&mut out, "  and\n");
        append_chars(&mut out, &piece);
        assert(out@ + merged_rest(*m, i + 1, indent) =~= before + merged_rest(*m, i as int, indent));
        i = i + 1;
    }
    assert(out@ =~= out@ + merged_rest(*m, i as int, indent));
    out
}

impl RichMark {
    /// Records that this mark replaced the value at `old_mark`; refused when
    /// that would make the chain of old marks repeat a mark.
    pub fn set_old_mark(&mut self, old_mark: RichMark) -> (r: Result<(), &'static str>)
        ensures
            r is Ok <==> (seq![mark_id(*old(self))] + chain_ids(old_mark)).no_duplicates(),
            r is Ok ==> final(self).old_mark == Some(Box::new(old_mark)) && final(self).name == old(self).name
                && final(self).line == old(self).line && final(self).column == old(self).column
                && final(self).pointer == old(self).pointer && final(self).buffer == old(self).buffer
                && final(self).merged_marks == old(self).merged_marks,
            r is Err ==> *final(self) == *old(self),
            r matches Err(e) ==> e@ == "Trying to set recursive marks"@,
    {
        let mut seen: Vec<(Vec<char>, usize, usize)> = Vec::new();
        seen.push((chars_of(self.name.as_str()), self.line, self.column));
        let ghost all = seq![mark_id(*self)] + chain_ids(old_mark);
        let mut cursor: &RichMark = &old_mark;
        let ghost mut rest = chain_ids(old_mark);
        loop
            invariant_except_break
                all == seq![mark_id(*self)] + chain_ids(old_mark),
                rest == chain_ids(*cursor),
                all == ids_view(seen@) + rest,
                ids_view(seen@).no_duplicates(),
                ids_view(seen@).len() >= 1,
            ensures
                all == ids_view(seen@),
                ids_view(seen@).no_duplicates(),
            decreases *cursor,
        {
            let name = chars_of(cursor.name.as_str());
            if id_in(&seen, &name, cursor.line, cursor.column) {
                proof {
                    let k = choose|k: int| 0 <= k < ids_view(seen@).len() && ids_view(seen@)[k] == mark_id(*cursor);
                    assert(all[k] == all[ids_view(seen@).len() as int]);
                }
                return Err("Trying to set recursive marks");
            }
            let ghost before = ids_view(seen@);
            seen.push((name, cursor.line, cursor.column));
            assert(ids_view(seen@) =~= before.push(mark_id(*cursor)));
            assert(ids_view(seen@).no_duplicates()) by {
                assert forall|a: int, b: int| 0 <= a < ids_view(seen@).len() && 0 <= b < ids_view(seen@).len() && a != b implies ids_view(seen@)[a] != ids_view(seen@)[b] by {
                    if a == before.len() {
                        assert(!before.contains(mark_id(*cursor)));
                    } else if b == before.len() {
                        assert(!before.contains(mark_id(*cursor)));
                    }
                }
            }
            match &cursor.old_mark {
                Some(o) => {
                    assert(rest =~= seq![mark_id(*cursor)] + chain_ids(**o));
                    assert(all =~= ids_view(seen@) + chain_ids(**o));
                    cursor = &**o;
                    proof { rest = chain_ids(*cursor); }
                },
                None => {
                    assert(all =~= ids_view(seen@));
                    break;
                },
            }
        }
        self.old_mark = Some(Box::new(old_mark));
        Ok(())
    }

    /// Records a mark merged into this one.
    pub fn set_merged_mark(&mut self, merged_mark: RichMark)
        ensures
            final(self).merged_marks@ == old(self).merged_marks@.push(merged_mark),
            final(self).name == old(self).name,
            final(self).line == old(self).line,
            final(self).column == old(self).column,
            final(self).pointer == old(self).pointer,
            final(self).buffer == old(self).buffer,
            final(self).old_mark == old(self).old_mark,
    {
        self.merged_marks.push(merged_mark);
    }

    /// The text of the mark: where it is, its snippet when `add_snippet`,
    /// the marks merged into it, and the marks whose values it replaced.
    pub fn to_string_marked(&self, indent: usize, head_text: &str, add_snippet: bool) -> (r: String)
        requires
            add_snippet ==> mark_wf(*self),
        ensures
            r@ == marked_string(*self, indent as nat, head_text@, add_snippet),
    {
        let ind = repeat_chars(' ', indent);
        let head = chars_of(head_text);
        let none: Vec<(Vec<char>, usize, usize)> = Vec::new();
        assert(ids_view(none@) =~= Seq::<(Seq<char>, usize, usize)>::empty());
        let v = chain_text(self, &ind, Ghost(indent as nat), &head, add_snippet, &none);
        string_of(&v)
    }

    /// The full text of the mark, as printed in errors.
    pub fn to_string(&self) -> (r: String)
        requires
            mark_wf(*self),
        ensures
            r@ == marked_string(*self, 0, "in "@, true),
    {
        self.to_string_marked(0, "in ", true)
    }

    /// Whether two marks are at the same place of the same source.
    pub fn same_place(&self, other: &RichMark) -> (r: bool)
        ensures
            r == (mark_id(*self) == mark_id(*other)),
    {
        self.line == other.line && self.column == other.column && str_eq(self.name.as_str(), other.name.as_str())
    }
}

impl PartialEq for RichMark {
    fn eq(&self, other: &Self) -> (r: bool) {
        self.same_place(other)
    }
}

impl vstd::std_specs::cmp::PartialEqSpecImpl for RichMark {
    open spec fn obeys_eq_spec() -> bool {
        true
    }

    open spec fn eq_spec(&self, other: &Self) -> bool {
        mark_id(*self) == mark_id(*other)
    }
}

/// The lines of a formatted error.
pub open spec fn error_lines(
    context: Option<Seq<char>>,
    context_mark: Option<RichMark>,
    problem: Option<Seq<char>>,
    problem_mark: Option<RichMark>,
    note: Option<Seq<char>>,
    indent: nat,
) -> Seq<Seq<char>> {
    let l1 = match context {
        Some(c) => seq![spaces(indent) + c],
        None => Seq::empty(),
    };
    let l2 = match context_mark {
        Some(cm) => if problem is Some && (problem_mark matches Some(pm) && mark_id(cm) == mark_id(pm)) {
            Seq::empty()
        } else {
            seq![marked_string(cm, indent, "in "@, true)]
        },
        None => Seq::empty(),
    };
    let l3 = match problem {
        Some(p) => seq![spaces(indent) + p],
        None => Seq::empty(),
    };
    let l4 = match problem_mark {
        Some(pm) => seq![marked_string(pm, indent, "in "@, true)],
        None => Seq::empty(),
    };
    let l5 = match note {
        Some(n) => seq![spaces(indent) + n],
        None => Seq::empty(),
    };
    l1 + l2 + l3 + l4 + l5
}

/// The view of an optional string slice.
pub open spec fn opt_view(s: Option<&str>) -> Option<Seq<char>> {
    match s {
        Some(x) => Some(x@),
        None => None,
    }
}

/// The mark an optional reference points at.
pub open spec fn opt_mark(m: Option<&RichMark>) -> Option<RichMark> {
    match m {
        Some(x) => Some(*x),
        None => None,
    }
}

fn indented_line(indent: usize, text: &str) -> (r: String)
    ensures
        r@ == spaces(indent as nat) + text@,
{
    let mut v = repeat_chars(' ', indent);
    append_str(&mut v, text);
    string_of(&v)
}

/// An error message from a context and a problem, each with its mark, and
/// a note; the context mark is left out when it is the problem mark.
pub fn format_error(
    context: Option<&str>,
    context_mark: Option<&RichMark>,
    problem: Option<&str>,
    problem_mark: Option<&RichMark>,
    note: Option<&str>,
    indent: usize,
) -> (r: String)
    requires
        context_mark matches Some(m) ==> mark_wf(*m),
        problem_mark matches Some(m) ==> mark_wf(*m),
    ensures
        r@ == join_seqs(error_lines(opt_view(context), opt_mark(context_mark), opt_view(problem), opt_mark(problem_mark), opt_view(note), indent as nat), "\n"@),
{
    let mut lines: Vec<String> = Vec::new();
    let ghost l1 = match context { Some(c) => seq![spaces(indent as nat) + c@], None => Seq::<Seq<char>>::empty() };
    if let Some(c) = context {
        lines.push(indented_line(indent, c));
    }
    assert(string_views(lines@) =~= l1);
    if let Some(cm) = context_mark {
        let same = match (problem, problem_mark) {
            (Some(_), Some(pm)) => cm.same_place(pm),
            _ => false,
        };
        if !same {
            lines.push(cm.to_string_marked(indent, "in ", true));
        }
    }
    if let Some(p) = problem {
        lines.push(indented_line(indent, p));
    }
    if let Some(pm) = problem_mark {
        lines.push(pm.to_string_marked(indent, "in ", true));
    }
    if let Some(n) = note {
        lines.push(indented_line(indent, n));
    }
    assert(string_views(lines@) =~= error_lines(opt_view(context), opt_mark(context_mark), opt_view(problem), opt_mark(problem_mark), opt_view(note), indent as nat));
    join_strings(&lines, "\n")
}

/// With a context and a problem, each with a mark, the context's mark is
/// printed under the context unless it is at the same place as the
/// problem's mark (same name, line and column); there it is left out, and
/// the problem follows the context at once. The problem's mark is always
/// printed after the problem.
pub proof fn law_context_mark_shown_unless_same_place(
    context: Seq<char>,
    cm: RichMark,
    problem: Seq<char>,
    pm: RichMark,
    note: Option<Seq<char>>,
    indent: nat,
)
    ensures
        ({
            let lines = error_lines(Some(context), Some(cm), Some(problem), Some(pm), note, indent);
            let extra: int = if note is Some { 1 } else { 0 };
            &&& (cm.name@ != pm.name@ || cm.line != pm.line || cm.column != pm.column) ==> {
                &&& lines.len() == 4 + extra
                &&& lines[0] == spaces(indent) + context
                &&& lines[1] == marked_string(cm, indent, "in "@, true)
                &&& lines[2] == spaces(indent) + problem
                &&& lines[3] == marked_string(pm, indent, "in "@, true)
            }
            &&& (cm.name@ == pm.name@ && cm.line == pm.line && cm.column == pm.column) ==> {
                &&& lines.len() == 3 + extra
                &&& lines[0] == spaces(indent) + context
                &&& lines[1] == spaces(indent) + problem
                &&& lines[2] == marked_string(pm, indent, "in "@, true)
            }
        }),
{
    if cm.name@ != pm.name@ || cm.line != pm.line || cm.column != pm.column {
        assert(mark_id(cm) != mark_id(pm));
    }
}

/// An error carrying its formatted message.
#[derive(Debug, Clone)]
pub struct MarkedError {
    pub message: String,
}

impl MarkedError {
    /// The error formatted from its context, problem, marks and note.
    pub fn new(
        context: Option<&str>,
        context_mark: Option<&RichMark>,
        problem: Option<&str>,
        problem_mark: Option<&RichMark>,
        note: Option<&str>,
    ) -> (r: Self)
        requires
            context_mark matches Some(m) ==> mark_wf(*m),
            problem_mark matches Some(m) ==> mark_wf(*m),
        ensures
            r.message@ == join_seqs(error_lines(opt_view(context), opt_mark(context_mark), opt_view(problem), opt_mark(problem_mark), opt_view(note), 0), "\n"@),
    {
        MarkedError { message: format_error(context, context_mark, problem, problem_mark, note, 0) }
    }

    /// The error's message.
    pub fn to_string(&self) -> (r: String)
        ensures
            r@ == self.message@,
    {
        self.message.clone()
    }
}

/// An error reporter that indents its messages.
#[derive(Debug)]
pub struct EchoErr {
    pub indent: usize,
}

impl EchoErr {
    /// A reporter with the given indentation.
    pub fn new(indent: usize) -> (r: Self)
        ensures
            r.indent == indent,
    {
        EchoErr { indent }
    }
}

proof fn lemma_left_run_bound(buf: Seq<char>, p: int)
    ensures
        left_run(buf, p) <= if p < 0 { 0 } else { p },
    decreases p,
{
    if p > 0 && p <= buf.len() && !is_snippet_end(buf[p - 1]) {
        lemma_left_run_bound(buf, p - 1);
    }
}

proof fn lemma_right_run_bound(buf: Seq<char>, p: int)
    requires
        0 <= p <= buf.len(),
    ensures
        p + right_run(buf, p) <= buf.len(),
    decreases buf.len() - p,
{
    if p < buf.len() && !is_snippet_end(buf[p]) {
        lemma_right_run_bound(buf, p + 1);
    }
}

} // verus!
