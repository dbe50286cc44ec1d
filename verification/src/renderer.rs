//! The renderer's text helpers: how non-printable characters are shown, the
//! shape of a rendering's result, and the widths of characters.

use vstd::prelude::*;
use std::collections::HashMap;
use crate::char_map::CharMap;
use crate::text::{append_chars, append_str, chars_of, hex, hex_chars, string_of, zero_pad, zero_pad_chars};

verus! {

broadcast use vstd::std_specs::hash::group_hash_axioms;

/// The non-breaking space.
pub const NBSP: &'static str = "\u{a0}";

/// Whether `c` is a control character (below U+0020).
pub open spec fn is_control(c: char) -> bool {
    (c as u32) < 0x20
}

/// How a control character is shown: `^` and the character 0x40 above it
/// (`^@` for NUL, `^A` for U+0001, ...).
pub open spec fn control_repr(c: char) -> Seq<char> {
    seq!['^', ((c as u32) + 0x40) as char]
}

/// Whether `k` is the code of an escaped undecodable byte (U+DC80 to
/// U+DCFF).
pub open spec fn is_invalid_code(k: u32) -> bool {
    0xDC80 <= k < 0xDD00
}

/// How an escaped undecodable byte is shown: `<` and its two hexadecimal
/// digits, lower case, then `>`.
pub open spec fn invalid_repr(k: u32) -> Seq<char> {
    "<"@ + zero_pad(hex((k - 0xDC00) as nat), 2) + ">"@
}

/// How `c` is shown when it is not printable.
pub open spec fn np_repr(c: char) -> Option<Seq<char>> {
    if is_control(c) {
        Some(control_repr(c))
    } else if is_invalid_code(c as u32) {
        Some(invalid_repr(c as u32))
    } else {
        None
    }
}

/// `s` with each non-printable character replaced by how it is shown.
pub open spec fn translated(s: Seq<char>) -> Seq<char>
    decreases s.len(),
{
    if s.len() == 0 {
        Seq::empty()
    } else {
        translated(s.drop_last()) + match np_repr(s.last()) {
            Some(r) => r,
            None => seq![s.last()],
        }
    }
}

/// Translating a text piece by piece gives the translation of the whole:
/// each character is shown on its own.
pub proof fn law_translate_concat(a: Seq<char>, b: Seq<char>)
    ensures
        translated(a + b) == translated(a) + translated(b),
    decreases b.len(),
{
    if b.len() == 0 {
        assert(a + b =~= a);
        assert(translated(a) + translated(b) =~= translated(a));
    } else {
        assert((a + b).drop_last() =~= a + b.drop_last());
        law_translate_concat(a, b.drop_last());
        assert((a + b).last() == b.last());
    }
}

/// A text without non-printable characters is left as it is.
pub proof fn law_printable_unchanged(s: Seq<char>)
    requires
        forall|i: int| 0 <= i < s.len() ==> np_repr(#[trigger] s[i]) is None,
    ensures
        translated(s) == s,
    decreases s.len(),
{
    if s.len() > 0 {
        assert forall|i: int| 0 <= i < s.drop_last().len() implies np_repr(#[trigger] s.drop_last()[i]) is None by {
            assert(s.drop_last()[i] == s[i]);
        }
        law_printable_unchanged(s.drop_last());
        assert(np_repr(s[s.len() - 1]) is None);
        assert(s.drop_last().push(s.last()) =~= s);
    }
}

/// How each control character is shown.
pub fn np_control_character_translations() -> (r: CharMap<String>)
    ensures
        r.wf(),
        forall|c: char| r@.dom().contains(c) <==> is_control(c),
        forall|c: char| is_control(c) ==> #[trigger] r@[c]@ == control_repr(c),
{
    let mut m: CharMap<String> = CharMap::new();
    let mut i: u8 = 0;
    while i < 0x20
        invariant
            i <= 0x20,
            m.wf(),
            forall|c: char| m@.dom().contains(c) <==> (c as u32) < i,
            forall|c: char| (c as u32) < i ==> #[trigger] m@[c]@ == control_repr(c),
        decreases 0x20 - i,
    {
        let c = i as char;
        let shown = (i + 0x40) as char;
        let mut v: Vec<char> = Vec::new();
        v.push('^');
        v.push(shown);
        let s = string_of(&v);
        assert(s@ =~= control_repr(c));
        assert(c as u32 == i as u32);
        let ghost before = m@;
        m.insert_new(c, s);
        proof {
            assert forall|d: char| m@.dom().contains(d) <==> (d as u32) < i + 1 by {
                if (d as u32) == i as u32 {
                    vstd::utf8::char_u32_cast(d, d as u32);
                    vstd::utf8::char_u32_cast(c, c as u32);
                }
            }
            assert forall|d: char| (d as u32) < i + 1 implies #[trigger] m@[d]@ == control_repr(d) by {
                if (d as u32) == i as u32 {
                    vstd::utf8::char_u32_cast(d, d as u32);
                    vstd::utf8::char_u32_cast(c, c as u32);
                } else {
                    assert(m@[d] == before[d]);
                }
            }
        }
        i = i + 1;
    }
    m
}

/// How each escaped undecodable byte is shown, keyed by its code.
pub fn np_invalid_character_translations() -> (r: HashMap<u32, String>)
    ensures
        forall|k: u32| r@.contains_key(k) <==> is_invalid_code(k),
        forall|k: u32| is_invalid_code(k) ==> #[trigger] r@[k]@ == invalid_repr(k),
{
    proof {
        reveal_strlit("<");
        reveal_strlit(">");
    }
    let mut m: HashMap<u32, String> = HashMap::new();
    let mut i: u32 = 0xDC80;
    while i < 0xDD00
        invariant
            0xDC80 <= i <= 0xDD00,
            forall|k: u32| m@.contains_key(k) <==> 0xDC80 <= k < i,
            forall|k: u32| 0xDC80 <= k < i ==> #[trigger] m@[k]@ == invalid_repr(k),
        decreases 0xDD00 - i,
    {
        let digits = hex_chars(i - 0xDC00);
        let padded = zero_pad_chars(&digits, 2);
        let mut v = chars_of("<");
        append_chars(&mut v, &padded);
        append_str(&mut v, ">");
        let s = string_of(&v);
        assert(s@ =~= invalid_repr(i));
        m.insert(i, s);
        i = i + 1;
    }
    m
}

/// `char::from_u32` from std: the character with code `cp`, or `None` when
/// `cp` is a surrogate or above U+10FFFF, as its documentation says.
#[verifier::external_body]
fn char_from_u32(cp: u32) -> (r: Option<char>)
    ensures
        r matches Some(c) ==> c as u32 == cp,
        (cp < 0xD800 || (0xE000 <= cp && cp <= 0x10FFFF)) ==> r is Some,
        ((0xD800 <= cp && cp < 0xE000) || cp > 0x10FFFF) ==> r is None,
{
    char::from_u32(cp)
}

/// How each non-printable character is shown: the control characters,
/// and the escaped undecodable bytes that are characters.
pub fn np_character_translations() -> (r: CharMap<String>)
    ensures
        r.wf(),
        forall|c: char| r@.dom().contains(c) <==> (np_repr(c) is Some),
        forall|c: char| #[trigger] r@.dom().contains(c) ==> np_repr(c) == Some(r@[c]@),
{
    let mut m = np_control_character_translations();
    let invalid = np_invalid_character_translations();
    proof {
        assert forall|c: char| !#[trigger] is_invalid_code(c as u32) by {
            vstd::utf8::char_is_scalar(c);
        }
    }
    let mut cp: u32 = 0xDC80;
    while cp < 0xDD00
        invariant
            0xDC80 <= cp <= 0xDD00,
            m.wf(),
            forall|c: char| m@.dom().contains(c) <==> is_control(c),
            forall|c: char| !#[trigger] is_invalid_code(c as u32),
            forall|c: char| #[trigger] m@.dom().contains(c) ==> np_repr(c) == Some(m@[c]@),
            forall|k: u32| invalid@.contains_key(k) <==> is_invalid_code(k),
            forall|k: u32| is_invalid_code(k) ==> #[trigger] invalid@[k]@ == invalid_repr(k),
        decreases 0xDD00 - cp,
    {
        match char_from_u32(cp) {
            Some(c) => {
                match invalid.get(&cp) {
                    Some(repl) => {
                        assert(false);
                        m.insert_new(c, repl.clone());
                    },
                    None => {},
                }
            },
            None => {},
        }
        cp = cp + 1;
    }
    assert forall|c: char| m@.dom().contains(c) <==> (np_repr(c) is Some) by {
        vstd::utf8::char_is_scalar(c);
    }
    m
}

/// `s` with each non-printable character replaced by how it is shown.
pub fn translate_np(s: &str) -> (r: String)
    ensures
        r@ == translated(s@),
{
    let table = np_character_translations();
    let cs = chars_of(s);
    let mut out: Vec<char> = Vec::new();
    let mut i: usize = 0;
    while i < cs.len()
        invariant
            i <= cs.len(),
            table.wf(),
            forall|c: char| table@.dom().contains(c) <==> (np_repr(c) is Some),
            forall|c: char| #[trigger] table@.dom().contains(c) ==> np_repr(c) == Some(table@[c]@),
            out@ == translated(cs@.take(i as int)),
        decreases cs.len() - i,
    {
        let c = cs[i];
        match table.get(&c) {
            Some(repl) => {
                let rc = chars_of(repl.as_str());
                append_chars(&mut out, &rc);
            },
            None => {
                out.push(c);
            },
        }
        i = i + 1;
        assert(cs@.take(i as int).drop_last() =~= cs@.take(i - 1));
    }
    assert(cs@.take(cs.len() as int) =~= cs@);
    string_of(&out)
}

/// What a rendering gives back: the highlighted text alone, or with the raw
/// text and the width when they were asked for.
#[derive(Debug, Clone)]
pub enum RenderReturn {
    Plain(String),
    Tuple { highlighted: String, raw: Option<String>, width: Option<usize> },
}

/// The result of a rendering: the highlighted text alone when neither the
/// raw text nor the width is asked for; else the three, each of the last
/// two only when asked for.
pub fn construct_returned_value(
    rendered_highlighted: String,
    rendered_raw: Option<String>,
    width: usize,
    output_raw: bool,
    output_width: bool,
) -> (r: RenderReturn)
    ensures
        !output_raw && !output_width ==> r == RenderReturn::Plain(rendered_highlighted),
        output_raw || output_width ==> r == (RenderReturn::Tuple {
            highlighted: rendered_highlighted,
            raw: if output_raw { rendered_raw } else { None },
            width: if output_width { Some(width) } else { None },
        }),
{
    if !output_raw && !output_width {
        return RenderReturn::Plain(rendered_highlighted);
    }
    RenderReturn::Tuple {
        highlighted: rendered_highlighted,
        raw: if output_raw { rendered_raw } else { None },
        width: if output_width { Some(width) } else { None },
    }
}

/// The display width of each East Asian width class: narrow, halfwidth and
/// neutral take 1, wide and fullwidth 2, ambiguous `ambiwidth`.
pub fn width_data(ambiwidth: u8) -> (r: CharMap<u8>)
    ensures
        r.wf(),
        r@ == map!['N' => 1u8, 'a' => 1u8, 'A' => ambiwidth, 'H' => 1u8, 'W' => 2u8, 'F' => 2u8],
{
    let mut m: CharMap<u8> = CharMap::new();
    m.insert_new('N', 1);
    m.insert_new('a', 1);
    m.insert_new('A', ambiwidth);
    m.insert_new('H', 1);
    m.insert_new('W', 2);
    m.insert_new('F', 2);
    assert(m@ =~= map!['N' => 1u8, 'a' => 1u8, 'A' => ambiwidth, 'H' => 1u8, 'W' => 2u8, 'F' => 2u8]);
    m
}

/// The display width of `s`: its number of characters.
pub fn strwidth(s: &str) -> (r: usize)
    ensures
        r == s@.len(),
{
    let cs = chars_of(s);
    cs.len()
}

} // verus!
