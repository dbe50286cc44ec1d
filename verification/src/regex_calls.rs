//! The library's calls into the `regex` crate. Each search compiles its
//! pattern with `Regex::new` and runs one search method on the compiled
//! pattern; what the search returns is named by a spec function of the
//! pattern and the haystack.

use vstd::prelude::*;
use crate::markedjson::error::{repl_spec, NON_PRINTABLE_PATTERN};
use crate::markedjson::resolver::{BOOL_PATTERN, NULL_PATTERN};

verus! {

/// A character of the class that `NON_PRINTABLE_PATTERN` writes: a control
/// character other than tab, newline and carriage return, or DEL.
pub open spec fn is_non_printable(c: char) -> bool {
    ||| ('\x00' <= c && c <= '\x08')
    ||| c == '\x0B' || c == '\x0C'
    ||| ('\x0E' <= c && c <= '\x1F')
    ||| c == '\x7F'
}

/// Whether `s` holds a non-printable character.
pub open spec fn has_non_printable(s: Seq<char>) -> bool {
    exists|i: int| 0 <= i < s.len() && is_non_printable(#[trigger] s[i])
}

/// The index of the first non-printable character of `s`, if any.
pub open spec fn first_non_printable(s: Seq<char>) -> Option<int>
    decreases s.len(),
{
    if s.len() == 0 {
        None
    } else if is_non_printable(s[0]) {
        Some(0)
    } else {
        match first_non_printable(s.skip(1)) {
            Some(i) => Some(i + 1),
            None => None,
        }
    }
}

/// The byte offset, in the UTF-8 form of `s`, of its first non-printable
/// character, if any.
pub open spec fn first_non_printable_byte(s: Seq<char>) -> Option<usize> {
    match first_non_printable(s) {
        Some(i) => Some(vstd::utf8::encode_utf8(s.take(i)).len() as usize),
        None => None,
    }
}

/// `s` with each non-printable character replaced by its `<xNNNN>` escape.
pub open spec fn escape_non_printable(s: Seq<char>) -> Seq<char>
    decreases s.len(),
{
    if s.len() == 0 {
        Seq::empty()
    } else {
        let rest = escape_non_printable(s.drop_last());
        if is_non_printable(s.last()) {
            rest + repl_spec(seq![s.last()])
        } else {
            rest.push(s.last())
        }
    }
}

/// The byte offset at which the leftmost-first match of `pattern` starts in
/// `haystack`, or `None` when nothing matches or `pattern` does not compile.
pub uninterp spec fn regex_match_start(pattern: Seq<char>, haystack: Seq<char>) -> Option<usize>;

/// `haystack` with every non-overlapping match of `pattern` replaced by the
/// `<xNNNN>` escape of the match's first character (`haystack` unchanged
/// when `pattern` does not compile).
pub uninterp spec fn regex_replace_hex(pattern: Seq<char>, haystack: Seq<char>) -> Seq<char>;

/// Whether `pattern`, compiled as a byte regex, matches anywhere in
/// `haystack` (false when `pattern` does not compile).
pub uninterp spec fn regex_bytes_is_match(pattern: Seq<char>, haystack: Seq<u8>) -> bool;

/// Whether `pattern` matches anywhere in `haystack` (false when `pattern`
/// does not compile).
pub uninterp spec fn regex_is_match(pattern: Seq<char>, haystack: Seq<char>) -> bool;

/// Calls `regex::Regex::new(pattern)` and then `Regex::is_match(haystack)`.
/// The contract claims that the result is the named value of the two
/// arguments (the regex crate's search is deterministic) and, for the
/// character class `NON_PRINTABLE_PATTERN`, what the regex documentation
/// gives for a class: it matches where one of its characters occurs; and,
/// for the anchored alternatives `BOOL_PATTERN` and `NULL_PATTERN`, where
/// `^` and `$` (not in multi-line mode) stand for the start and the end of
/// the haystack, that they match exactly the texts they list.
#[verifier::external_body]
pub(crate) fn regex_match(pattern: &str, haystack: &str) -> (r: bool)
    ensures
        r == regex_is_match(pattern@, haystack@),
        pattern@ == NON_PRINTABLE_PATTERN@ ==> (r <==> has_non_printable(haystack@)),
        pattern@ == BOOL_PATTERN@ ==> (r <==> (haystack@ == "true"@ || haystack@ == "false"@)),
        pattern@ == NULL_PATTERN@ ==> (r <==> haystack@ == "null"@),
{
    match regex::Regex::new(pattern) {
        Ok(re) => re.is_match(haystack),
        Err(_) => false,
    }
}

/// Calls `regex::Regex::new(pattern)` and then `Regex::find(haystack)`,
/// returning `Match::start` of the match found. The contract claims that
/// the result is the named value of the two arguments (the regex crate's
/// search is deterministic) and, for the one-character class
/// `NON_PRINTABLE_PATTERN`, that the leftmost match is the first character
/// of the class, whose start `Match::start` gives as a byte offset.
#[verifier::external_body]
pub(crate) fn regex_find_start(pattern: &str, haystack: &str) -> (r: Option<usize>)
    ensures
        r == regex_match_start(pattern@, haystack@),
        pattern@ == NON_PRINTABLE_PATTERN@ ==> r == first_non_printable_byte(haystack@),
{
    match regex::Regex::new(pattern) {
        Ok(re) => re.find(haystack).map(|m| m.start()),
        Err(_) => None,
    }
}

/// Calls `regex::Regex::new(pattern)` and then `Regex::replace_all` on
/// `haystack` with a closure that calls this library's `repl` on each
/// match. The contract claims that the result is the named value of the
/// two arguments and, for the one-character class `NON_PRINTABLE_PATTERN`,
/// whose non-overlapping matches are its characters one by one, that each
/// of them is replaced by what `repl` gives for it.
#[verifier::external_body]
pub(crate) fn regex_replace_all_hex(pattern: &str, haystack: &str) -> (r: String)
    ensures
        r@ == regex_replace_hex(pattern@, haystack@),
        pattern@ == NON_PRINTABLE_PATTERN@ ==> r@ == escape_non_printable(haystack@),
{
    match regex::Regex::new(pattern) {
        Ok(re) => re.replace_all(haystack, |c: &regex::Captures<'_>| crate::markedjson::error::repl(&c[0])).into_owned(),
        Err(_) => haystack.to_string(),
    }
}

/// Calls `regex::bytes::Regex::new(pattern)` and then
/// `regex::bytes::Regex::is_match(haystack)`. The contract claims only that
/// the result is the named value of the two arguments.
#[verifier::external_body]
pub(crate) fn regex_bytes_match(pattern: &str, haystack: &[u8]) -> (r: bool)
    ensures
        r == regex_bytes_is_match(pattern@, haystack@),
{
    match regex::bytes::Regex::new(pattern) {
        Ok(re) => re.is_match(haystack),
        Err(_) => false,
    }
}

} // verus!
