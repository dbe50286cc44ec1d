//! A cursor over the characters of a JSON source that tracks the line and
//! column of its position.

use vstd::prelude::*;
use crate::markedjson::error::NON_PRINTABLE_PATTERN;
use crate::markedjson::marks::Mark;
use crate::regex_calls::{first_non_printable_byte, regex_find_start};
use crate::text::{chars_of, slice_chars, string_from, string_of};

verus! {

/// An error met while reading the source.
#[derive(Debug, Clone)]
pub struct ReaderError {
    pub context: String,
    pub problem: String,
    pub mark: Option<Mark>,
}

impl ReaderError {
    /// The printed form: `ReaderError: <problem> (<context>)`.
    pub fn to_string(&self) -> (r: String)
        ensures
            r@ == "ReaderError: "@ + self.problem@ + " ("@ + self.context@ + ")"@,
    {
        let mut v = chars_of("ReaderError: ");
        crate::text::append_str(&mut v, self.problem.as_str());
        crate::text::append_str(&mut v, " (");
        crate::text::append_str(&mut v, self.context.as_str());
        crate::text::append_str(&mut v, ")");
        string_of(&v)
    }
}

/// The number of newlines in `s`.
pub open spec fn count_newlines(s: Seq<char>) -> nat
    decreases s.len(),
{
    if s.len() == 0 {
        0
    } else {
        count_newlines(s.drop_last()) + if s.last() == '\n' { 1nat } else { 0nat }
    }
}

/// The column reached after reading `s` from column `column`: a newline
/// resets it to 0, any other character moves it one on.
pub open spec fn column_after(s: Seq<char>, column: nat) -> nat
    decreases s.len(),
{
    if s.len() == 0 {
        column
    } else if s.last() == '\n' {
        0
    } else {
        column_after(s.drop_last(), column) + 1
    }
}

/// A cursor over a source: its name, its characters followed by `'\0'`, the
/// position in them, the number of characters read, and the line and
/// column of the position.
#[derive(Debug)]
pub struct Reader {
    pub name: String,
    pub buffer: Vec<char>,
    pub pointer: usize,
    pub index: usize,
    pub line: usize,
    pub column: usize,
}

impl Reader {
    /// A reader at the start of `stream`.
    pub fn new(stream: &str, name: &str) -> (r: Self)
        ensures
            r.name@ == name@,
            r.buffer@ == stream@.push('\0'),
            r.pointer == 0,
            r.index == 0,
            r.line == 0,
            r.column == 0,
    {
        let mut buffer = chars_of(stream);
        buffer.push('\0');
        Reader { name: string_from(name), buffer, pointer: 0, index: 0, line: 0, column: 0 }
    }

    /// The character `index` places after the position, `'\0'` past the end.
    pub fn peek(&self, index: usize) -> (r: char)
        requires
            self.pointer + index <= usize::MAX,
        ensures
            r == if self.pointer + index < self.buffer.len() {
                self.buffer@[self.pointer + index]
            } else {
                '\0'
            },
    {
        let i = self.pointer + index;
        if i < self.buffer.len() {
            self.buffer[i]
        } else {
            '\0'
        }
    }

    /// The next `length` characters (fewer at the end of the buffer).
    pub fn prefix(&self, length: usize) -> (r: String)
        requires
            self.pointer + length <= usize::MAX,
            self.pointer <= self.buffer.len(),
        ensures
            r@ == self.buffer@.subrange(
                self.pointer as int,
                if self.pointer + length < self.buffer.len() {
                    self.pointer + length
                } else {
                    self.buffer.len() as int
                },
            ),
    {
        let end = if self.pointer + length < self.buffer.len() {
            self.pointer + length
        } else {
            self.buffer.len()
        };
        let v = slice_chars(&self.buffer, self.pointer, end);
        string_of(&v)
    }

    /// Moves the position `length` characters on (stopping at the end of the
    /// buffer), counting lines and columns.
    pub fn update_pointer(&mut self, length: usize)
        requires
            old(self).pointer <= old(self).buffer.len(),
            old(self).index + old(self).buffer.len() <= usize::MAX,
            old(self).line + old(self).buffer.len() <= usize::MAX,
            old(self).column + old(self).buffer.len() <= usize::MAX,
        ensures
            ({
                let p0 = old(self).pointer as int;
                let p1 = if p0 + length < old(self).buffer.len() {
                    p0 + length
                } else {
                    old(self).buffer.len() as int
                };
                let read = old(self).buffer@.subrange(p0, p1);
                &&& final(self).pointer == p1
                &&& final(self).index == old(self).index + (p1 - p0)
                &&& final(self).line == old(self).line + count_newlines(read)
                &&& final(self).column == column_after(read, old(self).column as nat)
                &&& final(self).buffer == old(self).buffer
                &&& final(self).name == old(self).name
            }),
    {
        let ghost p0 = self.pointer as int;
        let mut left = length;
        while left > 0 && self.pointer < self.buffer.len()
            invariant
                p0 == old(self).pointer,
                p0 <= self.pointer <= self.buffer.len(),
                self.buffer == old(self).buffer,
                self.name == old(self).name,
                self.pointer - p0 + left == length,
                self.index == old(self).index + (self.pointer - p0),
                self.line == old(self).line + count_newlines(self.buffer@.subrange(p0, self.pointer as int)),
                self.column == column_after(self.buffer@.subrange(p0, self.pointer as int), old(self).column as nat),
                old(self).index + self.buffer.len() <= usize::MAX,
                old(self).line + self.buffer.len() <= usize::MAX,
                old(self).column + self.buffer.len() <= usize::MAX,
            decreases left,
        {
            let ch = self.buffer[self.pointer];
            let ghost before = self.buffer@.subrange(p0, self.pointer as int);
            proof {
                lemma_count_newlines_bound(before);
                lemma_column_after_bound(before, old(self).column as nat);
            }
            self.pointer = self.pointer + 1;
            self.index = self.index + 1;
            assert(self.buffer@.subrange(p0, self.pointer as int).drop_last() =~= before);
            if ch == '\n' {
                self.line = self.line + 1;
                self.column = 0;
            } else {
                self.column = self.column + 1;
            }
            left = left - 1;
        }
    }

    /// Moves the position `length` characters on.
    pub fn forward(&mut self, length: usize)
        requires
            old(self).pointer <= old(self).buffer.len(),
            old(self).index + old(self).buffer.len() <= usize::MAX,
            old(self).line + old(self).buffer.len() <= usize::MAX,
            old(self).column + old(self).buffer.len() <= usize::MAX,
        ensures
            ({
                let p0 = old(self).pointer as int;
                let p1 = if p0 + length < old(self).buffer.len() {
                    p0 + length
                } else {
                    old(self).buffer.len() as int
                };
                let read = old(self).buffer@.subrange(p0, p1);
                &&& final(self).pointer == p1
                &&& final(self).index == old(self).index + (p1 - p0)
                &&& final(self).line == old(self).line + count_newlines(read)
                &&& final(self).column == column_after(read, old(self).column as nat)
                &&& final(self).buffer == old(self).buffer
                &&& final(self).name == old(self).name
            }),
    {
        self.update_pointer(length);
    }

    /// The mark of the current position.
    pub fn get_mark(&self) -> (r: Mark)
        ensures
            r == (Mark { line: self.line, column: self.column }),
    {
        Mark { line: self.line, column: self.column }
    }

    /// Refuses `data` when the search for non-printable characters, whose
    /// result is `found` (the byte offset of the first one), found one: the
    /// position then moves on by that offset and the error carries its mark.
    pub fn check_printable_found(&mut self, found: Option<usize>) -> (r: Result<(), ReaderError>)
        requires
            old(self).pointer <= old(self).buffer.len(),
            old(self).index + old(self).buffer.len() <= usize::MAX,
            old(self).line + old(self).buffer.len() <= usize::MAX,
            old(self).column + old(self).buffer.len() <= usize::MAX,
        ensures
            found is None ==> r is Ok && *final(self) == *old(self),
            found matches Some(start) ==> {
                let p0 = old(self).pointer as int;
                let p1 = if p0 + start < old(self).buffer.len() {
                    p0 + start
                } else {
                    old(self).buffer.len() as int
                };
                let read = old(self).buffer@.subrange(p0, p1);
                &&& final(self).pointer == p1
                &&& final(self).index == old(self).index + (p1 - p0)
                &&& final(self).line == old(self).line + count_newlines(read)
                &&& final(self).column == column_after(read, old(self).column as nat)
                &&& final(self).buffer == old(self).buffer
                &&& final(self).name == old(self).name
                &&& r matches Err(e) && e.context@ == "while reading from stream"@
                    && e.problem@ == "found special characters which are not allowed"@
                    && e.mark == Some(Mark { line: final(self).line, column: final(self).column })
            },
    {
        match found {
            None => Ok(()),
            Some(start) => {
                self.update_pointer(start);
                Err(ReaderError {
                    context: string_from("while reading from stream"),
                    problem: string_from("found special characters which are not allowed"),
                    mark: Some(self.get_mark()),
                })
            },
        }
    }

    /// Refuses `data` when it holds a non-printable character (see
    /// `check_printable_found`, which is given where the first one starts).
    pub fn check_printable(&mut self, data: &str) -> (r: Result<(), ReaderError>)
        requires
            old(self).pointer <= old(self).buffer.len(),
            old(self).index + old(self).buffer.len() <= usize::MAX,
            old(self).line + old(self).buffer.len() <= usize::MAX,
            old(self).column + old(self).buffer.len() <= usize::MAX,
        ensures
            first_non_printable_byte(data@) is None ==> r is Ok && *final(self) == *old(self),
            first_non_printable_byte(data@) matches Some(start) ==> {
                let p0 = old(self).pointer as int;
                let p1 = if p0 + start < old(self).buffer.len() {
                    p0 + start
                } else {
                    old(self).buffer.len() as int
                };
                let read = old(self).buffer@.subrange(p0, p1);
                &&& final(self).pointer == p1
                &&& final(self).index == old(self).index + (p1 - p0)
                &&& final(self).line == old(self).line + count_newlines(read)
                &&& final(self).column == column_after(read, old(self).column as nat)
                &&& final(self).buffer == old(self).buffer
                &&& final(self).name == old(self).name
                &&& r matches Err(e) && e.context@ == "while reading from stream"@
                    && e.problem@ == "found special characters which are not allowed"@
                    && e.mark == Some(Mark { line: final(self).line, column: final(self).column })
            },
    {
        let found = regex_find_start(NON_PRINTABLE_PATTERN, data);
        self.check_printable_found(found)
    }
}

proof fn lemma_count_newlines_bound(s: Seq<char>)
    ensures
        count_newlines(s) <= s.len(),
    decreases s.len(),
{
    if s.len() > 0 {
        lemma_count_newlines_bound(s.drop_last());
    }
}

proof fn lemma_column_after_bound(s: Seq<char>, column: nat)
    ensures
        column_after(s, column) <= column + s.len(),
    decreases s.len(),
{
    if s.len() > 0 {
        lemma_column_after_bound(s.drop_last(), column);
    }
}

proof fn lemma_count_newlines_concat(a: Seq<char>, b: Seq<char>)
    ensures
        count_newlines(a + b) == count_newlines(a) + count_newlines(b),
    decreases b.len(),
{
    if b.len() == 0 {
        assert(a + b =~= a);
    } else {
        assert((a + b).drop_last() =~= a + b.drop_last());
        lemma_count_newlines_concat(a, b.drop_last());
    }
}

proof fn lemma_column_after_concat(a: Seq<char>, b: Seq<char>, column: nat)
    ensures
        column_after(a + b, column) == column_after(b, column_after(a, column)),
    decreases b.len(),
{
    if b.len() == 0 {
        assert(a + b =~= a);
    } else {
        assert((a + b).drop_last() =~= a + b.drop_last());
        lemma_column_after_concat(a, b.drop_last(), column);
    }
}

/// The position reached by moving `length` characters on from `p0` in a
/// buffer of `len` characters: it stops at the end.
pub open spec fn moved(p0: int, length: int, len: int) -> int {
    if p0 + length < len {
        p0 + length
    } else {
        len
    }
}

/// Moving on by `a` and then by `b` characters reaches the same position,
/// counts the same lines and ends at the same column as moving on by
/// `a + b` at once.
pub proof fn law_forward_in_steps(buffer: Seq<char>, p0: int, a: nat, b: nat, column: nat)
    requires
        0 <= p0 <= buffer.len(),
    ensures
        ({
            let p1 = moved(p0, a as int, buffer.len() as int);
            let p2 = moved(p1, b as int, buffer.len() as int);
            &&& p2 == moved(p0, (a + b) as int, buffer.len() as int)
            &&& count_newlines(buffer.subrange(p0, p2)) == count_newlines(buffer.subrange(p0, p1)) + count_newlines(buffer.subrange(p1, p2))
            &&& column_after(buffer.subrange(p0, p2), column) == column_after(buffer.subrange(p1, p2), column_after(buffer.subrange(p0, p1), column))
        }),
{
    let p1 = moved(p0, a as int, buffer.len() as int);
    let p2 = moved(p1, b as int, buffer.len() as int);
    assert(buffer.subrange(p0, p2) =~= buffer.subrange(p0, p1) + buffer.subrange(p1, p2));
    lemma_count_newlines_concat(buffer.subrange(p0, p1), buffer.subrange(p1, p2));
    lemma_column_after_concat(buffer.subrange(p0, p1), buffer.subrange(p1, p2), column);
}

} // verus!
