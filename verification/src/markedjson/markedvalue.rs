//! Values read from JSON, each with the mark of where it was read.

use vstd::prelude::*;
use crate::markedjson::marks::Mark;
use crate::text::{
    chars_of, find_chars, first_occurrence, last_occurrence, rfind_chars, slice_chars, string_of,
};

verus! {

/// A string with its mark.
#[derive(Debug, Clone, PartialEq, Eq)]
pub struct MarkedUnicode {
    pub value: String,
    pub mark: Mark,
}

/// `s` split around the first occurrence of `sep`: the text before, the
/// separator, and the text after; all of `s` comes first when `sep` does not
/// occur.
pub open spec fn partition_spec(s: Seq<char>, sep: Seq<char>) -> (Seq<char>, Seq<char>, Seq<char>) {
    match first_occurrence(s, sep) {
        Some(i) => (s.subrange(0, i), sep, s.subrange(i + sep.len(), s.len() as int)),
        None => (s, Seq::empty(), Seq::empty()),
    }
}

/// `s` split around the last occurrence of `sep`; all of `s` comes last
/// when `sep` does not occur.
pub open spec fn rpartition_spec(s: Seq<char>, sep: Seq<char>) -> (Seq<char>, Seq<char>, Seq<char>) {
    match last_occurrence(s, sep) {
        Some(i) => (s.subrange(0, i), sep, s.subrange(i + sep.len(), s.len() as int)),
        None => (Seq::empty(), Seq::empty(), s),
    }
}

/// Splitting loses nothing: the three parts, put back together, give the
/// string; when the separator occurs, the middle part is the separator and,
/// for a separator that is not empty, the first part does not hold it.
pub proof fn law_partition_reassembles(s: Seq<char>, sep: Seq<char>)
    ensures
        ({
            let (a, b, c) = partition_spec(s, sep);
            &&& a + b + c == s
            &&& first_occurrence(s, sep) is Some ==> b == sep
            &&& first_occurrence(s, sep) is Some && sep.len() > 0 ==> first_occurrence(a, sep) is None
        }),
        ({
            let (a, b, c) = rpartition_spec(s, sep);
            &&& a + b + c == s
            &&& last_occurrence(s, sep) is Some ==> b == sep
        }),
{
    if exists|i: int| crate::text::occurs_at(s, sep, i) {
        let k = choose|i: int| crate::text::occurs_at(s, sep, i);
        crate::text::lemma_first_occurrence_exists(s, sep, k);
        crate::text::lemma_last_occurrence_exists(s, sep, k);
    }
    match first_occurrence(s, sep) {
        Some(i) => {
            assert(crate::text::is_first_occurrence(s, sep, i));
            assert(s.subrange(i, i + sep.len()) == sep);
            assert(s.subrange(0, i) + sep + s.subrange(i + sep.len(), s.len() as int) =~= s);
            let a = s.subrange(0, i);
            if first_occurrence(a, sep) is Some && sep.len() > 0 {
                let k = choose|i: int| crate::text::occurs_at(a, sep, i);
                crate::text::lemma_first_occurrence_exists(a, sep, k);
                let j = first_occurrence(a, sep)->0;
                assert(crate::text::is_first_occurrence(a, sep, j));
                assert(a.subrange(j, j + sep.len()) =~= s.subrange(j, j + sep.len()));
                assert(crate::text::occurs_at(s, sep, j));
                assert(j < i);
                assert(false);
            }
        },
        None => {
            assert(s + Seq::<char>::empty() + Seq::<char>::empty() =~= s);
        },
    }
    match last_occurrence(s, sep) {
        Some(i) => {
            assert(crate::text::is_last_occurrence(s, sep, i));
            assert(s.subrange(i, i + sep.len()) == sep);
            assert(s.subrange(0, i) + sep + s.subrange(i + sep.len(), s.len() as int) =~= s);
        },
        None => {
            assert(Seq::<char>::empty() + Seq::<char>::empty() + s =~= s);
        },
    }
}

impl MarkedUnicode {
    /// A marked string.
    pub fn new(value: &str, mark: Mark) -> (r: Self)
        ensures
            r.value@ == value@,
            r.mark == mark,
    {
        MarkedUnicode { value: crate::text::string_from(value), mark }
    }

    /// The three parts, each carrying this string's mark.
    fn proc_partition(&self, pre: &Vec<char>, sep: &Vec<char>, post: &Vec<char>) -> (r: (MarkedUnicode, MarkedUnicode, MarkedUnicode))
        ensures
            r.0.value@ == pre@ && r.1.value@ == sep@ && r.2.value@ == post@,
            r.0.mark == self.mark && r.1.mark == self.mark && r.2.mark == self.mark,
    {
        (
            MarkedUnicode { value: string_of(pre), mark: self.mark },
            MarkedUnicode { value: string_of(sep), mark: self.mark },
            MarkedUnicode { value: string_of(post), mark: self.mark },
        )
    }

    /// Splits around the last occurrence of `sep`.
    pub fn rpartition(&self, sep: &str) -> (r: (MarkedUnicode, MarkedUnicode, MarkedUnicode))
        ensures
            (r.0.value@, r.1.value@, r.2.value@) == rpartition_spec(self.value@, sep@),
            r.0.mark == self.mark && r.1.mark == self.mark && r.2.mark == self.mark,
    {
        let s = chars_of(self.value.as_str());
        let sp = chars_of(sep);
        match rfind_chars(&s, &sp) {
            Some(i) => {
                assert(crate::text::occurs_at(s@, sp@, i as int));
                assert(i + sp@.len() <= s@.len());
                let n = sp.len();
                assert(i + n <= s.len());
                let pre = slice_chars(&s, 0, i);
                let post = slice_chars(&s, i + n, s.len());
                self.proc_partition(&pre, &sp, &post)
            },
            None => {
                let e: Vec<char> = Vec::new();
                self.proc_partition(&e, &e, &s)
            },
        }
    }

    /// Splits around the first occurrence of `sep`.
    pub fn partition(&self, sep: &str) -> (r: (MarkedUnicode, MarkedUnicode, MarkedUnicode))
        ensures
            (r.0.value@, r.1.value@, r.2.value@) == partition_spec(self.value@, sep@),
            r.0.mark == self.mark && r.1.mark == self.mark && r.2.mark == self.mark,
    {
        let s = chars_of(self.value.as_str());
        let sp = chars_of(sep);
        match find_chars(&s, &sp) {
            Some(i) => {
                assert(crate::text::occurs_at(s@, sp@, i as int));
                assert(i + sp@.len() <= s@.len());
                let n = sp.len();
                assert(i + n <= s.len());
                let pre = slice_chars(&s, 0, i);
                let post = slice_chars(&s, i + n, s.len());
                self.proc_partition(&pre, &sp, &post)
            },
            None => {
                let e: Vec<char> = Vec::new();
                self.proc_partition(&s, &e, &e)
            },
        }
    }
}

/// An integer with its mark.
#[derive(Debug, Clone, PartialEq, Eq, Structural)]
pub struct MarkedInt {
    pub value: i64,
    pub mark: Mark,
}

impl MarkedInt {
    /// A marked integer.
    pub fn new(value: i64, mark: Mark) -> (r: Self)
        ensures
            r == (MarkedInt { value, mark }),
    {
        MarkedInt { value, mark }
    }
}

} // verus!
