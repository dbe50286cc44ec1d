//! The scanner's state machine: the token queue, the flow level, and the
//! candidate simple keys, with the dispatch from the next character to the
//! kind of token to fetch.

use vstd::prelude::*;
use std::collections::HashMap;
use crate::markedjson::error::MarkedError;
use crate::markedjson::marks::Mark;
use crate::text::{chars_contain, chars_of, str_eq, string_from};

verus! {

broadcast use vstd::std_specs::hash::group_hash_axioms;

/// The hexadecimal digits.
pub open spec fn hexdigits() -> Seq<char> {
    seq![
        '0', '1', '2', '3', '4', '5', '6', '7', '8', '9', 'a', 'b', 'c', 'd', 'e', 'f', 'A', 'B',
        'C', 'D', 'E', 'F',
    ]
}

/// The hexadecimal digits, each once.
pub fn hexdigits_set() -> (r: Vec<char>)
    ensures
        r@ == hexdigits(),
        r@.no_duplicates(),
{
    let r = vec![
        '0', '1', '2', '3', '4', '5', '6', '7', '8', '9', 'a', 'b', 'c', 'd', 'e', 'f', 'A', 'B',
        'C', 'D', 'E', 'F',
    ];
    assert(r@ =~= hexdigits());
    r
}

/// An error met while scanning.
#[derive(Debug, Clone)]
pub struct ScannerError(pub MarkedError);

impl ScannerError {
    /// The error's message.
    pub fn to_string(&self) -> (r: String)
        ensures
            r@ == self.0.message@,
    {
        self.0.to_string()
    }
}

/// A place where a mapping key may start, kept until its `:` is seen.
#[derive(Debug, Clone, Copy, PartialEq, Eq, Structural)]
pub struct SimpleKey {
    pub token_number: usize,
    pub index: usize,
    pub line: usize,
    pub column: usize,
    pub mark: Option<Mark>,
}

impl SimpleKey {
    /// A candidate key at the given place.
    pub fn new(token_number: usize, index: usize, line: usize, column: usize, mark: Option<Mark>) -> (r: Self)
        ensures
            r == (SimpleKey { token_number, index, line, column, mark }),
    {
        SimpleKey { token_number, index, line, column, mark }
    }
}

/// The kind of token the scanner fetches next.
#[derive(Debug, Clone, Copy, PartialEq, Eq, Structural)]
pub enum FetchKind {
    StreamEnd,
    FlowSequenceStart,
    FlowMappingStart,
    FlowSequenceEnd,
    FlowMappingEnd,
    FlowEntry,
    Value,
    Double,
    Plain,
}

/// The characters that cannot start a plain scalar.
pub open spec fn non_plain_chars() -> Seq<char> {
    seq!['\0', '[', ']', '{', '}', ',', ':', '"']
}

/// Whether a plain scalar can start with `ch`.
pub fn check_plain(ch: char) -> (r: bool)
    ensures
        r == !non_plain_chars().contains(ch),
{
    let v = vec!['\0', '[', ']', '{', '}', ',', ':', '"'];
    assert(v@ =~= non_plain_chars());
    !chars_contain(&v, ch)
}

/// The kind of token that starts with `ch` at the given flow level: a `:`
/// is a value indicator only inside a flow collection.
pub open spec fn fetch_kind(ch: char, flow_level: u32) -> Option<FetchKind> {
    if ch == '\0' {
        Some(FetchKind::StreamEnd)
    } else if ch == '[' {
        Some(FetchKind::FlowSequenceStart)
    } else if ch == '{' {
        Some(FetchKind::FlowMappingStart)
    } else if ch == ']' {
        Some(FetchKind::FlowSequenceEnd)
    } else if ch == '}' {
        Some(FetchKind::FlowMappingEnd)
    } else if ch == ',' {
        Some(FetchKind::FlowEntry)
    } else if ch == ':' && flow_level > 0 {
        Some(FetchKind::Value)
    } else if ch == '"' {
        Some(FetchKind::Double)
    } else if !non_plain_chars().contains(ch) {
        Some(FetchKind::Plain)
    } else {
        None
    }
}

/// The kind of token to fetch for the next character.
pub fn dispatch_fetch_for(ch: char, flow_level: u32) -> (r: Option<FetchKind>)
    ensures
        r == fetch_kind(ch, flow_level),
{
    if ch == '\0' {
        return Some(FetchKind::StreamEnd);
    }
    if ch == '[' {
        return Some(FetchKind::FlowSequenceStart);
    }
    if ch == '{' {
        return Some(FetchKind::FlowMappingStart);
    }
    if ch == ']' {
        return Some(FetchKind::FlowSequenceEnd);
    }
    if ch == '}' {
        return Some(FetchKind::FlowMappingEnd);
    }
    if ch == ',' {
        return Some(FetchKind::FlowEntry);
    }
    if ch == ':' && flow_level > 0 {
        return Some(FetchKind::Value);
    }
    if ch == '"' {
        return Some(FetchKind::Double);
    }
    if check_plain(ch) {
        return Some(FetchKind::Plain);
    }
    None
}

/// A plain scalar can start with any character but NUL, `[`, `]`, `{`,
/// `}`, `,`, `:` and `"`; any other character (a sign, a digit, a letter)
/// is fetched as the start of a plain scalar at every flow level. A `:`
/// outside a flow collection starts no token.
pub proof fn law_plain_scalar_start(ch: char, flow_level: u32)
    ensures
        !non_plain_chars().contains(ch) <==> !(ch == '\0' || ch == '[' || ch == ']' || ch == '{' || ch == '}'
            || ch == ',' || ch == ':' || ch == '"'),
        !(ch == '\0' || ch == '[' || ch == ']' || ch == '{' || ch == '}' || ch == ',' || ch == ':' || ch == '"')
            ==> fetch_kind(ch, flow_level) == Some(FetchKind::Plain),
        ch == ':' && flow_level == 0 ==> fetch_kind(ch, flow_level) is None,
{
    let s = non_plain_chars();
    if s.contains(ch) {
        let i = choose|i: int| 0 <= i < s.len() && s[i] == ch;
        assert(i == 0 || i == 1 || i == 2 || i == 3 || i == 4 || i == 5 || i == 6 || i == 7);
    }
    if ch == '\0' { assert(s[0] == ch); }
    if ch == '[' { assert(s[1] == ch); }
    if ch == ']' { assert(s[2] == ch); }
    if ch == '{' { assert(s[3] == ch); }
    if ch == '}' { assert(s[4] == ch); }
    if ch == ',' { assert(s[5] == ch); }
    if ch == ':' { assert(s[6] == ch); }
    if ch == '"' { assert(s[7] == ch); }
}

/// The scanner's state: whether the end was reached, the flow nesting
/// level, the queue of tokens not yet taken, how many were taken, whether a
/// simple key may start here, and the candidate key of each flow level.
#[derive(Debug)]
pub struct Scanner {
    pub done: bool,
    pub flow_level: u32,
    pub tokens: Vec<String>,
    pub tokens_taken: usize,
    pub allow_simple_key: bool,
    pub possible_simple_keys: HashMap<u32, SimpleKey>,
}

/// The views of a token queue.
pub open spec fn token_names(v: Seq<String>) -> Seq<Seq<char>> {
    v.map_values(|s: String| s@)
}

impl Scanner {
    /// A scanner at the start of the input: the queue holds the stream start.
    pub fn new() -> (r: Self)
        ensures
            !r.done,
            r.flow_level == 0,
            token_names(r.tokens@) == seq!["StreamStartToken"@],
            r.tokens_taken == 0,
            r.allow_simple_key,
            r.possible_simple_keys@ == Map::<u32, SimpleKey>::empty(),
    {
        let mut s = Scanner {
            done: false,
            flow_level: 0,
            tokens: Vec::new(),
            tokens_taken: 0,
            allow_simple_key: true,
            possible_simple_keys: HashMap::new(),
        };
        s.fetch_stream_start();
        assert(token_names(s.tokens@) =~= seq!["StreamStartToken"@]);
        s
    }

    /// Queues the stream start.
    pub fn fetch_stream_start(&mut self)
        ensures
            final(self).tokens@ == old(self).tokens@.push(final(self).tokens@.last()),
            final(self).tokens@.last()@ == "StreamStartToken"@,
            final(self).done == old(self).done,
            final(self).flow_level == old(self).flow_level,
            final(self).tokens_taken == old(self).tokens_taken,
            final(self).allow_simple_key == old(self).allow_simple_key,
            final(self).possible_simple_keys@ == old(self).possible_simple_keys@,
    {
        self.tokens.push(string_from("StreamStartToken"));
    }

    /// Marks the end of the input: no key candidates remain and the stream
    /// end is queued.
    pub fn fetch_stream_end(&mut self)
        ensures
            final(self).done,
            final(self).possible_simple_keys@ == Map::<u32, SimpleKey>::empty(),
            final(self).tokens@ == old(self).tokens@.push(final(self).tokens@.last()),
            final(self).tokens@.last()@ == "StreamEndToken"@,
            final(self).flow_level == old(self).flow_level,
            final(self).tokens_taken == old(self).tokens_taken,
            final(self).allow_simple_key == old(self).allow_simple_key,
    {
        self.done = true;
        self.possible_simple_keys.clear();
        self.tokens.push(string_from("StreamEndToken"));
    }

    /// Whether a token is queued and, when `choices` is not empty, the next
    /// token is one of them.
    pub fn check_token(&self, choices: &[&str]) -> (r: bool)
        ensures
            r == (self.tokens.len() > 0 && (choices.len() == 0 || crate::text::strs_view(choices@).contains(self.tokens@[0]@))),
    {
        if self.tokens.len() == 0 {
            return false;
        }
        if choices.len() == 0 {
            return true;
        }
        crate::text::str_in(choices, self.tokens[0].as_str())
    }

    /// The next token, left in the queue.
    pub fn peek_token(&self) -> (r: Option<&str>)
        ensures
            match r {
                Some(t) => self.tokens.len() > 0 && t@ == self.tokens@[0]@,
                None => self.tokens.len() == 0,
            },
    {
        if self.tokens.len() == 0 {
            None
        } else {
            Some(self.tokens[0].as_str())
        }
    }

    /// Takes the next token from the queue.
    pub fn get_token(&mut self) -> (r: Option<String>)
        requires
            old(self).tokens_taken < usize::MAX,
        ensures
            old(self).tokens.len() == 0 ==> r is None && *final(self) == *old(self),
            old(self).tokens.len() > 0 ==> r == Some(old(self).tokens@[0])
                && final(self).tokens@ == old(self).tokens@.drop_first()
                && final(self).tokens_taken == old(self).tokens_taken + 1
                && final(self).done == old(self).done
                && final(self).flow_level == old(self).flow_level
                && final(self).allow_simple_key == old(self).allow_simple_key
                && final(self).possible_simple_keys == old(self).possible_simple_keys,
    {
        if self.tokens.len() == 0 {
            return None;
        }
        self.tokens_taken = self.tokens_taken + 1;
        let t = self.tokens.remove(0);
        assert(self.tokens@ =~= old(self).tokens@.drop_first());
        Some(t)
    }

    /// The least token number among the candidate keys.
    pub fn next_possible_simple_key(&self) -> (r: Option<usize>)
        ensures
            match r {
                None => self.possible_simple_keys@.dom().is_empty(),
                Some(n) => (exists|l: u32|
                    #[trigger] self.possible_simple_keys@.contains_key(l) && self.possible_simple_keys@[l].token_number == n)
                    && forall|l: u32|
                    #[trigger] self.possible_simple_keys@.contains_key(l) ==> n <= self.possible_simple_keys@[l].token_number,
            },
    {
        let mut best: Option<usize> = None;
        let ghost m = self.possible_simple_keys@;
        let ghost mut seen: Seq<SimpleKey> = Seq::empty();
        for k in it: self.possible_simple_keys.values()
            invariant
                m == self.possible_simple_keys@,
                it.seq().unref().to_set() == m.values(),
                seen == it.seq().unref().take(it.index() as int),
                it.index() == it.seq().len() ==> seen.to_set() == m.values(),
                match best {
                    None => seen.len() == 0,
                    Some(n) => (exists|j: int| 0 <= j < seen.len() && seen[j].token_number == n)
                        && forall|j: int| 0 <= j < seen.len() ==> n <= #[trigger] seen[j].token_number,
                },
        {
            let ghost idx = it.index();
            assert(it.seq().unref()[idx as int] == *k);
            best = match best {
                None => Some(k.token_number),
                Some(b) => if k.token_number < b { Some(k.token_number) } else { Some(b) },
            };
            proof {
                seen = seen.push(*k);
            }
            assert(seen =~= it.seq().unref().take(idx + 1));
            assert(idx + 1 == it.seq().len() ==> seen =~= it.seq().unref());
            proof {
                match best {
                    Some(n) => {
                        if n == k.token_number {
                            assert(seen[seen.len() - 1].token_number == n);
                        }
                    },
                    None => {},
                }
            }
        }
        proof {
            assert(seen.to_set() == m.values());
            match best {
                None => {
                    assert(seen.to_set() =~= Set::<SimpleKey>::empty());
                    if !m.dom().is_empty() {
                        let l = m.dom().choose();
                        assert(m.values().contains(m[l]));
                    }
                },
                Some(n) => {
                    let j = choose|j: int| 0 <= j < seen.len() && seen[j].token_number == n;
                    assert(seen.to_set().contains(seen[j]));
                    let l = choose|l: u32| #[trigger] m.contains_key(l) && m[l] == seen[j];
                    assert(m.contains_key(l) && m[l].token_number == n);
                    assert forall|l2: u32| #[trigger] m.contains_key(l2) implies n <= m[l2].token_number by {
                        assert(m.values().contains(m[l2]));
                        assert(seen.to_set().contains(m[l2]));
                        let i = choose|i: int| 0 <= i < seen.len() && seen[i] == m[l2];
                    }
                },
            }
        }
        best
    }

    /// Whether more tokens must be scanned before the next one can be
    /// handed out: not at the end, and the queue is empty or its head is
    /// where a candidate key may still start.
    pub fn need_more_tokens(&self) -> (r: bool)
        ensures
            r == (!self.done && (self.tokens.len() == 0 || exists|l: u32|
                #[trigger] self.possible_simple_keys@.contains_key(l)
                    && self.possible_simple_keys@[l].token_number == self.tokens_taken
                    && forall|l2: u32|
                    #[trigger] self.possible_simple_keys@.contains_key(l2) ==> self.tokens_taken <= self.possible_simple_keys@[l2].token_number)),
    {
        if self.done {
            return false;
        }
        if self.tokens.len() == 0 {
            return true;
        }
        match self.next_possible_simple_key() {
            Some(n) => n == self.tokens_taken,
            None => false,
        }
    }

    /// Records a candidate key at the current flow level, when a simple key
    /// may start here.
    pub fn save_possible_simple_key(&mut self, index: usize, line: usize, column: usize)
        requires
            old(self).tokens_taken + old(self).tokens.len() <= usize::MAX,
        ensures
            final(self).possible_simple_keys@ == if old(self).allow_simple_key {
                old(self).possible_simple_keys@.insert(
                    old(self).flow_level,
                    SimpleKey {
                        token_number: (old(self).tokens_taken + old(self).tokens.len()) as usize,
                        index,
                        line,
                        column,
                        mark: None,
                    },
                )
            } else {
                old(self).possible_simple_keys@
            },
            final(self).tokens == old(self).tokens,
            final(self).tokens_taken == old(self).tokens_taken,
            final(self).flow_level == old(self).flow_level,
            final(self).done == old(self).done,
            final(self).allow_simple_key == old(self).allow_simple_key,
    {
        if !self.allow_simple_key {
            return;
        }
        let token_number = self.tokens_taken + self.tokens.len();
        let key = SimpleKey::new(token_number, index, line, column, None);
        self.possible_simple_keys.insert(self.flow_level, key);
    }

    /// Drops the candidate key of the current flow level.
    pub fn remove_possible_simple_key(&mut self)
        ensures
            final(self).possible_simple_keys@ == old(self).possible_simple_keys@.remove(old(self).flow_level),
            final(self).tokens == old(self).tokens,
            final(self).tokens_taken == old(self).tokens_taken,
            final(self).flow_level == old(self).flow_level,
            final(self).done == old(self).done,
            final(self).allow_simple_key == old(self).allow_simple_key,
    {
        let level = self.flow_level;
        self.possible_simple_keys.remove(&level);
    }

    /// Enters a flow collection and queues its start token.
    pub fn fetch_flow_collection_start(&mut self, token_name: &str)
        requires
            old(self).flow_level < u32::MAX,
        ensures
            final(self).flow_level == old(self).flow_level + 1,
            token_names(final(self).tokens@) == token_names(old(self).tokens@).push(token_name@),
            final(self).tokens_taken == old(self).tokens_taken,
            final(self).done == old(self).done,
            final(self).allow_simple_key == old(self).allow_simple_key,
            final(self).possible_simple_keys == old(self).possible_simple_keys,
    {
        self.flow_level = self.flow_level + 1;
        self.tokens.push(string_from(token_name));
        assert(token_names(self.tokens@) =~= token_names(old(self).tokens@).push(token_name@));
    }

    /// Leaves a flow collection (never below level 0) and queues its end
    /// token.
    pub fn fetch_flow_collection_end(&mut self, token_name: &str)
        ensures
            final(self).flow_level == if old(self).flow_level > 0 {
                (old(self).flow_level - 1) as u32
            } else {
                0
            },
            token_names(final(self).tokens@) == token_names(old(self).tokens@).push(token_name@),
            final(self).tokens_taken == old(self).tokens_taken,
            final(self).done == old(self).done,
            final(self).allow_simple_key == old(self).allow_simple_key,
            final(self).possible_simple_keys == old(self).possible_simple_keys,
    {
        if self.flow_level > 0 {
            self.flow_level = self.flow_level - 1;
        }
        self.tokens.push(string_from(token_name));
        assert(token_names(self.tokens@) =~= token_names(old(self).tokens@).push(token_name@));
    }

    /// Queues a value indicator.
    pub fn fetch_value(&mut self)
        ensures
            token_names(final(self).tokens@) == token_names(old(self).tokens@).push("ValueToken"@),
            final(self).flow_level == old(self).flow_level,
            final(self).tokens_taken == old(self).tokens_taken,
            final(self).done == old(self).done,
            final(self).allow_simple_key == old(self).allow_simple_key,
            final(self).possible_simple_keys == old(self).possible_simple_keys,
    {
        self.tokens.push(string_from("ValueToken"));
        assert(token_names(self.tokens@) =~= token_names(old(self).tokens@).push("ValueToken"@));
    }

    /// Queues a flow entry separator.
    pub fn fetch_flow_entry(&mut self)
        ensures
            token_names(final(self).tokens@) == token_names(old(self).tokens@).push("FlowEntryToken"@),
            final(self).flow_level == old(self).flow_level,
            final(self).tokens_taken == old(self).tokens_taken,
            final(self).done == old(self).done,
            final(self).allow_simple_key == old(self).allow_simple_key,
            final(self).possible_simple_keys == old(self).possible_simple_keys,
    {
        self.tokens.push(string_from("FlowEntryToken"));
        assert(token_names(self.tokens@) =~= token_names(old(self).tokens@).push("FlowEntryToken"@));
    }
}

/// The flow levels whose candidate key lies on a line before `current_line`
/// and so can no longer become a key, each once, in no particular order.
pub fn stale_possible_simple_keys(current_line: usize, keys: &HashMap<u32, SimpleKey>) -> (r: Vec<u32>)
    ensures
        r@.no_duplicates(),
        forall|l: u32| r@.contains(l) <==> (#[trigger] keys@.contains_key(l) && keys@[l].line < current_line),
{
    let mut out: Vec<u32> = Vec::new();
    let ghost m = keys@;
    let ghost mut seen: Seq<(u32, SimpleKey)> = Seq::empty();
    for kv in it: keys.iter()
        invariant
            m == keys@,
            it.seq().no_duplicates(),
            forall|i: int| 0 <= i < it.seq().len() ==> m.contains_key(*(#[trigger] it.seq()[i]).0) && m[*it.seq()[i].0] == *it.seq()[i].1,
            forall|l: u32| m.contains_key(l) ==> it.seq().contains((&l, &m[l])),
            seen.len() == it.index(),
            forall|i: int| 0 <= i < seen.len() ==> seen[i] == (*(#[trigger] it.seq()[i]).0, *it.seq()[i].1),
            it.index() == it.seq().len() ==> forall|l: u32| m.contains_key(l) ==> exists|i: int| 0 <= i < seen.len() && (#[trigger] seen[i]).0 == l,
            forall|i: int| 0 <= i < seen.len() ==> m.contains_key((#[trigger] seen[i]).0) && m[seen[i].0] == seen[i].1,
            out@.no_duplicates(),
            forall|l: u32| out@.contains(l) <==> exists|i: int| 0 <= i < seen.len() && (#[trigger] seen[i]).0 == l && seen[i].1.line < current_line,
    {
        let (level, key) = kv;
        let ghost idx = it.index();
        let ghost old_seen = seen;
        let ghost old_out = out@;
        assert(it.seq()[idx as int] == kv);
        if key.line < current_line {
            proof {
                if out@.contains(*level) {
                    let i = choose|i: int| 0 <= i < seen.len() && (#[trigger] seen[i]).0 == *level && seen[i].1.line < current_line;
                    assert(seen[i] == (*it.seq()[i].0, *it.seq()[i].1));
                    assert(m[*it.seq()[i].0] == *it.seq()[i].1);
                    assert(it.seq()[i] == it.seq()[idx as int]);
                    assert(false);
                }
            }
            out.push(*level);
        }
        proof {
            seen = seen.push((*level, *key));
        }
        assert forall|l: u32| idx + 1 == it.seq().len() && m.contains_key(l) implies exists|i: int| 0 <= i < seen.len() && (#[trigger] seen[i]).0 == l by {
            assert(it.seq().contains((&l, &m[l])));
            let j = choose|j: int| 0 <= j < it.seq().len() && it.seq()[j] == (&l, &m[l]);
            if j < idx {
                assert(seen[j] == (*it.seq()[j].0, *it.seq()[j].1));
            } else {
                assert(seen[idx as int] == (*level, *key));
            }
        }
        assert(out@ == if key.line < current_line { old_out.push(*level) } else { old_out });
        assert forall|l: u32| out@.contains(l) <==> exists|i: int| 0 <= i < seen.len() && (#[trigger] seen[i]).0 == l && seen[i].1.line < current_line by {
            assert(seen == old_seen.push((*level, *key)));
            if out@.contains(l) {
                if old_out.contains(l) {
                    let i = choose|i: int| 0 <= i < old_seen.len() && (#[trigger] old_seen[i]).0 == l && old_seen[i].1.line < current_line;
                    assert(seen[i] == old_seen[i]);
                } else {
                    let k = choose|k: int| 0 <= k < out@.len() && out@[k] == l;
                    if k < old_out.len() {
                        assert(old_out[k] == out@[k]);
                    }
                    assert(l == *level && key.line < current_line);
                    assert(seen[idx as int] == (*level, *key));
                }
            }
            if exists|i: int| 0 <= i < seen.len() && (#[trigger] seen[i]).0 == l && seen[i].1.line < current_line {
                let i = choose|i: int| 0 <= i < seen.len() && (#[trigger] seen[i]).0 == l && seen[i].1.line < current_line;
                if i < idx {
                    assert(old_seen[i] == seen[i]);
                    assert(old_out.contains(l));
                    let k = choose|k: int| 0 <= k < old_out.len() && old_out[k] == l;
                    assert(out@[k] == l);
                } else {
                    assert(seen[i] == (*level, *key));
                    assert(out@[old_out.len() as int] == *level);
                }
            }
        }
    }
    proof {
        assert forall|l: u32| out@.contains(l) <==> (#[trigger] keys@.contains_key(l) && keys@[l].line < current_line) by {
            if keys@.contains_key(l) && keys@[l].line < current_line {
                let i = choose|i: int| 0 <= i < seen.len() && (#[trigger] seen[i]).0 == l;
                assert(seen[i].1 == m[l]);
            }
        }
    }
    out
}

} // verus!
