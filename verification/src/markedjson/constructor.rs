//! Building values from nodes: the table that gives each tag its
//! constructor, the errors met on the way, and the rules by which a scalar
//! is read as a boolean or an integer.

use vstd::prelude::*;
use crate::markedjson::error::{error_lines, spaces, MarkedError};
use crate::markedjson::nodes::MappingNode;
use crate::text::join_seqs;
use crate::text::{append_str, char_is_whitespace, chars_of, is_whitespace, str_eq, string_from, string_of};

verus! {

/// An error met while building a value from a node.
#[derive(Debug, Clone)]
pub struct ConstructorError(pub MarkedError);

impl ConstructorError {
    /// The error's message.
    pub fn to_string(&self) -> (r: String)
        ensures
            r@ == self.0.message@,
    {
        self.0.to_string()
    }

    /// An error whose whole message is `problem`.
    fn with_problem(problem: &str) -> (r: Self)
        ensures
            r.0.message@ == problem@,
    {
        let r = MarkedError::new(None, None, Some(problem), None, None);
        proof {
            join_seqs_single(problem@);
        }
        ConstructorError(r)
    }
}

/// An error with a problem alone has the problem as its message.
proof fn join_seqs_single(p: Seq<char>)
    ensures
        join_seqs(error_lines(None, None, Some(p), None, None, 0), "\n"@) == p,
{
    assert(spaces(0) =~= Seq::<char>::empty());
    let lines = error_lines(None, None, Some(p), None, None, 0);
    assert(lines =~= seq![p]);
}

/// The constructors that a tag can be given.
#[derive(Debug, Clone, Copy, PartialEq, Eq, Structural)]
pub enum ConstructorKind {
    Null,
    Bool,
    Int,
    Float,
    Str,
    Sequence,
    Mapping,
    Undefined,
}

/// The key under which the constructor for tags with none of their own is
/// registered.
pub const CATCH_ALL_KEY: &'static str = "*";

/// The table of constructors, by tag.
pub open spec fn table_map(t: Seq<(String, ConstructorKind)>) -> Map<Seq<char>, ConstructorKind>
    decreases t.len(),
{
    if t.len() == 0 {
        Map::empty()
    } else {
        table_map(t.drop_last()).insert(t.last().0@, t.last().1)
    }
}

/// `i` is the last entry of `t` under `key`.
pub open spec fn is_last_entry(t: Seq<(String, ConstructorKind)>, key: Seq<char>, i: int) -> bool {
    &&& 0 <= i < t.len()
    &&& t[i].0@ == key
    &&& forall|j: int| i < j < t.len() ==> t[j].0@ != key
}

/// A key is in the table exactly when an entry has it, and then it gives
/// the last such entry's constructor.
proof fn lemma_table_map(t: Seq<(String, ConstructorKind)>, key: Seq<char>)
    ensures
        table_map(t).dom().contains(key) <==> exists|i: int| 0 <= i < t.len() && t[i].0@ == key,
        forall|i: int| is_last_entry(t, key, i) ==> table_map(t)[key] == t[i].1,
    decreases t.len(),
{
    if t.len() > 0 {
        let d = t.drop_last();
        lemma_table_map(d, key);
        if t.last().0@ != key {
            if exists|i: int| 0 <= i < t.len() && t[i].0@ == key {
                let i = choose|i: int| 0 <= i < t.len() && t[i].0@ == key;
                assert(d[i].0@ == key);
            }
            assert forall|i: int| is_last_entry(t, key, i) implies table_map(t)[key] == t[i].1 by {
                assert(is_last_entry(d, key, i));
            }
        } else {
            assert(t[t.len() - 1].0@ == key);
            assert forall|i: int| is_last_entry(t, key, i) implies table_map(t)[key] == t[i].1 by {
                assert(i == t.len() - 1);
            }
        }
    }
}

/// Replacing the last entry under a key changes the table at that key
/// alone.
proof fn lemma_table_map_update(t: Seq<(String, ConstructorKind)>, i: int, e: (String, ConstructorKind))
    requires
        is_last_entry(t, e.0@, i),
    ensures
        table_map(t.update(i, e)) == table_map(t).insert(e.0@, e.1),
    decreases t.len(),
{
    let u = t.update(i, e);
    if i == t.len() - 1 {
        assert(u.drop_last() =~= t.drop_last());
        assert(table_map(u) =~= table_map(t).insert(e.0@, e.1));
    } else {
        let d = t.drop_last();
        assert(is_last_entry(d, e.0@, i));
        lemma_table_map_update(d, i, e);
        assert(u.drop_last() =~= d.update(i, e));
        assert(t.last().0@ != e.0@);
        assert(table_map(u) =~= table_map(t).insert(e.0@, e.1));
    }
}

/// The constructors known to a builder, by tag.
#[derive(Debug)]
pub struct BaseConstructor {
    pub yaml_constructors: Vec<(String, ConstructorKind)>,
}

impl View for BaseConstructor {
    type V = Map<Seq<char>, ConstructorKind>;

    open spec fn view(&self) -> Map<Seq<char>, ConstructorKind> {
        table_map(self.yaml_constructors@)
    }
}

/// What the table `m` gives for `key`.
pub open spec fn registered_kind(m: Map<Seq<char>, ConstructorKind>, key: Seq<char>) -> Option<ConstructorKind> {
    if m.dom().contains(key) {
        Some(m[key])
    } else {
        None
    }
}

/// The constructor that a node tagged `tag` is built with: its tag's own,
/// else the catch-all one, else none.
pub open spec fn constructor_of(m: Map<Seq<char>, ConstructorKind>, tag: Seq<char>) -> Option<ConstructorKind> {
    match registered_kind(m, tag) {
        Some(k) => Some(k),
        None => registered_kind(m, CATCH_ALL_KEY@),
    }
}

/// The key a tag is registered under: the tag, or the catch-all key.
pub open spec fn registration_key(tag: Option<Seq<char>>) -> Seq<char> {
    match tag {
        Some(t) => t,
        None => CATCH_ALL_KEY@,
    }
}

impl BaseConstructor {
    /// A builder with no constructor registered.
    pub fn new() -> (r: Self)
        ensures
            r@ == Map::<Seq<char>, ConstructorKind>::empty(),
    {
        BaseConstructor { yaml_constructors: Vec::new() }
    }

    /// The index of the last entry under `key`, if there is one.
    fn last_entry(&self, key: &str) -> (r: Option<usize>)
        ensures
            match r {
                Some(i) => is_last_entry(self.yaml_constructors@, key@, i as int),
                None => forall|j: int| 0 <= j < self.yaml_constructors@.len() ==> self.yaml_constructors@[j].0@ != key@,
            },
    {
        let mut i: usize = self.yaml_constructors.len();
        while i > 0
            invariant
                i <= self.yaml_constructors@.len(),
                forall|j: int| i <= j < self.yaml_constructors@.len() ==> self.yaml_constructors@[j].0@ != key@,
            decreases i,
        {
            i = i - 1;
            if str_eq(self.yaml_constructors[i].0.as_str(), key) {
                return Some(i);
            }
        }
        None
    }

    /// Registers `constructor` for `tag`, or for every tag with no
    /// constructor of its own when `tag` is none; it replaces what was
    /// registered there before.
    pub fn add_constructor(&mut self, tag: Option<&str>, constructor: ConstructorKind)
        ensures
            final(self)@ == old(self)@.insert(
                registration_key(match tag { Some(t) => Some(t@), None => None }),
                constructor,
            ),
    {
        let key = match tag {
            Some(t) => string_from(t),
            None => string_from(CATCH_ALL_KEY),
        };
        let ghost k = key@;
        match self.last_entry(key.as_str()) {
            Some(i) => {
                proof {
                    lemma_table_map_update(self.yaml_constructors@, i as int, (key, constructor));
                }
                self.yaml_constructors.set(i, (key, constructor));
            },
            None => {
                self.yaml_constructors.push((key, constructor));
                assert(self.yaml_constructors@.drop_last() =~= old(self).yaml_constructors@);
            },
        }
    }

    /// The constructor registered under `key` itself, if any.
    pub fn registered(&self, key: &str) -> (r: Option<ConstructorKind>)
        ensures
            r == registered_kind(self@, key@),
    {
        proof {
            lemma_table_map(self.yaml_constructors@, key@);
        }
        match self.last_entry(key) {
            Some(i) => Some(self.yaml_constructors[i].1),
            None => None,
        }
    }

    /// Whether a constructor is registered under `key` itself.
    pub fn contains_key(&self, key: &str) -> (r: bool)
        ensures
            r == self@.dom().contains(key@),
    {
        self.registered(key).is_some()
    }

    /// The constructor that a node tagged `tag` is built with; when there
    /// is none, the error `no constructor for tag` and the tag.
    pub fn constructor_for(&self, tag: &str) -> (r: Result<ConstructorKind, ConstructorError>)
        ensures
            match constructor_of(self@, tag@) {
                Some(k) => r == Ok::<ConstructorKind, ConstructorError>(k),
                None => r matches Err(e) && e.0.message@ == "no constructor for tag "@ + tag@,
            },
    {
        match self.registered(tag) {
            Some(k) => Ok(k),
            None => match self.registered(CATCH_ALL_KEY) {
                Some(k) => Ok(k),
                None => {
                    let mut msg = chars_of("no constructor for tag ");
                    append_str(&mut msg, tag);
                    let m = string_of(&msg);
                    Err(ConstructorError::with_problem(m.as_str()))
                },
            },
        }
    }
}

/// The tags given a constructor of their own from the start, with the
/// constructor of each.
pub open spec fn default_constructors() -> Map<Seq<char>, ConstructorKind> {
    map![
        "tag:yaml.org,2002:null"@ => ConstructorKind::Null,
        "tag:yaml.org,2002:bool"@ => ConstructorKind::Bool,
        "tag:yaml.org,2002:int"@ => ConstructorKind::Int,
        "tag:yaml.org,2002:float"@ => ConstructorKind::Float,
        "tag:yaml.org,2002:str"@ => ConstructorKind::Str,
        "tag:yaml.org,2002:seq"@ => ConstructorKind::Sequence,
        "tag:yaml.org,2002:map"@ => ConstructorKind::Mapping,
        CATCH_ALL_KEY@ => ConstructorKind::Undefined
    ]
}

/// After a constructor is registered for a tag, nodes with that tag are
/// built with it, and nodes with any other tag that has a constructor of
/// its own are built as before.
pub proof fn law_registered_constructor_is_used(m: Map<Seq<char>, ConstructorKind>, tag: Seq<char>, k: ConstructorKind, other: Seq<char>)
    ensures
        constructor_of(m.insert(tag, k), tag) == Some(k),
        other != tag && m.dom().contains(other) ==> constructor_of(m.insert(tag, k), other) == constructor_of(m, other),
{
}

/// A builder with the constructors of the JSON tags, and the one that
/// refuses every other tag.
#[derive(Debug)]
pub struct Constructor {
    pub base: BaseConstructor,
}

impl Constructor {
    /// A builder with the default constructors registered.
    pub fn new() -> (r: Self)
        ensures
            r.base@ == default_constructors(),
    {
        let mut base = BaseConstructor::new();
        base.add_constructor(Some("tag:yaml.org,2002:null"), ConstructorKind::Null);
        base.add_constructor(Some("tag:yaml.org,2002:bool"), ConstructorKind::Bool);
        base.add_constructor(Some("tag:yaml.org,2002:int"), ConstructorKind::Int);
        base.add_constructor(Some("tag:yaml.org,2002:float"), ConstructorKind::Float);
        base.add_constructor(Some("tag:yaml.org,2002:str"), ConstructorKind::Str);
        base.add_constructor(Some("tag:yaml.org,2002:seq"), ConstructorKind::Sequence);
        base.add_constructor(Some("tag:yaml.org,2002:map"), ConstructorKind::Mapping);
        base.add_constructor(None, ConstructorKind::Undefined);
        assert(base@ =~= default_constructors());
        Constructor { base }
    }

    /// Splices merge keys into a mapping. A mapping node holds its members
    /// as one JSON object, whose keys carry no tags, so there are none to
    /// splice and the node stays as it is.
    pub fn flatten_mapping(&self, node: &mut MappingNode)
        ensures
            *final(node) == *old(node),
    {
    }
}

/// The error for a node whose tag has no constructor.
pub fn construct_undefined(tag: &str) -> (r: ConstructorError)
    ensures
        r.0.message@ == "could not determine a constructor for the tag "@ + tag@,
{
    let mut msg = chars_of("could not determine a constructor for the tag ");
    append_str(&mut msg, tag);
    let m = string_of(&msg);
    ConstructorError::with_problem(m.as_str())
}

/// The error for a node of the kind `found` where one of the kind
/// `expected` was needed.
pub fn wrong_node_kind(expected: &str, found: &str) -> (r: ConstructorError)
    ensures
        r.0.message@ == "expected a "@ + expected@ + " node, but found "@ + found@,
{
    let mut msg = chars_of("expected a ");
    append_str(&mut msg, expected);
    append_str(&mut msg, " node, but found ");
    append_str(&mut msg, found);
    let m = string_of(&msg);
    ConstructorError::with_problem(m.as_str())
}

/// Whether a scalar written as the text `s` reads as true: when it is
/// neither empty nor `false`.
pub fn bool_of_text(s: &str) -> (r: bool)
    ensures
        r == (s@.len() > 0 && s@ != "false"@),
{
    s.unicode_len() > 0 && !str_eq(s, "false")
}

/// `s` without its leading white space.
pub open spec fn trim_start(s: Seq<char>) -> Seq<char>
    decreases s.len(),
{
    if s.len() > 0 && is_whitespace(s[0]) {
        trim_start(s.skip(1))
    } else {
        s
    }
}

/// `s` without its trailing white space.
pub open spec fn trim_end(s: Seq<char>) -> Seq<char>
    decreases s.len(),
{
    if s.len() > 0 && is_whitespace(s.last()) {
        trim_end(s.drop_last())
    } else {
        s
    }
}

/// `s` without white space at either end.
pub open spec fn trimmed(s: Seq<char>) -> Seq<char> {
    trim_end(trim_start(s))
}

/// The value of a decimal digit.
pub open spec fn digit_value(c: char) -> nat {
    ((c as u32) - ('0' as u32)) as nat
}

/// Every character of `s` is a decimal digit.
pub open spec fn all_digits(s: Seq<char>) -> bool {
    forall|i: int| 0 <= i < s.len() ==> '0' <= #[trigger] s[i] && s[i] <= '9'
}

/// The number that the decimal digits `s` write.
pub open spec fn digits_value(s: Seq<char>) -> nat
    decreases s.len(),
{
    if s.len() == 0 {
        0
    } else {
        digits_value(s.drop_last()) * 10 + digit_value(s.last())
    }
}

/// Whether the text `s` starts with the sign `c`.
pub open spec fn starts_with_char(s: Seq<char>, c: char) -> bool {
    s.len() > 0 && s[0] == c
}

/// What reading `s` as a 64-bit integer gives: a sign, optional, then
/// one decimal digit or more, whose value fits; else nothing.
pub open spec fn parsed_i64(s: Seq<char>) -> Option<int> {
    let negative = starts_with_char(s, '-');
    let digits = if starts_with_char(s, '-') || starts_with_char(s, '+') { s.skip(1) } else { s };
    let v = if negative { -(digits_value(digits) as int) } else { digits_value(digits) as int };
    if digits.len() == 0 || !all_digits(digits) || v < i64::MIN || v > i64::MAX {
        None
    } else {
        Some(v)
    }
}

/// The sign of a trimmed scalar and the text after it.
pub open spec fn split_sign(t: Seq<char>) -> (int, Seq<char>) {
    if starts_with_char(t, '-') {
        (-1, t.skip(1))
    } else if starts_with_char(t, '+') {
        (1, t.skip(1))
    } else {
        (1, t)
    }
}

/// The integer that a scalar written as `s` stands for: its text without
/// white space at either end, an optional sign, then a number that reads
/// as a 64-bit integer; what does not read as one stands for zero.
pub open spec fn scalar_int(s: Seq<char>) -> int {
    let (sign, body) = split_sign(trimmed(s));
    if body == "0"@ {
        0
    } else {
        match parsed_i64(body) {
            Some(v) => sign * v,
            None => 0,
        }
    }
}

/// The text `s` without white space at either end.
fn trim_chars(s: &str) -> (r: Vec<char>)
    ensures
        r@ == trimmed(s@),
{
    let cs = chars_of(s);
    let n = cs.len();
    let mut start: usize = 0;
    assert(s@.subrange(0, n as int) =~= s@);
    while start < n && char_is_whitespace(cs[start])
        invariant
            cs@ == s@,
            n == cs@.len(),
            start <= n,
            trim_start(s@) == trim_start(s@.subrange(start as int, n as int)),
        decreases n - start,
    {
        assert(s@.subrange(start as int, n as int).skip(1) =~= s@.subrange(start as int + 1, n as int));
        start = start + 1;
    }
    assert(trim_start(s@) == s@.subrange(start as int, n as int));
    let mut end: usize = n;
    while end > start && char_is_whitespace(cs[end - 1])
        invariant
            cs@ == s@,
            n == cs@.len(),
            start <= end <= n,
            trimmed(s@) == trim_end(s@.subrange(start as int, end as int)),
        decreases end,
    {
        assert(s@.subrange(start as int, end as int).drop_last() =~= s@.subrange(start as int, end as int - 1));
        end = end - 1;
    }
    let mut out: Vec<char> = Vec::new();
    let mut i: usize = start;
    while i < end
        invariant
            cs@ == s@,
            start <= i <= end <= n,
            n == cs@.len(),
            out@ == s@.subrange(start as int, i as int),
        decreases end - i,
    {
        out.push(cs[i]);
        i = i + 1;
        assert(out@ =~= s@.subrange(start as int, i as int));
    }
    out
}

/// The value of the digits after a prefix grows with each digit.
proof fn lemma_digits_value_prefix(s: Seq<char>, k: int)
    requires
        0 <= k <= s.len(),
    ensures
        digits_value(s.take(k)) <= digits_value(s),
    decreases s.len() - k,
{
    if k < s.len() {
        lemma_digits_value_prefix(s, k + 1);
        assert(s.take(k + 1).drop_last() =~= s.take(k));
    } else {
        assert(s.take(k) =~= s);
    }
}

/// `cs` from `from` on, read as a 64-bit integer.
fn parse_i64(cs: &Vec<char>, from: usize) -> (r: Option<i64>)
    requires
        from <= cs@.len(),
    ensures
        r matches Some(v) ==> parsed_i64(cs@.skip(from as int)) == Some(v as int),
        r is None ==> parsed_i64(cs@.skip(from as int)) is None,
{
    let ghost s = cs@.skip(from as int);
    let n = cs.len();
    let negative = from < n && cs[from] == '-';
    let mut i: usize = if from < n && (cs[from] == '-' || cs[from] == '+') { from + 1 } else { from };
    let ghost d0 = i;
    let ghost digits = cs@.subrange(d0 as int, n as int);
    assert(digits =~= (if starts_with_char(s, '-') || starts_with_char(s, '+') { s.skip(1) } else { s }));
    if i == n {
        return None;
    }
    let mut acc: u128 = 0;
    while i < n
        invariant
            d0 <= i <= n,
            n == cs@.len(),
            digits == cs@.subrange(d0 as int, n as int),
            s == cs@.skip(from as int),
            digits == (if starts_with_char(s, '-') || starts_with_char(s, '+') { s.skip(1) } else { s }),
            negative == starts_with_char(s, '-'),
            acc as nat == digits_value(cs@.subrange(d0 as int, i as int)),
            acc <= 9223372036854775808,
            all_digits(cs@.subrange(d0 as int, i as int)),
        decreases n - i,
    {
        let c = cs[i];
        if c < '0' || c > '9' {
            assert(digits[i - d0] == c);
            assert(!all_digits(digits));
            return None;
        }
        let d: u128 = ((c as u32) - ('0' as u32)) as u128;
        assert(cs@.subrange(d0 as int, i as int + 1).drop_last() =~= cs@.subrange(d0 as int, i as int));
        acc = acc * 10 + d;
        i = i + 1;
        assert(cs@.subrange(d0 as int, i as int).last() == c);
        assert(digits_value(cs@.subrange(d0 as int, i as int)) == acc as nat);
        assert(all_digits(cs@.subrange(d0 as int, i as int)));
        if acc > 9223372036854775808 {
            proof {
                assert(digits.take(i - d0) =~= cs@.subrange(d0 as int, i as int));
                lemma_digits_value_prefix(digits, i - d0);
                assert(digits_value(digits) > 9223372036854775808);
            }
            return None;
        }
    }
    assert(cs@.subrange(d0 as int, i as int) =~= digits);
    if negative {
        let v: i128 = 0i128 - (acc as i128);
        Some(v as i64)
    } else if acc <= 9223372036854775807 {
        Some(acc as i64)
    } else {
        None
    }
}

/// The integer that a scalar written as `s` stands for (see
/// `scalar_int`).
pub fn int_of_scalar_text(s: &str) -> (r: i64)
    requires
        !(starts_with_char(trimmed(s@), '-') && parsed_i64(trimmed(s@).skip(1)) == Some(i64::MIN as int)),
    ensures
        r as int == scalar_int(s@),
{
    let t = trim_chars(s);
    let n = t.len();
    let (negative, from): (bool, usize) = if n > 0 && t[0] == '-' {
        (true, 1)
    } else if n > 0 && t[0] == '+' {
        (false, 1)
    } else {
        (false, 0)
    };
    assert(t@.skip(from as int) == split_sign(t@).1);
    assert(split_sign(t@).0 == if negative { -1int } else { 1int });
    if n == from + 1 && t[from] == '0' {
        assert(t@.skip(from as int) =~= "0"@) by {
            reveal_strlit("0");
        }
        return 0;
    }
    proof {
        reveal_strlit("0");
        if t@.skip(from as int) == "0"@ {
            assert(t@.skip(from as int)[0] == '0');
        }
    }
    match parse_i64(&t, from) {
        Some(v) => if negative {
            assert(v != i64::MIN);
            0 - v
        } else {
            v
        },
        None => 0,
    }
}

} // verus!
