//! JSON values as the library holds them: the configuration and the
//! segment information that listers hand on are objects of these.

use vstd::prelude::*;
use crate::text::{append_chars, chars_of, decimal, decimal_chars, str_eq, string_from, string_of};

verus! {

/// A JSON value. An object keeps its members in order.
#[derive(Debug, PartialEq)]
pub enum JsonValue {
    Null,
    Bool(bool),
    /// A number, as it is written.
    Number(String),
    Text(String),
    Array(Vec<JsonValue>),
    Object(Vec<(String, JsonValue)>),
}

/// A JSON value as a mathematical value.
pub enum JsonView {
    Null,
    Bool(bool),
    Number(Seq<char>),
    Text(Seq<char>),
    Array(Seq<JsonView>),
    Object(Seq<(Seq<char>, JsonView)>),
}

/// `v` as a mathematical value.
pub open spec fn json_view(v: JsonValue) -> JsonView
    decreases v, 1nat,
{
    match v {
        JsonValue::Null => JsonView::Null,
        JsonValue::Bool(b) => JsonView::Bool(b),
        JsonValue::Number(n) => JsonView::Number(n@),
        JsonValue::Text(t) => JsonView::Text(t@),
        JsonValue::Array(xs) => JsonView::Array(items_view(xs@)),
        JsonValue::Object(ms) => JsonView::Object(members_view(ms@)),
    }
}

/// The items of an array as mathematical values.
pub open spec fn items_view(s: Seq<JsonValue>) -> Seq<JsonView>
    decreases s, 0nat,
{
    if s.len() == 0 {
        Seq::empty()
    } else {
        items_view(s.drop_last()).push(json_view(s.last()))
    }
}

/// The members of an object as mathematical values.
pub open spec fn members_view(s: Seq<(String, JsonValue)>) -> Seq<(Seq<char>, JsonView)>
    decreases s, 0nat,
{
    if s.len() == 0 {
        Seq::empty()
    } else {
        members_view(s.drop_last()).push((s.last().0@, json_view(s.last().1)))
    }
}

impl View for JsonValue {
    type V = JsonView;

    open spec fn view(&self) -> JsonView {
        json_view(*self)
    }
}

/// The keys of an object's members, in order.
pub open spec fn member_keys(s: Seq<(String, JsonValue)>) -> Seq<Seq<char>> {
    s.map_values(|e: (String, JsonValue)| e.0@)
}

/// No key occurs twice among an object's members.
pub open spec fn keys_unique(s: Seq<(String, JsonValue)>) -> bool {
    member_keys(s).no_duplicates()
}

/// The index of the first occurrence of `key` in `keys`, if there is one.
pub open spec fn key_index(keys: Seq<Seq<char>>, key: Seq<char>) -> Option<int>
    decreases keys.len(),
{
    if keys.len() == 0 {
        None
    } else if keys[0] == key {
        Some(0)
    } else {
        match key_index(keys.drop_first(), key) {
            Some(i) => Some(i + 1),
            None => None,
        }
    }
}

/// The index found holds the key and none before it does; with none found,
/// no index holds it.
pub proof fn lemma_key_index(keys: Seq<Seq<char>>, key: Seq<char>)
    ensures
        match key_index(keys, key) {
            Some(i) => 0 <= i < keys.len() && keys[i] == key && forall|j: int| 0 <= j < i ==> keys[j] != key,
            None => forall|j: int| 0 <= j < keys.len() ==> keys[j] != key,
        },
    decreases keys.len(),
{
    if keys.len() > 0 {
        lemma_key_index(keys.drop_first(), key);
        assert forall|j: int| 1 <= j < keys.len() implies keys[j] == keys.drop_first()[j - 1] by {}
    }
}

/// The index of the member with `key`, if there is one.
pub open spec fn member_index(s: Seq<(String, JsonValue)>, key: Seq<char>) -> Option<int> {
    key_index(member_keys(s), key)
}

/// The keys of an object's members given as plain values.
pub open spec fn view_keys(ms: Seq<(Seq<char>, JsonView)>) -> Seq<Seq<char>> {
    ms.map_values(|e: (Seq<char>, JsonView)| e.0)
}

/// The members `ms` with `key` set to `v`: the member that has the key
/// gets the value, else a member is added at the end.
pub open spec fn with_member(ms: Seq<(Seq<char>, JsonView)>, key: Seq<char>, v: JsonView) -> Seq<(Seq<char>, JsonView)> {
    match key_index(view_keys(ms), key) {
        Some(i) => ms.update(i, (key, v)),
        None => ms.push((key, v)),
    }
}

impl JsonValue {
    /// A copy of the value.
    pub fn deep_copy(&self) -> (r: JsonValue)
        ensures
            r@ == self@,
        decreases self, 1nat,
    {
        match *self {
            JsonValue::Null => JsonValue::Null,
            JsonValue::Bool(b) => JsonValue::Bool(b),
            JsonValue::Number(ref n) => JsonValue::Number(string_from(n.as_str())),
            JsonValue::Text(ref t) => JsonValue::Text(string_from(t.as_str())),
            JsonValue::Array(ref xs) => {
                let mut out: Vec<JsonValue> = Vec::new();
                let mut i: usize = 0;
                assert(xs@.take(0) =~= Seq::<JsonValue>::empty());
                while i < xs.len()
                    invariant
                        *self == JsonValue::Array(*xs),
                        i <= xs@.len(),
                        items_view(out@) == items_view(xs@.take(i as int)),
                    decreases xs@.len() - i,
                {
                    proof {
                        vstd::std_specs::vec::axiom_vec_index_decreases(*xs, i as int);
                        assert(decreases_to!(*self => self->Array_0));
                        assert(decreases_to!(*self => xs[i as int]));
                    }
                    let c = xs[i].deep_copy();
                    let ghost before = out@;
                    out.push(c);
                    assert(out@.drop_last() =~= before);
                    assert(xs@.take(i + 1).drop_last() =~= xs@.take(i as int));
                    i = i + 1;
                }
                assert(xs@.take(xs@.len() as int) =~= xs@);
                JsonValue::Array(out)
            },
            JsonValue::Object(ref xs) => {
                let out = copy_members_of(self, xs);
                JsonValue::Object(out)
            },
        }
    }
}

/// A copy of the members `xs` of the object `whole`.
fn copy_members_of(whole: &JsonValue, xs: &Vec<(String, JsonValue)>) -> (r: Vec<(String, JsonValue)>)
    requires
        *whole == JsonValue::Object(*xs),
    ensures
        members_view(r@) == members_view(xs@),
    decreases whole, 0nat,
{
    let mut out: Vec<(String, JsonValue)> = Vec::new();
    let mut i: usize = 0;
    assert(xs@.take(0) =~= Seq::<(String, JsonValue)>::empty());
    while i < xs.len()
        invariant
            *whole == JsonValue::Object(*xs),
            i <= xs@.len(),
            members_view(out@) == members_view(xs@.take(i as int)),
        decreases xs@.len() - i,
    {
        proof {
            vstd::std_specs::vec::axiom_vec_index_decreases(*xs, i as int);
            assert(decreases_to!(*whole => whole->Object_0));
            assert(decreases_to!(*whole => xs[i as int]));
            assert(decreases_to!(*whole => xs[i as int].1));
        }
        let c = xs[i].1.deep_copy();
        let ghost before = out@;
        out.push((string_from(xs[i].0.as_str()), c));
        assert(out@.drop_last() =~= before);
        assert(xs@.take(i + 1).drop_last() =~= xs@.take(i as int));
        i = i + 1;
    }
    assert(xs@.take(xs@.len() as int) =~= xs@);
    out
}

/// A copy of an object's members.
pub fn copy_members(s: &Vec<(String, JsonValue)>) -> (r: Vec<(String, JsonValue)>)
    ensures
        members_view(r@) == members_view(s@),
{
    let mut out: Vec<(String, JsonValue)> = Vec::new();
    let mut i: usize = 0;
    assert(s@.take(0) =~= Seq::<(String, JsonValue)>::empty());
    while i < s.len()
        invariant
            i <= s@.len(),
            members_view(out@) == members_view(s@.take(i as int)),
        decreases s@.len() - i,
    {
        let c = s[i].1.deep_copy();
        let ghost before = out@;
        out.push((string_from(s[i].0.as_str()), c));
        assert(out@.drop_last() =~= before);
        assert(s@.take(i + 1).drop_last() =~= s@.take(i as int));
        i = i + 1;
    }
    assert(s@.take(s@.len() as int) =~= s@);
    out
}

/// The index of the member with `key`, if there is one.
pub fn find_member(s: &Vec<(String, JsonValue)>, key: &str) -> (r: Option<usize>)
    ensures
        match r {
            Some(i) => member_index(s@, key@) == Some(i as int),
            None => member_index(s@, key@) is None,
        },
{
    let ghost keys = member_keys(s@);
    let mut i: usize = 0;
    assert(keys.skip(0) =~= keys);
    while i < s.len()
        invariant
            keys == member_keys(s@),
            i <= s@.len(),
            key_index(keys, key@) == match key_index(keys.skip(i as int), key@) {
                Some(j) => Some(j + i),
                None => None,
            },
        decreases s@.len() - i,
    {
        assert(keys.skip(i as int).drop_first() =~= keys.skip(i + 1));
        assert(keys.skip(i as int)[0] == s@[i as int].0@);
        if str_eq(s[i].0.as_str(), key) {
            return Some(i);
        }
        i = i + 1;
    }
    None
}

/// Sets the member `key` of the object `s` to `value`: the member that has
/// the key gets the value, else a member is added at the end.
pub fn set_member(s: &mut Vec<(String, JsonValue)>, key: &str, value: JsonValue)
    ensures
        final(s)@.len() == if member_index(old(s)@, key@) is Some { old(s)@.len() } else { old(s)@.len() + 1 },
        match member_index(old(s)@, key@) {
            Some(i) => final(s)@ == old(s)@.update(i, (old(s)@[i].0, value)),
            None => final(s)@.drop_last() == old(s)@ && final(s)@.last().0@ == key@ && final(s)@.last().1 == value,
        },
        member_keys(final(s)@) == match member_index(old(s)@, key@) {
            Some(i) => member_keys(old(s)@),
            None => member_keys(old(s)@).push(key@),
        },
        members_view(final(s)@) == with_member(members_view(old(s)@), key@, value@),
{
    proof {
        lemma_key_index(member_keys(s@), key@);
        lemma_members_view(s@);
    }
    match find_member(s, key) {
        Some(i) => {
            let ghost before = s@;
            let (k, _old_value) = s.remove(i);
            s.insert(i, (k, value));
            assert(s@ =~= before.update(i as int, (before[i as int].0, value)));
            assert(member_keys(s@) =~= member_keys(old(s)@));
            proof {
                lemma_members_view(s@);
                assert(members_view(s@) =~= members_view(before).update(i as int, (key@, value@)));
            }
        },
        None => {
            s.push((string_from(key), value));
            assert(s@.drop_last() =~= old(s)@);
            assert(member_keys(s@) =~= member_keys(old(s)@).push(key@));
            assert(members_view(s@) =~= members_view(old(s)@).push((key@, value@)));
        },
    }
}

/// The view of a member list has one entry per member, each the member
/// as plain values, and the same keys.
pub proof fn lemma_members_view(s: Seq<(String, JsonValue)>)
    ensures
        members_view(s).len() == s.len(),
        forall|i: int| 0 <= i < s.len() ==> #[trigger] members_view(s)[i] == (s[i].0@, s[i].1@),
        view_keys(members_view(s)) == member_keys(s),
    decreases s.len(),
{
    if s.len() > 0 {
        lemma_members_view(s.drop_last());
        assert forall|i: int| 0 <= i < s.len() implies #[trigger] members_view(s)[i] == (s[i].0@, s[i].1@) by {
            if i < s.len() - 1 {
                assert(members_view(s.drop_last())[i] == members_view(s)[i]);
            }
        }
    }
    assert(view_keys(members_view(s)) =~= member_keys(s));
}

/// The decimal text of the integer `n`.
pub open spec fn int_text(n: int) -> Seq<char> {
    if n < 0 {
        seq!['-'] + decimal((-n) as nat)
    } else {
        decimal(n as nat)
    }
}

/// The text `s` as a JSON value.
pub fn text_value(s: &str) -> (r: JsonValue)
    ensures
        r@ == JsonView::Text(s@),
{
    JsonValue::Text(string_from(s))
}

/// The integer `n` as a JSON number.
pub fn integer_value(n: i64) -> (r: JsonValue)
    ensures
        r@ == JsonView::Number(int_text(n as int)),
{
    if n < 0 {
        let magnitude: u128 = (0i128 - (n as i128)) as u128;
        let mut cs: Vec<char> = Vec::new();
        cs.push('-');
        let digits = decimal_chars(magnitude);
        append_chars(&mut cs, &digits);
        assert(cs@ =~= seq!['-'] + decimal((-n) as nat));
        JsonValue::Number(string_of(&cs))
    } else {
        let digits = decimal_chars(n as u128);
        JsonValue::Number(string_of(&digits))
    }
}

/// The natural number `n` as a JSON number.
pub fn natural_value(n: u128) -> (r: JsonValue)
    ensures
        r@ == JsonView::Number(decimal(n as nat)),
{
    let digits = decimal_chars(n);
    JsonValue::Number(string_of(&digits))
}

/// Adds the member `key` with `value` at the end of `o`.
pub fn push_member(o: &mut Vec<(String, JsonValue)>, key: &str, value: JsonValue)
    ensures
        members_view(final(o)@) == members_view(old(o)@).push((key@, value@)),
        member_keys(final(o)@) == member_keys(old(o)@).push(key@),
{
    o.push((string_from(key), value));
    assert(o@.drop_last() =~= old(o)@);
    assert(member_keys(o@) =~= member_keys(old(o)@).push(key@));
}

/// The value of the member `key` of `ms`, if it has one.
pub open spec fn member_value(ms: Seq<(Seq<char>, JsonView)>, key: Seq<char>) -> Option<JsonView> {
    match key_index(view_keys(ms), key) {
        Some(i) => Some(ms[i].1),
        None => None,
    }
}

/// The value of the member `key` of `ms`, if it has one.
pub fn get_member<'a>(ms: &'a Vec<(String, JsonValue)>, key: &str) -> (r: Option<&'a JsonValue>)
    ensures
        match r {
            Some(v) => member_value(members_view(ms@), key@) == Some(v@),
            None => member_value(members_view(ms@), key@) is None,
        },
{
    proof {
        lemma_members_view(ms@);
        lemma_key_index(member_keys(ms@), key@);
    }
    match find_member(ms, key) {
        Some(i) => Some(&ms[i].1),
        None => None,
    }
}

/// The first index of a key is the same in two key lists that agree up to
/// and including it.
proof fn lemma_key_index_unique(keys: Seq<Seq<char>>, key: Seq<char>, i: int)
    requires
        0 <= i < keys.len(),
        keys[i] == key,
        forall|j: int| 0 <= j < i ==> keys[j] != key,
    ensures
        key_index(keys, key) == Some(i),
{
    lemma_key_index(keys, key);
    match key_index(keys, key) {
        Some(k) => {
            if k < i {
                assert(keys[k] == key);
            } else if k > i {
                assert(keys[i] != key);
            }
        },
        None => {
            assert(keys[i] != key);
        },
    }
}

/// Reading a member after setting it gives the value set, and every other
/// key reads as it did before.
pub proof fn law_member_after_set(ms: Seq<(Seq<char>, JsonView)>, key: Seq<char>, v: JsonView, other: Seq<char>)
    ensures
        member_value(with_member(ms, key, v), key) == Some(v),
        other != key ==> member_value(with_member(ms, key, v), other) == member_value(ms, other),
{
    let keys = view_keys(ms);
    let after = with_member(ms, key, v);
    let akeys = view_keys(after);
    lemma_key_index(keys, key);
    lemma_key_index(keys, other);
    match key_index(keys, key) {
        Some(i) => {
            assert(akeys =~= keys);
        },
        None => {
            assert(akeys =~= keys.push(key));
            lemma_key_index_unique(akeys, key, keys.len() as int);
            if other != key {
                lemma_key_index(akeys, other);
                match key_index(keys, other) {
                    Some(j) => {
                        lemma_key_index_unique(akeys, other, j);
                    },
                    None => {
                        match key_index(akeys, other) {
                            Some(j) => {
                                if j < keys.len() {
                                    assert(akeys[j] == keys[j]);
                                }
                            },
                            None => {},
                        }
                    },
                }
            }
        },
    }
}

} // verus!
