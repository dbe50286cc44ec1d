//! JSON values as the loader carries them: scalars travel from the token
//! stream to the events untouched, so the library holds them opaquely.

use vstd::prelude::*;

verus! {

#[verifier::external_type_specification]
#[verifier::external_body]
pub struct ExJsonValue(serde_json::Value);

/// A copy of a JSON value.
///
/// Calls `<serde_json::Value as Clone>::clone`, whose impl is derived: the
/// copy is the same value as the original, which is all this claims.
#[verifier::external_body]
pub(crate) fn copy_value(v: &serde_json::Value) -> (r: serde_json::Value)
    ensures
        r == *v,
{
    v.clone()
}

/// The member `key` of the JSON value `v`, when `v` is an object that has
/// one.
pub uninterp spec fn json_member_of(v: serde_json::Value, key: Seq<char>) -> Option<serde_json::Value>;

/// The member `key` of `v`, if there is one.
///
/// Calls `serde_json::Value::get` with a string key, which looks the key up
/// in an object and gives `None` for any other value, and clones the member
/// found. The result is a function of the value and the key.
#[verifier::external_body]
pub(crate) fn json_member(v: &serde_json::Value, key: &str) -> (r: Option<serde_json::Value>)
    ensures
        r == json_member_of(*v, key@),
{
    v.get(key).cloned()
}

/// What is known of the JSON null: it is no string and no object, has no
/// member, and is written `null`.
pub open spec fn is_json_null(v: serde_json::Value) -> bool {
    &&& json_string_of(v) is None
    &&& json_object_entries_of(v) is None
    &&& json_display_of(v) == "null"@
    &&& forall|k: Seq<char>| #[trigger] json_member_of(v, k) is None
}

/// The JSON null.
///
/// Calls `serde_json::Value::from(())`, which gives `Value::Null`: that
/// value is not the `String` variant, `as_object` gives `None` for it,
/// `get` finds no member in it, and its `Display` writes `null`.
#[verifier::external_body]
pub(crate) fn json_null() -> (r: serde_json::Value)
    ensures
        json_string_of(r) is None,
        json_object_entries_of(r) is None,
        json_display_of(r) == "null"@,
        forall|k: Seq<char>| #[trigger] json_member_of(r, k) is None,
{
    serde_json::Value::from(())
}

/// What parsing the text as one JSON document gives: the value, or the
/// message of the error that stops it.
pub uninterp spec fn json_parse_of(text: Seq<char>) -> Result<serde_json::Value, Seq<char>>;

/// Parses `text` as one JSON document.
///
/// Calls `serde_json::from_str::<serde_json::Value>`; an error becomes the
/// message that its `Display` writes. The outcome is a function of the text.
#[verifier::external_body]
pub(crate) fn parse_json(text: &str) -> (r: Result<serde_json::Value, String>)
    ensures
        match r {
            Ok(v) => json_parse_of(text@) == Ok::<serde_json::Value, Seq<char>>(v),
            Err(m) => json_parse_of(text@) == Err::<serde_json::Value, Seq<char>>(m@),
        },
{
    match serde_json::from_str::<serde_json::Value>(text) {
        Ok(v) => Ok(v),
        Err(e) => Err(e.to_string()),
    }
}

/// The JSON array of `items`, in order.
pub uninterp spec fn json_array_of(items: Seq<serde_json::Value>) -> serde_json::Value;

/// A JSON array.
///
/// Builds `serde_json::Value::Array` from the items, which it holds in the
/// order given. The result is a function of the items; it is no string and
/// no object, and `get` with a string key finds nothing in it.
#[verifier::external_body]
pub(crate) fn json_array(items: Vec<serde_json::Value>) -> (r: serde_json::Value)
    ensures
        r == json_array_of(items@),
        json_string_of(r) is None,
        json_object_entries_of(r) is None,
        forall|k: Seq<char>| #[trigger] json_member_of(r, k) is None,
{
    serde_json::Value::Array(items)
}

/// The JSON object of `members`: each key with its value, a later member
/// taking the place of an earlier one with the same key.
pub uninterp spec fn json_object_of(members: Seq<(Seq<char>, serde_json::Value)>) -> serde_json::Value;

/// The members as plain values.
pub open spec fn json_members_view(members: Seq<(String, serde_json::Value)>) -> Seq<(Seq<char>, serde_json::Value)> {
    members.map_values(|m: (String, serde_json::Value)| (m.0@, m.1))
}

/// The value of the last of `members` with the key `k`, if any.
pub open spec fn last_member(members: Seq<(Seq<char>, serde_json::Value)>, k: Seq<char>) -> Option<serde_json::Value>
    decreases members.len(),
{
    if members.len() == 0 {
        None
    } else if members.last().0 == k {
        Some(members.last().1)
    } else {
        last_member(members.drop_last(), k)
    }
}

/// A JSON object.
///
/// Collects the members into a `serde_json::Map` (its `FromIterator`
/// inserts them in turn, so a later member replaces an earlier one with the
/// same key) and builds `serde_json::Value::Object` from it. The result is
/// a function of the members; it is an object, no string, and `get` finds
/// in it the last value given for each key.
#[verifier::external_body]
pub(crate) fn json_object(members: Vec<(String, serde_json::Value)>) -> (r: serde_json::Value)
    ensures
        r == json_object_of(json_members_view(members@)),
        json_string_of(r) is None,
        json_object_entries_of(r) is Some,
        forall|k: Seq<char>| #[trigger] json_member_of(r, k) == last_member(json_members_view(members@), k),
{
    serde_json::Value::Object(members.into_iter().collect())
}

/// The text of `v` when it is a JSON string.
pub uninterp spec fn json_string_of(v: serde_json::Value) -> Option<Seq<char>>;

/// The text of a JSON string, if `v` is one.
///
/// Gives a copy of the field of `serde_json::Value::String`, and `None` for
/// every other variant. The result is a function of the value.
#[verifier::external_body]
pub(crate) fn json_string_text(v: &serde_json::Value) -> (r: Option<String>)
    ensures
        match r {
            Some(s) => json_string_of(*v) == Some(s@),
            None => json_string_of(*v) is None,
        },
{
    match v {
        serde_json::Value::String(s) => Some(s.clone()),
        _ => None,
    }
}

/// `v` written as compact JSON.
pub uninterp spec fn json_display_of(v: serde_json::Value) -> Seq<char>;

/// `v` written as compact JSON.
///
/// Calls the `Display` impl of `serde_json::Value` (through `to_string`),
/// which writes the value as compact JSON. The result is a function of the
/// value.
#[verifier::external_body]
pub(crate) fn json_display(v: &serde_json::Value) -> (r: String)
    ensures
        r@ == json_display_of(*v),
{
    v.to_string()
}

/// The members of `v`, key by key in the order its map keeps them, when
/// `v` is an object.
pub uninterp spec fn json_object_entries_of(v: serde_json::Value) -> Option<Seq<(Seq<char>, serde_json::Value)>>;

/// The members of a JSON object, if `v` is one.
///
/// Calls `serde_json::Value::as_object` and copies each key and value of
/// the map, in the order in which the map's iterator gives them. The
/// result is a function of the value.
#[verifier::external_body]
pub(crate) fn json_object_entries(v: &serde_json::Value) -> (r: Option<Vec<(String, serde_json::Value)>>)
    ensures
        match r {
            Some(ms) => json_object_entries_of(*v) == Some(json_members_view(ms@)),
            None => json_object_entries_of(*v) is None,
        },
{
    v.as_object().map(|m| m.iter().map(|(k, x)| (k.clone(), x.clone())).collect())
}

} // verus!
