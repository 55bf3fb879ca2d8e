//! JSON documents as plain values, parsed by `serde_json`.

use vstd::prelude::*;

use crate::text::{chars_eq, chars_of};

verus! {

#[verifier::external_type_specification]
#[verifier::external_body]
pub struct ExSerdeJsonValue(serde_json::Value);

/// A JSON value.  Object members keep the order `serde_json` reports them in
/// (sorted by key); numbers keep their textual form.
pub enum JsonValue {
    Null,
    Bool(bool),
    Number(String),
    Str(String),
    Array(Vec<JsonValue>),
    Object(Vec<(String, JsonValue)>),
}

/// What `serde_json::from_str::<serde_json::Value>` yields for `text`
/// (`None` when it reports an error), as a [`JsonValue`].
pub uninterp spec fn spec_json_parse(text: Seq<char>) -> Option<JsonValue>;

/// Moves a `serde_json::Value` into the library's [`JsonValue`], variant by variant.
#[verifier::external_body]
fn json_value_from_serde(v: serde_json::Value) -> JsonValue {
    match v {
        serde_json::Value::Null => JsonValue::Null,
        serde_json::Value::Bool(b) => JsonValue::Bool(b),
        serde_json::Value::Number(n) => JsonValue::Number(n.to_string()),
        serde_json::Value::String(s) => JsonValue::Str(s),
        serde_json::Value::Array(a) => JsonValue::Array(a.into_iter().map(json_value_from_serde).collect()),
        serde_json::Value::Object(m) => JsonValue::Object(
            m.into_iter().map(|(k, x)| (k, json_value_from_serde(x))).collect(),
        ),
    }
}

/// Calls `serde_json::from_str` into a `serde_json::Value`; the grammar is
/// only named, so the contract says no more than that the outcome is a
/// function of the text.
#[verifier::external_body]
pub(crate) fn parse_json(text: &str) -> (r: Option<JsonValue>)
    ensures
        r == spec_json_parse(text@),
{
    serde_json::from_str::<serde_json::Value>(text).ok().map(json_value_from_serde)
}

/// The value of the first member named `key`.
pub open spec fn json_lookup(pairs: Seq<(String, JsonValue)>, key: Seq<char>) -> Option<JsonValue>
    decreases pairs.len(),
{
    if pairs.len() == 0 {
        None
    } else if pairs[0].0@ == key {
        Some(pairs[0].1)
    } else {
        json_lookup(pairs.drop_first(), key)
    }
}

/// `Value::get(key)`: the member `key` of an object, `None` for other values.
pub open spec fn json_get(v: JsonValue, key: Seq<char>) -> Option<JsonValue> {
    match v {
        JsonValue::Object(pairs) => json_lookup(pairs@, key),
        _ => None,
    }
}

/// The member `key` of `v`, if `v` is an object that has one.
pub fn json_member<'a>(v: &'a JsonValue, key: &str) -> (r: Option<&'a JsonValue>)
    ensures
        match r {
            Some(x) => json_get(*v, key@) == Some(*x),
            None => json_get(*v, key@) is None,
        },
{
    match v {
        JsonValue::Object(pairs) => {
            assert(json_get(*v, key@) == json_lookup(pairs@, key@));
            let k = chars_of(key);
            let mut i: usize = 0;
            assert(pairs@.skip(0) =~= pairs@);
            while i < pairs.len()
                invariant
                    i <= pairs.len(),
                    k@ == key@,
                    json_get(*v, key@) == json_lookup(pairs@, key@),
                    json_lookup(pairs@, key@) == json_lookup(pairs@.skip(i as int), key@),
                decreases pairs.len() - i,
            {
                let name = chars_of(&pairs[i].0);
                assert(pairs@.skip(i as int)[0] == pairs@[i as int]);
                if chars_eq(&name, &k) {
                    assert(pairs@[i as int].0@ == key@);
                    assert(json_lookup(pairs@.skip(i as int), key@) == Some(pairs@[i as int].1));
                    let found = &pairs[i].1;
                    assert(*found == pairs@[i as int].1);
                    return Some(found);
                }
                assert(pairs@.skip(i as int).drop_first() =~= pairs@.skip(i + 1));
                i = i + 1;
            }
            None
        },
        _ => None,
    }
}

} // verus!
