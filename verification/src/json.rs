//! A JSON document as plain values, and the lookups that the protocol code
//! makes on it.
use vstd::prelude::*;
use crate::text::str_eq;
use serde_json::Value;

verus! {

/// A JSON number, told apart the way the readers of it need.
#[derive(Debug, Clone)]
pub enum JsonNumber {
    /// A non-negative integer.
    PosInt(u64),
    /// A negative integer.
    NegInt(i64),
    /// A number with a fraction or an exponent, kept as its decimal text.
    Float(String),
}

/// A JSON document. An object keeps its members in order; a lookup finds the
/// first member with the key.
#[derive(Debug)]
pub enum JsonValue {
    Null,
    Bool(bool),
    Number(JsonNumber),
    String(String),
    Array(Vec<JsonValue>),
    Object(Vec<(String, JsonValue)>),
}

/// The document that `serde_json` reads from `text`, as the library's
/// value, or nothing when `text` is not one JSON document.
pub uninterp spec fn json_document_of(text: Seq<char>) -> Option<JsonValue>;

/// `serde_json`'s document type, carried as it is.
#[verifier::external_type_specification]
#[verifier::external_body]
pub struct ExSerdeJsonValue(Value);

/// The library's value for a `serde_json` document, one for one: a number
/// as its `u64` or `i64` value where it has one, else as its decimal text.
#[verifier::external_body]
fn json_from_serde(value: &Value) -> JsonValue {
    match value {
        Value::Null => JsonValue::Null,
        Value::Bool(b) => JsonValue::Bool(*b),
        Value::Number(n) => JsonValue::Number(match (n.as_u64(), n.as_i64()) {
            (Some(u), _) => JsonNumber::PosInt(u),
            (None, Some(i)) => JsonNumber::NegInt(i),
            _ => JsonNumber::Float(n.to_string()),
        }),
        Value::String(t) => JsonValue::String(t.clone()),
        Value::Array(a) => JsonValue::Array(a.iter().map(json_from_serde).collect()),
        Value::Object(m) => JsonValue::Object(
            m.iter().map(|(k, v)| (k.clone(), json_from_serde(v))).collect(),
        ),
    }
}

/// Reads one JSON document from `text`: calls
/// `serde_json::from_str::<serde_json::Value>` and gives the document as the
/// library's value, or nothing when the text is not a JSON document. The
/// contract names the result: `serde_json`'s reader depends on the text
/// alone (an object's members come in the order of its map, a repeated key
/// keeps its last value).
#[verifier::external_body]
pub(crate) fn parse_json_document(text: &str) -> (r: Option<JsonValue>)
    ensures
        r == json_document_of(text@),
{
    match serde_json::from_str::<Value>(text) {
        Ok(v) => Some(json_from_serde(&v)),
        Err(_) => None,
    }
}

/// The value of the first member of `members` at or after `i` whose key is
/// `key`.
pub open spec fn lookup_from(members: Seq<(String, JsonValue)>, key: Seq<char>, i: int) -> Option<
    JsonValue,
>
    decreases members.len() - i,
{
    if i < 0 || i >= members.len() {
        None
    } else if members[i].0@ == key {
        Some(members[i].1)
    } else {
        lookup_from(members, key, i + 1)
    }
}

/// The member `key` of `v`, when `v` is an object that has one.
pub open spec fn json_get(v: JsonValue, key: Seq<char>) -> Option<JsonValue> {
    match v {
        JsonValue::Object(members) => lookup_from(members@, key, 0),
        _ => None,
    }
}

/// The member `key` of `v`, if `v` is an object and has one.
pub open spec fn get_in(v: Option<JsonValue>, key: Seq<char>) -> Option<JsonValue> {
    match v {
        Some(x) => json_get(x, key),
        None => None,
    }
}

/// The text of `v`, when it is a string.
pub open spec fn json_str(v: Option<JsonValue>) -> Option<Seq<char>> {
    match v {
        Some(JsonValue::String(s)) => Some(s@),
        _ => None,
    }
}

/// The value of `v` as an `i64`, when it is an integer in range.
pub open spec fn json_i64(v: Option<JsonValue>) -> Option<i64> {
    match v {
        Some(JsonValue::Number(JsonNumber::PosInt(u))) => if u <= i64::MAX {
            Some(u as i64)
        } else {
            None
        },
        Some(JsonValue::Number(JsonNumber::NegInt(i))) => Some(i),
        _ => None,
    }
}

/// The value of `v` as a `u64`, when it is a non-negative integer.
pub open spec fn json_u64(v: Option<JsonValue>) -> Option<u64> {
    match v {
        Some(JsonValue::Number(JsonNumber::PosInt(u))) => Some(u),
        _ => None,
    }
}

/// The value that an optional reference points at.
pub open spec fn opt_deref(v: Option<&JsonValue>) -> Option<JsonValue> {
    match v {
        Some(x) => Some(*x),
        None => None,
    }
}

/// `a` when it is there, else `b`.
pub open spec fn or_else<T>(a: Option<T>, b: Option<T>) -> Option<T> {
    match a {
        Some(x) => Some(x),
        None => b,
    }
}

/// The member `key` of `value`, taken out of it (nothing when `value` is no
/// object or has no such member).
pub fn take_member(value: JsonValue, key: &str) -> (r: Option<JsonValue>)
    ensures
        r == json_get(value, key@),
{
    let members = match value {
        JsonValue::Object(entries) => entries,
        _ => {
            return None;
        },
    };
    let ghost ms = members@;
    assert(json_get(value, key@) == lookup_from(ms, key@, 0));
    let mut members = members;
    let mut i: usize = 0;
    while i < members.len()
        invariant
            i <= members.len(),
            members@ == ms,
            json_get(value, key@) == lookup_from(ms, key@, i as int),
        decreases members.len() - i,
    {
        if str_eq(members[i].0.as_str(), key) {
            assert(lookup_from(ms, key@, i as int) == Some(ms[i as int].1));
            let pair = members.remove(i);
            assert(pair == ms[i as int]);
            return Some(pair.1);
        }
        i = i + 1;
    }
    None
}

impl JsonValue {
    /// The member `key`, if this is an object and has one.
    pub fn get(&self, key: &str) -> (r: Option<&JsonValue>)
        ensures
            r is Some <==> json_get(*self, key@) is Some,
            r matches Some(x) ==> json_get(*self, key@) == Some(*x),
    {
        match self {
            JsonValue::Object(members) => {
                let mut i: usize = 0;
                while i < members.len()
                    invariant
                        i <= members.len(),
                        json_get(*self, key@) == lookup_from(members@, key@, i as int),
                    decreases members.len() - i,
                {
                    if str_eq(members[i].0.as_str(), key) {
                        return Some(&members[i].1);
                    }
                    i = i + 1;
                }
                None
            },
            _ => None,
        }
    }

    /// The text, if this is a string.
    pub fn as_str(&self) -> (r: Option<&str>)
        ensures
            r is Some <==> json_str(Some(*self)) is Some,
            r matches Some(s) ==> json_str(Some(*self)) == Some(s@),
    {
        match self {
            JsonValue::String(s) => Some(s.as_str()),
            _ => None,
        }
    }

    /// The value as an `i64`, if this is an integer in range.
    pub fn as_i64(&self) -> (r: Option<i64>)
        ensures
            r == json_i64(Some(*self)),
    {
        match self {
            JsonValue::Number(JsonNumber::PosInt(u)) => if *u <= 9223372036854775807u64 {
                Some(*u as i64)
            } else {
                None
            },
            JsonValue::Number(JsonNumber::NegInt(i)) => Some(*i),
            _ => None,
        }
    }

    /// The value as a `u64`, if this is a non-negative integer.
    pub fn as_u64(&self) -> (r: Option<u64>)
        ensures
            r == json_u64(Some(*self)),
    {
        match self {
            JsonValue::Number(JsonNumber::PosInt(u)) => Some(*u),
            _ => None,
        }
    }
}

/// The member `key` of `v`, if `v` is there, is an object and has one.
pub fn get_opt<'a>(v: Option<&'a JsonValue>, key: &str) -> (r: Option<&'a JsonValue>)
    ensures
        r is Some <==> get_in(opt_deref(v), key@) is Some,
        r matches Some(x) ==> get_in(opt_deref(v), key@) == Some(*x),
{
    match v {
        Some(x) => x.get(key),
        None => None,
    }
}

/// The text of `v`, if it is there and is a string.
pub fn str_opt<'a>(v: Option<&'a JsonValue>) -> (r: Option<&'a str>)
    ensures
        r is Some <==> json_str(opt_deref(v)) is Some,
        r matches Some(s) ==> json_str(opt_deref(v)) == Some(s@),
{
    match v {
        Some(x) => x.as_str(),
        None => None,
    }
}

/// The keys of `v`, in order, when it is an object.
pub open spec fn obj_keys(v: JsonValue) -> Option<Seq<Seq<char>>> {
    match v {
        JsonValue::Object(members) => Some(members@.map_values(|m: (String, JsonValue)| m.0@)),
        _ => None,
    }
}

/// Member `i` of `v` holds the text `text`.
pub open spec fn member_text(v: JsonValue, i: int, text: Seq<char>) -> bool {
    match v {
        JsonValue::Object(members) => 0 <= i < members@.len() && json_str(Some(members@[i].1)) == Some(
            text,
        ),
        _ => false,
    }
}

/// The value of member `i` of `v`, when it is an object with that many.
pub open spec fn member_value(v: JsonValue, i: int) -> Option<JsonValue> {
    match v {
        JsonValue::Object(members) => if 0 <= i < members@.len() {
            Some(members@[i].1)
        } else {
            None
        },
        _ => None,
    }
}

/// The items of `v`, when it is an array.
pub open spec fn arr_items(v: JsonValue) -> Option<Seq<JsonValue>> {
    match v {
        JsonValue::Array(items) => Some(items@),
        _ => None,
    }
}

impl JsonValue {
    /// A string holding `s`.
    pub fn text(s: &str) -> (r: JsonValue)
        ensures
            json_str(Some(r)) == Some(s@),
    {
        JsonValue::String(s.to_owned())
    }
}

} // verus!
