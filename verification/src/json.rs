//! JSON values as `pactl --format=json` prints them, read through serde_json.

use vstd::prelude::*;

verus! {

/// The readings of a JSON number as an unsigned and as a signed 64-bit integer,
/// where it has them.
pub struct JsonNumber {
    pub unsigned: Option<u64>,
    pub signed: Option<i64>,
}

/// A JSON value. An object keeps its members in the order serde_json's map gives them.
pub enum JsonValue {
    Null,
    Bool(bool),
    Number(JsonNumber),
    Text(String),
    Array(Vec<JsonValue>),
    Object(Vec<(String, JsonValue)>),
}

#[verifier::external_type_specification]
#[verifier::external_body]
pub struct ExSerdeJsonValue(serde_json::Value);

/// What `serde_json::from_slice::<Vec<serde_json::Value>>` reads from bytes: the
/// array's values, or nothing where the bytes are not a JSON array.
pub uninterp spec fn json_array_from_bytes(bytes: Seq<u8>) -> Option<Seq<JsonValue>>;

/// Turns a `serde_json::Value` into a `JsonValue`, variant by variant and member by
/// member in the map's order; a number keeps what `Number::as_u64` and
/// `Number::as_i64` read from it. It serves `parse_json_array` alone, whose named
/// result covers what it gives; nothing is claimed of it on its own.
#[verifier::external_body]
fn json_from_serde(value: serde_json::Value) -> JsonValue {
    match value {
        serde_json::Value::Null => JsonValue::Null,
        serde_json::Value::Bool(b) => JsonValue::Bool(b),
        serde_json::Value::Number(n) => JsonValue::Number(JsonNumber { unsigned: n.as_u64(), signed: n.as_i64() }),
        serde_json::Value::String(s) => JsonValue::Text(s),
        serde_json::Value::Array(items) => JsonValue::Array(items.into_iter().map(json_from_serde).collect()),
        serde_json::Value::Object(map) => JsonValue::Object(map.into_iter().map(|(k, v)| (k, json_from_serde(v))).collect()),
    }
}

/// Calls `serde_json::from_slice::<Vec<serde_json::Value>>` on the bytes. What it
/// reads is named by `json_array_from_bytes`; that it is a function of the bytes
/// is all that is claimed of it.
#[verifier::external_body]
pub(crate) fn parse_json_array(bytes: &[u8]) -> (r: Option<Vec<JsonValue>>)
    ensures
        match r {
            Some(values) => json_array_from_bytes(bytes@) == Some(values@),
            None => json_array_from_bytes(bytes@) is None,
        },
{
    match serde_json::from_slice::<Vec<serde_json::Value>>(bytes) {
        Ok(values) => Some(values.into_iter().map(json_from_serde).collect()),
        Err(_) => None,
    }
}

/// The value of the first member named `key`.
pub open spec fn member(members: Seq<(String, JsonValue)>, key: Seq<char>) -> Option<JsonValue>
    decreases members.len(),
{
    if members.len() == 0 {
        None
    } else if members[0].0@ == key {
        Some(members[0].1)
    } else {
        member(members.drop_first(), key)
    }
}

/// The member `key` of an object, as `Value::get` gives it; nothing for other values.
pub open spec fn json_get(v: JsonValue, key: Seq<char>) -> Option<JsonValue> {
    match v {
        JsonValue::Object(members) => member(members@, key),
        _ => None,
    }
}

/// The text of a string value, as `Value::as_str` gives it.
pub open spec fn json_str(v: Option<JsonValue>) -> Option<Seq<char>> {
    match v {
        Some(JsonValue::Text(s)) => Some(s@),
        _ => None,
    }
}

/// The members of an object, as `Value::as_object` gives them.
pub open spec fn json_object(v: Option<JsonValue>) -> Option<Seq<(String, JsonValue)>> {
    match v {
        Some(JsonValue::Object(members)) => Some(members@),
        _ => None,
    }
}

/// A boolean value, as `Value::as_bool` gives it.
pub open spec fn json_bool(v: Option<JsonValue>) -> Option<bool> {
    match v {
        Some(JsonValue::Bool(b)) => Some(b),
        _ => None,
    }
}

/// A number read as `u64`, as `Value::as_u64` gives it.
pub open spec fn json_u64(v: Option<JsonValue>) -> Option<u64> {
    match v {
        Some(JsonValue::Number(n)) => n.unsigned,
        _ => None,
    }
}

/// A number read as `i64`, as `Value::as_i64` gives it.
pub open spec fn json_i64(v: Option<JsonValue>) -> Option<i64> {
    match v {
        Some(JsonValue::Number(n)) => n.signed,
        _ => None,
    }
}

/// The value of the first member named `key`.
pub fn member_of<'a>(members: &'a Vec<(String, JsonValue)>, key: &str) -> (r: Option<&'a JsonValue>)
    ensures
        match r {
            Some(v) => member(members@, key@) == Some(*v),
            None => member(members@, key@) is None,
        },
{
    let mut i: usize = 0;
    assert(members@.subrange(0, members@.len() as int) =~= members@);
    while i < members.len()
        invariant
            i <= members@.len(),
            member(members@, key@) == member(members@.subrange(i as int, members@.len() as int), key@),
        decreases members.len() - i,
    {
        let ghost rest = members@.subrange(i as int, members@.len() as int);
        assert(rest[0] == members@[i as int]);
        if crate::text::str_eq(members[i].0.as_str(), key) {
            return Some(&members[i].1);
        }
        assert(rest.drop_first() =~= members@.subrange(i + 1, members@.len() as int));
        i = i + 1;
    }
    None
}

impl JsonValue {
    /// The member `key` of an object.
    pub fn get(&self, key: &str) -> (r: Option<&JsonValue>)
        ensures
            match r {
                Some(v) => json_get(*self, key@) == Some(*v),
                None => json_get(*self, key@) is None,
            },
    {
        match self {
            JsonValue::Object(members) => member_of(members, key),
            _ => None,
        }
    }

    /// The text of a string value.
    pub fn as_str(&self) -> (r: Option<&String>)
        ensures
            match r {
                Some(s) => json_str(Some(*self)) == Some(s@),
                None => json_str(Some(*self)) is None,
            },
    {
        match self {
            JsonValue::Text(s) => Some(s),
            _ => None,
        }
    }

    /// The members of an object.
    pub fn as_object(&self) -> (r: Option<&Vec<(String, JsonValue)>>)
        ensures
            match r {
                Some(m) => json_object(Some(*self)) == Some(m@),
                None => json_object(Some(*self)) is None,
            },
    {
        match self {
            JsonValue::Object(members) => Some(members),
            _ => None,
        }
    }

    /// A boolean value.
    pub fn as_bool(&self) -> (r: Option<bool>)
        ensures
            r == json_bool(Some(*self)),
    {
        match self {
            JsonValue::Bool(b) => Some(*b),
            _ => None,
        }
    }

    /// A number read as `u64`.
    pub fn as_u64(&self) -> (r: Option<u64>)
        ensures
            r == json_u64(Some(*self)),
    {
        match self {
            JsonValue::Number(n) => n.unsigned,
            _ => None,
        }
    }

    /// A number read as `i64`.
    pub fn as_i64(&self) -> (r: Option<i64>)
        ensures
            r == json_i64(Some(*self)),
    {
        match self {
            JsonValue::Number(n) => n.signed,
            _ => None,
        }
    }
}

} // verus!
