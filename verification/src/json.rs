//! JSON values as the Kiwoom APIs send them, and the lookups the library makes
//! in them.
use vstd::prelude::*;

verus! {

/// A JSON number: its value when it is an integer that fits in `i64`, and its
/// literal text.
#[derive(Debug, Clone)]
pub struct JsonNumber {
    pub as_i64: Option<i64>,
    pub literal: String,
}

/// A JSON value. Object members come in the order the reader yields them
/// (serde_json's map, which orders them by key).
#[derive(Debug)]
pub enum Json {
    Null,
    Bool(bool),
    Number(JsonNumber),
    String(String),
    Array(Vec<Json>),
    Object(Vec<(String, Json)>),
}

#[verifier::external_type_specification]
#[verifier::external_body]
pub struct ExJsonValue(serde_json::Value);

/// The JSON value that `text` holds, as serde_json reads it; `None` when the text
/// is not JSON.
pub uninterp spec fn json_of_text(text: Seq<char>) -> Option<Json>;

/// A serde_json value as a `Json`, member for member.
#[verifier::external_body]
fn value_to_json(v: &serde_json::Value) -> Json {
    match v {
        serde_json::Value::Null => Json::Null,
        serde_json::Value::Bool(b) => Json::Bool(*b),
        serde_json::Value::Number(n) => Json::Number(
            JsonNumber { as_i64: n.as_i64(), literal: n.to_string() },
        ),
        serde_json::Value::String(t) => Json::String(t.clone()),
        serde_json::Value::Array(a) => Json::Array(a.iter().map(value_to_json).collect()),
        serde_json::Value::Object(m) => Json::Object(
            m.iter().map(|(k, x)| (k.clone(), value_to_json(x))).collect(),
        ),
    }
}

/// Reads JSON text.
///
/// Trusted: `serde_json::from_str::<serde_json::Value>`, whose value is converted
/// to `Json` one for one by `value_to_json`. The result is named by
/// `json_of_text`; nothing is stated about it.
#[verifier::external_body]
pub(crate) fn parse_json(text: &str) -> (r: Option<Json>)
    ensures
        r == json_of_text(text@),
{
    match serde_json::from_str::<serde_json::Value>(text) {
        Ok(v) => Some(value_to_json(&v)),
        Err(_) => None,
    }
}

/// The JSON text that serde_json writes for the value `v` (compact; object members
/// in the order of serde_json's map, by key).
pub uninterp spec fn text_of_json(v: Json) -> Seq<char>;

/// A `Json` as a serde_json value, member for member; a number whose literal
/// serde_json does not read as a number becomes `null`.
#[verifier::external_body]
fn json_to_value(v: &Json) -> serde_json::Value {
    match v {
        Json::Null => serde_json::Value::Null,
        Json::Bool(b) => serde_json::Value::Bool(*b),
        Json::Number(n) => match n.literal.parse::<serde_json::Number>() {
            Ok(x) => serde_json::Value::Number(x),
            Err(_) => serde_json::Value::Null,
        },
        Json::String(t) => serde_json::Value::String(t.clone()),
        Json::Array(a) => serde_json::Value::Array(a.iter().map(json_to_value).collect()),
        Json::Object(m) => serde_json::Value::Object(
            m.iter().map(|(k, x)| (k.clone(), json_to_value(x))).collect(),
        ),
    }
}

/// Writes JSON text.
///
/// Trusted: serde_json's `Value::to_string` (its `Display`), on the value that
/// `json_to_value` builds. The result is named by `text_of_json`; nothing is
/// stated about it.
#[verifier::external_body]
fn write_json(v: &Json) -> (s: String)
    ensures
        s@ == text_of_json(*v),
{
    json_to_value(v).to_string()
}

/// The JSON text of `v`, as sent on the wire.
pub fn json_text(v: &Json) -> (s: String)
    ensures
        s@ == text_of_json(*v),
{
    write_json(v)
}

/// The value of the first member named `key`, if any.
pub open spec fn member_spec(members: Seq<(String, Json)>, key: Seq<char>) -> Option<Json>
    decreases members.len(),
{
    if members.len() == 0 {
        None
    } else if members[0].0@ == key {
        Some(members[0].1)
    } else {
        member_spec(members.drop_first(), key)
    }
}

/// `v.get(key)`: the member `key` of an object, `None` for anything else.
pub open spec fn get_spec(v: Json, key: Seq<char>) -> Option<Json> {
    match v {
        Json::Object(members) => member_spec(members@, key),
        _ => None,
    }
}

/// `v.as_str()`: the characters of a JSON string, `None` for anything else.
pub open spec fn as_str_spec(v: Json) -> Option<Seq<char>> {
    match v {
        Json::String(s) => Some(s@),
        _ => None,
    }
}

/// `v.as_i64()`: the value of an integer that fits in `i64`, `None` otherwise.
pub open spec fn as_i64_spec(v: Json) -> Option<i64> {
    match v {
        Json::Number(n) => n.as_i64,
        _ => None,
    }
}

/// The string member `key` of `v`, if `v` is an object holding one.
pub open spec fn get_str_spec(v: Json, key: Seq<char>) -> Option<Seq<char>> {
    match get_spec(v, key) {
        Some(m) => as_str_spec(m),
        None => None,
    }
}

/// The integer member `key` of `v`, if `v` is an object holding one.
pub open spec fn get_i64_spec(v: Json, key: Seq<char>) -> Option<i64> {
    match get_spec(v, key) {
        Some(m) => as_i64_spec(m),
        None => None,
    }
}

/// Whether `s` holds the characters `key`.
pub fn str_eq(s: &str, key: &str) -> (b: bool)
    ensures
        b == (s@ == key@),
{
    let n = s.unicode_len();
    if n != key.unicode_len() {
        return false;
    }
    let mut i: usize = 0;
    while i < n
        invariant
            n == s@.len(),
            n == key@.len(),
            i <= n,
            forall|k: int| 0 <= k < i ==> s@[k] == key@[k],
        decreases n - i,
    {
        if s.get_char(i) != key.get_char(i) {
            return false;
        }
        i = i + 1;
    }
    assert(s@ =~= key@);
    true
}

impl Json {
    /// The member `key` of this value, when it is an object that has one.
    pub fn get(&self, key: &str) -> (r: Option<&Json>)
        ensures
            match r {
                Some(m) => get_spec(*self, key@) == Some(*m),
                None => get_spec(*self, key@) is None,
            },
    {
        match self {
            Json::Object(members) => {
                let mut i: usize = 0;
                assert(members@.skip(0) =~= members@);
                while i < members.len()
                    invariant
                        get_spec(*self, key@) == member_spec(members@, key@),
                        i <= members@.len(),
                        member_spec(members@, key@) == member_spec(members@.skip(i as int), key@),
                    decreases members@.len() - i,
                {
                    proof {
                        assert(members@.skip(i as int).drop_first() =~= members@.skip(i + 1));
                        assert(members@.skip(i as int)[0] == members@[i as int]);
                    }
                    if str_eq(members[i].0.as_str(), key) {
                        return Some(&members[i].1);
                    }
                    i = i + 1;
                }
                None
            },
            _ => None,
        }
    }

    /// The characters of this value, when it is a string.
    pub fn as_str(&self) -> (r: Option<&str>)
        ensures
            match r {
                Some(s) => as_str_spec(*self) == Some(s@),
                None => as_str_spec(*self) is None,
            },
    {
        match self {
            Json::String(s) => Some(s.as_str()),
            _ => None,
        }
    }

    /// The value of this number, when it is an integer that fits in `i64`.
    pub fn as_i64(&self) -> (r: Option<i64>)
        ensures
            r == as_i64_spec(*self),
    {
        match self {
            Json::Number(n) => n.as_i64,
            _ => None,
        }
    }

    /// The string member `key`, when this value is an object holding one.
    pub fn get_str(&self, key: &str) -> (r: Option<&str>)
        ensures
            match r {
                Some(s) => get_str_spec(*self, key@) == Some(s@),
                None => get_str_spec(*self, key@) is None,
            },
    {
        match self.get(key) {
            Some(m) => m.as_str(),
            None => None,
        }
    }

    /// The integer member `key`, when this value is an object holding one.
    pub fn get_i64(&self, key: &str) -> (r: Option<i64>)
        ensures
            r == get_i64_spec(*self, key@),
    {
        match self.get(key) {
            Some(m) => m.as_i64(),
            None => None,
        }
    }
}

} // verus!
