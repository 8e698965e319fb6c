//! A plain-value model of a parsed JSON document, read by the stream decoder
//! and the response parsers. Parsing itself is done by `serde_json`.

use vstd::prelude::*;

verus! {

/// A JSON value as the library reads it. A number is kept as the unsigned
/// integer it denotes, or `None` when it is negative or fractional.
#[derive(Debug)]
pub enum JsonValue {
    Null,
    Bool(bool),
    Number(Option<u64>),
    Str(String),
    Array(Vec<JsonValue>),
    Object(Vec<(String, JsonValue)>),
}

/// `serde_json`'s dynamic value, only handed from the parser to `from_serde`.
#[verifier::external_type_specification]
#[verifier::external_body]
pub struct ExSerdeValue(serde_json::Value);

/// What `serde_json::from_str` yields for a text, in the library's model:
/// `None` when the text is not a JSON document.
pub uninterp spec fn parsed_json(text: Seq<char>) -> Option<JsonValue>;

/// Moves a `serde_json::Value` into the library's model, variant by variant;
/// relies on `serde_json::Number::as_u64` for numbers and on the owned
/// iterators of arrays and objects (member order as the map keeps it).
#[verifier::external_body]
fn from_serde(v: serde_json::Value) -> JsonValue {
    match v {
        serde_json::Value::Null => JsonValue::Null,
        serde_json::Value::Bool(b) => JsonValue::Bool(b),
        serde_json::Value::Number(n) => JsonValue::Number(n.as_u64()),
        serde_json::Value::String(s) => JsonValue::Str(s),
        serde_json::Value::Array(a) => JsonValue::Array(a.into_iter().map(from_serde).collect()),
        serde_json::Value::Object(m) => JsonValue::Object(m.into_iter().map(|(k, x)| (k, from_serde(x))).collect()),
    }
}

/// Relies on `serde_json::from_str::<serde_json::Value>`: the result depends on
/// the text alone, and is an error (rendered as its message) exactly when the
/// text is not JSON.
#[verifier::external_body]
pub fn parse_json(text: &str) -> (r: Result<JsonValue, String>)
    ensures
        match r {
            Ok(v) => parsed_json(text@) == Some(v),
            Err(_) => parsed_json(text@) is None,
        },
{
    serde_json::from_str::<serde_json::Value>(text).map(from_serde).map_err(|e| e.to_string())
}

/// The value stored under `key` in a list of object members; the last
/// member with that key wins.
pub open spec fn member(fields: Seq<(String, JsonValue)>, key: Seq<char>) -> Option<JsonValue>
    decreases fields.len(),
{
    if fields.len() == 0 {
        None
    } else if fields.last().0@ == key {
        Some(fields.last().1)
    } else {
        member(fields.drop_last(), key)
    }
}

/// `v[key]`: the member of an object, absent for anything else.
pub open spec fn at_key(v: Option<JsonValue>, key: Seq<char>) -> Option<JsonValue> {
    match v {
        Some(JsonValue::Object(fields)) => member(fields@, key),
        _ => None,
    }
}

/// `v[i]`: the element of an array, absent for anything else.
pub open spec fn at_index(v: Option<JsonValue>, i: int) -> Option<JsonValue> {
    match v {
        Some(JsonValue::Array(items)) => if 0 <= i < items@.len() {
            Some(items@[i])
        } else {
            None
        },
        _ => None,
    }
}

/// The text of a JSON string value.
pub open spec fn as_text(v: Option<JsonValue>) -> Option<Seq<char>> {
    match v {
        Some(JsonValue::Str(s)) => Some(s@),
        _ => None,
    }
}

/// The value of a non-negative integer JSON number.
pub open spec fn as_count(v: Option<JsonValue>) -> Option<u64> {
    match v {
        Some(JsonValue::Number(Some(n))) => Some(n),
        _ => None,
    }
}

/// The value of a JSON boolean.
pub open spec fn as_flag(v: Option<JsonValue>) -> Option<bool> {
    match v {
        Some(JsonValue::Bool(b)) => Some(b),
        _ => None,
    }
}

pub open spec fn deref_opt(o: Option<&JsonValue>) -> Option<JsonValue> {
    match o {
        Some(x) => Some(*x),
        None => None,
    }
}

/// Whether two strings hold the same characters.
pub fn same_text(a: &str, b: &str) -> (r: bool)
    ensures
        r == (a@ == b@),
{
    let n = a.unicode_len();
    if n != b.unicode_len() {
        return false;
    }
    let mut i: usize = 0;
    while i < n
        invariant
            n == a@.len() == b@.len(),
            i <= n,
            a@.subrange(0, i as int) == b@.subrange(0, i as int),
        decreases n - i,
    {
        if a.get_char(i) != b.get_char(i) {
            assert(a@[i as int] != b@[i as int]);
            return false;
        }
        assert(a@.subrange(0, i + 1) == a@.subrange(0, i as int).push(a@[i as int]));
        assert(b@.subrange(0, i + 1) == b@.subrange(0, i as int).push(b@[i as int]));
        i = i + 1;
    }
    assert(a@ == a@.subrange(0, n as int));
    assert(b@ == b@.subrange(0, n as int));
    true
}

/// `v[key]` on an optional value.
pub fn get_key<'a>(v: Option<&'a JsonValue>, key: &str) -> (r: Option<&'a JsonValue>)
    ensures
        deref_opt(r) == at_key(deref_opt(v), key@),
{
    match v {
        Some(JsonValue::Object(fields)) => {
            assert(at_key(deref_opt(v), key@) == member(fields@, key@));
            let mut i = fields.len();
            assert(fields@.subrange(0, i as int) == fields@);
            while i > 0
                invariant
                    i <= fields@.len(),
                    member(fields@, key@) == member(fields@.subrange(0, i as int), key@),
                    at_key(deref_opt(v), key@) == member(fields@, key@),
                decreases i,
            {
                let ghost pre = fields@.subrange(0, i as int);
                assert(pre.drop_last() == fields@.subrange(0, i - 1));
                assert(pre.last() == fields@[i - 1]);
                let k = fields[i - 1].0.as_str();
                if same_text(k, key) {
                    assert(pre.last().0@ == key@);
                    assert(member(pre, key@) == Some(fields@[i - 1].1));
                    let found = &fields[i - 1].1;
                    return Some(found);
                }
                i = i - 1;
            }
            None
        },
        _ => None,
    }
}

/// `v[i]` on an optional value.
pub fn get_index<'a>(v: Option<&'a JsonValue>, i: usize) -> (r: Option<&'a JsonValue>)
    ensures
        deref_opt(r) == at_index(deref_opt(v), i as int),
{
    match v {
        Some(JsonValue::Array(items)) => if i < items.len() {
            Some(&items[i])
        } else {
            None
        },
        _ => None,
    }
}

/// The text of a JSON string value.
pub fn get_text(v: Option<&JsonValue>) -> (r: Option<String>)
    ensures
        match r {
            Some(s) => as_text(deref_opt(v)) == Some(s@),
            None => as_text(deref_opt(v)) is None,
        },
{
    match v {
        Some(JsonValue::Str(s)) => Some(s.clone()),
        _ => None,
    }
}

/// The value of a non-negative integer JSON number.
pub fn get_count(v: Option<&JsonValue>) -> (r: Option<u64>)
    ensures
        r == as_count(deref_opt(v)),
{
    match v {
        Some(JsonValue::Number(Some(n))) => Some(*n),
        _ => None,
    }
}

/// The value of a JSON boolean.
pub fn get_flag(v: Option<&JsonValue>) -> (r: Option<bool>)
    ensures
        r == as_flag(deref_opt(v)),
{
    match v {
        Some(JsonValue::Bool(b)) => Some(*b),
        _ => None,
    }
}

} // verus!
