//! Reading the tester's configuration: serde_json parses the file's bytes, and the
//! library copies the parsed value into its own model.
use vstd::prelude::*;

use crate::json::{Json, JsonNumber, JsonValue};
use crate::render::value_content;
use serde_json::Value;

verus! {

/// What serde_json reads as one JSON value from `bytes`; nothing where it reads none.
pub uninterp spec fn json_bytes_value(bytes: Seq<u8>) -> Option<Json>;

/// The message of the error that serde_json gives where it reads no value from `bytes`.
pub uninterp spec fn json_parse_error(bytes: Seq<u8>) -> Seq<char>;

/// A serde_json value's variant, with what it holds.
enum Shape<'a> {
    Null,
    Bool(bool),
    Number(JsonNumber),
    Str(&'a str),
    Array(&'a Vec<Value>),
    Object(Vec<(&'a String, &'a Value)>),
}

/// `serde_json::from_slice` into a `Value`, its error as the error's text.
#[verifier::external_body]
fn parse_value(bytes: &[u8]) -> (r: Result<Value, String>)
    ensures
        match r {
            Ok(v) => json_bytes_value(bytes@) == Some(value_content(v)),
            Err(m) => json_bytes_value(bytes@) is None && m@ == json_parse_error(bytes@),
        },
{
    match serde_json::from_slice::<Value>(bytes) {
        Ok(v) => Ok(v),
        Err(e) => Err(e.to_string()),
    }
}

/// The variant of `v` and what it holds: a number as serde_json stores it (a float by
/// the text that serde_json prints for it), an object's entries in the map's order.
#[verifier::external_body]
fn shape_of(v: &Value) -> (r: Shape)
    ensures
        match r {
            Shape::Null => value_content(*v) == Json::Null,
            Shape::Bool(b) => value_content(*v) == Json::Bool(b),
            Shape::Number(n) => value_content(*v) == Json::Number(n@),
            Shape::Str(s) => value_content(*v) == Json::Str(s@),
            Shape::Array(items) => value_content(*v) == Json::Array(items@.map_values(|item: Value| value_content(item))),
            Shape::Object(entries) => value_content(*v) == Json::Object(
                entries@.map_values(|e: (&String, &Value)| (e.0@, value_content(*e.1))),
            ),
        },
{
    match v {
        Value::Null => Shape::Null,
        Value::Bool(b) => Shape::Bool(*b),
        Value::Number(n) => Shape::Number(match (n.as_u64(), n.as_i64()) {
            (Some(u), _) => JsonNumber::PosInt(u),
            (None, Some(i)) => JsonNumber::NegInt(i),
            (None, None) => JsonNumber::Float(n.to_string()),
        }),
        Value::String(s) => Shape::Str(s.as_str()),
        Value::Array(items) => Shape::Array(items),
        Value::Object(map) => Shape::Object(map.iter().collect()),
    }
}

/// The library's copy of a serde_json value.
fn json_of_value(v: &Value) -> (r: JsonValue)
    ensures
        r@ == value_content(*v),
    decreases value_content(*v),
{
    match shape_of(v) {
        Shape::Null => JsonValue::Null,
        Shape::Bool(b) => JsonValue::Bool(b),
        Shape::Number(n) => JsonValue::Number(n),
        Shape::Str(s) => JsonValue::String(s.to_owned()),
        Shape::Array(items) => {
            let ghost shown = items@.map_values(|item: Value| value_content(item));
            let mut out: Vec<JsonValue> = Vec::new();
            let mut i: usize = 0;
            while i < items.len()
                invariant
                    i <= items.len(),
                    out.len() == i,
                    value_content(*v) == Json::Array(shown),
                    shown == items@.map_values(|item: Value| value_content(item)),
                    forall|j: int| 0 <= j < i ==> #[trigger] out@[j]@ == value_content(items@[j]),
                decreases items.len() - i,
            {
                proof {
                    assert(shown[i as int] == value_content(items@[i as int]));
                    let c = value_content(*v);
                    assert(c->Array_0 == shown);
                    assert(decreases_to!(c => c->Array_0));
                    assert(decreases_to!(c->Array_0 => c->Array_0[i as int]));
                }
                let item = json_of_value(&items[i]);
                out.push(item);
                i = i + 1;
            }
            let r = JsonValue::Array(out);
            assert(forall|j: int| 0 <= j < out@.len() ==> r@->Array_0[j] == out@[j]@);
            assert forall|j: int| 0 <= j < shown.len() implies r@->Array_0[j] == shown[j] by {
                assert(shown[j] == value_content(items@[j]));
            }
            assert(r@->Array_0 =~= shown);
            r
        },
        Shape::Object(entries) => {
            let ghost shown = entries@.map_values(|e: (&String, &Value)| (e.0@, value_content(*e.1)));
            let mut out: Vec<(String, JsonValue)> = Vec::new();
            let mut i: usize = 0;
            while i < entries.len()
                invariant
                    i <= entries.len(),
                    out.len() == i,
                    value_content(*v) == Json::Object(shown),
                    shown == entries@.map_values(|e: (&String, &Value)| (e.0@, value_content(*e.1))),
                    forall|j: int|
                        0 <= j < i ==> #[trigger] out@[j].0@ == entries@[j].0@ && out@[j].1@
                            == value_content(*entries@[j].1),
                decreases entries.len() - i,
            {
                proof {
                    assert(shown[i as int] == (entries@[i as int].0@, value_content(*entries@[i as int].1)));
                    let c = value_content(*v);
                    assert(c->Object_0 == shown);
                    assert(decreases_to!(c => c->Object_0));
                    assert(decreases_to!(c->Object_0 => c->Object_0[i as int]));
                    assert(decreases_to!(c->Object_0[i as int] => c->Object_0[i as int].1));
                }
                let key = entries[i].0.clone();
                let value = json_of_value(entries[i].1);
                out.push((key, value));
                i = i + 1;
            }
            let r = JsonValue::Object(out);
            assert forall|j: int| 0 <= j < shown.len() implies r@->Object_0[j] == shown[j] by {
                assert(shown[j] == (entries@[j].0@, value_content(*entries@[j].1)));
            }
            assert(r@->Object_0 =~= shown);
            r
        },
    }
}

/// The JSON value that serde_json reads from `bytes`, or nothing.
pub fn parse_json(bytes: &[u8]) -> (r: Option<JsonValue>)
    ensures
        r matches Some(v) ==> json_bytes_value(bytes@) == Some(v@),
        r is None <==> json_bytes_value(bytes@) is None,
{
    match parse_value(bytes) {
        Ok(v) => Some(json_of_value(&v)),
        Err(_) => None,
    }
}

/// The configuration that the file's `bytes` hold, or
/// `Failed to parse config file into JSON: {error}`.
pub fn parse_config(bytes: &[u8]) -> (r: Result<JsonValue, String>)
    ensures
        match r {
            Ok(v) => json_bytes_value(bytes@) == Some(v@),
            Err(m) => json_bytes_value(bytes@) is None && m@ == "Failed to parse config file into JSON: "@
                + json_parse_error(bytes@),
        },
{
    match parse_value(bytes) {
        Ok(v) => Ok(json_of_value(&v)),
        Err(e) => {
            let mut m = String::from_str("Failed to parse config file into JSON: ");
            m.append(e.as_str());
            Err(m)
        },
    }
}

} // verus!
