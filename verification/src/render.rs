//! Configuration values as serde_json prints them: the library builds the serde_json
//! value that a `JsonValue` stands for, and serde_json prints it.
use vstd::prelude::*;

use crate::json::{Json, JsonNum, JsonNumber, JsonValue};
use serde_json::{Number, Value};

verus! {

#[verifier::external_type_specification]
#[verifier::external_body]
pub struct ExValue(serde_json::Value);

/// What a serde_json value holds: its numbers as serde_json stores them (a float by the
/// text that serde_json prints for it), its objects' entries in the order in which its
/// map keeps them.
pub uninterp spec fn value_content(v: Value) -> Json;

/// The entries that serde_json's map keeps when `entries` are inserted in order.
pub uninterp spec fn map_entries(entries: Seq<(Seq<char>, Json)>) -> Seq<(Seq<char>, Json)>;

/// What serde_json's `Debug` prints for a value that holds `v`.
pub uninterp spec fn json_debug_text(v: Json) -> Seq<char>;

/// What serde_json's `Display` prints for a value that holds `v`.
pub uninterp spec fn json_display_text(v: Json) -> Seq<char>;

/// What the value made from serde_json's parse of `text` as a `Number` holds
/// (`Json::Null` where the parse fails).
pub uninterp spec fn parsed_number(text: Seq<char>) -> Json;

/// `Value::Null`.
#[verifier::external_body]
fn null_value() -> (r: Value)
    ensures
        value_content(r) == Json::Null,
{
    Value::Null
}

/// `Value::Bool(b)`.
#[verifier::external_body]
fn bool_value(b: bool) -> (r: Value)
    ensures
        value_content(r) == Json::Bool(b),
{
    Value::Bool(b)
}

/// `Value::String` holding `s`.
#[verifier::external_body]
fn string_value(s: &str) -> (r: Value)
    ensures
        value_content(r) == Json::Str(s@),
{
    Value::String(s.to_owned())
}

/// The number `n`, made by serde_json's `From<u64>`, which stores it as a non-negative integer.
#[verifier::external_body]
fn unsigned_value(n: u64) -> (r: Value)
    ensures
        value_content(r) == Json::Number(JsonNum::PosInt(n)),
{
    Value::Number(Number::from(n))
}

/// The number `n`, made by serde_json's `From<i64>`, which stores a negative `n` as a
/// negative integer and any other as a non-negative one.
#[verifier::external_body]
fn signed_value(n: i64) -> (r: Value)
    ensures
        value_content(r) == Json::Number(
            if n < 0 {
                JsonNum::NegInt(n)
            } else {
                JsonNum::PosInt(n as u64)
            },
        ),
{
    Value::Number(Number::from(n))
}

/// The number that serde_json's `FromStr` for `Number` reads from `text`, or
/// `Value::Null` where it reads none.
#[verifier::external_body]
fn parsed_number_value(text: &str) -> (r: Value)
    ensures
        value_content(r) == parsed_number(text@),
{
    text.parse::<Number>().map(Value::Number).unwrap_or(Value::Null)
}

/// `Value::Array` holding `items`.
#[verifier::external_body]
fn array_value(items: Vec<Value>) -> (r: Value)
    ensures
        value_content(r) == Json::Array(items@.map_values(|item: Value| value_content(item))),
{
    Value::Array(items)
}

/// `Value::Object` holding the map that `entries` make when inserted in order.
#[verifier::external_body]
fn object_value(entries: Vec<(String, Value)>) -> (r: Value)
    ensures
        value_content(r) == Json::Object(
            map_entries(entries@.map_values(|e: (String, Value)| (e.0@, value_content(e.1)))),
        ),
{
    Value::Object(entries.into_iter().collect())
}

/// `format!("{:?}", v)`.
#[verifier::external_body]
fn debug_of(v: &Value) -> (r: String)
    ensures
        r@ == json_debug_text(value_content(*v)),
{
    format!("{:?}", v)
}

/// `v.to_string()`, serde_json's `Display`.
#[verifier::external_body]
fn display_of(v: &Value) -> (r: String)
    ensures
        r@ == json_display_text(value_content(*v)),
{
    format!("{}", v)
}

/// What the serde_json value that stands for `v` holds.
pub open spec fn serde_content(v: Json) -> Json
    decreases v,
{
    match v {
        Json::Number(JsonNum::NegInt(n)) => if n < 0 {
            v
        } else {
            Json::Number(JsonNum::PosInt(n as u64))
        },
        Json::Number(JsonNum::Float(text)) => parsed_number(text),
        Json::Array(items) => Json::Array(
            Seq::new(
                items.len(),
                |i: int|
                    if 0 <= i < items.len() {
                        serde_content(items[i])
                    } else {
                        Json::Null
                    },
            ),
        ),
        Json::Object(entries) => Json::Object(map_entries(serde_entries(entries))),
        _ => v,
    }
}

/// The entries of an object, each value as the serde_json value that stands for it holds it.
pub open spec fn serde_entries(entries: Seq<(Seq<char>, Json)>) -> Seq<(Seq<char>, Json)>
    decreases entries,
{
    if entries.len() == 0 {
        Seq::empty()
    } else {
        let last = entries[entries.len() - 1];
        serde_entries(entries.subrange(0, entries.len() - 1)).push((last.0, serde_content(last.1)))
    }
}

proof fn lemma_serde_entries(entries: Seq<(Seq<char>, Json)>)
    ensures
        serde_entries(entries).len() == entries.len(),
        forall|k: int|
            0 <= k < entries.len() ==> #[trigger] serde_entries(entries)[k] == (
                entries[k].0,
                serde_content(entries[k].1),
            ),
    decreases entries.len(),
{
    if entries.len() > 0 {
        let front = entries.subrange(0, entries.len() - 1);
        lemma_serde_entries(front);
        assert forall|k: int| 0 <= k < entries.len() implies #[trigger] serde_entries(entries)[k] == (
            entries[k].0,
            serde_content(entries[k].1),
        ) by {
            if k < entries.len() - 1 {
                assert(front[k] == entries[k]);
            }
        }
    }
}

/// The serde_json value that `v` stands for.
#[verifier::loop_isolation(false)]
fn serde_value(v: &JsonValue) -> (r: Value)
    ensures
        value_content(r) == serde_content(v@),
    decreases v,
{
    match v {
        JsonValue::Null => null_value(),
        JsonValue::Bool(b) => bool_value(*b),
        JsonValue::Number(JsonNumber::PosInt(n)) => unsigned_value(*n),
        JsonValue::Number(JsonNumber::NegInt(n)) => signed_value(*n),
        JsonValue::Number(JsonNumber::Float(text)) => parsed_number_value(text.as_str()),
        JsonValue::String(s) => string_value(s.as_str()),
        JsonValue::Array(items) => {
            let mut out: Vec<Value> = Vec::new();
            let mut i: usize = 0;
            while i < items.len()
                invariant
                    i <= items.len(),
                    out.len() == i,
                    forall|j: int|
                        0 <= j < i ==> #[trigger] value_content(out@[j]) == serde_content(items@[j]@),
                decreases items.len() - i,
            {
                let item = serde_value(&items[i]);
                out.push(item);
                i = i + 1;
            }
            let ghost shown = out@.map_values(|item: Value| value_content(item));
            assert(shown =~= serde_content(v@)->Array_0);
            array_value(out)
        },
        JsonValue::Object(entries) => {
            let mut out: Vec<(String, Value)> = Vec::new();
            let mut i: usize = 0;
            while i < entries.len()
                invariant
                    i <= entries.len(),
                    out.len() == i,
                    forall|j: int|
                        0 <= j < i ==> #[trigger] out@[j].0@ == entries@[j].0@ && value_content(
                            out@[j].1,
                        ) == serde_content(entries@[j].1@),
                decreases entries.len() - i,
            {
                let key = entries[i].0.clone();
                let value = serde_value(&entries[i].1);
                out.push((key, value));
                i = i + 1;
            }
            let ghost shown = out@.map_values(|e: (String, Value)| (e.0@, value_content(e.1)));
            let ghost es = v@->Object_0;
            proof {
                lemma_serde_entries(es);
            }
            assert(shown =~= serde_entries(es));
            object_value(out)
        },
    }
}

/// `v` as serde_json's `Debug` prints the value it stands for.
pub fn json_debug(v: &JsonValue) -> (r: String)
    ensures
        r@ == json_debug_text(serde_content(v@)),
{
    debug_of(&serde_value(v))
}

/// `v` as serde_json's `Display` prints the value it stands for.
pub fn json_display(v: &JsonValue) -> (r: String)
    ensures
        r@ == json_display_text(serde_content(v@)),
{
    display_of(&serde_value(v))
}

} // verus!
