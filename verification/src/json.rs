//! A model of JSON documents as the tester's configuration holds them.
use vstd::prelude::*;

verus! {

/// A JSON number as a parsed document holds it.
#[derive(Debug, PartialEq, Eq)]
pub enum JsonNumber {
    /// A non-negative integer.
    PosInt(u64),
    /// A negative integer.
    NegInt(i64),
    /// A float, by the decimal text that serde_json prints for it.
    Float(String),
}

/// The content of a `JsonNumber`.
pub enum JsonNum {
    PosInt(u64),
    NegInt(i64),
    Float(Seq<char>),
}

impl View for JsonNumber {
    type V = JsonNum;

    open spec fn view(&self) -> JsonNum {
        match self {
            JsonNumber::PosInt(n) => JsonNum::PosInt(*n),
            JsonNumber::NegInt(n) => JsonNum::NegInt(*n),
            JsonNumber::Float(t) => JsonNum::Float(t@),
        }
    }
}

impl JsonNumber {
    /// A copy of this number.
    pub fn copy(&self) -> (r: JsonNumber)
        ensures
            r@ == self@,
    {
        match self {
            JsonNumber::PosInt(n) => JsonNumber::PosInt(*n),
            JsonNumber::NegInt(n) => JsonNumber::NegInt(*n),
            JsonNumber::Float(t) => JsonNumber::Float(t.clone()),
        }
    }
}

/// A JSON value.
#[derive(Debug, PartialEq, Eq)]
pub enum JsonValue {
    Null,
    Bool(bool),
    Number(JsonNumber),
    String(String),
    Array(Vec<JsonValue>),
    Object(Vec<(String, JsonValue)>),
}

/// The mathematical content of a JSON value: strings as character sequences.
pub enum Json {
    Null,
    Bool(bool),
    Number(JsonNum),
    Str(Seq<char>),
    Array(Seq<Json>),
    Object(Seq<(Seq<char>, Json)>),
}

/// The content of `v`.
pub open spec fn json_of(v: JsonValue) -> Json
    decreases v,
{
    match v {
        JsonValue::Null => Json::Null,
        JsonValue::Bool(b) => Json::Bool(b),
        JsonValue::Number(n) => Json::Number(n@),
        JsonValue::String(s) => Json::Str(s@),
        JsonValue::Array(items) => Json::Array(
            Seq::new(
                items@.len(),
                |i: int|
                    if 0 <= i < items@.len() {
                        json_of(items@[i])
                    } else {
                        Json::Null
                    },
            ),
        ),
        JsonValue::Object(entries) => Json::Object(
            Seq::new(
                entries@.len(),
                |i: int|
                    if 0 <= i < entries@.len() {
                        (entries@[i].0@, json_of(entries@[i].1))
                    } else {
                        (Seq::empty(), Json::Null)
                    },
            ),
        ),
    }
}

/// The value under `key` among `entries` (the first, should a key repeat).
pub open spec fn entry_value(entries: Seq<(Seq<char>, Json)>, key: Seq<char>) -> Option<Json>
    decreases entries.len(),
{
    if entries.len() == 0 {
        None
    } else if entries[0].0 == key {
        Some(entries[0].1)
    } else {
        entry_value(entries.drop_first(), key)
    }
}

/// The member `key` of an object; nothing for other values.
pub open spec fn member(v: Json, key: Seq<char>) -> Option<Json> {
    match v {
        Json::Object(entries) => entry_value(entries, key),
        _ => None,
    }
}

/// The number of a non-negative integer; nothing for other values.
pub open spec fn unsigned_of(v: Json) -> Option<u64> {
    match v {
        Json::Number(JsonNum::PosInt(n)) => Some(n),
        _ => None,
    }
}

/// The characters of a string; nothing for other values.
pub open spec fn text_of(v: Json) -> Option<Seq<char>> {
    match v {
        Json::Str(s) => Some(s),
        _ => None,
    }
}

/// The elements of an array; nothing for other values.
pub open spec fn elements_of(v: Json) -> Option<Seq<Json>> {
    match v {
        Json::Array(items) => Some(items),
        _ => None,
    }
}

/// The contents of a sequence of values.
pub open spec fn views_of(items: Seq<JsonValue>) -> Seq<Json> {
    Seq::new(items.len(), |i: int| items[i]@)
}

impl View for JsonValue {
    type V = Json;

    open spec fn view(&self) -> Json {
        json_of(*self)
    }
}

impl JsonValue {
    /// The member `key` of an object; `None` for a missing key or a value that is no object.
    pub fn get(&self, key: &str) -> (r: Option<&JsonValue>)
        ensures
            match r {
                Some(v) => member(self@, key@) == Some(v@),
                None => member(self@, key@) is None,
            },
    {
        match self {
            JsonValue::Object(entries) => {
                let wanted = key.to_owned();
                let ghost e = self@->Object_0;
                let mut i: usize = 0;
                assert(e.skip(0) =~= e);
                while i < entries.len()
                    invariant
                        i <= entries.len(),
                        wanted@ == key@,
                        self@ == Json::Object(e),
                        e.len() == entries@.len(),
                        forall|j: int| 0 <= j < e.len() ==> #[trigger] e[j] == (entries@[j].0@, entries@[j].1@),
                        entry_value(e, key@) == entry_value(e.skip(i as int), key@),
                    decreases entries.len() - i,
                {
                    assert(e.skip(i as int).drop_first() =~= e.skip(i + 1));
                    assert(e.skip(i as int)[0] == e[i as int]);
                    if entries[i].0 == wanted {
                        return Some(&entries[i].1);
                    }
                    i = i + 1;
                }
                None
            },
            _ => None,
        }
    }

    /// The number of a non-negative integer; `None` for any other value.
    pub fn as_u64(&self) -> (r: Option<u64>)
        ensures
            r == unsigned_of(self@),
    {
        match self {
            JsonValue::Number(JsonNumber::PosInt(n)) => Some(*n),
            _ => None,
        }
    }

    /// The text of a string; `None` for any other value.
    pub fn as_str(&self) -> (r: Option<&str>)
        ensures
            match r {
                Some(s) => text_of(self@) == Some(s@),
                None => text_of(self@) is None,
            },
    {
        match self {
            JsonValue::String(s) => Some(s.as_str()),
            _ => None,
        }
    }

    /// The elements of an array; `None` for any other value.
    pub fn as_array(&self) -> (r: Option<&Vec<JsonValue>>)
        ensures
            match r {
                Some(items) => elements_of(self@) == Some(views_of(items@)),
                None => elements_of(self@) is None,
            },
    {
        match self {
            JsonValue::Array(items) => {
                assert(self@->Array_0 =~= views_of(items@));
                Some(items)
            },
            _ => None,
        }
    }

    /// A copy of this value, member by member.
    #[verifier::loop_isolation(false)]
    pub fn deep_copy(&self) -> (r: JsonValue)
        ensures
            r@ == self@,
        decreases self,
    {
        match self {
            JsonValue::Null => JsonValue::Null,
            JsonValue::Bool(b) => JsonValue::Bool(*b),
            JsonValue::Number(n) => JsonValue::Number(n.copy()),
            JsonValue::String(s) => JsonValue::String(s.clone()),
            JsonValue::Array(items) => {
                let mut out: Vec<JsonValue> = Vec::new();
                let mut i: usize = 0;
                while i < items.len()
                    invariant
                        i <= items.len(),
                        out.len() == i,
                        forall|j: int| 0 <= j < i ==> #[trigger] out@[j]@ == items@[j]@,
                    decreases items.len() - i,
                {
                    let item = items[i].deep_copy();
                    out.push(item);
                    i = i + 1;
                }
                let r = JsonValue::Array(out);
                assert(forall|j: int| 0 <= j < out@.len() ==> r@->Array_0[j] == out@[j]@);
                assert(r@->Array_0 =~= self@->Array_0);
                r
            },
            JsonValue::Object(entries) => {
                let mut out: Vec<(String, JsonValue)> = Vec::new();
                let mut i: usize = 0;
                while i < entries.len()
                    invariant
                        i <= entries.len(),
                        out.len() == i,
                        forall|j: int|
                            0 <= j < i ==> #[trigger] out@[j].0@ == entries@[j].0@ && out@[j].1@
                                == entries@[j].1@,
                    decreases entries.len() - i,
                {
                    let key = entries[i].0.clone();
                    let value = entries[i].1.deep_copy();
                    out.push((key, value));
                    i = i + 1;
                }
                let r = JsonValue::Object(out);
                assert(r@->Object_0 =~= self@->Object_0);
                r
            },
        }
    }
}

} // verus!
