//! Reading single values out of JSON documents.
use vstd::prelude::*;

use crate::double::Double;

verus! {

/// A value in a JSON document, without what an array or an object holds.
#[derive(Clone, Debug)]
pub enum JsonLeaf {
    Null,
    Bool(bool),
    /// A number: as an integer where it is one that `i64` holds, as a binary64
    /// number, and as it is written.
    Number { integer: Option<i64>, double: Double, text: String },
    Text(String),
    /// An array of this many elements.
    Array(usize),
    Object,
}

/// What a `JsonLeaf` says.
pub enum JsonValue {
    Null,
    Bool(bool),
    Number { integer: Option<i64>, double: Double, text: Seq<char> },
    Text(Seq<char>),
    Array(int),
    Object,
}

impl JsonLeaf {
    pub open spec fn view(&self) -> JsonValue {
        match *self {
            JsonLeaf::Null => JsonValue::Null,
            JsonLeaf::Bool(b) => JsonValue::Bool(b),
            JsonLeaf::Number { integer, double, text } => JsonValue::Number {
                integer,
                double,
                text: text@,
            },
            JsonLeaf::Text(s) => JsonValue::Text(s@),
            JsonLeaf::Array(n) => JsonValue::Array(n as int),
            JsonLeaf::Object => JsonValue::Object,
        }
    }
}

/// What an optional leaf says.
pub open spec fn said(leaf: Option<JsonLeaf>) -> Option<JsonValue> {
    match leaf {
        Some(l) => Some(l.view()),
        None => None,
    }
}

/// The value that `pointer` (RFC 6901) leads to in the JSON document `document`;
/// nothing where the document is not JSON or the pointer leads nowhere.
pub uninterp spec fn json_at(document: Seq<char>, pointer: Seq<char>) -> Option<JsonValue>;

/// Parses `document` with `serde_json::from_str` and follows `pointer` with
/// `serde_json::Value::pointer`. What the two functions make of a text is named,
/// not described.
#[verifier::external_body]
pub(crate) fn look_up(document: &str, pointer: &str) -> (r: Option<JsonLeaf>)
    ensures
        said(r) == json_at(document@, pointer@),
{
    let value: serde_json::Value = serde_json::from_str(document).ok()?;
    Some(match value.pointer(pointer)? {
        serde_json::Value::Null => JsonLeaf::Null,
        serde_json::Value::Bool(b) => JsonLeaf::Bool(*b),
        serde_json::Value::Number(n) => JsonLeaf::Number {
            integer: n.as_i64(),
            double: Double { bits: n.as_f64()?.to_bits() },
            text: n.to_string(),
        },
        serde_json::Value::String(s) => JsonLeaf::Text(s.clone()),
        serde_json::Value::Array(items) => JsonLeaf::Array(items.len()),
        serde_json::Value::Object(_) => JsonLeaf::Object,
    })
}

// ---------------------------------------------------------------------------
// Reading a leaf as something
// ---------------------------------------------------------------------------
/// The integer that a value is.
pub open spec fn as_integer(value: Option<JsonValue>) -> Option<i64> {
    match value {
        Some(JsonValue::Number { integer, .. }) => integer,
        _ => None,
    }
}

/// The binary64 number that a value is.
pub open spec fn as_double(value: Option<JsonValue>) -> Option<Double> {
    match value {
        Some(JsonValue::Number { double, .. }) => Some(double),
        _ => None,
    }
}

/// The text that a value is.
pub open spec fn as_text(value: Option<JsonValue>) -> Option<Seq<char>> {
    match value {
        Some(JsonValue::Text(s)) => Some(s),
        _ => None,
    }
}

/// The text that a value is, or the text in which a number is written.
pub open spec fn as_text_or_number(value: Option<JsonValue>) -> Option<Seq<char>> {
    match value {
        Some(JsonValue::Text(s)) => Some(s),
        Some(JsonValue::Number { text, .. }) => Some(text),
        _ => None,
    }
}

/// The number of elements of an array.
pub open spec fn as_array_len(value: Option<JsonValue>) -> Option<int> {
    match value {
        Some(JsonValue::Array(n)) => Some(n),
        _ => None,
    }
}

/// The integer that a leaf is.
pub fn integer_of(leaf: &Option<JsonLeaf>) -> (r: Option<i64>)
    ensures
        r == as_integer(said(*leaf)),
{
    match leaf {
        Some(JsonLeaf::Number { integer, .. }) => *integer,
        _ => None,
    }
}

/// The binary64 number that a leaf is.
pub fn double_of(leaf: &Option<JsonLeaf>) -> (r: Option<Double>)
    ensures
        r == as_double(said(*leaf)),
{
    match leaf {
        Some(JsonLeaf::Number { double, .. }) => Some(*double),
        _ => None,
    }
}

/// The text that a leaf is.
pub fn text_of(leaf: &Option<JsonLeaf>) -> (r: Option<String>)
    ensures
        match r {
            Some(s) => as_text(said(*leaf)) == Some(s@),
            None => as_text(said(*leaf)) is None,
        },
{
    match leaf {
        Some(JsonLeaf::Text(s)) => Some(s.clone()),
        _ => None,
    }
}

/// The text of a leaf that is a text or a number.
pub fn value_as_string(leaf: &Option<JsonLeaf>) -> (r: Option<String>)
    ensures
        match r {
            Some(s) => as_text_or_number(said(*leaf)) == Some(s@),
            None => as_text_or_number(said(*leaf)) is None,
        },
{
    match leaf {
        Some(JsonLeaf::Text(s)) => Some(s.clone()),
        Some(JsonLeaf::Number { text, .. }) => Some(text.clone()),
        _ => None,
    }
}

/// The number of elements of a leaf that is an array.
pub fn array_len_of(leaf: &Option<JsonLeaf>) -> (r: Option<usize>)
    ensures
        match r {
            Some(n) => as_array_len(said(*leaf)) == Some(n as int),
            None => as_array_len(said(*leaf)) is None,
        },
{
    match leaf {
        Some(JsonLeaf::Array(n)) => Some(*n),
        _ => None,
    }
}

} // verus!
