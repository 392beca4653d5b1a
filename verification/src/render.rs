//! Trusted JSON text rendering and parsing, through serde_json.
//!
//! The text forms of a value are named results (`compact_text_of`,
//! `pretty_text_of`, `parsed_json`): functions of the value or text alone,
//! computed by serde_json.

use vstd::prelude::*;

use crate::json::Json;
use crate::json::JsonV;

verus! {

#[verifier::external_type_specification]
#[verifier::external_body]
pub struct ExValue(serde_json::Value);

/// The compact JSON text of a value, as serde_json serialises it.
pub uninterp spec fn compact_text_of(v: JsonV) -> Seq<char>;

/// The pretty-printed JSON text of a value, as serde_json serialises it.
pub uninterp spec fn pretty_text_of(v: JsonV) -> Seq<char>;

/// The value a piece of JSON text parses to (null for unparsable text).
pub uninterp spec fn parsed_json(s: Seq<char>) -> JsonV;

/// Relies on serde_json::Number's FromStr and serde_json::Value's
/// constructors: the serde_json form of a value (number text that is no
/// JSON number becomes null).
#[verifier::external_body]
pub(crate) fn to_serde(v: &Json) -> serde_json::Value {
    match v {
        Json::Null => serde_json::Value::Null,
        Json::Bool(b) => serde_json::Value::Bool(*b),
        Json::Num(s) => s.parse::<serde_json::Number>().map(serde_json::Value::Number).unwrap_or(
            serde_json::Value::Null,
        ),
        Json::Str(s) => serde_json::Value::String(s.clone()),
        Json::Arr(items) => serde_json::Value::Array(items.iter().map(to_serde).collect()),
        Json::Obj(fields) => serde_json::Value::Object(
            fields.iter().map(|(k, x)| (k.clone(), to_serde(x))).collect(),
        ),
    }
}

/// Relies on serde_json::Number::to_string and serde_json::Value's accessors:
/// the document form of a serde_json value, numbers as their canonical text.
#[verifier::external_body]
pub(crate) fn from_serde(v: &serde_json::Value) -> Json {
    match v {
        serde_json::Value::Null => Json::Null,
        serde_json::Value::Bool(b) => Json::Bool(*b),
        serde_json::Value::Number(n) => Json::Num(n.to_string()),
        serde_json::Value::String(s) => Json::Str(s.clone()),
        serde_json::Value::Array(items) => Json::Arr(items.iter().map(from_serde).collect()),
        serde_json::Value::Object(fields) => Json::Obj(
            fields.iter().map(|(k, x)| (k.clone(), from_serde(x))).collect(),
        ),
    }
}

/// Relies on serde_json::to_string: the compact JSON text of a value,
/// determined by the value alone.
#[verifier::external_body]
pub fn render_compact(v: &Json) -> (r: String)
    ensures
        r@ == compact_text_of(v@),
{
    serde_json::to_string(&to_serde(v)).unwrap_or_default()
}

/// Relies on serde_json::to_string_pretty: the pretty-printed JSON text of a
/// value, determined by the value alone.
#[verifier::external_body]
pub fn render_pretty(v: &Json) -> (r: String)
    ensures
        r@ == pretty_text_of(v@),
{
    serde_json::to_string_pretty(&to_serde(v)).unwrap_or_default()
}

/// Relies on serde_json::from_str: the value a piece of JSON text parses to,
/// determined by the text alone (null when it does not parse).
#[verifier::external_body]
pub fn parse_json(s: &str) -> (r: Json)
    ensures
        r@ == parsed_json(s@),
{
    let v: serde_json::Value = serde_json::from_str(s).unwrap_or(serde_json::Value::Null);
    from_serde(&v)
}

/// The canonical facet text of a field value: strings verbatim, numbers as
/// their numeric text, booleans and null as their keywords, containers as
/// compact JSON.
pub open spec fn facet_of(v: JsonV) -> Seq<char> {
    match v {
        JsonV::Str(s) => s,
        JsonV::Num(s) => s,
        JsonV::Bool(b) => if b {
            "true"@
        } else {
            "false"@
        },
        JsonV::Null => "null"@,
        _ => compact_text_of(v),
    }
}

/// Convert a value to a string suitable for facet counting.
pub fn value_to_facet_string(v: &Json) -> (r: String)
    ensures
        r@ == facet_of(v@),
{
    match v {
        Json::Str(s) => s.clone(),
        Json::Num(s) => s.clone(),
        Json::Bool(b) => {
            if *b {
                String::from_str("true")
            } else {
                String::from_str("false")
            }
        },
        Json::Null => String::from_str("null"),
        _ => render_compact(v),
    }
}

} // verus!
