//! The trusted boundary to the outside world: JSON parsing through
//! `serde_json`, floating-point reading and rendering through `serde_json`'s
//! number type, and UTF-8 decoding through `str::from_utf8`.
//!
//! Everything else in the crate is verified against the contracts stated
//! here. JSON serialization is not here: it is implemented and verified in
//! `jsontext`.

use vstd::prelude::*;
use vstd::utf8::{valid_utf8, decode_utf8};
use serde_json::Value as SerdeJsonValue;
use crate::value::{JsonEntry, JsonNumber, JsonS, JsonValue};

verus! {

#[verifier::external_type_specification]
#[verifier::external_body]
pub struct ExSerdeValue(SerdeJsonValue);

/// The model of what a `serde_json::Value` holds, as this crate's own JSON
/// tree model.
pub uninterp spec fn jmodel(v: SerdeJsonValue) -> JsonS;

/// The JSON tree denoted by a text, if the text is a JSON document. Object
/// entries come out with unique names in sorted order; numbers carry their
/// `i64` reading, their reading as a double, and their canonical rendering.
pub uninterp spec fn json_of(s: Seq<char>) -> Option<JsonS>;

/// Relies on serde_json::from_str: returns a value exactly when the text is
/// one JSON document, and that value models the document.
#[verifier::external_body]
fn serde_parse(s: &str) -> (r: Option<SerdeJsonValue>)
    ensures
        r is Some <==> json_of(s@) is Some,
        r matches Some(v) ==> json_of(s@) == Some(jmodel(v)),
{
    serde_json::from_str(s).ok()
}

/// Relies on the variants of serde_json::Value and on serde_json::Number's
/// accessors (as_i64, as_f64) and rendering: rebuilds the same tree, node
/// for node, as this crate's own JSON type.
#[verifier::external_body]
fn serde_extract(v: SerdeJsonValue) -> (r: JsonValue)
    ensures
        r@ == jmodel(v),
{
    match v {
        SerdeJsonValue::Null => JsonValue::Null,
        SerdeJsonValue::Bool(b) => JsonValue::Bool(b),
        SerdeJsonValue::Number(n) => JsonValue::Number(JsonNumber {
            as_int: n.as_i64(),
            float_repr: n.as_f64().and_then(|x| serde_json::to_string(&x).ok()),
            repr: n.to_string(),
        }),
        SerdeJsonValue::String(s) => JsonValue::Str(s),
        SerdeJsonValue::Array(a) => JsonValue::Array(a.into_iter().map(serde_extract).collect()),
        SerdeJsonValue::Object(m) => JsonValue::Object(
            m.into_iter().map(|(k, x)| JsonEntry { name: k, value: serde_extract(x) }).collect(),
        ),
    }
}

/// Parses one JSON document, or `None` when the text is not JSON.
pub fn parse_json(s: &str) -> (r: Option<JsonValue>)
    ensures
        r is Some <==> json_of(s@) is Some,
        r matches Some(j) ==> json_of(s@) == Some(j@),
{
    match serde_parse(s) {
        Some(v) => Some(serde_extract(v)),
        None => None,
    }
}

/// The canonical rendering of a text read as an IEEE-754 double, if the
/// text denotes one. The reading follows the JSON number grammar; the
/// rendering is the shortest round-tripping decimal form.
pub uninterp spec fn float_of(s: Seq<char>) -> Option<Seq<char>>;

/// Relies on serde_json's number grammar and double rendering: returns the
/// canonical rendering of the text read as a double, when the text denotes
/// one.
#[verifier::external_body]
pub fn parse_float_repr(s: &str) -> (r: Option<String>)
    ensures
        r is Some <==> float_of(s@) is Some,
        r matches Some(t) ==> float_of(s@) == Some(t@),
{
    let n: serde_json::Number = serde_json::from_str(s).ok()?;
    let x = n.as_f64()?;
    serde_json::to_string(&x).ok()
}

/// Relies on str::from_utf8: succeeds exactly on valid UTF-8 and yields
/// the decoded characters, per vstd's model of UTF-8.
#[verifier::external_body]
pub fn utf8_to_string(b: &Vec<u8>) -> (r: Option<String>)
    ensures
        r is Some <==> valid_utf8(b@),
        r matches Some(t) ==> t@ == decode_utf8(b@),
{
    match std::str::from_utf8(b.as_slice()) {
        Ok(s) => Some(s.to_string()),
        Err(_) => None,
    }
}

} // verus!
