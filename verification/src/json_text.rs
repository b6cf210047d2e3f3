use vstd::prelude::*;
use crate::json::{JsonValue, JsonView};

verus! {

#[verifier::external_type_specification]
#[verifier::external_body]
pub struct ExSerdeValue(serde_json::Value);

/// The value that `serde_json::from_str` parses from `text`, if it accepts it.
pub uninterp spec fn parsed_json(text: Seq<char>) -> Option<JsonView>;

/// The compact text that `serde_json::to_string` writes for `v`, if it can.
pub uninterp spec fn serialized_json(v: JsonView) -> Option<Seq<char>>;

/// `serde_json::from_str::<serde_json::Value>`, converted node for node into a
/// `JsonValue` (numbers keep their text, objects their entry order). `Ok` exactly
/// when serde_json accepts the text, with what it parsed; the error is serde_json's
/// message, of which nothing is stated.
#[verifier::external_body]
pub(crate) fn parse_json_text(text: &str) -> (res: Result<JsonValue, String>)
    ensures
        match res {
            Ok(v) => parsed_json(text@) == Some(v@),
            Err(_) => parsed_json(text@) is None,
        },
{
    match serde_json::from_str::<serde_json::Value>(text) {
        Ok(v) => Ok(json_from_serde(&v)),
        Err(e) => Err(e.to_string()),
    }
}

/// `serde_json::to_string` of `v`, converted node for node into a
/// `serde_json::Value` (a number text goes through `serde_json::Number`'s
/// `FromStr`, and one it refuses makes the whole call fail). `Ok` exactly when a
/// text is written; the error message is not stated.
#[verifier::external_body]
pub(crate) fn json_text(v: &JsonValue) -> (res: Result<String, String>)
    ensures
        match res {
            Ok(t) => serialized_json(v@) == Some(t@),
            Err(_) => serialized_json(v@) is None,
        },
{
    match serde_from_json(v) {
        Ok(x) => match serde_json::to_string(&x) {
            Ok(t) => Ok(t),
            Err(e) => Err(e.to_string()),
        },
        Err(m) => Err(m),
    }
}

/// The node-for-node conversion from serde_json's value (used by `parse_json_text`).
#[verifier::external_body]
fn json_from_serde(v: &serde_json::Value) -> JsonValue {
    match v {
        serde_json::Value::Null => JsonValue::Null,
        serde_json::Value::Bool(b) => JsonValue::Bool(*b),
        serde_json::Value::Number(n) => JsonValue::Number(n.to_string()),
        serde_json::Value::String(s) => JsonValue::String(s.clone()),
        serde_json::Value::Array(a) => JsonValue::Array(a.iter().map(json_from_serde).collect()),
        serde_json::Value::Object(o) => JsonValue::Object(
            o.iter().map(|(k, x)| (k.clone(), json_from_serde(x))).collect(),
        ),
    }
}

/// The node-for-node conversion into serde_json's value (used by `json_text`).
#[verifier::external_body]
fn serde_from_json(v: &JsonValue) -> Result<serde_json::Value, String> {
    Ok(match v {
        JsonValue::Null => serde_json::Value::Null,
        JsonValue::Bool(b) => serde_json::Value::Bool(*b),
        JsonValue::Number(n) => serde_json::Value::Number(n.parse().map_err(|e: serde_json::Error| e.to_string())?),
        JsonValue::String(s) => serde_json::Value::String(s.clone()),
        JsonValue::Array(a) => serde_json::Value::Array(a.iter().map(serde_from_json).collect::<Result<_, _>>()?),
        JsonValue::Object(o) => serde_json::Value::Object(
            o.iter().map(|(k, x)| Ok((k.clone(), serde_from_json(x)?))).collect::<Result<_, String>>()?,
        ),
    })
}

} // verus!
