//! Reading JSON text, by the JSON parser of serde_json.

use vstd::prelude::*;
use crate::json::{Json, JsonV, json_views};

verus! {

#[verifier::external_type_specification]
#[verifier::external_body]
pub struct ExJsonValue(serde_json::Value);

/// What serde_json's parser gives for a text that holds a JSON array,
/// taken value by value; nothing where the text is not such an array.
pub uninterp spec fn parsed_json_array(text: Seq<char>) -> Option<Seq<JsonV>>;

/// Converts a `serde_json::Value` into a `Json`, variant by variant: a
/// number becomes its display text, an object keeps serde_json's entry order.
/// Nothing is stated of the result.
#[verifier::external_body]
fn json_from_value(v: &serde_json::Value) -> Json {
    match v {
        serde_json::Value::Null => Json::Null,
        serde_json::Value::Bool(b) => Json::Bool(*b),
        serde_json::Value::Number(n) => Json::Number(n.to_string()),
        serde_json::Value::String(s) => Json::Str(s.clone()),
        serde_json::Value::Array(a) => Json::Array(a.iter().map(json_from_value).collect()),
        serde_json::Value::Object(m) => Json::Object(
            m.iter().map(|(k, x)| (k.clone(), json_from_value(x))).collect(),
        ),
    }
}

/// Calls `serde_json::from_str::<Vec<serde_json::Value>>` on `text`.
/// Claims only that the outcome is the one named by `parsed_json_array` for
/// the text: the parser is deterministic, its result depends on the text alone.
#[verifier::external_body]
pub(crate) fn parse_json_array(text: &String) -> (r: Option<Vec<Json>>)
    ensures
        match r {
            Some(items) => parsed_json_array(text@) == Some(json_views(items@)),
            None => parsed_json_array(text@) is None,
        },
{
    serde_json::from_str::<Vec<serde_json::Value>>(text).ok().map(
        |vs| vs.iter().map(json_from_value).collect(),
    )
}

} // verus!
