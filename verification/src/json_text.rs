//! JSON values as compact text, written by `serde_json` (the `Display` of a
//! `serde_json::Value`).

use vstd::prelude::*;
use crate::json::{Json, JsonNumber, JsonV};
use serde_json::Value;

verus! {

#[verifier::external_type_specification]
#[verifier::external_body]
pub struct ExSerdeValue(Value);

/// Trusted: the library's `Json` as a `serde_json::Value`, variant for variant: numbers by
/// `Value::from` (`u64`, `i64`) or parsed as a `serde_json::Number` (kept as a string when
/// they do not parse), arrays element by element, objects member by member into a
/// `serde_json::Map`. Nothing is claimed of the result here; `to_json_text` names its text.
#[verifier::external_body]
fn serde_value(v: &Json) -> Value {
    match v {
        Json::Null => Value::Null,
        Json::Bool(b) => Value::Bool(*b),
        Json::Number(JsonNumber::Unsigned(u)) => Value::from(*u),
        Json::Number(JsonNumber::Negative(i)) => Value::from(*i),
        Json::Number(JsonNumber::Fractional(s)) => s.parse().map_or_else(|_| Value::from(s.as_str()), Value::Number),
        Json::Str(s) => Value::from(s.as_str()),
        Json::Array(a) => Value::Array(a.iter().map(serde_value).collect()),
        Json::Object(m) => Value::Object(m.iter().map(|(k, x)| (k.clone(), serde_value(x))).collect()),
    }
}

/// Named result of `serde_json`'s compact text of the value `v` (the `Display` of the
/// `serde_json::Value` it converts to).
pub uninterp spec fn json_text(v: JsonV) -> Seq<char>;

/// Trusted: `serde_json::Value`'s `Display` (`to_string`) of `v` converted by
/// `serde_value`: compact JSON text. The text is a function of the value alone (a
/// `serde_json::Map` orders its keys); which text it is, is `serde_json`'s.
#[verifier::external_body]
pub(crate) fn to_json_text(v: &Json) -> (r: String)
    ensures
        r@ == json_text(v@),
{
    serde_value(v).to_string()
}

} // verus!
