//! JSON text as `serde_json` reads and writes it.
use vstd::prelude::*;
use crate::json::{Json, JsonNumber, JsonV};
use crate::text::{chars_of, extend_chars};

verus! {

#[verifier::external_type_specification]
#[verifier::external_body]
pub struct ExJsonValue(serde_json::Value);

/// The compact text `serde_json` writes for a value (`Value`'s
/// `to_string`): no spaces, strings escaped as JSON, a number as the
/// number its text reads as, object entries by key in `serde_json`'s map
/// order.  How the text is made is not written out here; it is named
/// `jtext` of the value.
pub uninterp spec fn jtext(v: JsonV) -> Seq<char>;

/// A JSON string literal.
pub open spec fn quoted(s: Seq<char>) -> Seq<char> {
    jtext(JsonV::Str(s))
}

/// The value as `serde_json` holds it, built one for one.
#[verifier::external_body]
fn to_serde(v: &Json) -> serde_json::Value {
    match v {
        Json::Null => serde_json::Value::Null,
        Json::Bool(b) => serde_json::Value::Bool(*b),
        Json::Number(n) => serde_json::from_str(&n.text).unwrap_or(serde_json::Value::Null),
        Json::Str(s) => serde_json::Value::String(s.clone()),
        Json::Array(a) => serde_json::Value::Array(a.iter().map(to_serde).collect()),
        Json::Object(es) => serde_json::Value::Object(es.iter().map(|(k, x)| (k.clone(), to_serde(x))).collect()),
    }
}

/// `Value::to_string` (its `Display`, which writes compact JSON) on the
/// value: the text is named `jtext` of the value.
#[verifier::external_body]
fn serde_text(v: &Json) -> (r: String)
    ensures
        r@ == jtext(v@),
{
    to_serde(v).to_string()
}

/// What `serde_json::from_str::<Value>` reads from a text, as the library's
/// value: `None` when the text is not JSON.  The grammar and how numbers
/// are read are not written out here; the result is named `json_parse` of
/// the text.
pub uninterp spec fn json_parse(text: Seq<char>) -> Option<JsonV>;

/// The library's value for what `serde_json` holds, built one for one: a
/// number keeps the text `serde_json` writes for it and its `i64` and
/// `u64` readings.
#[verifier::external_body]
fn from_serde(v: &serde_json::Value) -> Json {
    match v {
        serde_json::Value::Null => Json::Null,
        serde_json::Value::Bool(b) => Json::Bool(*b),
        serde_json::Value::Number(n) => Json::Number(JsonNumber { text: n.to_string(), signed: n.as_i64(), unsigned: n.as_u64() }),
        serde_json::Value::String(s) => Json::Str(s.clone()),
        serde_json::Value::Array(a) => Json::Array(a.iter().map(from_serde).collect()),
        serde_json::Value::Object(m) => Json::Object(m.iter().map(|(k, x)| (k.clone(), from_serde(x))).collect()),
    }
}

/// `serde_json::from_str::<Value>` on the text: the value read is named
/// `json_parse` of the text, and `None` stands for the parse error.
#[verifier::external_body]
fn serde_parse(text: &str) -> (r: Option<Json>)
    ensures
        match r {
            Some(j) => json_parse(text@) == Some(j@),
            None => json_parse(text@) is None,
        },
{
    serde_json::from_str::<serde_json::Value>(text).ok().map(|v| from_serde(&v))
}

/// Reads JSON text: the value, or `None` when the text is not JSON.
pub fn parse_json(text: &str) -> (r: Option<Json>)
    ensures
        match r {
            Some(j) => json_parse(text@) == Some(j@),
            None => json_parse(text@) is None,
        },
{
    serde_parse(text)
}

/// The compact JSON text of a value.
pub fn json_text(v: &Json) -> (r: String)
    ensures
        r@ == jtext(v@),
{
    serde_text(v)
}

/// Appends the text of a value.
pub fn push_json(out: &mut Vec<char>, v: &Json)
    ensures
        final(out)@ == old(out)@ + jtext(v@),
{
    let t = serde_text(v);
    let c = chars_of(t.as_str());
    extend_chars(out, c.as_slice());
}

/// Appends a string literal.
pub fn push_quoted(out: &mut Vec<char>, s: &[char])
    ensures
        final(out)@ == old(out)@ + quoted(s@),
{
    let v = Json::Str(crate::text::string_of(s));
    push_json(out, &v);
}

} // verus!
