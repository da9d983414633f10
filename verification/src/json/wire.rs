//! JSON text: what `serde_json` reads and writes.
use serde_json::Value;
use vstd::prelude::*;

use crate::json::{distinct, in_order, Json, JsonView, Number, NumberView};
use crate::text;

verus! {

/// A value of `serde_json`.
#[verifier::external_type_specification]
#[verifier::external_body]
pub struct ExValue(serde_json::Value);

/// The value of JSON text, as `serde_json` reads it.
pub uninterp spec fn json_in(bytes: Seq<u8>) -> Option<JsonView>;

/// The JSON text of a value, as `serde_json` writes it.
pub uninterp spec fn json_bytes(value: JsonView) -> Option<Seq<u8>>;

/// The JSON text of a value, as `serde_json` writes it for people to read.
pub uninterp spec fn pretty_text(value: JsonView) -> Option<Seq<char>>;

/// Whether `serde_json` reads a value back from the text that it writes of it:
/// numbers are integers in the form that it gives them, lists and objects are nested
/// no deeper than it follows them, no object has a key twice, and no key is one that
/// it keeps for itself.
pub open spec fn read_back(value: JsonView, depth: nat) -> bool
    decreases depth,
{
    match value {
        JsonView::Null => true,
        JsonView::Bool(_) => true,
        JsonView::Text(_) => true,
        JsonView::Number(NumberView::Unsigned(_)) => true,
        JsonView::Number(NumberView::Negative(n)) => n < 0,
        JsonView::Number(NumberView::Other(_)) => false,
        JsonView::Array(items) => depth > 0 && forall|i: int|
            0 <= i < items.len() ==> #[trigger] read_back(items[i], (depth - 1) as nat),
        JsonView::Object(members) => {
            &&& depth > 0
            &&& distinct(members)
            &&& forall|i: int|
                0 <= i < members.len() ==> #[trigger] read_back(
                    members[i].1,
                    (depth - 1) as nat,
                )
            &&& forall|i: int|
                0 <= i < members.len() ==> !text::begins_with(
                    (#[trigger] members[i]).0,
                    "$serde_json::private::"@,
                )
        },
    }
}

/// How deep `serde_json` follows lists and objects.
pub const MAX_DEPTH: usize = 127;

/// Whether a value can be sent and read back.
pub open spec fn sendable(value: JsonView) -> bool {
    read_back(value, MAX_DEPTH as nat)
}

/// The value that `serde_json` holds, variant by variant. A number is told by
/// `Number::as_u64` and `Number::as_i64`, and where it is neither by its text.
#[verifier::external_body]
fn from_value(value: &Value) -> (r: Json) {
    match value {
        Value::Null => Json::Null,
        Value::Bool(b) => Json::Bool(*b),
        Value::Number(n) => Json::Number(match (n.as_u64(), n.as_i64()) {
            (Some(n), _) => Number::Unsigned(n),
            (None, Some(n)) => Number::Negative(n),
            (None, None) => Number::Other(n.to_string()),
        }),
        Value::String(s) => Json::Text(s.clone()),
        Value::Array(v) => Json::Array(v.iter().map(from_value).collect()),
        Value::Object(m) => Json::Object(m.iter().map(|(k, v)| (k.clone(), from_value(v))).collect()),
    }
}

/// The number for `serde_json` to hold. One that is given by its text is read by
/// `Number::from_str`, which may fail.
#[verifier::external_body]
fn to_number(number: &Number) -> (r: Result<Value, String>) {
    match number {
        Number::Unsigned(n) => Ok(Value::from(*n)),
        Number::Negative(n) => Ok(Value::from(*n)),
        Number::Other(s) => {
            s.parse().map(Value::Number).map_err(|e: serde_json::Error| e.to_string())
        },
    }
}

/// The value for `serde_json` to hold, variant by variant.
#[verifier::external_body]
fn to_value(json: &Json) -> (r: Result<Value, String>) {
    Ok(match json {
        Json::Null => Value::Null,
        Json::Bool(b) => Value::Bool(*b),
        Json::Number(n) => to_number(n)?,
        Json::Text(s) => Value::String(s.clone()),
        Json::Array(v) => Value::Array(v.iter().map(to_value).collect::<Result<_, _>>()?),
        Json::Object(m) => Value::Object(
            m.iter().map(|(k, v)| Ok((k.clone(), to_value(v)?))).collect::<Result<_, String>>()?,
        ),
    })
}

/// `serde_json::from_slice` into a `serde_json::Value`: the value of JSON text, or
/// what is wrong with it.
#[verifier::external_body]
pub(crate) fn parse_json(bytes: &Vec<u8>) -> (r: Result<Json, String>)
    ensures
        r is Ok == json_in(bytes@) is Some,
        r matches Ok(j) ==> Some(j@) == json_in(bytes@),
{
    match serde_json::from_slice::<Value>(bytes.as_slice()) {
        Ok(value) => Ok(from_value(&value)),
        Err(e) => Err(e.to_string()),
    }
}

/// `serde_json::to_vec` of a `serde_json::Value`: the JSON text of a value. It fails
/// only for a number whose text is none. A `serde_json::Map` holds the members of an
/// object in the order of their keys, so text that it writes of a value of which
/// `read_back` holds is read by `serde_json::from_slice` as that value with its
/// members in that order. Nothing is said of a value with a key twice, beyond that
/// its text depends on it alone.
#[verifier::external_body]
pub(crate) fn print_json(json: &Json) -> (r: Result<Vec<u8>, String>)
    ensures
        r is Ok == json_bytes(json@) is Some,
        r matches Ok(bytes) ==> Some(bytes@) == json_bytes(json@),
        sendable(json@) ==> r is Ok && json_in(r->Ok_0@) == Some(in_order(json@)),
{
    serde_json::to_vec(&to_value(json)?).map_err(|e| e.to_string())
}

/// `serde_json::to_string_pretty` of a `serde_json::Value`: the JSON text of a value,
/// with line breaks and indentation. It fails only for a number whose text is none.
/// As JSON text it is read as what `serde_json::to_vec` writes is.
#[verifier::external_body]
pub(crate) fn print_pretty(json: &Json) -> (r: Result<String, String>)
    ensures
        r is Ok == pretty_text(json@) is Some,
        r matches Ok(s) ==> Some(s@) == pretty_text(json@),
        sendable(json@) ==> r is Ok && json_in(vstd::utf8::encode_utf8(r->Ok_0@)) == Some(
            in_order(json@),
        ),
{
    serde_json::to_string_pretty(&to_value(json)?).map_err(|e| e.to_string())
}

} // verus!
