//! The JSON payload type that tasks carry. The dispatch core never looks
//! inside a payload: it only moves payloads from a task to the evaluator and
//! from the evaluator to a result.
use vstd::prelude::*;

verus! {

/// `serde_json::Value`, declared so that it can stand in fields and
/// signatures. Nothing is known of what a value holds.
#[verifier::external_type_specification]
#[verifier::external_body]
pub struct ExJsonValue(serde_json::Value);

/// Whether a payload is the JSON `null` value, as `serde_json::Value::is_null`
/// reports it.
pub uninterp spec fn is_json_null(v: serde_json::Value) -> bool;

/// Builds `serde_json::Value::Null`. Trusted: the result is the `null`
/// payload, the one for which `Value::is_null` answers `true`.
#[verifier::external_body]
pub(crate) fn json_null() -> (v: serde_json::Value)
    ensures
        is_json_null(v),
{
    serde_json::Value::Null
}

} // verus!
