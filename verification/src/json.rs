//! Trusted boundary to serde_json: the structured body a caller submits is
//! carried through opaquely and re-serialized to its canonical text form.

use vstd::prelude::*;

verus! {

/// serde_json's JSON value type, declared so library types can hold one.
#[verifier::external_type_specification]
#[verifier::external_body]
pub struct ExValue(serde_json::Value);

/// The canonical JSON text of a value: the characters
/// `serde_json::to_string` returns for it. It is a function of the value
/// alone; the default object representation keeps keys ordered, so the text
/// is stable for equal values.
pub uninterp spec fn json_text(v: serde_json::Value) -> Seq<char>;

/// The value JSON text parses to, if it parses: what `serde_json::from_str`
/// returns. It is a function of the text alone.
pub uninterp spec fn json_parsed(s: Seq<char>) -> Option<serde_json::Value>;

/// Relies on `serde_json::to_string`: on a `Value` it always succeeds (its
/// objects have string keys and its numbers are finite), and its text depends
/// on the value alone.
#[verifier::external_body]
pub fn json_to_string(v: &serde_json::Value) -> (r: String)
    ensures
        r@ == json_text(*v),
{
    serde_json::to_string(v).unwrap_or_default()
}

/// Relies on `serde_json::from_str`: whether text parses as JSON, and the
/// value it parses to, depend on the text alone.
#[verifier::external_body]
pub fn json_from_str(s: &str) -> (r: Option<serde_json::Value>)
    ensures
        r == json_parsed(s@),
{
    serde_json::from_str(s).ok()
}

} // verus!
