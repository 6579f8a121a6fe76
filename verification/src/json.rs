//! The canonical textual encoding of compound values, as `serde_json` writes
//! it. What the functions of this module promise is taken on trust from that
//! crate.

use crate::value::{Number, Untyped};
use vstd::prelude::*;

verus! {

#[verifier::external_type_specification]
#[verifier::external_body]
pub struct ExJsonError(serde_json::Error);

#[verifier::external_type_specification]
#[verifier::external_body]
pub struct ExJsonValue(serde_json::Value);

/// The text that `serde_json::to_string` writes for the value.
pub uninterp spec fn json_text(v: Untyped) -> Seq<char>;

/// Whether `str::parse` for `serde_json::Number` takes the text for a number.
pub uninterp spec fn is_number_text(t: Seq<char>) -> bool;

/// Whether the value can be written as JSON text: every floating number in
/// it, at any depth, has a text that is a number.
pub open spec fn encodable(v: Untyped) -> bool
    decreases v,
{
    match v {
        Untyped::Number(Number::Float(t)) => is_number_text(t@),
        Untyped::Array(items) => forall|i: int|
            0 <= i < items@.len() ==> encodable(#[trigger] items@[i]),
        Untyped::Object(o) => forall|i: int|
            0 <= i < o.entries@.len() ==> encodable((#[trigger] o.entries@[i]).1),
        _ => true,
    }
}

/// Rebuilds a number as a `serde_json::Value`.
///
/// The text of a floating number goes through `str::parse` for
/// `serde_json::Number`, and a text that is no number comes back as that
/// call's error. The contract claims that nothing else fails here: an
/// integer goes through `serde_json::Value::from`, which has no error.
#[verifier::external_body]
fn number_to_json(n: &Number) -> (r: Result<serde_json::Value, serde_json::Error>)
    ensures
        r is Ok <==> (n matches Number::Float(t) ==> is_number_text(t@)),
{
    Ok(match n {
        Number::PosInt(u) => serde_json::Value::from(*u),
        Number::NegInt(i) => serde_json::Value::from(*i),
        Number::Float(t) => serde_json::Value::Number(t.parse()?),
    })
}

/// Rebuilds the value as a `serde_json::Value`, variant by variant; the
/// entries of a mapping go into a `serde_json::Map` in their order.
///
/// The contract claims that this fails only where `number_to_json` fails on
/// a number in the value: every other variant is moved or copied.
#[verifier::external_body]
fn to_json(v: &Untyped) -> (r: Result<serde_json::Value, serde_json::Error>)
    ensures
        r is Ok <==> encodable(*v),
{
    Ok(match v {
        Untyped::Null => serde_json::Value::Null,
        Untyped::Bool(b) => serde_json::Value::Bool(*b),
        Untyped::Number(n) => number_to_json(n)?,
        Untyped::String(s) => serde_json::Value::String(s.clone()),
        Untyped::Array(a) => a.iter().map(to_json).collect::<Result<_, _>>()?,
        Untyped::Object(o) => {
            let entry = |e: &(String, Untyped)| to_json(&e.1).map(|j| (e.0.clone(), j));
            o.entries.iter().map(entry).collect::<Result<_, _>>()?
        },
    })
}

/// Writes the value as JSON text with `serde_json::to_string`.
///
/// The contract claims two things. The text is a function of the value: two
/// calls on equal values give the same text. And the call fails only where
/// the value could not be rebuilt, which is where the text of a floating
/// number in it is no number: `serde_json::to_string` writes into a vector
/// and the keys of a `serde_json::Value` are strings, so the writing itself
/// has no error to give.
#[verifier::external_body]
pub(crate) fn encode_json(v: &Untyped) -> (r: Result<String, serde_json::Error>)
    ensures
        r is Ok <==> encodable(*v),
        r matches Ok(s) ==> s@ == json_text(*v),
{
    serde_json::to_string(&to_json(v)?)
}

} // verus!
