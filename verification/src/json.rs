//! The boundary to the JSON parser.
//!
//! Parsing is done by `serde_json`; its `Value` tree is opaque here, so a
//! spec-level model [`Json`] mirrors what a value holds, and a small set of
//! trusted wrappers relate each `serde_json` call to that model. Numbers are
//! modelled by their source numeral (the build keeps a number's original
//! text), which the verified numeral parser then evaluates.

use vstd::prelude::*;

verus! {

/// Spec-level model of a JSON value.
pub enum Json {
    Null,
    Bool(bool),
    Num(Seq<char>),
    Text(Seq<char>),
    Arr(Seq<Json>),
    Obj(Map<Seq<char>, Json>),
}

#[verifier::external_type_specification]
#[verifier::external_body]
pub struct ExValue(serde_json::Value);

/// What a `serde_json::Value` holds, as a [`Json`] model.
pub uninterp spec fn json_model(v: serde_json::Value) -> Json;

/// What parsing a document yields: `None` where the text is not JSON, and
/// otherwise the model of the parsed value.
pub uninterp spec fn json_doc(s: Seq<char>) -> Option<Json>;

/// Relies on `serde_json::from_str::<serde_json::Value>`: parses the text as
/// one JSON document; the result is a function of the text alone.
#[verifier::external_body]
pub(crate) fn parse_json(text: &str) -> (r: Option<serde_json::Value>)
    ensures
        r is Some <==> json_doc(text@) is Some,
        r matches Some(v) ==> json_model(v) == json_doc(text@)->0,
{
    serde_json::from_str::<serde_json::Value>(text).ok()
}

/// Relies on `serde_json::Map` (clone and iteration): an object's entries,
/// each key exactly once, in some order.
#[verifier::external_body]
pub(crate) fn obj_entries(v: &serde_json::Value) -> (r: Option<
    Vec<(String, serde_json::Value)>,
>)
    ensures
        r is Some <==> json_model(*v) is Obj,
        r matches Some(es) ==> entries_match(es@, json_model(*v)->Obj_0),
{
    match v {
        serde_json::Value::Object(m) => Some(m.clone().into_iter().collect()),
        _ => None,
    }
}

/// Do the listed entries carry exactly the object map `m`?
pub open spec fn entries_match(
    es: Seq<(String, serde_json::Value)>,
    m: Map<Seq<char>, Json>,
) -> bool {
    &&& forall|i: int, j: int|
        0 <= i < j < es.len() ==> (#[trigger] es[i].0@) != (#[trigger] es[j].0@)
    &&& forall|i: int| 0 <= i < es.len() ==> m.dom().contains(#[trigger] es[i].0@)
    &&& forall|i: int| 0 <= i < es.len() ==> m[(#[trigger] es[i].0@)] == json_model(es[i].1)
    &&& forall|k: Seq<char>|
        m.dom().contains(k) ==> exists|i: int| 0 <= i < es.len() && (#[trigger] es[i].0@) == k
}

/// Relies on `serde_json::Number::to_string`: the numeral exactly as it stands
/// in the document (the build keeps a number's original text).
#[verifier::external_body]
pub(crate) fn val_number_text(v: &serde_json::Value) -> (r: Option<String>)
    ensures
        r is Some <==> json_model(*v) is Num,
        r matches Some(s) ==> json_model(*v) == Json::Num(s@),
{
    match v {
        serde_json::Value::Number(n) => Some(n.to_string()),
        _ => None,
    }
}

/// Relies on `serde_json::Value::String` carrying the decoded string, and on
/// `String::clone`.
#[verifier::external_body]
pub(crate) fn val_text(v: &serde_json::Value) -> (r: Option<String>)
    ensures
        r is Some <==> json_model(*v) is Text,
        r matches Some(s) ==> json_model(*v) == Json::Text(s@),
{
    match v {
        serde_json::Value::String(s) => Some(s.clone()),
        _ => None,
    }
}

/// Relies on `serde_json::Value::Bool` carrying the decoded boolean.
#[verifier::external_body]
pub(crate) fn val_bool(v: &serde_json::Value) -> (r: Option<bool>)
    ensures
        r is Some <==> json_model(*v) is Bool,
        r matches Some(b) ==> json_model(*v) == Json::Bool(b),
{
    match v {
        serde_json::Value::Bool(b) => Some(*b),
        _ => None,
    }
}

/// Relies on `serde_json::Value::Array` carrying the elements in order, and on
/// `Vec::clone` preserving them.
#[verifier::external_body]
pub(crate) fn val_items(v: &serde_json::Value) -> (r: Option<Vec<serde_json::Value>>)
    ensures
        r is Some <==> json_model(*v) is Arr,
        r matches Some(es) ==> ({
            let s = json_model(*v)->Arr_0;
            &&& s.len() == es@.len()
            &&& forall|i: int| 0 <= i < es@.len() ==> s[i] == json_model(#[trigger] es@[i])
        }),
{
    match v {
        serde_json::Value::Array(a) => Some(a.clone()),
        _ => None,
    }
}

} // verus!
