//! The boundary to serde_json.
//!
//! Schema files are parsed by serde_json; the parse tree is opaque here, so
//! each read the library needs is a small trusted wrapper around one
//! serde_json operation. Every wrapped operation is deterministic in its
//! arguments alone, so each result carries a name: the translation above
//! this boundary is then a provable function of the file text. What a name
//! denotes on a given value is never stated; the real calls settle that at
//! run time.

use vstd::prelude::*;

verus! {

#[verifier::external_type_specification]
#[verifier::external_body]
pub struct ExValue(serde_json::Value);

#[verifier::external_type_specification]
#[verifier::external_body]
pub struct ExError(serde_json::Error);

/// What serde_json::from_str returns for a given text: the parse tree when
/// the text is valid JSON, nothing otherwise.
pub uninterp spec fn json_parse_of(s: Seq<char>) -> Option<serde_json::Value>;

/// Relies on serde_json::from_str: parses JSON text into a tree, or reports
/// why the text is not valid JSON; the verdict and the tree depend on the
/// text alone.
#[verifier::external_body]
pub fn parse_json(s: &str) -> (r: Result<serde_json::Value, serde_json::Error>)
    ensures
        r is Ok <==> json_parse_of(s@) is Some,
        r is Ok ==> json_parse_of(s@) == Some(r.unwrap()),
{
    serde_json::from_str(s)
}

/// What serde_json::Value::get returns: the value under the key when the
/// receiver is an object holding it.
pub uninterp spec fn json_get_of(v: serde_json::Value, key: Seq<char>) -> Option<
    serde_json::Value,
>;

/// Relies on serde_json::Value::get with a string key: a function of the
/// receiver and the key alone.
#[verifier::external_body]
pub fn json_get<'a>(v: &'a serde_json::Value, key: &str) -> (r: Option<&'a serde_json::Value>)
    ensures
        match r {
            Some(x) => json_get_of(*v, key@) == Some(*x),
            None => json_get_of(*v, key@) is None,
        },
{
    v.get(key)
}

/// What a JSON string value holds, when the value is one.
pub uninterp spec fn json_string_of(v: serde_json::Value) -> Option<Seq<char>>;

/// Relies on serde_json::Value's String variant: the text of a JSON string
/// value, a function of the value alone.
#[verifier::external_body]
pub fn json_as_string(v: &serde_json::Value) -> (r: Option<String>)
    ensures
        match r {
            Some(s) => json_string_of(*v) == Some(s@),
            None => json_string_of(*v) is None,
        },
{
    match v {
        serde_json::Value::String(s) => Some(s.clone()),
        _ => None,
    }
}

/// What serde_json::Value::as_u64 returns for a given value.
pub uninterp spec fn json_u64_of(v: serde_json::Value) -> Option<u64>;

/// Relies on serde_json::Value::as_u64: the value of a JSON number that is a
/// non-negative integer fitting in a `u64`, a function of the value alone.
#[verifier::external_body]
pub fn json_as_u64(v: &serde_json::Value) -> (r: Option<u64>)
    ensures
        r == json_u64_of(*v),
{
    v.as_u64()
}

/// The entries of a JSON object, in the order the underlying map iterates —
/// a deterministic order, the map being keyed and ordered by its keys.
pub uninterp spec fn json_entries_of(v: serde_json::Value) -> Option<
    Seq<(Seq<char>, serde_json::Value)>,
>;

/// Relies on serde_json::Value's Object variant and its map's iteration:
/// one pair per key, in the map's own deterministic order.
#[verifier::external_body]
pub fn json_object_entries(v: &serde_json::Value) -> (r: Option<Vec<(String, serde_json::Value)>>)
    ensures
        r is Some <==> json_entries_of(*v) is Some,
        r is Some ==> {
            let es = json_entries_of(*v).unwrap();
            &&& r.unwrap()@.len() == es.len()
            &&& forall|i: int|
                0 <= i < es.len() ==> (#[trigger] r.unwrap()@[i]).0@ == es[i].0 && r.unwrap()@[i].1
                    == es[i].1
        },
{
    match v {
        serde_json::Value::Object(m) => Some(m.iter().map(|(k, x)| (k.clone(), x.clone())).collect()),
        _ => None,
    }
}

/// The items of a JSON array, in order.
pub uninterp spec fn json_items_of(v: serde_json::Value) -> Option<Seq<serde_json::Value>>;

/// Relies on serde_json::Value's Array variant: the items in their stored
/// order, a function of the value alone.
#[verifier::external_body]
pub fn json_array_items(v: &serde_json::Value) -> (r: Option<Vec<serde_json::Value>>)
    ensures
        r is Some <==> json_items_of(*v) is Some,
        r is Some ==> {
            let items = json_items_of(*v).unwrap();
            &&& r.unwrap()@.len() == items.len()
            &&& forall|i: int| 0 <= i < items.len() ==> #[trigger] r.unwrap()@[i] == items[i]
        },
{
    match v {
        serde_json::Value::Array(a) => Some(a.clone()),
        _ => None,
    }
}

/// The decimal text of a JSON number, when the value is one.
pub uninterp spec fn json_number_text_of(v: serde_json::Value) -> Option<Seq<char>>;

/// Relies on serde_json::Number's Display impl: the decimal text of a JSON
/// number, a function of the value alone.
#[verifier::external_body]
pub fn json_number_text(v: &serde_json::Value) -> (r: Option<String>)
    ensures
        match r {
            Some(s) => json_number_text_of(*v) == Some(s@),
            None => json_number_text_of(*v) is None,
        },
{
    match v {
        serde_json::Value::Number(n) => Some(format!("{}", n)),
        _ => None,
    }
}

/// Relies on serde_json::Error's Display impl: the human-readable account of
/// a parse failure. Nothing is assumed of the text.
#[verifier::external_body]
pub fn json_error_text(e: &serde_json::Error) -> String {
    format!("{}", e)
}

} // verus!
