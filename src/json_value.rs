use vstd::prelude::*;

use serde_json::{Map as JsonMap, Value};

use crate::codec::{list_text, segments_json};
use crate::domain::SegmentView;

verus! {

/// What a parsed JSON value holds, as far as the segment list reads it:
/// strings, arrays, objects (keyed by their member names), and every other
/// kind of value (number, boolean, null) alike.
pub enum Json {
    Str(Seq<char>),
    Arr(Seq<Json>),
    Obj(Map<Seq<char>, Json>),
    Other,
}

/// A parsed JSON value of `serde_json`.
#[verifier::external_type_specification]
#[verifier::external_body]
pub struct ExJsonValue(Value);

/// The members of a JSON object of `serde_json`.
#[verifier::external_type_specification]
#[verifier::external_body]
#[verifier::reject_recursive_types(K)]
#[verifier::reject_recursive_types(V)]
pub struct ExJsonMap<K, V>(JsonMap<K, V>);

/// What a `serde_json::Value` holds.
pub uninterp spec fn json_of(v: Value) -> Json;

/// The members of a `serde_json` object, by name.
pub uninterp spec fn members_of(m: JsonMap<String, Value>) -> Map<Seq<char>, Json>;

/// What `serde_json` parses a text into, if it is valid JSON.
pub uninterp spec fn parsed_json(s: Seq<char>) -> Option<Json>;

/// Relies on `serde_json::from_str::<Value>`: parses a JSON text. The result
/// depends on the text alone; the compact text that `list_text` describes is
/// valid JSON, and parses into the arrays, objects and strings it is written
/// with.
#[verifier::external_body]
pub(crate) fn parse_json(s: &str) -> (r: Result<Value, serde_json::Error>)
    ensures
        r is Ok <==> parsed_json(s@) is Some,
        r is Ok ==> json_of(r->Ok_0) == parsed_json(s@)->0,
        forall|v: Seq<SegmentView>| #[trigger]
            list_text(v) == s@ ==> (r is Ok && json_of(r->Ok_0) == segments_json(v)),
{
    serde_json::from_str::<Value>(s)
}

/// Relies on `serde_json::Value::as_array`: the elements of an array value.
#[verifier::external_body]
pub(crate) fn json_array(v: &Value) -> (r: Option<&Vec<Value>>)
    ensures
        r is Some <==> json_of(*v) is Arr,
        r is Some ==> (r->0)@.map_values(|x: Value| json_of(x)) == json_of(*v)->Arr_0,
{
    v.as_array()
}

/// Relies on `serde_json::Value::as_object`: the members of an object value.
#[verifier::external_body]
pub(crate) fn json_object(v: &Value) -> (r: Option<&JsonMap<String, Value>>)
    ensures
        r is Some <==> json_of(*v) is Obj,
        r is Some ==> members_of(*r->0) == json_of(*v)->Obj_0,
{
    v.as_object()
}

/// Relies on `serde_json::Value::as_str`: the text of a string value.
#[verifier::external_body]
pub(crate) fn json_str(v: &Value) -> (r: Option<&str>)
    ensures
        r is Some <==> json_of(*v) is Str,
        r is Some ==> (r->0)@ == json_of(*v)->Str_0,
{
    v.as_str()
}

/// Relies on `serde_json::Map::get`: the member of an object with the given name.
#[verifier::external_body]
pub(crate) fn json_member<'a>(m: &'a JsonMap<String, Value>, key: &str) -> (r: Option<&'a Value>)
    ensures
        r is Some <==> members_of(*m).contains_key(key@),
        r is Some ==> json_of(*r->0) == members_of(*m)[key@],
{
    m.get(key)
}

} // verus!
