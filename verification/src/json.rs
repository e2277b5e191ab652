//! Trusted bindings to `serde_json` values, with an abstract model.
//!
//! Request and response payloads cross the bridge as JSON documents. Each
//! `serde_json::Value` is given an abstract content, [`json_view`]: a ghost
//! JSON tree of plain values. Every trusted accessor and constructor states
//! exactly how its result relates to that view, so contracts elsewhere in the
//! library can say what a payload holds and how a result derives from it.

use vstd::prelude::*;

verus! {

#[verifier::external_type_specification]
#[verifier::external_body]
pub struct ExJsonValue(serde_json::Value);

/// The abstract content of a JSON value: a tree of plain values. A number is
/// modelled by its signed and unsigned readings (both absent for a number
/// representable only as a float).
pub enum JsonData {
    Null,
    Bool(bool),
    Number { as_int: Option<i64>, as_uint: Option<u64> },
    Text(Seq<char>),
    Array(Seq<JsonData>),
    Object(Map<Seq<char>, JsonData>),
}

/// The abstract content of a `serde_json::Value`. Equal values have equal
/// views; every trusted item below is specified against it.
pub uninterp spec fn json_view(v: serde_json::Value) -> JsonData;

/// The field a JSON object's view holds under `key`, if the view is an object
/// with that field.
pub open spec fn json_field(d: JsonData, key: Seq<char>) -> Option<JsonData> {
    match d {
        JsonData::Object(map) => {
            if map.dom().contains(key) {
                Some(map[key])
            } else {
                None
            }
        },
        _ => None,
    }
}

/// Relies on `serde_json::Value::clone`: the derived clone is structurally
/// equal to the original.
pub assume_specification[ <serde_json::Value as Clone>::clone ](
    v: &serde_json::Value,
) -> (r: serde_json::Value)
    ensures
        r == *v,
;

/// Relies on `serde_json::Value::get` with a string index: returns the
/// object's field under that key, and nothing when the value is not an object
/// or has no such field.
#[verifier::external_body]
pub fn json_get<'a>(v: &'a serde_json::Value, key: &str) -> (r: Option<&'a serde_json::Value>)
    ensures
        r is Some <==> json_field(json_view(*v), key@) is Some,
        r is Some ==> json_view(*r->0) == json_field(json_view(*v), key@)->0,
{
    v.get(key)
}

/// Relies on `serde_json::Value::as_str`: the text of a string value, and
/// nothing for any other value.
pub assume_specification[ serde_json::Value::as_str ](v: &serde_json::Value) -> (r: Option<&str>)
    ensures
        r is Some <==> json_view(*v) is Text,
        r is Some ==> json_view(*v) == JsonData::Text(r->0@),
;

/// Relies on `serde_json::Value::as_u64`: the unsigned reading of a number
/// value, and nothing for any other value or an unrepresentable number.
pub assume_specification[ serde_json::Value::as_u64 ](v: &serde_json::Value) -> (r: Option<u64>)
    ensures
        r == (match json_view(*v) {
            JsonData::Number { as_uint, .. } => as_uint,
            _ => None,
        }),
;

/// Relies on `serde_json::Value::as_i64`: the signed reading of a number
/// value, and nothing for any other value or an unrepresentable number.
pub assume_specification[ serde_json::Value::as_i64 ](v: &serde_json::Value) -> (r: Option<i64>)
    ensures
        r == (match json_view(*v) {
            JsonData::Number { as_int, .. } => as_int,
            _ => None,
        }),
;

/// Relies on `serde_json::Value::as_bool`: the truth of a boolean value, and
/// nothing for any other value.
pub assume_specification[ serde_json::Value::as_bool ](v: &serde_json::Value) -> (r: Option<bool>)
    ensures
        r is Some <==> json_view(*v) is Bool,
        r is Some ==> json_view(*v) == JsonData::Bool(r->0),
;

/// Relies on `serde_json::Value::as_array`: the elements of an array value,
/// each carrying the corresponding element of the view, and nothing for any
/// other value.
pub assume_specification[ serde_json::Value::as_array ](v: &serde_json::Value) -> (r: Option<
    &Vec<serde_json::Value>,
>)
    ensures
        r is Some <==> json_view(*v) is Array,
        r is Some ==> {
            let elems = json_view(*v)->Array_0;
            &&& r->0@.len() == elems.len()
            &&& forall|i: int| 0 <= i < elems.len() ==> json_view(#[trigger] r->0@[i]) == elems[i]
        },
;

/// Relies on `serde_json::Map::new` and `serde_json::Value::Object`: builds a
/// value whose view is the empty object.
#[verifier::external_body]
pub fn json_object_new() -> (r: serde_json::Value)
    ensures
        json_view(r) == JsonData::Object(Map::<Seq<char>, JsonData>::empty()),
{
    serde_json::Value::Object(serde_json::Map::new())
}

/// Relies on `serde_json::Value::String` and `str::to_string`: wraps text as
/// a value whose view is that text.
#[verifier::external_body]
pub fn json_string(s: &str) -> (r: serde_json::Value)
    ensures
        json_view(r) == JsonData::Text(s@),
{
    serde_json::Value::String(s.to_string())
}

/// Relies on `serde_json::Value::from` for `u64`: wraps an integer as a
/// number value; its signed reading is present exactly when the integer fits.
#[verifier::external_body]
pub fn json_u64(n: u64) -> (r: serde_json::Value)
    ensures
        json_view(r) == (JsonData::Number {
            as_int: if n <= i64::MAX as u64 {
                Some(n as i64)
            } else {
                None
            },
            as_uint: Some(n),
        }),
{
    serde_json::Value::from(n)
}

/// Relies on `serde_json::Value::Array`: wraps a list of values as an array
/// value whose view holds the elements' views in order.
#[verifier::external_body]
pub fn json_array(items: Vec<serde_json::Value>) -> (r: serde_json::Value)
    ensures
        json_view(r) is Array,
        json_view(r)->Array_0.len() == items@.len(),
        forall|i: int|
            0 <= i < items@.len() ==> json_view(r)->Array_0[i] == json_view(
                #[trigger] items@[i],
            ),
{
    serde_json::Value::Array(items)
}

/// Relies on `serde_json::Value::as_object_mut` and `serde_json::Map::insert`:
/// sets a field on a JSON object (replacing any previous one); anything that
/// is not an object is left unchanged.
#[verifier::external_body]
pub fn json_insert(target: &mut serde_json::Value, key: &str, value: serde_json::Value)
    ensures
        json_view(*old(target)) is Object ==> json_view(*final(target)) == JsonData::Object(
            json_view(*old(target))->Object_0.insert(key@, json_view(value)),
        ),
        !(json_view(*old(target)) is Object) ==> json_view(*final(target)) == json_view(
            *old(target),
        ),
{
    if let Some(map) = target.as_object_mut() {
        map.insert(key.to_string(), value);
    }
}

/// The text a value's `as_str` reading yields, if any.
pub open spec fn spec_text_of(d: JsonData) -> Option<Seq<char>> {
    match d {
        JsonData::Text(text) => Some(text),
        _ => None,
    }
}

/// The unsigned reading of a value, if any.
pub open spec fn spec_uint_of(d: JsonData) -> Option<u64> {
    match d {
        JsonData::Number { as_uint, .. } => as_uint,
        _ => None,
    }
}

/// The signed reading of a value, if any.
pub open spec fn spec_int_of(d: JsonData) -> Option<i64> {
    match d {
        JsonData::Number { as_int, .. } => as_int,
        _ => None,
    }
}

/// The truth of a value, if it is a boolean.
pub open spec fn spec_bool_of(d: JsonData) -> Option<bool> {
    match d {
        JsonData::Bool(b) => Some(b),
        _ => None,
    }
}

/// The text held by a field of an object view, if any.
pub open spec fn spec_field_text(d: JsonData, key: Seq<char>) -> Option<Seq<char>> {
    match json_field(d, key) {
        Some(field) => spec_text_of(field),
        None => None,
    }
}

/// The unsigned number held by a field of an object view, if any.
pub open spec fn spec_field_uint(d: JsonData, key: Seq<char>) -> Option<u64> {
    match json_field(d, key) {
        Some(field) => spec_uint_of(field),
        None => None,
    }
}

/// The text of a JSON string value, as an owned string.
pub fn json_as_str(v: &serde_json::Value) -> (r: Option<String>)
    ensures
        r is Some <==> spec_text_of(json_view(*v)) is Some,
        r is Some ==> r->0@ == spec_text_of(json_view(*v))->0,
{
    match v.as_str() {
        Some(s) => Some(s.to_owned()),
        None => None,
    }
}

/// The unsigned reading of a JSON number value.
pub fn json_as_u64(v: &serde_json::Value) -> (r: Option<u64>)
    ensures
        r == spec_uint_of(json_view(*v)),
{
    v.as_u64()
}

/// The signed reading of a JSON number value.
pub fn json_as_i64(v: &serde_json::Value) -> (r: Option<i64>)
    ensures
        r == spec_int_of(json_view(*v)),
{
    v.as_i64()
}

/// The truth of a JSON boolean value.
pub fn json_as_bool(v: &serde_json::Value) -> (r: Option<bool>)
    ensures
        r == spec_bool_of(json_view(*v)),
{
    v.as_bool()
}

/// The elements of a JSON array value.
pub fn json_as_array<'a>(v: &'a serde_json::Value) -> (r: Option<&'a Vec<serde_json::Value>>)
    ensures
        r is Some <==> json_view(*v) is Array,
        r is Some ==> {
            let elems = json_view(*v)->Array_0;
            &&& r->0@.len() == elems.len()
            &&& forall|i: int| 0 <= i < elems.len() ==> json_view(#[trigger] r->0@[i]) == elems[i]
        },
{
    v.as_array()
}

} // verus!
