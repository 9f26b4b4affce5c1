//! Reading JSON.

use serde_json::Value;
use vstd::prelude::*;

verus! {

/// What a JSON value holds.
pub enum Json {
    Null,
    Bool(bool),
    Number,
    Text(Seq<char>),
    List(Seq<Json>),
    Object(Map<Seq<char>, Json>),
}

/// `serde_json::Value`, a parsed JSON value.
#[verifier::external_type_specification]
#[verifier::external_body]
pub struct ExValue(Value);

/// What a parsed value holds.
pub uninterp spec fn json_of(value: Value) -> Json;

/// The JSON value that a text writes out, if it does.
pub uninterp spec fn parsed_json(text: Seq<char>) -> Option<Json>;

/// What optional parsed values hold.
pub open spec fn opt_json(value: Option<&Value>) -> Option<Json> {
    match value {
        Some(value) => Some(json_of(*value)),
        None => None,
    }
}

/// The value of an object's field.
pub open spec fn field_of(value: Json, name: Seq<char>) -> Option<Json> {
    match value {
        Json::Object(fields) => if fields.dom().contains(name) {
            Some(fields[name])
        } else {
            None
        },
        _ => None,
    }
}

/// `serde_json::from_str` to a `Value`, if the text is JSON. The value is a name.
#[verifier::external_body]
pub(crate) fn parse_json(text: &str) -> (r: Option<Value>)
    ensures
        r is Some <==> parsed_json(text@) is Some,
        r is Some ==> Some(json_of(r->Some_0)) == parsed_json(text@),
{
    serde_json::from_str::<Value>(text).ok()
}

/// `Value::get` by a field's name: the field of an object; none of any other value.
#[verifier::external_body]
pub(crate) fn json_field<'a>(value: &'a Value, name: &str) -> (r: Option<&'a Value>)
    ensures
        opt_json(r) == field_of(json_of(*value), name@),
{
    value.get(name)
}

/// `Value::as_array`: the items of a list; none of any other value.
#[verifier::external_body]
pub(crate) fn json_items(value: &Value) -> (r: Option<&Vec<Value>>)
    ensures
        r is Some <==> json_of(*value) is List,
        r is Some ==> r->Some_0@.map_values(|item: Value| json_of(item)) == json_of(*value)->List_0,
{
    value.as_array()
}

/// `Value::as_str`: the characters of a text; none of any other value.
#[verifier::external_body]
pub(crate) fn json_text(value: &Value) -> (r: Option<&str>)
    ensures
        r is Some <==> json_of(*value) is Text,
        r is Some ==> r->Some_0@ == json_of(*value)->Text_0,
{
    value.as_str()
}

/// The characters of an object's field, if that is a text.
pub open spec fn text_field_of(value: Json, name: Seq<char>) -> Option<Seq<char>> {
    match field_of(value, name) {
        Some(Json::Text(text)) => Some(text),
        _ => None,
    }
}

/// The items of an object's field, if that is a list; else none.
pub open spec fn list_field_of(value: Json, name: Seq<char>) -> Option<Seq<Json>> {
    match field_of(value, name) {
        Some(Json::List(items)) => Some(items),
        _ => None,
    }
}

/// The characters of an object's field, if that is a text.
pub fn string_field<'a>(object: &'a Value, field: &str) -> (r: Option<&'a str>)
    ensures
        r is Some <==> text_field_of(json_of(*object), field@) is Some,
        r matches Some(text) ==> Some(text@) == text_field_of(json_of(*object), field@),
{
    match json_field(object, field) {
        Some(value) => json_text(value),
        None => None,
    }
}

/// The items of an object's field, if that is a list.
pub fn list_field<'a>(object: &'a Value, field: &str) -> (r: Option<&'a Vec<Value>>)
    ensures
        r is Some <==> list_field_of(json_of(*object), field@) is Some,
        r matches Some(items) ==> Some(items@.map_values(|item: Value| json_of(item)))
            == list_field_of(json_of(*object), field@),
{
    match json_field(object, field) {
        Some(value) => json_items(value),
        None => None,
    }
}

/// A field is a text, or a list, exactly if the value is an object that has it as one.
pub proof fn fields_are_those_of_the_object(value: Json, name: Seq<char>)
    ensures
        text_field_of(value, name) matches Some(text) ==> (value matches Json::Object(fields)
            && fields.dom().contains(name) && fields[name] == Json::Text(text)),
        value matches Json::Object(fields) ==> fields.dom().contains(name) ==> (fields[name] matches Json::Text(
            text,
        ) ==> text_field_of(value, name) == Some(text)),
        list_field_of(value, name) matches Some(items) ==> (value matches Json::Object(fields)
            && fields.dom().contains(name) && fields[name] == Json::List(items)),
        value matches Json::Object(fields) ==> fields.dom().contains(name) ==> (fields[name] matches Json::List(
            items,
        ) ==> list_field_of(value, name) == Some(items)),
{
}

} // verus!
