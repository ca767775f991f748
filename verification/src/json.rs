//! JSON values, as `serde_json` builds, reads and writes them.

use vstd::prelude::*;

verus! {

/// What a JSON value is, apart from how the program stores it.
///
/// An object is a map: the order in which its members were set does not count.
pub enum Json {
    Null,
    Bool(bool),
    /// A number held as an integer.
    Integer(int),
    /// A number held as floating point.
    Float(serde_json::Number),
    Text(Seq<char>),
    Array(Seq<Json>),
    Object(Map<Seq<char>, Json>),
}

impl Json {
    /// The member of an object; nothing where it has no such member or is no object.
    pub open spec fn member(self, key: Seq<char>) -> Option<Json> {
        match self {
            Json::Object(members) => if members.dom().contains(key) {
                Some(members[key])
            } else {
                None
            },
            _ => None,
        }
    }

    /// The characters of a string; nothing where the value is none.
    pub open spec fn text(self) -> Option<Seq<char>> {
        match self {
            Json::Text(text) => Some(text),
            _ => None,
        }
    }
}

/// The type `serde_json::Value`: a JSON value. Nothing is known of one but what the functions
/// below say.
#[verifier::external_type_specification]
#[verifier::external_body]
pub struct ExValue(serde_json::Value);

/// The type `serde_json::Number`: a JSON number.
#[verifier::external_type_specification]
#[verifier::external_body]
pub struct ExNumber(serde_json::Number);

/// What a `serde_json::Value` holds.
pub uninterp spec fn json(value: serde_json::Value) -> Json;

/// What each value of a list holds.
pub open spec fn json_list(values: Seq<serde_json::Value>) -> Seq<Json> {
    values.map_values(|value: serde_json::Value| json(value))
}

/// The text that `serde_json` writes for a value. It does not depend on the order in which the
/// members of an object were set, as long as the feature `preserve_order` is off.
pub uninterp spec fn json_text(value: Json) -> Seq<char>;

/// Calls `ToString::to_string` on a `serde_json::Value`. What it writes depends on what the
/// value holds alone: without the feature `preserve_order` of `serde_json`, which is off here, the
/// members of an object are kept, and written, in the order of their keys.
#[verifier::external_body]
pub(crate) fn value_text(value: &serde_json::Value) -> (text: String)
    ensures
        text@ == json_text(json(*value)),
{
    value.to_string()
}

/// Calls `Value::from` on a text: the value is a string of the same characters.
#[verifier::external_body]
pub(crate) fn text_value(text: &str) -> (value: serde_json::Value)
    ensures
        json(value) == Json::Text(text@),
{
    serde_json::Value::from(text)
}

/// Calls `Value::from` on a `u32`: the value is that number.
#[verifier::external_body]
pub(crate) fn count_value(count: u32) -> (value: serde_json::Value)
    ensures
        json(value) == Json::Integer(count as int),
{
    serde_json::Value::from(count)
}

/// Calls `Value::from` on a list: the value is an array of its elements.
#[verifier::external_body]
pub(crate) fn array_value(elements: Vec<serde_json::Value>) -> (value: serde_json::Value)
    ensures
        json(value) == Json::Array(json_list(elements@)),
{
    serde_json::Value::from(elements)
}

/// Calls `Map::new` and makes a value of the map: an object without members.
#[verifier::external_body]
pub(crate) fn empty_object() -> (value: serde_json::Value)
    ensures
        json(value) == Json::Object(Map::empty()),
{
    serde_json::Value::Object(serde_json::Map::new())
}

/// Calls `IndexMut::index_mut` on an object and assigns to the place: the member of that key
/// is now the given value, whether there was one before or not, and no other member changes.
/// On a value that is neither an object nor null the call panics.
#[verifier::external_body]
pub(crate) fn set_member(object: &mut serde_json::Value, key: &str, member: serde_json::Value)
    requires
        json(*old(object)) is Object,
    ensures
        json(*final(object)) == Json::Object(
            json(*old(object))->Object_0.insert(key@, json(member)),
        ),
{
    object[key] = member;
}

/// Calls `Value::get` with a text: the member of that key, where the value is an object that
/// has one.
#[verifier::external_body]
pub(crate) fn member<'a>(value: &'a serde_json::Value, key: &str) -> (r: Option<
    &'a serde_json::Value,
>)
    ensures
        match r {
            Some(found) => json(*value).member(key@) == Some(json(*found)),
            None => json(*value).member(key@) is None,
        },
{
    value.get(key)
}

/// Calls `Value::as_str`: the characters of the value, where it is a string.
#[verifier::external_body]
pub(crate) fn as_text<'a>(value: &'a serde_json::Value) -> (r: Option<&'a str>)
    ensures
        match r {
            Some(text) => json(*value).text() == Some(text@),
            None => json(*value).text() is None,
        },
{
    value.as_str()
}

/// Calls `Value::as_array`: the elements of the value, where it is an array.
#[verifier::external_body]
pub(crate) fn as_elements<'a>(value: &'a serde_json::Value) -> (r: Option<
    &'a Vec<serde_json::Value>,
>)
    ensures
        match r {
            Some(elements) => json(*value) == Json::Array(json_list(elements@)),
            None => !(json(*value) is Array),
        },
{
    value.as_array()
}

} // verus!
