//! JSON values of `serde_json`, seen through the tree that each one holds.

use serde_json::Value;
use vstd::prelude::*;

verus! {

/// What a JSON value holds.
///
/// A number that fits `u64` is `UInt`; every other number is told apart by a
/// code of its own.
pub enum Json {
    Null,
    Bool(bool),
    UInt(u64),
    OtherNumber(int),
    Text(Seq<char>),
    Array(Seq<Json>),
    Object(Map<Seq<char>, Json>),
}

impl Json {
    /// The member of an object under `key`.
    pub open spec fn get(self, key: Seq<char>) -> Option<Json> {
        match self {
            Json::Object(members) => if members.contains_key(key) {
                Some(members[key])
            } else {
                None
            },
            _ => None,
        }
    }

    pub open spec fn as_str(self) -> Option<Seq<char>> {
        match self {
            Json::Text(text) => Some(text),
            _ => None,
        }
    }

    pub open spec fn as_bool(self) -> Option<bool> {
        match self {
            Json::Bool(flag) => Some(flag),
            _ => None,
        }
    }

    pub open spec fn as_u64(self) -> Option<u64> {
        match self {
            Json::UInt(number) => Some(number),
            _ => None,
        }
    }

    pub open spec fn as_array(self) -> Option<Seq<Json>> {
        match self {
            Json::Array(items) => Some(items),
            _ => None,
        }
    }

    /// The text under `key`, where the value is an object that has one there.
    pub open spec fn str_at(self, key: Seq<char>) -> Option<Seq<char>> {
        match self.get(key) {
            Some(member) => member.as_str(),
            None => None,
        }
    }

    pub open spec fn bool_at(self, key: Seq<char>) -> Option<bool> {
        match self.get(key) {
            Some(member) => member.as_bool(),
            None => None,
        }
    }

    pub open spec fn u64_at(self, key: Seq<char>) -> Option<u64> {
        match self.get(key) {
            Some(member) => member.as_u64(),
            None => None,
        }
    }

    pub open spec fn array_at(self, key: Seq<char>) -> Option<Seq<Json>> {
        match self.get(key) {
            Some(member) => member.as_array(),
            None => None,
        }
    }

    /// The members of an empty object.
    pub open spec fn no_members() -> Map<Seq<char>, Json> {
        Map::empty()
    }

    /// The object with `member` under `key`; any other value is unchanged.
    pub open spec fn with(self, key: Seq<char>, member: Json) -> Json {
        match self {
            Json::Object(members) => Json::Object(members.insert(key, member)),
            _ => self,
        }
    }
}

/// The declaration of `serde_json::Value`.
#[verifier::external_type_specification]
#[verifier::external_body]
pub struct ExValue(serde_json::Value);

/// The declaration of `serde_json::Map`, the members of a JSON object.
#[verifier::external_type_specification]
#[verifier::external_body]
#[verifier::reject_recursive_types(K)]
#[verifier::reject_recursive_types(V)]
pub struct ExObject<K, V>(serde_json::Map<K, V>);

/// The tree that a value holds.
pub uninterp spec fn json_of(value: serde_json::Value) -> Json;

/// The members that an object holds.
pub uninterp spec fn members_of(object: serde_json::Map<String, serde_json::Value>) -> Map<
    Seq<char>,
    Json,
>;

/// The compact text of a JSON tree. An object keeps its members in the order of
/// their keys, so the tree alone decides the text.
pub uninterp spec fn json_text(json: Json) -> Seq<char>;

/// The tree that a byte string spells, if it is one JSON document.
pub uninterp spec fn parsed_json(bytes: Seq<u8>) -> Option<Json>;

/// `Value::as_str`: the text of a JSON string, nothing for any other value.
pub assume_specification[ serde_json::Value::as_str ](value: &serde_json::Value) -> (text: Option<
    &str,
>)
    ensures
        match text {
            Some(text) => json_of(*value).as_str() == Some(text@),
            None => json_of(*value).as_str() is None,
        },
;

/// `Value::as_bool`: the flag of a JSON boolean, nothing for any other value.
pub assume_specification[ serde_json::Value::as_bool ](value: &serde_json::Value) -> (flag: Option<
    bool,
>)
    ensures
        flag == json_of(*value).as_bool(),
;

/// `Value::as_u64`: the number of a JSON number that fits `u64`, nothing for
/// any other value.
pub assume_specification[ serde_json::Value::as_u64 ](value: &serde_json::Value) -> (number: Option<
    u64,
>)
    ensures
        number == json_of(*value).as_u64(),
;

/// `Value::as_array`: the items of a JSON array in order, nothing for any other
/// value.
pub assume_specification[ serde_json::Value::as_array ](value: &serde_json::Value) -> (items: Option<
    &Vec<serde_json::Value>,
>)
    ensures
        match items {
            Some(items) => json_of(*value) == Json::Array(items@.map_values(|v: Value| json_of(v))),
            None => json_of(*value).as_array() is None,
        },
;

/// `Value::get` with a string key: the member of an object under that key,
/// nothing where there is none or the value is no object.
#[verifier::external_body]
pub(crate) fn get<'a>(value: &'a Value, key: &str) -> (member: Option<&'a Value>)
    ensures
        match member {
            Some(member) => json_of(*value).get(key@) == Some(json_of(*member)),
            None => json_of(*value).get(key@) is None,
        },
{
    value.get(key)
}

/// `serde_json::from_slice` into a `Value`: the document that the bytes spell,
/// nothing where they spell none.
#[verifier::external_body]
pub(crate) fn parse(bytes: &[u8]) -> (value: Option<Value>)
    ensures
        match value {
            Some(value) => parsed_json(bytes@) == Some(json_of(value)),
            None => parsed_json(bytes@) is None,
        },
{
    serde_json::from_slice(bytes).ok()
}

/// `Value::to_string`: the compact text of the tree.
#[verifier::external_body]
pub(crate) fn text_of(value: &Value) -> (text: String)
    ensures
        text@ == json_text(json_of(*value)),
{
    value.to_string()
}

/// `Value::clone`: an equal value.
#[verifier::external_body]
pub(crate) fn copy_of(value: &Value) -> (copy: Value)
    ensures
        copy == *value,
{
    value.clone()
}

/// `Value::Null`.
#[verifier::external_body]
pub(crate) fn null() -> (value: Value)
    ensures
        json_of(value) == Json::Null,
{
    Value::Null
}

/// `Value::from` on a string.
#[verifier::external_body]
pub(crate) fn text_value(text: String) -> (value: Value)
    ensures
        json_of(value) == Json::Text(text@),
{
    Value::from(text)
}

/// `Value::from` on a `u64`.
#[verifier::external_body]
pub(crate) fn uint_value(number: u64) -> (value: Value)
    ensures
        json_of(value) == Json::UInt(number),
{
    Value::from(number)
}

/// `Value::from` on a flag.
#[verifier::external_body]
pub(crate) fn bool_value(flag: bool) -> (value: Value)
    ensures
        json_of(value) == Json::Bool(flag),
{
    Value::from(flag)
}

/// `Value::from` on a vector of values: the array of them, in order.
#[verifier::external_body]
pub(crate) fn array_value(items: Vec<Value>) -> (value: Value)
    ensures
        json_of(value) == Json::Array(items@.map_values(|v: Value| json_of(v))),
{
    Value::from(items)
}

/// `Value::from` on a map: the object with those members.
#[verifier::external_body]
pub(crate) fn object_value(object: serde_json::Map<String, Value>) -> (value: Value)
    ensures
        json_of(value) == Json::Object(members_of(object)),
{
    Value::from(object)
}

/// The members of a value that is a `Value::Object`; any other value is handed
/// back.
#[verifier::external_body]
pub(crate) fn into_object(value: Value) -> (object: Result<serde_json::Map<String, Value>, Value>)
    ensures
        match object {
            Ok(object) => json_of(value) == Json::Object(members_of(object)),
            Err(same) => same == value && !(json_of(value) is Object),
        },
{
    match value {
        Value::Object(object) => Ok(object),
        other => Err(other),
    }
}

/// `Map::new`: no members.
#[verifier::external_body]
pub(crate) fn no_members() -> (object: serde_json::Map<String, Value>)
    ensures
        members_of(object) == Json::no_members(),
{
    serde_json::Map::new()
}

/// `Map::insert`: the member under the key is now the given value, every other
/// member stays.
#[verifier::external_body]
pub(crate) fn set_member(object: &mut serde_json::Map<String, Value>, key: &str, value: Value)
    ensures
        members_of(*final(object)) == members_of(*old(object)).insert(key@, json_of(value)),
{
    object.insert(key.to_string(), value);
}

/// `Map::remove`: the member under the key is taken out, if there is one, and
/// every other member stays.
#[verifier::external_body]
pub(crate) fn take_member(object: &mut serde_json::Map<String, Value>, key: &str) -> (member:
    Option<Value>)
    ensures
        members_of(*final(object)) == members_of(*old(object)).remove(key@),
        match member {
            Some(value) => members_of(*old(object)).contains_key(key@) && members_of(
                *old(object),
            )[key@] == json_of(value),
            None => !members_of(*old(object)).contains_key(key@),
        },
{
    object.remove(key)
}

/// The text under `key`, where the value is an object that has one there.
pub fn str_at<'a>(value: &'a Value, key: &str) -> (text: Option<&'a str>)
    ensures
        match text {
            Some(text) => json_of(*value).str_at(key@) == Some(text@),
            None => json_of(*value).str_at(key@) is None,
        },
{
    match get(value, key) {
        Some(member) => member.as_str(),
        None => None,
    }
}

/// The text under `key` as an owned string.
pub fn string_at(value: &Value, key: &str) -> (text: Option<String>)
    ensures
        match text {
            Some(text) => json_of(*value).str_at(key@) == Some(text@),
            None => json_of(*value).str_at(key@) is None,
        },
{
    match str_at(value, key) {
        Some(text) => Some(text.to_owned()),
        None => None,
    }
}

/// The flag under `key`, where the value is an object that has one there.
pub fn bool_at(value: &Value, key: &str) -> (flag: Option<bool>)
    ensures
        flag == json_of(*value).bool_at(key@),
{
    match get(value, key) {
        Some(member) => member.as_bool(),
        None => None,
    }
}

/// The `u64` under `key`, where the value is an object that has one there.
pub fn u64_at(value: &Value, key: &str) -> (number: Option<u64>)
    ensures
        number == json_of(*value).u64_at(key@),
{
    match get(value, key) {
        Some(member) => member.as_u64(),
        None => None,
    }
}

/// The items of the array under `key`, where the value is an object that has one
/// there.
pub fn array_at<'a>(value: &'a Value, key: &str) -> (items: Option<&'a Vec<Value>>)
    ensures
        match items {
            Some(items) => json_of(*value).array_at(key@) == Some(
                items@.map_values(|v: Value| json_of(v)),
            ),
            None => json_of(*value).array_at(key@) is None,
        },
{
    match get(value, key) {
        Some(member) => member.as_array(),
        None => None,
    }
}

/// Puts `member` under `key` of an object; any other value stays as it is.
pub fn with_member(value: Value, key: &str, member: Value) -> (changed: Value)
    ensures
        json_of(changed) == json_of(value).with(key@, json_of(member)),
{
    match into_object(value) {
        Ok(mut object) => {
            set_member(&mut object, key, member);
            object_value(object)
        },
        Err(same) => same,
    }
}

} // verus!
