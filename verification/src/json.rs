//! JSON documents: a mathematical model of `serde_json::Value` and the
//! trusted operations on it that the request codec is built from.
//!
//! The operations are trusted: each states, over the model, what the
//! `serde_json` function that it calls does, and nothing checks it.

use serde_json::Value;
use vstd::prelude::*;

verus! {

/// The mathematical content of a JSON number.
pub enum JsonNumber {
    /// A non-negative integer.
    PosInt(u64),
    /// A negative integer.
    NegInt(i64),
    /// A finite floating-point number, identified by its IEEE-754 bits.
    Float(u64),
}

/// The members of a JSON object, by their keys.
pub type Members = Map<Seq<char>, Json>;

/// The mathematical content of a JSON document.
pub enum Json {
    Null,
    Bool(bool),
    Number(JsonNumber),
    String(Seq<char>),
    Array(Seq<Json>),
    Object(Members),
}

impl Json {
    /// The member of an object under a key; `None` for a missing key and
    /// for a document that is no object.
    pub open spec fn member(self, key: Seq<char>) -> Option<Json> {
        match self {
            Json::Object(m) => if m.contains_key(key) {
                Some(m[key])
            } else {
                None
            },
            _ => None,
        }
    }

    /// The elements of an array; `None` for any other document.
    pub open spec fn elements(self) -> Option<Seq<Json>> {
        match self {
            Json::Array(items) => Some(items),
            _ => None,
        }
    }

    /// The value of a non-negative integer; `None` for any other document.
    pub open spec fn unsigned(self) -> Option<u64> {
        match self {
            Json::Number(JsonNumber::PosInt(n)) => Some(n),
            _ => None,
        }
    }

    /// The text of a string; `None` for any other document.
    pub open spec fn text(self) -> Option<Seq<char>> {
        match self {
            Json::String(s) => Some(s),
            _ => None,
        }
    }

    /// The text of a number read as a floating-point number; `None` for any
    /// other document.
    pub open spec fn float_text(self) -> Option<Seq<char>> {
        match self {
            Json::Number(n) => Some(json_float_text(n)),
            _ => None,
        }
    }
}

#[verifier::external_type_specification]
#[verifier::external_body]
pub struct ExValue(Value);

#[verifier::external_type_specification]
#[verifier::external_body]
#[verifier::reject_recursive_types(K)]
#[verifier::reject_recursive_types(V)]
pub struct ExJsonMap<K, V>(serde_json::Map<K, V>);

#[verifier::external_type_specification]
#[verifier::external_body]
pub struct ExJsonError(serde_json::Error);

/// A JSON object under construction: `serde_json`'s map from keys to values.
pub type JsonMap = serde_json::Map<String, Value>;

/// The document that a `serde_json::Value` holds.
pub uninterp spec fn json_view(v: Value) -> Json;

/// The members that a `serde_json::Map` holds.
pub uninterp spec fn json_map_view(m: serde_json::Map<String, Value>) -> Members;

/// The value that `Value::pointer` finds in a document under a JSON pointer,
/// if it finds one.
pub uninterp spec fn json_pointer(doc: Json, path: Seq<char>) -> Option<Json>;

/// The document in which the value that `Value::pointer_mut` finds under a
/// JSON pointer is replaced by another. It says nothing of a document in
/// which the pointer finds no value.
pub uninterp spec fn json_replaced(doc: Json, path: Seq<char>, new: Json) -> Json;

/// The document that `serde_json::from_str` reads from a text, if the text
/// is JSON.
pub uninterp spec fn json_parsed(text: Seq<char>) -> Option<Json>;

/// The text that `serde_json::to_string_pretty` writes for a document.
pub uninterp spec fn json_pretty(doc: Json) -> Seq<char>;

/// The text that `f64`'s `to_string` gives for a number that
/// `Number::as_f64` has read as a floating-point number.
pub uninterp spec fn json_float_text(n: JsonNumber) -> Seq<char>;

/// The documents that a list of values holds.
pub open spec fn json_views(items: Seq<Value>) -> Seq<Json> {
    Seq::new(items.len(), |i: int| json_view(items[i]))
}

/// `Value::get` with a string key: the member of an object under the key,
/// `None` where the key is missing or the value is no object.
#[verifier::external_body]
pub(crate) fn json_get<'a>(v: &'a Value, key: &str) -> (r: Option<&'a Value>)
    ensures
        match json_view(*v).member(key@) {
            Some(m) => r matches Some(x) && json_view(*x) == m,
            None => r is None,
        },
{
    v.get(key)
}

/// `Value::pointer`: the value under a JSON pointer, named by
/// [`json_pointer`].
#[verifier::external_body]
pub(crate) fn json_pointer_at<'a>(v: &'a Value, path: &str) -> (r: Option<&'a Value>)
    ensures
        match json_pointer(json_view(*v), path@) {
            Some(m) => r matches Some(x) && json_view(*x) == m,
            None => r is None,
        },
{
    v.pointer(path)
}

/// `Value::as_array`: the elements of an array, `None` for any other value.
#[verifier::external_body]
pub(crate) fn json_as_array<'a>(v: &'a Value) -> (r: Option<&'a Vec<Value>>)
    ensures
        match json_view(*v).elements() {
            Some(items) => r matches Some(x) && json_views(x@) == items,
            None => r is None,
        },
{
    v.as_array()
}

/// `Value::as_u64`: the value of a non-negative integer, `None` for any
/// other value.
#[verifier::external_body]
pub(crate) fn json_as_u64(v: &Value) -> (r: Option<u64>)
    ensures
        r == json_view(*v).unsigned(),
{
    v.as_u64()
}

/// `Value::as_str`: the text of a string, `None` for any other value.
#[verifier::external_body]
pub(crate) fn json_as_str<'a>(v: &'a Value) -> (r: Option<&'a str>)
    ensures
        match json_view(*v).text() {
            Some(s) => r matches Some(x) && x@ == s,
            None => r is None,
        },
{
    v.as_str()
}

/// `Value::as_f64` followed by `to_string`: the text of a number read as a
/// floating-point number, named by [`json_float_text`]; `None` for a value
/// that is no number.
#[verifier::external_body]
pub(crate) fn json_as_float_text(v: &Value) -> (r: Option<String>)
    ensures
        match json_view(*v) {
            Json::Number(n) => r matches Some(s) && s@ == json_float_text(n),
            _ => r is None,
        },
{
    v.as_f64().map(|number| number.to_string())
}

/// `Value::Null`: the document `null`.
#[verifier::external_body]
pub(crate) fn json_null() -> (r: Value)
    ensures
        json_view(r) == Json::Null,
{
    Value::Null
}

/// `Value::Bool`: the document of a boolean.
#[verifier::external_body]
pub(crate) fn json_bool(b: bool) -> (r: Value)
    ensures
        json_view(r) == Json::Bool(b),
{
    Value::Bool(b)
}

/// `Value::String`: the document of a text.
#[verifier::external_body]
pub(crate) fn json_string(s: String) -> (r: Value)
    ensures
        json_view(r) == Json::String(s@),
{
    Value::String(s)
}

/// `Value::from` on a `u64`: the document of a non-negative integer.
#[verifier::external_body]
pub(crate) fn json_unsigned(n: u64) -> (r: Value)
    ensures
        json_view(r) == Json::Number(JsonNumber::PosInt(n)),
{
    Value::from(n)
}

/// `Value::Array`: the document of an array with the given elements.
#[verifier::external_body]
pub(crate) fn json_array(items: Vec<Value>) -> (r: Value)
    ensures
        json_view(r) == Json::Array(json_views(items@)),
{
    Value::Array(items)
}

/// `Map::new`: a map without members.
#[verifier::external_body]
pub(crate) fn json_map_new() -> (r: JsonMap)
    ensures
        json_map_view(r) == Members::empty(),
{
    serde_json::Map::new()
}

/// `Map::insert`: afterwards the key has the given value, whether or not
/// the map held the key before; the other members are unchanged.
#[verifier::external_body]
pub(crate) fn json_map_insert(m: &mut JsonMap, key: String, value: Value)
    ensures
        json_map_view(*final(m)) == json_map_view(*old(m)).insert(key@, json_view(value)),
{
    m.insert(key, value);
}

/// `Value::Object`: the document of an object with the members of a map.
#[verifier::external_body]
pub(crate) fn json_object(m: JsonMap) -> (r: Value)
    ensures
        json_view(r) == Json::Object(json_map_view(m)),
{
    Value::Object(m)
}

/// `Value::clone`: a value that holds the same document.
#[verifier::external_body]
pub(crate) fn json_clone(v: &Value) -> (r: Value)
    ensures
        json_view(r) == json_view(*v),
{
    v.clone()
}

/// `Value::pointer_mut`: the place of the value under a JSON pointer, found
/// exactly where `Value::pointer` finds the value. Whatever is written to
/// the place, the document becomes the one that [`json_replaced`] names;
/// where no value is found the document stays as it is.
#[verifier::external_body]
pub(crate) fn json_pointer_mut<'a>(doc: &'a mut Value, path: &str) -> (r: Option<&'a mut Value>)
    ensures
        match r {
            Some(slot) => json_pointer(json_view(*old(doc)), path@) == Some(json_view(*slot))
                && json_view(*final(doc)) == json_replaced(
                json_view(*old(doc)),
                path@,
                json_view(*final(slot)),
            ),
            None => json_pointer(json_view(*old(doc)), path@) is None && json_view(*final(doc))
                == json_view(*old(doc)),
        },
{
    doc.pointer_mut(path)
}

/// Replaces the value under a JSON pointer, where there is one, and says
/// whether there was one.
pub fn json_replace_at(doc: &mut Value, path: &str, new: Value) -> (r: bool)
    ensures
        r == json_pointer(json_view(*old(doc)), path@).is_some(),
        json_view(*final(doc)) == if r {
            json_replaced(json_view(*old(doc)), path@, json_view(new))
        } else {
            json_view(*old(doc))
        },
{
    match json_pointer_mut(doc, path) {
        Some(slot) => {
            *slot = new;
            true
        },
        None => false,
    }
}

/// `serde_json::from_str`: the document that a text holds, named by
/// [`json_parsed`], or the crate's error where the text is no JSON.
#[verifier::external_body]
pub(crate) fn json_from_str(text: &str) -> (r: Result<Value, serde_json::Error>)
    ensures
        match json_parsed(text@) {
            Some(doc) => r matches Ok(v) && json_view(v) == doc,
            None => r is Err,
        },
{
    serde_json::from_str::<Value>(text)
}

/// `serde_json::to_string_pretty`: the indented text of a document, named
/// by [`json_pretty`]. Writing a `Value` to memory cannot fail: its keys
/// are texts, its numbers are finite, and the writer is a vector.
#[verifier::external_body]
pub(crate) fn json_to_string_pretty(v: &Value) -> (r: Result<String, serde_json::Error>)
    ensures
        match r {
            Ok(s) => s@ == json_pretty(json_view(*v)),
            Err(_) => false,
        },
{
    serde_json::to_string_pretty(v)
}

} // verus!
