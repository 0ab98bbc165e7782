//! JSON documents.
//!
//! Documents travel through the library as `serde_json::Value`. What a value
//! holds is named by [`value_tree`]: a tree of plain mathematical values. Every
//! call into `serde_json` that the library makes stands in this file, and says
//! over that tree what it does.

use crate::text::{str_view, text_view};
use serde_json::Value;
use vstd::prelude::*;

verus! {

/// `serde_json::Value`: a JSON document. Its contents are [`value_tree`].
#[verifier::external_type_specification]
#[verifier::external_body]
pub struct ExValue(serde_json::Value);

/// `serde_json::Map`: the members of a JSON object. For the instance that
/// `Value` uses, its contents are [`object_members`].
#[verifier::external_type_specification]
#[verifier::external_body]
#[verifier::reject_recursive_types(K)]
#[verifier::reject_recursive_types(V)]
pub struct ExObject<K, V>(serde_json::Map<K, V>);

/// A JSON number as `serde_json` keeps it: a non-negative integer, a negative
/// integer, or a double (by its bit pattern).
pub enum JsonNumber {
    Unsigned(u64),
    Negative(i64),
    Double(u64),
}

/// A JSON document as a tree.
pub enum JsonTree {
    Null,
    Bool(bool),
    Number(JsonNumber),
    Text(Seq<char>),
    Array(Seq<JsonTree>),
    Object(Map<Seq<char>, JsonTree>),
}

/// What a `serde_json::Value` holds.
pub uninterp spec fn value_tree(value: serde_json::Value) -> JsonTree;

/// What the members of a JSON object hold, by name.
pub uninterp spec fn object_members(
    object: serde_json::Map<String, serde_json::Value>,
) -> Map<Seq<char>, JsonTree>;

/// The document that `serde_json::from_str` reads from a text, if it is one.
pub uninterp spec fn parsed_text(text: Seq<char>) -> Option<JsonTree>;

/// The document that `serde_json::from_slice` reads from bytes, if it is one.
pub uninterp spec fn parsed_bytes(bytes: Seq<u8>) -> Option<JsonTree>;

/// The compact text that `serde_json` writes for a document.
pub uninterp spec fn compact_text(tree: JsonTree) -> Seq<char>;

/// The indented text that `serde_json` writes for a document.
pub uninterp spec fn pretty_text(tree: JsonTree) -> Seq<char>;

/// The name of a member by which `serde_json` tells that an object stands for the document
/// in its text: where the first member has it, that document is read in place of the object.
pub open spec fn raw_value_key() -> Seq<char> {
    "$serde_json::private::RawValue"@
}

/// Whether a document reads back as it was written: it has no doubles, whose digits are
/// not read back exactly, no object with a member that `serde_json` keeps for itself, and no
/// more nested arrays and objects than `levels`.
pub open spec fn reads_back(tree: JsonTree, levels: nat) -> bool
    decreases levels,
{
    match tree {
        JsonTree::Number(JsonNumber::Double(_)) => false,
        JsonTree::Array(items) => levels > 0 && forall|i: int|
            0 <= i < items.len() ==> #[trigger] reads_back(items[i], (levels - 1) as nat),
        JsonTree::Object(members) => {
            &&& levels > 0
            &&& !members.contains_key(raw_value_key())
            &&& forall|key: Seq<char>|
                members.contains_key(key) ==> #[trigger] reads_back(
                    members[key],
                    (levels - 1) as nat,
                )
        },
        _ => true,
    }
}

/// Whether a text is one line: no line feed and no carriage return is in it.
pub open spec fn is_one_line(text: Seq<char>) -> bool {
    forall|i: int| 0 <= i < text.len() ==> #[trigger] text[i] != '\n' && text[i] != '\r'
}

/// How many nested arrays and objects `serde_json` reads.
pub const READABLE_LEVELS: usize = 127;

/// An object without members.
pub open spec fn no_members() -> Map<Seq<char>, JsonTree> {
    Map::empty()
}

/// The trees of a sequence of values.
pub open spec fn value_trees(values: Seq<serde_json::Value>) -> Seq<JsonTree> {
    values.map_values(|value: serde_json::Value| value_tree(value))
}

impl JsonTree {
    /// The member `key` of an object; `None` for a missing member and for
    /// anything that is not an object.
    pub open spec fn member(self, key: Seq<char>) -> Option<JsonTree> {
        match self {
            JsonTree::Object(members) => if members.contains_key(key) {
                Some(members[key])
            } else {
                None
            },
            _ => None,
        }
    }

    /// The text of a JSON string.
    pub open spec fn text(self) -> Option<Seq<char>> {
        match self {
            JsonTree::Text(text) => Some(text),
            _ => None,
        }
    }

    /// The value of a non-negative integer.
    pub open spec fn unsigned(self) -> Option<u64> {
        match self {
            JsonTree::Number(JsonNumber::Unsigned(n)) => Some(n),
            _ => None,
        }
    }

    /// The text of the member `key`.
    pub open spec fn text_member(self, key: Seq<char>) -> Option<Seq<char>> {
        match self.member(key) {
            Some(tree) => tree.text(),
            None => None,
        }
    }

    /// The value of the member `key`, where it is a non-negative integer.
    pub open spec fn unsigned_member(self, key: Seq<char>) -> Option<u64> {
        match self.member(key) {
            Some(tree) => tree.unsigned(),
            None => None,
        }
    }
}

/// The tree of an optional value.
pub open spec fn tree_view(value: Option<serde_json::Value>) -> Option<JsonTree> {
    match value {
        Some(value) => Some(value_tree(value)),
        None => None,
    }
}

/// Calls `Value::get` with a string: the named member of an object, and
/// nothing for any other document.
#[verifier::external_body]
pub(crate) fn get<'a>(value: &'a Value, key: &str) -> (r: Option<&'a Value>)
    ensures
        match r {
            Some(found) => value_tree(*value).member(key@) == Some(value_tree(*found)),
            None => value_tree(*value).member(key@) is None,
        },
{
    value.get(key)
}

/// Calls `Value::as_str`: the text of a JSON string, and nothing for any other
/// document.
#[verifier::external_body]
pub(crate) fn as_str(value: &Value) -> (r: Option<&str>)
    ensures
        str_view(r) == value_tree(*value).text(),
{
    value.as_str()
}

/// Calls `Value::as_u64`: the value of a number that is a non-negative integer,
/// and nothing for any other document.
#[verifier::external_body]
pub(crate) fn as_u64(value: &Value) -> (r: Option<u64>)
    ensures
        r == value_tree(*value).unsigned(),
{
    value.as_u64()
}

/// Calls `Value::as_array`: the elements of an array, and nothing for any other
/// document.
#[verifier::external_body]
pub(crate) fn as_array(value: &Value) -> (r: Option<&Vec<Value>>)
    ensures
        match r {
            Some(items) => value_tree(*value) == JsonTree::Array(value_trees(items@)),
            None => !(value_tree(*value) is Array),
        },
{
    value.as_array()
}

/// Calls `Value::as_object`: the members of an object, and nothing for any
/// other document.
#[verifier::external_body]
pub(crate) fn as_object(value: &Value) -> (r: Option<&serde_json::Map<String, Value>>)
    ensures
        match r {
            Some(object) => value_tree(*value) == JsonTree::Object(object_members(*object)),
            None => !(value_tree(*value) is Object),
        },
{
    value.as_object()
}

/// Calls `Clone::clone` of `Value`: an equal document.
#[verifier::external_body]
pub(crate) fn clone_value(value: &Value) -> (r: Value)
    ensures
        r == *value,
{
    value.clone()
}

/// Calls `Clone::clone` of `Map`: an object with the same members.
#[verifier::external_body]
pub(crate) fn clone_object(object: &serde_json::Map<String, Value>) -> (r: serde_json::Map<
    String,
    Value,
>)
    ensures
        object_members(r) == object_members(*object),
{
    object.clone()
}

/// Calls `Map::new`: an object without members.
#[verifier::external_body]
pub(crate) fn new_object() -> (r: serde_json::Map<String, Value>)
    ensures
        object_members(r) == no_members(),
{
    serde_json::Map::new()
}

/// Calls `Map::insert`: sets the member `key`, whether or not it was there, and
/// leaves the other members as they were.
#[verifier::external_body]
pub(crate) fn insert(members: &mut serde_json::Map<String, Value>, key: &str, value: Value)
    ensures
        object_members(*final(members)) == object_members(*old(members)).insert(
            key@,
            value_tree(value),
        ),
{
    members.insert(key.to_string(), value);
}

/// Makes a `Value::Object` of its members.
#[verifier::external_body]
pub(crate) fn object(members: serde_json::Map<String, Value>) -> (r: Value)
    ensures
        value_tree(r) == JsonTree::Object(object_members(members)),
{
    Value::Object(members)
}

/// Makes a `Value::Array` of its elements.
#[verifier::external_body]
pub(crate) fn array(items: Vec<Value>) -> (r: Value)
    ensures
        value_tree(r) == JsonTree::Array(value_trees(items@)),
{
    Value::Array(items)
}

/// Makes a `Value::String` of a text.
#[verifier::external_body]
pub(crate) fn string(text: &str) -> (r: Value)
    ensures
        value_tree(r) == JsonTree::Text(text@),
{
    Value::String(text.to_string())
}

/// Calls `Value::from` with a `u64`: a number that is that integer.
#[verifier::external_body]
pub(crate) fn unsigned(n: u64) -> (r: Value)
    ensures
        value_tree(r) == JsonTree::Number(JsonNumber::Unsigned(n)),
{
    Value::from(n)
}

/// The tree of an integer: non-negative integers and negative ones are kept
/// apart.
pub open spec fn integer_tree(n: i64) -> JsonTree {
    JsonTree::Number(
        if n >= 0 {
            JsonNumber::Unsigned(n as u64)
        } else {
            JsonNumber::Negative(n)
        },
    )
}

/// Calls `Value::from` with an `i64`: a number that is that integer.
#[verifier::external_body]
pub(crate) fn integer(n: i64) -> (r: Value)
    ensures
        value_tree(r) == integer_tree(n),
{
    Value::from(n)
}

/// Makes a `Value::Bool`.
#[verifier::external_body]
pub(crate) fn boolean(b: bool) -> (r: Value)
    ensures
        value_tree(r) == JsonTree::Bool(b),
{
    Value::Bool(b)
}

/// Makes a `Value::Null`.
#[verifier::external_body]
pub(crate) fn null() -> (r: Value)
    ensures
        value_tree(r) == JsonTree::Null,
{
    Value::Null
}

/// Calls `serde_json::from_str` for a `Value`. Which texts are documents, and
/// of what, is left to the name [`parsed_text`].
#[verifier::external_body]
pub(crate) fn parse(text: &str) -> (r: Option<Value>)
    ensures
        tree_view(r) == parsed_text(text@),
{
    serde_json::from_str(text).ok()
}

/// Calls `serde_json::from_slice` for a `Value`. Which bytes are documents, and
/// of what, is left to the name [`parsed_bytes`].
#[verifier::external_body]
pub(crate) fn parse_bytes(bytes: &[u8]) -> (r: Option<Value>)
    ensures
        tree_view(r) == parsed_bytes(bytes@),
{
    serde_json::from_slice(bytes).ok()
}

/// Calls `ToString::to_string` of `Value`: the document as compact JSON, on one line, for
/// control characters are escaped in it. `serde_json::from_str` reads it back where
/// [`reads_back`] holds of it. The characters are left to the name [`compact_text`].
#[verifier::external_body]
pub(crate) fn write(value: &Value) -> (r: String)
    ensures
        r@ == compact_text(value_tree(*value)),
        is_one_line(r@),
        reads_back(value_tree(*value), READABLE_LEVELS as nat) ==> parsed_text(r@) == Some(
            value_tree(*value),
        ),
{
    value.to_string()
}

/// Calls `serde_json::to_string_pretty` for a `Value`: the document as indented JSON, and
/// never an error, for every key of a `Value` is a text. `serde_json::from_str` reads it back
/// where [`reads_back`] holds of it. The characters are left to the name [`pretty_text`].
#[verifier::external_body]
pub(crate) fn write_pretty(value: &Value) -> (r: Option<String>)
    ensures
        text_view(r) == Some(pretty_text(value_tree(*value))),
        reads_back(value_tree(*value), READABLE_LEVELS as nat) ==> parsed_text(r->0@) == Some(
            value_tree(*value),
        ),
{
    serde_json::to_string_pretty(value).ok()
}

/// The text of the member `key`.
pub(crate) fn get_str<'a>(value: &'a Value, key: &str) -> (r: Option<&'a str>)
    ensures
        str_view(r) == value_tree(*value).text_member(key@),
{
    match get(value, key) {
        Some(found) => as_str(found),
        None => None,
    }
}

/// The value of the member `key`, where it is a non-negative integer.
pub(crate) fn get_u64(value: &Value, key: &str) -> (r: Option<u64>)
    ensures
        r == value_tree(*value).unsigned_member(key@),
{
    match get(value, key) {
        Some(found) => as_u64(found),
        None => None,
    }
}

// ---------------------------------------------------------------------------
// Laws
// ---------------------------------------------------------------------------
/// A member of an object is read as it stands there: as the document that it is, as a text
/// only where it is one, and as a number only where it is one that is not negative. Nothing
/// but an object has members.
pub proof fn law_members_are_read_as_they_stand(
    members: Map<Seq<char>, JsonTree>,
    key: Seq<char>,
    found: JsonTree,
    text: Seq<char>,
    number: u64,
)
    ensures
        JsonTree::Object(members).member(key) == Some(found) <==> members.contains_key(key)
            && members[key] == found,
        JsonTree::Object(members).text_member(key) == Some(text) <==> members.contains_key(key)
            && members[key] == JsonTree::Text(text),
        JsonTree::Object(members).unsigned_member(key) == Some(number) <==> members.contains_key(
            key,
        ) && members[key] == JsonTree::Number(JsonNumber::Unsigned(number)),
        found.text() == Some(text) <==> found == JsonTree::Text(text),
        !(found is Object) ==> found.member(key) is None && found.text_member(key) is None
            && found.unsigned_member(key) is None,
{
}

} // verus!
