//! JSON documents, as `serde_json` reads and prints them.
//!
//! Nothing in this module is proved: every item states what the library
//! takes on trust about `serde_json`. The rest of the library reasons about
//! JSON only through the [`JsonTree`] that a value holds.

use vstd::prelude::*;

verus! {

/// `serde_json::Value`, a JSON value of any kind. Opaque: what one holds is
/// known only as its [`json_shape`].
#[verifier::external_type_specification]
#[verifier::external_body]
pub struct ExValue(serde_json::Value);

/// `serde_json::Number`, a JSON number. Opaque: the library never looks
/// into one.
#[verifier::external_type_specification]
#[verifier::external_body]
pub struct ExNumber(serde_json::Number);

/// `serde_json::Error`, what the parser and the printer fail with. Opaque:
/// the library only tells failure from success.
#[verifier::external_type_specification]
#[verifier::external_body]
pub struct ExError(serde_json::Error);

/// `serde_json::Map`, the members of a JSON object. Opaque: what one holds
/// is known only as its [`json_entries`].
#[verifier::external_type_specification]
#[verifier::external_body]
#[verifier::reject_recursive_types(K)]
#[verifier::reject_recursive_types(V)]
pub struct ExMap<K, V>(serde_json::Map<K, V>);

/// The members of a JSON object, by key.
pub type JsonMembers = Map<Seq<char>, JsonTree>;

/// What a `serde_json::Value` holds, variant for variant: strings as
/// character sequences, arrays as sequences, objects as maps from key to
/// member.
pub enum JsonTree {
    Null,
    Bool(bool),
    Number(serde_json::Number),
    Text(Seq<char>),
    List(Seq<JsonTree>),
    Record(JsonMembers),
}

/// The tree that a `serde_json::Value` holds.
pub uninterp spec fn json_shape(value: serde_json::Value) -> JsonTree;

/// The members that a `serde_json::Map` holds, by key.
pub uninterp spec fn json_entries(
    map: serde_json::Map<String, serde_json::Value>,
) -> JsonMembers;

/// The tree that `serde_json::from_slice` reads from `bytes`, or `None`
/// where it reports an error.
pub uninterp spec fn json_document(bytes: Seq<u8>) -> Option<JsonTree>;

/// The text that `serde_json::to_string_pretty` prints for a value that
/// holds `tree`.
pub uninterp spec fn json_text(tree: JsonTree) -> Seq<char>;

/// The trees that the values of a sequence hold, in order.
pub open spec fn json_shapes(values: Seq<serde_json::Value>) -> Seq<JsonTree> {
    values.map_values(|value: serde_json::Value| json_shape(value))
}

/// The member of `tree` under `key`; `Null` where `tree` is no object or has
/// no such member.
pub open spec fn json_member(tree: JsonTree, key: Seq<char>) -> JsonTree {
    match tree {
        JsonTree::Record(members) => if members.contains_key(key) {
            members[key]
        } else {
            JsonTree::Null
        },
        _ => JsonTree::Null,
    }
}

/// `serde_json::from_slice::<Value>`: parses `bytes` as one JSON document.
/// Trusted: the outcome depends on the bytes alone, and a value that comes
/// back holds the tree named [`json_document`].
#[verifier::external_body]
pub(crate) fn parse_document(bytes: &[u8]) -> (out: Result<serde_json::Value, serde_json::Error>)
    ensures
        match out {
            Ok(value) => json_document(bytes@) == Some(json_shape(value)),
            Err(_) => json_document(bytes@) is None,
        },
{
    serde_json::from_slice::<serde_json::Value>(bytes)
}

/// `serde_json::to_string_pretty` on a `Value`. Trusted: the call
/// succeeds, and the text depends only on the tree that the value holds.
/// The function documents two causes of failure, an impl of `Serialize`
/// that chooses to fail and a map with a key that is no string; the impl
/// for `Value` never fails of itself, the keys of its maps are strings,
/// and the text is written into a vector in memory.
#[verifier::external_body]
pub(crate) fn render_document(value: &serde_json::Value) -> (out: Result<
    String,
    serde_json::Error,
>)
    ensures
        out is Ok,
        out matches Ok(text) ==> text@ == json_text(json_shape(*value)),
{
    serde_json::to_string_pretty(value)
}

/// `Value::as_array`. Trusted: an array hands out its elements in order,
/// anything else gives `None`.
#[verifier::external_body]
pub(crate) fn value_items(value: &serde_json::Value) -> (out: Option<&Vec<serde_json::Value>>)
    ensures
        match json_shape(*value) {
            JsonTree::List(items) => out matches Some(values) && json_shapes(values@) == items,
            _ => out is None,
        },
{
    value.as_array()
}

/// Indexing a `Value` by a string key. Trusted: an object with a member
/// under `key` gives that member, anything else gives a null value.
#[verifier::external_body]
pub(crate) fn value_member<'a>(value: &'a serde_json::Value, key: &str) -> (out:
    &'a serde_json::Value)
    ensures
        json_shape(*out) == json_member(json_shape(*value), key@),
{
    &value[key]
}

/// `Value::as_str`. Trusted: a string gives its characters, anything else
/// gives `None`.
#[verifier::external_body]
pub(crate) fn value_text(value: &serde_json::Value) -> (out: Option<&str>)
    ensures
        match json_shape(*value) {
            JsonTree::Text(chars) => out matches Some(text) && text@ == chars,
            _ => out is None,
        },
{
    value.as_str()
}

/// The variant `Value::String`. Trusted: the value is a string of the same
/// characters.
#[verifier::external_body]
pub(crate) fn text_value(text: String) -> (out: serde_json::Value)
    ensures
        json_shape(out) == JsonTree::Text(text@),
{
    serde_json::Value::String(text)
}

/// The variant `Value::Array`. Trusted: the value is an array of the same
/// elements in the same order.
#[verifier::external_body]
pub(crate) fn list_value(items: Vec<serde_json::Value>) -> (out: serde_json::Value)
    ensures
        json_shape(out) == JsonTree::List(json_shapes(items@)),
{
    serde_json::Value::Array(items)
}

/// The variant `Value::Object`. Trusted: the value is an object with the
/// members of the map.
#[verifier::external_body]
pub(crate) fn record_value(members: serde_json::Map<String, serde_json::Value>) -> (out:
    serde_json::Value)
    ensures
        json_shape(out) == JsonTree::Record(json_entries(members)),
{
    serde_json::Value::Object(members)
}

/// `Map::new`. Trusted: the new map has no members.
#[verifier::external_body]
pub(crate) fn empty_record() -> (out: serde_json::Map<String, serde_json::Value>)
    ensures
        json_entries(out) == JsonMembers::empty(),
{
    serde_json::Map::new()
}

/// `Map::insert`. Trusted: afterwards the map holds `value` under `key`,
/// and under every other key what it held before.
#[verifier::external_body]
pub(crate) fn record_insert(
    members: &mut serde_json::Map<String, serde_json::Value>,
    key: String,
    value: serde_json::Value,
)
    ensures
        json_entries(*final(members)) == json_entries(*old(members)).insert(
            key@,
            json_shape(value),
        ),
{
    members.insert(key, value);
}

} // verus!
