//! JSON values, as `serde_json` holds them.
//!
//! What a value holds is modelled by [`JsonTree`]. The functions here hand
//! `serde_json`'s own accessors and constructors to the rest of the crate.

use vstd::prelude::*;

verus! {

/// What a JSON value holds, as far as this crate looks.
pub enum JsonTree {
    /// Null, a boolean or a number.
    Scalar,
    /// A string.
    Text(Seq<char>),
    /// An array.
    List(Seq<JsonTree>),
    /// An object.
    Object(Map<Seq<char>, JsonTree>),
}

/// The members of an object, by name.
pub type JsonMembers = Map<Seq<char>, JsonTree>;

/// `serde_json::Value`, opaque here.
#[verifier::external_type_specification]
#[verifier::external_body]
pub struct ExValue(serde_json::Value);

/// `serde_json::Map`, opaque here.
#[verifier::external_type_specification]
#[verifier::external_body]
#[verifier::reject_recursive_types(K)]
#[verifier::reject_recursive_types(V)]
pub struct ExMap<K, V>(serde_json::Map<K, V>);

/// What the value holds.
pub uninterp spec fn json_tree(value: serde_json::Value) -> JsonTree;

/// The members of the map, by name.
pub uninterp spec fn json_members(
    map: serde_json::Map<String, serde_json::Value>,
) -> JsonMembers;

/// `Value::get` with a string index: the member of that name, where the value
/// is an object that has one.
#[verifier::external_body]
pub(crate) fn json_get<'a>(value: &'a serde_json::Value, name: &str) -> (member: Option<
    &'a serde_json::Value,
>)
    ensures
        member is Some <==> (json_tree(*value) matches JsonTree::Object(members)
            && members.contains_key(name@)),
        member matches Some(found) ==> (json_tree(*value) matches JsonTree::Object(members)
            && json_tree(*found) == members[name@]),
{
    value.get(name)
}

/// `Value::as_array`: the items, where the value is an array.
#[verifier::external_body]
pub(crate) fn json_as_array(value: &serde_json::Value) -> (items: Option<&Vec<serde_json::Value>>)
    ensures
        items is Some <==> json_tree(*value) is List,
        items matches Some(items) ==> json_tree(*value) == JsonTree::List(
            Seq::new(items@.len(), |i: int| json_tree(items@[i])),
        ),
{
    value.as_array()
}

/// `Value::as_str`: the text, where the value is a string.
#[verifier::external_body]
pub(crate) fn json_as_str(value: &serde_json::Value) -> (text: Option<&str>)
    ensures
        text is Some <==> json_tree(*value) is Text,
        text matches Some(text) ==> json_tree(*value) == JsonTree::Text(text@),
{
    value.as_str()
}

/// `Value::as_object`: the members, where the value is an object.
#[verifier::external_body]
pub(crate) fn json_as_object(value: &serde_json::Value) -> (map: Option<
    &serde_json::Map<String, serde_json::Value>,
>)
    ensures
        map is Some <==> json_tree(*value) is Object,
        map matches Some(map) ==> json_tree(*value) == JsonTree::Object(json_members(*map)),
{
    value.as_object()
}

/// `Map::iter`: every member once, with its name.
#[verifier::external_body]
pub(crate) fn json_entries(map: &serde_json::Map<String, serde_json::Value>) -> (entries: Vec<
    (&String, &serde_json::Value),
>)
    ensures
        forall|i: int|
            0 <= i < entries@.len() ==> json_members(*map).contains_key(
                (#[trigger] entries@[i]).0@,
            ) && json_members(*map)[entries@[i].0@] == json_tree(*entries@[i].1),
        forall|name: Seq<char>| #[trigger]
            json_members(*map).contains_key(name) ==> exists|i: int|
                0 <= i < entries@.len() && (#[trigger] entries@[i]).0@ == name,
        forall|i: int, j: int|
            0 <= i < j < entries@.len() ==> (#[trigger] entries@[i]).0@ != (
            #[trigger] entries@[j]).0@,
{
    map.iter().collect()
}

/// `Map::new`: no members.
#[verifier::external_body]
pub(crate) fn json_map_new() -> (map: serde_json::Map<String, serde_json::Value>)
    ensures
        json_members(map) == JsonMembers::empty(),
{
    serde_json::Map::new()
}

/// `Map::insert`: sets the member of that name.
#[verifier::external_body]
pub(crate) fn json_map_insert(
    map: &mut serde_json::Map<String, serde_json::Value>,
    name: String,
    value: serde_json::Value,
)
    ensures
        json_members(*final(map)) == json_members(*old(map)).insert(name@, json_tree(value)),
{
    map.insert(name, value);
}

/// `Value::String`: a string value.
#[verifier::external_body]
pub(crate) fn json_string(text: String) -> (value: serde_json::Value)
    ensures
        json_tree(value) == JsonTree::Text(text@),
{
    serde_json::Value::String(text)
}

/// `Value::Object`: an object value.
#[verifier::external_body]
pub(crate) fn json_object(map: serde_json::Map<String, serde_json::Value>) -> (value:
    serde_json::Value)
    ensures
        json_tree(value) == JsonTree::Object(json_members(map)),
{
    serde_json::Value::Object(map)
}

/// The texts among `items`, in order.
pub open spec fn texts_among(items: Seq<JsonTree>) -> Seq<Seq<char>> {
    items.filter_map(
        |item: JsonTree| match item {
            JsonTree::Text(text) => Some(text),
            _ => None::<Seq<char>>,
        },
    )
}

} // verus!
