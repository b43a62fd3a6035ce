//! The parts of `serde_json` that building the model catalog and reading the
//! sidecar's log lines use, with the contracts that this library relies on. A JSON value is seen as a
//! `JsonNode`: numbers are told apart only as far as the catalog needs
//! (an unsigned integer, or some other number).
use serde_json::{Error, Value};
use vstd::prelude::*;

verus! {

#[verifier::external_type_specification]
#[verifier::external_body]
pub struct ExJsonValue(Value);

#[verifier::external_type_specification]
#[verifier::external_body]
pub struct ExJsonError(Error);

/// What a JSON value holds. `Count` is a number that `Number::as_u64` reads;
/// every other number (negative, or a float) is `OtherNumber`.
pub enum JsonNode {
    Null,
    Flag(bool),
    Count(u64),
    OtherNumber,
    Text(Seq<char>),
    Array(Seq<JsonNode>),
    Object(Map<Seq<char>, JsonNode>),
}

/// How deeply `serde_json` nests arrays and objects when it reads a text:
/// its parser refuses the next level.
pub open spec fn json_nesting_limit() -> nat {
    127
}

/// Arrays and objects in `n` nest at most `d` deep.
pub open spec fn nests_within(n: JsonNode, d: nat) -> bool
    decreases n,
{
    match n {
        JsonNode::Array(s) => d > 0 && forall|i: int|
            0 <= i < s.len() ==> nests_within(#[trigger] s[i], (d - 1) as nat),
        JsonNode::Object(m) => d > 0 && forall|k: Seq<char>| #[trigger]
            m.dom().contains(k) ==> nests_within(m[k], (d - 1) as nat),
        _ => true,
    }
}

/// The value that `serde_json::from_str` reads from `text`, or `None` where
/// it rejects the text.
pub uninterp spec fn json_parse_view(text: Seq<char>) -> Option<JsonNode>;

/// What a `serde_json::Value` holds.
pub uninterp spec fn json_value_view(v: Value) -> JsonNode;

/// The views of the values in `items`, in order.
pub open spec fn json_views(items: Seq<Value>) -> Seq<JsonNode> {
    items.map_values(|x: Value| json_value_view(x))
}

/// The string member `key` of an object: `v.get(key).and_then(Value::as_str)`.
pub open spec fn text_member(v: JsonNode, key: Seq<char>) -> Option<Seq<char>> {
    match v {
        JsonNode::Object(m) => if m.dom().contains(key) {
            match m[key] {
                JsonNode::Text(s) => Some(s),
                _ => None,
            }
        } else {
            None
        },
        _ => None,
    }
}

/// `serde_json::from_str::<Value>(text)`: fails exactly where
/// `json_parse_view` says so; a value that it reads nests within the
/// parser's limit.
#[verifier::external_body]
pub(crate) fn parse_json(text: &str) -> (r: Result<Value, Error>)
    ensures
        r is Ok <==> json_parse_view(text@) is Some,
        r matches Ok(v) ==> json_value_view(v) == json_parse_view(text@)->0,
        r matches Ok(v) ==> nests_within(json_value_view(v), json_nesting_limit()),
{
    serde_json::from_str::<Value>(text)
}

/// `serde_json::Error`'s `Display` text. Nothing is stated of it.
#[verifier::external_body]
pub(crate) fn json_error_text(e: &Error) -> String {
    e.to_string()
}

/// `v.get(key)`: the member `key` of an object.
#[verifier::external_body]
pub(crate) fn json_member<'a>(v: &'a Value, key: &str) -> (r: Option<&'a Value>)
    ensures
        r is Some <==> (json_value_view(*v) matches JsonNode::Object(m) && m.dom().contains(key@)),
        r matches Some(x) ==> json_value_view(*v)->Object_0[key@] == json_value_view(*x),
{
    v.get(key)
}

/// `v.as_array()`: the items of an array.
#[verifier::external_body]
pub(crate) fn json_items(v: &Value) -> (r: Option<&Vec<Value>>)
    ensures
        r is Some <==> json_value_view(*v) is Array,
        r matches Some(items) ==> json_value_view(*v) == JsonNode::Array(json_views(items@)),
{
    v.as_array()
}

/// `v.as_str()`: the text of a string.
#[verifier::external_body]
pub(crate) fn json_text_of<'a>(v: &'a Value) -> (r: Option<&'a str>)
    ensures
        r is Some <==> json_value_view(*v) is Text,
        r matches Some(s) ==> json_value_view(*v) == JsonNode::Text(s@),
{
    v.as_str()
}

/// The string member `key` of `v`, where `v` is an object that has one.
pub fn json_text_member(v: &Value, key: &str) -> (r: Option<String>)
    ensures
        r matches Some(s) ==> text_member(json_value_view(*v), key@) == Some(s@),
        r is None ==> text_member(json_value_view(*v), key@) is None,
{
    match json_member(v, key) {
        Some(x) => match json_text_of(x) {
            Some(s) => Some(s.to_string()),
            None => None,
        },
        None => None,
    }
}

/// `v.is_object()`.
#[verifier::external_body]
pub(crate) fn json_is_object(v: &Value) -> (r: bool)
    ensures
        r == json_value_view(*v) is Object,
{
    v.is_object()
}

/// `v.clone()`.
#[verifier::external_body]
pub(crate) fn json_copy(v: &Value) -> (r: Value)
    ensures
        json_value_view(r) == json_value_view(*v),
{
    v.clone()
}

/// `v[key] = member`: the object holds `member` under `key`, in place of
/// whatever it held there. Indexing anything but an object (or null) panics,
/// hence the requirement.
#[verifier::external_body]
pub(crate) fn json_set_member(v: &mut Value, key: &str, member: Value)
    requires
        json_value_view(*old(v)) is Object,
    ensures
        json_value_view(*final(v)) == JsonNode::Object(
            json_value_view(*old(v))->Object_0.insert(key@, json_value_view(member)),
        ),
{
    v[key] = member;
}

/// An object without members.
pub open spec fn no_members() -> Map<Seq<char>, JsonNode> {
    Map::empty()
}

/// `Value::Object(Map::new())`: an empty object.
#[verifier::external_body]
pub(crate) fn json_empty_object() -> (r: Value)
    ensures
        json_value_view(r) == JsonNode::Object(no_members()),
{
    Value::Object(serde_json::Map::new())
}

/// `Value::from(s)`: a string.
#[verifier::external_body]
pub(crate) fn json_from_text(s: &str) -> (r: Value)
    ensures
        json_value_view(r) == JsonNode::Text(s@),
{
    Value::from(s)
}

/// `Value::from(n)`: an unsigned integer.
#[verifier::external_body]
pub(crate) fn json_from_count(n: u64) -> (r: Value)
    ensures
        json_value_view(r) == JsonNode::Count(n),
{
    Value::from(n)
}

/// `Value::from(b)`: a boolean.
#[verifier::external_body]
pub(crate) fn json_from_flag(b: bool) -> (r: Value)
    ensures
        json_value_view(r) == JsonNode::Flag(b),
{
    Value::from(b)
}

/// `Value::from(items)`: an array of the items, in order.
#[verifier::external_body]
pub(crate) fn json_from_items(items: Vec<Value>) -> (r: Value)
    ensures
        json_value_view(r) == JsonNode::Array(json_views(items@)),
{
    Value::from(items)
}

/// `format!("{:#}", v)`: the value as pretty-printed JSON. What is stated is
/// that `serde_json` reads the text back as the same value, where it nests
/// within the parser's limit.
#[verifier::external_body]
pub(crate) fn json_pretty(v: &Value) -> (r: String)
    requires
        nests_within(json_value_view(*v), json_nesting_limit()),
    ensures
        json_parse_view(r@) == Some(json_value_view(*v)),
{
    format!("{:#}", v)
}

} // verus!
