//! JSON values of the `serde_json` crate, and what they hold.

use vstd::prelude::*;
use vstd::string::*;

use crate::text::text_option;

verus! {

/// What a JSON value is.
pub enum JsonView {
    Null,
    Bool(bool),
    Number(Seq<char>),
    Text(Seq<char>),
    Array(Seq<JsonView>),
    Object(Map<Seq<char>, JsonView>),
}

impl JsonView {
    /// The member of an object; nothing else has members.
    pub open spec fn member(self, key: Seq<char>) -> Option<JsonView> {
        match self {
            JsonView::Object(members) => if members.dom().contains(key) {
                Some(members[key])
            } else {
                None
            },
            _ => None,
        }
    }
}

/// A JSON value.
#[verifier::external_type_specification]
#[verifier::external_body]
pub struct ExJsonValue(serde_json::Value);

/// What a value holds.
pub uninterp spec fn json_view(value: serde_json::Value) -> JsonView;

/// What `serde_json::from_str` reads from a text; `None` where the text is no
/// JSON.
pub uninterp spec fn json_read(text: Seq<char>) -> Option<JsonView>;

/// What `serde_json::to_string_pretty` writes for a value.
pub uninterp spec fn json_pretty(value: JsonView) -> Seq<char>;

/// The contents of a list of values.
pub open spec fn json_views(list: Seq<serde_json::Value>) -> Seq<JsonView> {
    list.map_values(|value: serde_json::Value| json_view(value))
}

/// The members that a list of fields makes: of fields with the same name the
/// last one counts.
pub open spec fn json_members(fields: Seq<(String, serde_json::Value)>) -> Map<
    Seq<char>,
    JsonView,
>
    decreases fields.len(),
{
    if fields.len() == 0 {
        Map::empty()
    } else {
        json_members(fields.drop_last()).insert(
            fields.last().0@,
            json_view(fields.last().1),
        )
    }
}

/// `serde_json::from_str` reads a text as JSON.
#[verifier::external_body]
pub(crate) fn read_json(text: &str) -> (value: Option<serde_json::Value>)
    ensures
        (match value {
            Some(value) => Some(json_view(value)),
            None => None,
        }) == json_read(text@),
{
    serde_json::from_str::<serde_json::Value>(text).ok()
}

/// `serde_json::Value::get` with a text as key finds the member of that name in
/// an object, and nothing in any other value.
#[verifier::external_body]
pub(crate) fn get_member<'a>(value: &'a serde_json::Value, key: &str) -> (member: Option<
    &'a serde_json::Value,
>)
    ensures
        (match member {
            Some(member) => Some(json_view(*member)),
            None => None,
        }) == json_view(*value).member(key@),
{
    value.get(key)
}

/// `serde_json::Value::as_str` gives the text of a text, and `None` for any
/// other value.
#[verifier::external_body]
pub(crate) fn get_text(value: &serde_json::Value) -> (text: Option<&str>)
    ensures
        match json_view(*value) {
            JsonView::Text(held) => text matches Some(text) && text@ == held,
            _ => text is None,
        },
{
    value.as_str()
}

/// `serde_json::Value::clone` copies a value.
#[verifier::external_body]
pub(crate) fn copy_json(value: &serde_json::Value) -> (copy: serde_json::Value)
    ensures
        json_view(copy) == json_view(*value),
{
    value.clone()
}

/// The variant `serde_json::Value::String`, made of a text.
#[verifier::external_body]
pub(crate) fn json_text(text: &str) -> (value: serde_json::Value)
    ensures
        json_view(value) == JsonView::Text(text@),
{
    serde_json::Value::String(text.to_string())
}

/// The variant `serde_json::Value::Array`, made of its items.
#[verifier::external_body]
pub(crate) fn json_array(items: Vec<serde_json::Value>) -> (value: serde_json::Value)
    ensures
        json_view(value) == JsonView::Array(json_views(items@)),
{
    serde_json::Value::Array(items)
}

/// The variant `serde_json::Value::Object`, made of its fields:
/// `serde_json::Map` collects them in order, and a field replaces an earlier one
/// of the same name.
#[verifier::external_body]
pub(crate) fn json_object(fields: Vec<(String, serde_json::Value)>) -> (value: serde_json::Value)
    ensures
        json_view(value) == JsonView::Object(json_members(fields@)),
{
    serde_json::Value::Object(fields.into_iter().collect())
}

/// `serde_json::to_string_pretty` writes a value over several lines. It fails for
/// keys that are no texts and where the output fails: a value has no such keys, and
/// the output is a text.
#[verifier::external_body]
pub(crate) fn pretty_json(value: &serde_json::Value) -> (text: Option<String>)
    ensures
        text_option(text) == Some(json_pretty(json_view(*value))),
{
    serde_json::to_string_pretty(value).ok()
}

} // verus!
