//! JSON documents as values of this library, read and written by `serde_json`.

use crate::structs::opt_view;
use vstd::prelude::*;

verus! {

/// A JSON document. Of a number only its presence is kept: no rule of this
/// library reads one.
pub enum JsonValue {
    Null,
    Bool(bool),
    Number,
    Text(Seq<char>),
    List(Seq<JsonValue>),
    Object(Seq<(Seq<char>, JsonValue)>),
}

/// A JSON document in memory. An object keeps its members in the order of
/// the text.
#[derive(Debug, PartialEq, Eq)]
pub enum Json {
    Null,
    Bool(bool),
    Number,
    Text(String),
    List(Vec<Json>),
    Object(Vec<Member>),
}

/// A member of an object: a name and the value that stands under it.
#[derive(Debug, PartialEq, Eq)]
pub struct Member {
    pub name: String,
    pub value: Json,
}

/// The document that `j` holds.
pub open spec fn json_value(j: Json) -> JsonValue
    decreases j,
{
    match j {
        Json::Null => JsonValue::Null,
        Json::Bool(b) => JsonValue::Bool(b),
        Json::Number => JsonValue::Number,
        Json::Text(s) => JsonValue::Text(s@),
        Json::List(items) => JsonValue::List(
            Seq::new(
                items@.len(),
                |i: int|
                    if 0 <= i < items@.len() {
                        json_value(items@[i])
                    } else {
                        JsonValue::Null
                    },
            ),
        ),
        Json::Object(members) => JsonValue::Object(
            Seq::new(
                members@.len(),
                |i: int|
                    if 0 <= i < members@.len() {
                        (members@[i].name@, json_value(members@[i].value))
                    } else {
                        (Seq::empty(), JsonValue::Null)
                    },
            ),
        ),
    }
}

impl View for Json {
    type V = JsonValue;

    open spec fn view(&self) -> JsonValue {
        json_value(*self)
    }
}

/// The members of an object, each by its views.
pub open spec fn members_view(members: Seq<Member>) -> Seq<(Seq<char>, JsonValue)> {
    Seq::new(members.len(), |i: int| (members[i].name@, members[i].value@))
}

/// The items of a list, each by its view.
pub open spec fn items_view(items: Seq<Json>) -> Seq<JsonValue> {
    Seq::new(items.len(), |i: int| items[i]@)
}

/// The view of a list or of an object is made of the views of its parts.
pub proof fn lemma_json_view(j: Json)
    ensures
        j matches Json::List(items) ==> j@ == JsonValue::List(items_view(items@)),
        j matches Json::Object(members) ==> j@ == JsonValue::Object(members_view(members@)),
        j matches Json::Text(s) ==> j@ == JsonValue::Text(s@),
        j is Null <==> j@ is Null,
        j is Bool <==> j@ is Bool,
        j is Number <==> j@ is Number,
        j is Text <==> j@ is Text,
        j is List <==> j@ is List,
        j is Object <==> j@ is Object,
{
    match j {
        Json::List(items) => {
            assert(j@ is List);
            assert(j@->List_0.len() == items@.len());
            assert forall|i: int| 0 <= i < items@.len() implies j@->List_0[i] == items@[i]@ by {}
            assert(j@->List_0 =~= items_view(items@));
        },
        Json::Object(members) => {
            assert(j@ is Object);
            assert(j@->Object_0.len() == members@.len());
            assert forall|i: int| 0 <= i < members@.len() implies j@->Object_0[i] == (
                members@[i].name@,
                members@[i].value@,
            ) by {}
            assert(j@->Object_0 =~= members_view(members@));
        },
        _ => {},
    }
}

/// What `serde_json` reads from `text`: the document, or nothing where
/// `text` is not one JSON document. Of the members of an object that share
/// a name it keeps one.
pub uninterp spec fn json_parse(text: Seq<char>) -> Option<JsonValue>;

/// `serde_json`'s own form of a document. Nothing is known of its inside: it
/// only passes from the parser into `Json`, and from `Json` to the printer.
#[verifier::external_type_specification]
#[verifier::external_body]
pub struct ExValue(serde_json::Value);

/// Takes a `serde_json::Value` apart into a `Json`, variant by variant: a
/// list item by item, an object member by member in the order of its map. Of
/// a number nothing is kept. Nothing is stated here: `parse_json` speaks for
/// the whole way from the text.
#[verifier::external_body]
fn json_of_value(value: serde_json::Value) -> Json {
    match value {
        serde_json::Value::Null => Json::Null,
        serde_json::Value::Bool(b) => Json::Bool(b),
        serde_json::Value::Number(_) => Json::Number,
        serde_json::Value::String(s) => Json::Text(s),
        serde_json::Value::Array(items) => Json::List(items.into_iter().map(json_of_value).collect()),
        serde_json::Value::Object(members) => Json::Object(
            members.into_iter().map(|(name, v)| Member { name, value: json_of_value(v) }).collect(),
        ),
    }
}

/// `serde_json::from_str`, asked for a `Value`, on `text`. The contract
/// gives what comes back the name `json_parse(text)`: one text always reads
/// as the same document, and a text that `serde_json` refuses reads as none.
/// The message of a refusal is handed on, and nothing is stated of it.
#[verifier::external_body]
pub(crate) fn parse_json(text: &str) -> (r: Result<Json, String>)
    ensures
        r is Ok <==> json_parse(text@) is Some,
        r matches Ok(j) ==> json_parse(text@) == Some(j@),
{
    serde_json::from_str::<serde_json::Value>(text).map(json_of_value).map_err(|e| e.to_string())
}

/// Whether no number stands anywhere in `j`.
pub open spec fn number_free(j: JsonValue) -> bool
    decreases j,
{
    match j {
        JsonValue::Number => false,
        JsonValue::List(items) => forall|i: int|
            0 <= i < items.len() ==> number_free(#[trigger] items[i]),
        JsonValue::Object(members) => forall|i: int|
            0 <= i < members.len() ==> number_free((#[trigger] members[i]).1),
        _ => true,
    }
}

/// The text that `serde_json` prints for the document `j`: compact, the
/// members of an object in their order.
pub uninterp spec fn json_text(j: JsonValue) -> Seq<char>;

/// Builds the `serde_json::Value` of a `Json`, variant by variant. A document
/// that holds a number has no such value and is left out. Nothing is stated
/// here: `print_json` speaks for the whole way to the text.
#[verifier::external_body]
fn value_of_json(j: &Json) -> serde_json::Value
    requires
        number_free(j@),
{
    match j {
        Json::Null | Json::Number => serde_json::Value::Null,
        Json::Bool(b) => serde_json::Value::Bool(*b),
        Json::Text(s) => serde_json::Value::String(s.clone()),
        Json::List(items) => serde_json::Value::Array(items.iter().map(value_of_json).collect()),
        Json::Object(members) => serde_json::Value::Object(
            members.iter().map(|m| (m.name.clone(), value_of_json(&m.value))).collect(),
        ),
    }
}

/// `serde_json::to_string` on the `Value` of `j`. The contract gives what
/// comes back the name `json_text(j)`: one document is always printed as the
/// same text. A text always comes back: the printer writes into memory, which
/// takes every byte, the names of the members are strings, and no number is
/// there to be printed.
#[verifier::external_body]
pub(crate) fn print_json(j: &Json) -> (r: Option<String>)
    requires
        number_free(j@),
    ensures
        opt_view(r) == Some(json_text(j@)),
{
    serde_json::to_string(&value_of_json(j)).ok()
}

} // verus!
