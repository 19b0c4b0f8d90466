//! The tree of values that a document is written as and read from.
//!
//! It has the shape of a JSON text. A number is a double, carried by its bit
//! pattern; an object keeps its members in the order of the text.

use vstd::prelude::*;

verus! {

/// A value of the interchange format, as contracts see it.
pub enum Json {
    Null,
    Bool(bool),
    Number(u64),
    Text(Seq<char>),
    Array(Seq<Json>),
    Object(Seq<(Seq<char>, Json)>),
}

/// A value of the interchange format.
#[derive(Debug, PartialEq)]
pub enum JsonValue {
    Null,
    Bool(bool),
    Number(u64),
    String(String),
    Array(Vec<JsonValue>),
    Object(Vec<(String, JsonValue)>),
}

impl View for JsonValue {
    type V = Json;

    open spec fn view(&self) -> Json
        decreases self,
    {
        match self {
            JsonValue::Null => Json::Null,
            JsonValue::Bool(b) => Json::Bool(*b),
            JsonValue::Number(bits) => Json::Number(*bits),
            JsonValue::String(text) => Json::Text(text@),
            JsonValue::Array(items) => Json::Array(items_of(items@)),
            JsonValue::Object(members) => Json::Object(members_of(members@)),
        }
    }
}

/// The items of an array, in order.
pub open spec fn items_of(items: Seq<JsonValue>) -> Seq<Json>
    decreases items,
{
    Seq::new(
        items.len(),
        |i: int|
            if 0 <= i < items.len() {
                items[i]@
            } else {
                arbitrary()
            },
    )
}

/// The members of an object, in order.
pub open spec fn members_of(members: Seq<(String, JsonValue)>) -> Seq<(Seq<char>, Json)>
    decreases members,
{
    Seq::new(
        members.len(),
        |i: int|
            if 0 <= i < members.len() {
                (members[i].0@, members[i].1@)
            } else {
                arbitrary()
            },
    )
}

/// The model of an array, item by item.
pub proof fn lemma_items_view(items: Seq<JsonValue>)
    ensures
        items_of(items).len() == items.len(),
        forall|i: int| 0 <= i < items.len() ==> #[trigger] items_of(items)[i] == items[i]@,
{
}

/// The model of an object, member by member.
pub proof fn lemma_members_view(members: Seq<(String, JsonValue)>)
    ensures
        members_of(members).len() == members.len(),
        forall|i: int|
            0 <= i < members.len() ==> #[trigger] members_of(members)[i] == (
                members[i].0@,
                members[i].1@,
            ),
{
}

} // verus!
