//! JSON text, read and written by `serde_json`, and the passage between the
//! values of `serde_json` and those of this library.
use crate::entries::has_key;
use crate::entries::keys_distinct;
use crate::entries::lemma_increasing_distinct;
use crate::entries::lemma_map_of_entry;
use crate::entries::lemma_map_of_insert;
use crate::entries::lemma_map_of_is;
use crate::entries::lemma_map_of_len;
use crate::entries::map_of;
use crate::error::ClaimsError;
use crate::json::JsonModel;
use crate::json::JsonObject;
use crate::json::JsonValue;
use crate::number::number_model;
use crate::order::key_less;
use vstd::prelude::*;

verus! {

/// The JSON value that a `serde_json::Value` holds.
pub uninterp spec fn value_model(value: serde_json::Value) -> JsonModel;

/// The value that `serde_json::from_str` reads from a text, `None` where it
/// refuses the text.
pub uninterp spec fn parsed_json(text: Seq<char>) -> Option<JsonModel>;

/// The text that `serde_json::to_string` writes for a value, `None` where it
/// fails.
pub uninterp spec fn printed_json(value: JsonModel) -> Option<Seq<char>>;

/// The top level of a `serde_json::Value`: its variant, with what the variant
/// holds. The members of an object are listed, each key once.
enum Shape<'a> {
    Null,
    Bool(bool),
    Number(&'a serde_json::Number),
    String(&'a String),
    Array(&'a Vec<serde_json::Value>),
    Object(Vec<(&'a String, &'a serde_json::Value)>),
}

/// The top level of a `serde_json::Value` that is yet to be made.
enum Parts {
    Null,
    Bool(bool),
    Number(serde_json::Number),
    String(String),
    Array(Vec<serde_json::Value>),
    Object(Vec<(String, serde_json::Value)>),
}

/// The values that the items of an array hold.
spec fn items_model(items: Seq<serde_json::Value>) -> Seq<JsonModel> {
    Seq::new(items.len(), |i: int| value_model(items[i]))
}

/// The members of an object that is taken apart, each key with the value
/// that the member holds.
spec fn shape_entries(members: Seq<(&String, &serde_json::Value)>) -> Seq<(Seq<char>, JsonModel)> {
    Seq::new(members.len(), |i: int| (members[i].0@, value_model(*members[i].1)))
}

/// The members of an object that is to be made, each key with the value
/// that the member holds.
spec fn parts_entries(members: Seq<(String, serde_json::Value)>) -> Seq<(Seq<char>, JsonModel)> {
    Seq::new(members.len(), |i: int| (members[i].0@, value_model(members[i].1)))
}

/// The JSON value of a value that is taken apart.
spec fn shape_model(shape: Shape) -> JsonModel {
    match shape {
        Shape::Null => JsonModel::Null,
        Shape::Bool(b) => JsonModel::Bool(b),
        Shape::Number(n) => JsonModel::Number(number_model(*n)),
        Shape::String(s) => JsonModel::String(s@),
        Shape::Array(items) => JsonModel::Array(items_model(items@)),
        Shape::Object(members) => JsonModel::Object(map_of(shape_entries(members@))),
    }
}

/// The JSON value of a value that is to be made.
spec fn parts_model(parts: Parts) -> JsonModel {
    match parts {
        Parts::Null => JsonModel::Null,
        Parts::Bool(b) => JsonModel::Bool(b),
        Parts::Number(n) => JsonModel::Number(number_model(n)),
        Parts::String(s) => JsonModel::String(s@),
        Parts::Array(items) => JsonModel::Array(items_model(items@)),
        Parts::Object(members) => JsonModel::Object(map_of(parts_entries(members@))),
    }
}

/// `serde_json::from_str` at `serde_json::Value`. The contract names the
/// outcome: the value read is the one that `parsed_json` gives for the text,
/// and an error comes exactly where `parsed_json` gives none.
#[verifier::external_body]
fn read_text(text: &str) -> (out: Result<serde_json::Value, serde_json::Error>)
    ensures
        match out {
            Ok(value) => parsed_json(text@) == Some(value_model(value)),
            Err(_) => parsed_json(text@) is None,
        },
{
    serde_json::from_str::<serde_json::Value>(text)
}

/// `serde_json::to_string` on a `serde_json::Value`. The contract names the
/// outcome: the text written is the one that `printed_json` gives for the
/// value, and an error comes exactly where `printed_json` gives none.
#[verifier::external_body]
fn write_text(value: &serde_json::Value) -> (out: Result<String, serde_json::Error>)
    ensures
        match out {
            Ok(text) => printed_json(value_model(*value)) == Some(text@),
            Err(_) => printed_json(value_model(*value)) is None,
        },
{
    serde_json::to_string(value)
}

/// Tells the variants of `serde_json::Value` apart and hands out what the
/// variant holds, by reference; the members of an object come from
/// `serde_json::Map::iter`. The contract says that the value is a null, a
/// boolean, a number, a string, an array of the values of its items or an
/// object of the values of its members, as the variant says, and that no two
/// members of an object have the same key.
#[verifier::external_body]
fn peel<'a>(value: &'a serde_json::Value) -> (out: Shape<'a>)
    ensures
        shape_model(out) == value_model(*value),
        out matches Shape::Object(members) ==> keys_distinct(shape_entries(members@)),
{
    match value {
        serde_json::Value::Null => Shape::Null,
        serde_json::Value::Bool(b) => Shape::Bool(*b),
        serde_json::Value::Number(n) => Shape::Number(n),
        serde_json::Value::String(s) => Shape::String(s),
        serde_json::Value::Array(items) => Shape::Array(items),
        serde_json::Value::Object(members) => Shape::Object(members.iter().collect()),
    }
}

/// Makes the variant of `serde_json::Value` that `parts` describes; the
/// members of an object are collected into a `serde_json::Map` by its
/// `FromIterator`. The contract says that the value made holds what `parts`
/// holds. Members with the same key are left out by `requires`: the map
/// would keep the last of them.
#[verifier::external_body]
fn assemble(parts: Parts) -> (out: serde_json::Value)
    requires
        parts matches Parts::Object(members) ==> keys_distinct(parts_entries(members@)),
    ensures
        value_model(out) == parts_model(parts),
{
    match parts {
        Parts::Null => serde_json::Value::Null,
        Parts::Bool(b) => serde_json::Value::Bool(b),
        Parts::Number(n) => serde_json::Value::Number(n),
        Parts::String(s) => serde_json::Value::String(s),
        Parts::Array(items) => serde_json::Value::Array(items),
        Parts::Object(members) => serde_json::Value::Object(members.into_iter().collect()),
    }
}

/// The value of this library that holds what a `serde_json::Value` holds.
pub fn from_serde(value: &serde_json::Value) -> (out: JsonValue)
    ensures
        out@ == value_model(*value),
    decreases value_model(*value),
{
    match peel(value) {
        Shape::Null => JsonValue::Null,
        Shape::Bool(b) => JsonValue::Bool(b),
        Shape::Number(n) => JsonValue::Number(n.clone()),
        Shape::String(s) => JsonValue::String(s.clone()),
        Shape::Array(items) => {
            let mut converted: Vec<JsonValue> = Vec::new();
            let mut i: usize = 0;
            while i < items.len()
                invariant
                    i <= items@.len(),
                    converted@.len() == i,
                    value_model(*value) == JsonModel::Array(items_model(items@)),
                    forall|j: int|
                        0 <= j < i ==> (#[trigger] converted@[j])@ == value_model(items@[j]),
                decreases items@.len() - i,
            {
                proof {
                    let models = value_model(*value)->Array_0;
                    assert(models[i as int] == value_model(items@[i as int]));
                    assert(decreases_to!(models => models[i as int]));
                }
                let item = from_serde(&items[i]);
                converted.push(item);
                i += 1;
            }
            let out = JsonValue::Array(converted);
            assert(out@->Array_0 =~= items_model(items@));
            out
        },
        Shape::Object(members) => {
            let ghost entries = shape_entries(members@);
            let mut object = JsonObject::new();
            let mut i: usize = 0;
            proof {
                lemma_map_of_len(entries);
                assert(map_of(entries.take(0)) =~= Map::<Seq<char>, JsonModel>::empty());
            }
            while i < members.len()
                invariant
                    i <= members@.len(),
                    entries == shape_entries(members@),
                    keys_distinct(entries),
                    value_model(*value) == JsonModel::Object(map_of(entries)),
                    map_of(entries).dom().finite(),
                    keys_distinct(entries.take(i as int)),
                    object@ == map_of(entries.take(i as int)),
                decreases members@.len() - i,
            {
                proof {
                    lemma_map_of_entry(entries, i as int);
                    assert(entries[i as int] == (
                        members@[i as int].0@,
                        value_model(*members@[i as int].1),
                    ));
                    let prefix = entries.take(i as int);
                    assert forall|j: int| 0 <= j < prefix.len() implies (#[trigger] prefix[j]).0
                        != entries[i as int].0 by {
                        assert(prefix[j] == entries[j]);
                    }
                    lemma_map_of_insert(prefix, i as int, entries[i as int]);
                    assert(prefix.insert(i as int, entries[i as int]) =~= entries.take(i + 1));
                    let fields = value_model(*value)->Object_0;
                    assert(fields[entries[i as int].0] == value_model(*members@[i as int].1));
                    assert(decreases_to!(fields => fields[entries[i as int].0]));
                }
                let key = members[i].0.clone();
                let item = from_serde(members[i].1);
                object.insert(key, item);
                i += 1;
            }
            assert(entries.take(i as int) =~= entries);
            JsonValue::Object(object)
        },
    }
}

/// The `serde_json::Value` that holds what a value of this library holds.
pub fn to_serde(value: &JsonValue) -> (out: serde_json::Value)
    ensures
        value_model(out) == value@,
    decreases value@,
{
    match value {
        JsonValue::Null => assemble(Parts::Null),
        JsonValue::Bool(b) => assemble(Parts::Bool(*b)),
        JsonValue::Number(n) => assemble(Parts::Number(n.clone())),
        JsonValue::String(s) => assemble(Parts::String(s.clone())),
        JsonValue::Array(items) => {
            let mut converted: Vec<serde_json::Value> = Vec::new();
            let mut i: usize = 0;
            while i < items.len()
                invariant
                    i <= items@.len(),
                    converted@.len() == i,
                    value@ is Array,
                    value@->Array_0.len() == items@.len(),
                    forall|j: int|
                        0 <= j < items@.len() ==> value@->Array_0[j] == (#[trigger] items@[j])@,
                    forall|j: int|
                        0 <= j < i ==> value_model(#[trigger] converted@[j]) == items@[j]@,
                decreases items@.len() - i,
            {
                proof {
                    let models = value@->Array_0;
                    assert(models[i as int] == items@[i as int]@);
                    assert(decreases_to!(models => models[i as int]));
                }
                let item = to_serde(&items[i]);
                converted.push(item);
                i += 1;
            }
            assert(items_model(converted@) =~= value@->Array_0);
            assemble(Parts::Array(converted))
        },
        JsonValue::Object(object) => {
            let entries = object.entries();
            let mut members: Vec<(String, serde_json::Value)> = Vec::new();
            let mut i: usize = 0;
            while i < entries.len()
                invariant
                    i <= entries@.len(),
                    members@.len() == i,
                    value@ == JsonModel::Object(object@),
                    object@.dom().finite(),
                    forall|j: int|
                        0 <= j < entries@.len() ==> object@.contains_key(
                            (#[trigger] entries@[j]).0@,
                        ) && object@[entries@[j].0@] == entries@[j].1@,
                    forall|j: int|
                        0 <= j < i ==> (#[trigger] members@[j]).0@ == entries@[j].0@ && value_model(
                            members@[j].1,
                        ) == entries@[j].1@,
                decreases entries@.len() - i,
            {
                proof {
                    let fields = value@->Object_0;
                    assert(fields[entries@[i as int].0@] == entries@[i as int].1@);
                    assert(decreases_to!(fields => fields[entries@[i as int].0@]));
                }
                let key = entries[i].0.clone();
                let item = to_serde(&entries[i].1);
                members.push((key, item));
                i += 1;
            }
            proof {
                let listed = parts_entries(members@);
                assert forall|a: int, b: int| 0 <= a < b < listed.len() implies key_less(
                    (#[trigger] listed[a]).0,
                    (#[trigger] listed[b]).0,
                ) by {
                    assert(listed[a].0 == entries@[a].0@ && listed[b].0 == entries@[b].0@);
                }
                lemma_increasing_distinct(listed);
                assert forall|j: int| 0 <= j < listed.len() implies object@.contains_key(
                    (#[trigger] listed[j]).0,
                ) && object@[listed[j].0] == listed[j].1 by {
                    assert(listed[j].0 == entries@[j].0@);
                }
                assert forall|key: Seq<char>| #[trigger] object@.contains_key(key) implies has_key(
                    listed,
                    key,
                ) by {
                    let j = choose|j: int|
                        0 <= j < entries@.len() && (#[trigger] entries@[j]).0@ == key;
                    assert(listed[j].0 == key);
                }
                lemma_map_of_is(listed, object@);
            }
            assemble(Parts::Object(members))
        },
    }
}

/// Reads one JSON value from `text`.
pub fn parse(text: &str) -> (out: Result<JsonValue, ClaimsError>)
    ensures
        match out {
            Ok(value) => parsed_json(text@) == Some(value@),
            Err(e) => e == ClaimsError::MalformedInput && parsed_json(text@) is None,
        },
{
    match read_text(text) {
        Ok(value) => Ok(from_serde(&value)),
        Err(_) => Err(ClaimsError::MalformedInput),
    }
}

/// Writes `value` as JSON text.
pub fn print(value: &JsonValue) -> (out: Result<String, ClaimsError>)
    ensures
        match out {
            Ok(text) => printed_json(value@) == Some(text@),
            Err(e) => e == ClaimsError::MalformedOutput && printed_json(value@) is None,
        },
{
    let outside = to_serde(value);
    match write_text(&outside) {
        Ok(text) => Ok(text),
        Err(_) => Err(ClaimsError::MalformedOutput),
    }
}

} // verus!
