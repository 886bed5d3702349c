//! JSON documents, read with `serde_json`.
//!
//! `serde_json` parses the text and hands out the values. Nothing of that is
//! proved here: what `serde_json` does is taken on trust, as far as the
//! contracts of `parse_document`, `member`, `Value::as_u64`, `Value::as_str`
//! and `Value::as_array` state it. What this library does with the values is
//! proved, over a model of what a value holds.

use vstd::prelude::*;

verus! {

/// `serde_json::Value`: a parsed JSON value. What one holds is known only
/// through `value_model` and the accessors specified below.
#[verifier::external_type_specification]
#[verifier::external_body]
pub struct ExValue(serde_json::Value);

/// `serde_json::Error`: why a text is no JSON document. The library looks at
/// none of it.
#[verifier::external_type_specification]
#[verifier::external_body]
pub struct ExError(serde_json::Error);

/// What a JSON value holds, as far as this library reads it.
pub enum JsonModel {
    /// A number that is a whole number from 0 to 2^64 - 1, written without a
    /// fraction or an exponent.
    Unsigned(u64),
    /// A string.
    Text(Seq<char>),
    /// An array, with what its elements hold.
    List(Seq<JsonModel>),
    /// An object, with what the value under each of its keys holds.
    Record(Map<Seq<char>, JsonModel>),
    /// Anything else: null, a boolean, a negative number, a number with a
    /// fraction or an exponent, or one too large for 64 bits.
    Other,
}

/// What `value` holds. Only `serde_json` can tell; the accessors below say
/// what they return in terms of it.
pub uninterp spec fn value_model(value: serde_json::Value) -> JsonModel;

/// What `serde_json::from_str` makes of `text`: what the document holds, or
/// `None` where `text` is not one JSON document (it does not follow the
/// grammar, goes on after the first value, or nests deeper than the parser
/// goes).
pub uninterp spec fn document_model(text: Seq<char>) -> Option<JsonModel>;

/// `serde_json::from_str` for a `Value`: parses `text` as one JSON document.
/// The outcome depends on the text alone: either the value that holds
/// `document_model(text)`, or an error where the text is no JSON document.
#[verifier::external_body]
pub(crate) fn parse_document(text: &str) -> (parsed: Result<serde_json::Value, serde_json::Error>)
    ensures
        match parsed {
            Ok(value) => document_model(text@) == Some(value_model(value)),
            Err(_) => document_model(text@) is None,
        },
{
    serde_json::from_str::<serde_json::Value>(text)
}

/// `Value::get` with a string key: the value under `key` where `value` is an
/// object that has that key, `None` where it has not or `value` is no object.
#[verifier::external_body]
pub(crate) fn member<'a>(value: &'a serde_json::Value, key: &str) -> (found: Option<
    &'a serde_json::Value,
>)
    ensures
        match found {
            Some(inner) => value_model(*value) matches JsonModel::Record(fields)
                && fields.contains_key(key@) && value_model(*inner) == fields[key@],
            None => !(value_model(*value) matches JsonModel::Record(fields)
                && fields.contains_key(key@)),
        },
{
    value.get(key)
}

/// `Value::as_u64`: the number where `value` is a whole number from 0 to
/// 2^64 - 1, `None` for every other value.
pub assume_specification[ serde_json::Value::as_u64 ](value: &serde_json::Value) -> (number: Option<
    u64,
>)
    ensures
        number == match value_model(*value) {
            JsonModel::Unsigned(n) => Some(n),
            _ => None,
        },
;

/// `Value::as_str`: the text where `value` is a string, `None` for every
/// other value.
pub assume_specification<'a>[ serde_json::Value::as_str ](value: &'a serde_json::Value) -> (text:
    Option<&'a str>)
    ensures
        match text {
            Some(t) => value_model(*value) == JsonModel::Text(t@),
            None => !(value_model(*value) is Text),
        },
;

/// `Value::as_array`: the elements where `value` is an array, `None` for
/// every other value.
pub assume_specification<'a>[ serde_json::Value::as_array ](value: &'a serde_json::Value) -> (items:
    Option<&'a Vec<serde_json::Value>>)
    ensures
        match items {
            Some(list) => value_model(*value) matches JsonModel::List(models) && models.len()
                == list@.len() && forall|i: int|
                0 <= i < list@.len() ==> value_model(#[trigger] list@[i]) == models[i],
            None => !(value_model(*value) is List),
        },
;

/// What a document holds under one key, read as a value of one kind.
#[derive(Debug, PartialEq, Eq)]
pub enum Field<T> {
    /// The document is no object, or has no such key.
    Missing,
    /// The key is there and its value is of another kind.
    Mistyped,
    /// The key is there with a value of the kind asked for.
    Found(T),
}

/// The whole number from 0 to 2^64 - 1 that `document` holds under `key`.
pub open spec fn unsigned_field(document: JsonModel, key: Seq<char>) -> Field<u64> {
    match document {
        JsonModel::Record(fields) => if fields.contains_key(key) {
            match fields[key] {
                JsonModel::Unsigned(n) => Field::Found(n),
                _ => Field::Mistyped,
            }
        } else {
            Field::Missing
        },
        _ => Field::Missing,
    }
}

/// The string that `document` holds under `key`.
pub open spec fn text_field(document: JsonModel, key: Seq<char>) -> Field<Seq<char>> {
    match document {
        JsonModel::Record(fields) => if fields.contains_key(key) {
            match fields[key] {
                JsonModel::Text(text) => Field::Found(text),
                _ => Field::Mistyped,
            }
        } else {
            Field::Missing
        },
        _ => Field::Missing,
    }
}

/// The elements of the array that `document` holds under `key`.
pub open spec fn list_field(document: JsonModel, key: Seq<char>) -> Field<Seq<JsonModel>> {
    match document {
        JsonModel::Record(fields) => if fields.contains_key(key) {
            match fields[key] {
                JsonModel::List(items) => Field::Found(items),
                _ => Field::Mistyped,
            }
        } else {
            Field::Missing
        },
        _ => Field::Missing,
    }
}

/// Reads the whole number under `key`.
pub fn read_unsigned(document: &serde_json::Value, key: &str) -> (field: Field<u64>)
    ensures
        field == unsigned_field(value_model(*document), key@),
{
    match member(document, key) {
        None => Field::Missing,
        Some(inner) => match inner.as_u64() {
            Some(n) => Field::Found(n),
            None => Field::Mistyped,
        },
    }
}

/// Reads the string under `key`.
pub fn read_text<'a>(document: &'a serde_json::Value, key: &str) -> (field: Field<&'a str>)
    ensures
        match field {
            Field::Found(text) => text_field(value_model(*document), key@) == Field::Found(text@),
            Field::Mistyped => text_field(value_model(*document), key@) is Mistyped,
            Field::Missing => text_field(value_model(*document), key@) is Missing,
        },
{
    match member(document, key) {
        None => Field::Missing,
        Some(inner) => match inner.as_str() {
            Some(text) => Field::Found(text),
            None => Field::Mistyped,
        },
    }
}

/// Reads the array under `key`.
pub fn read_list<'a>(document: &'a serde_json::Value, key: &str) -> (field: Field<
    &'a Vec<serde_json::Value>,
>)
    ensures
        match field {
            Field::Found(list) => list_field(value_model(*document), key@) matches Field::Found(
                items,
            ) && items.len() == list@.len() && forall|i: int|
                0 <= i < list@.len() ==> value_model(#[trigger] list@[i]) == items[i],
            Field::Mistyped => list_field(value_model(*document), key@) is Mistyped,
            Field::Missing => list_field(value_model(*document), key@) is Missing,
        },
{
    match member(document, key) {
        None => Field::Missing,
        Some(inner) => match inner.as_array() {
            Some(list) => Field::Found(list),
            None => Field::Mistyped,
        },
    }
}

} // verus!
