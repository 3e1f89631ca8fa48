//! What the library takes from other crates: JSON documents from `serde_json`,
//! SHA-256 from `sha2`, and the UTF-8 decoders of the standard library.
//!
//! Nothing in this module is proved. Each contract states what the function
//! behind it is known to do.

use sha2::Digest;
use vstd::prelude::*;
use vstd::utf8::{decode_utf8, valid_utf8};

use crate::text;

verus! {

/// A JSON document, as `serde_json::Value` holds it.
#[verifier::external_type_specification]
#[verifier::external_body]
pub struct ExJsonValue(serde_json::Value);

/// Model of a JSON document. A number stands for its numeral in JSON text, and
/// a record keeps its fields in the order in which they were inserted.
#[verifier::ext_equal]
pub enum JsonView {
    Null,
    Bool(bool),
    Number(Seq<char>),
    Text(Seq<char>),
    List(Seq<JsonView>),
    Record(Seq<(Seq<char>, JsonView)>),
}

/// What a JSON document holds.
pub uninterp spec fn json_model(value: serde_json::Value) -> JsonView;

/// The compact JSON text that `serde_json::to_vec` writes for a document.
pub uninterp spec fn json_bytes(document: JsonView) -> Seq<u8>;

/// What `serde_json::from_slice` reads from JSON text: a document, or the
/// message of the error.
pub uninterp spec fn json_document(bytes: Seq<u8>) -> Result<JsonView, Seq<char>>;

/// The SHA-256 digest of some bytes.
pub uninterp spec fn sha256(bytes: Seq<u8>) -> Seq<u8>;

/// The text that `String::from_utf8_lossy` reads from some bytes.
pub uninterp spec fn lossy_text(bytes: Seq<u8>) -> Seq<char>;

/// The message with which `String::from_utf8` refuses some bytes.
pub uninterp spec fn utf8_refusal(bytes: Seq<u8>) -> Seq<char>;

/// The documents that a list of JSON values holds.
pub open spec fn json_models(values: Seq<serde_json::Value>) -> Seq<JsonView> {
    values.map_values(|value: serde_json::Value| json_model(value))
}

/// The fields that a list of named JSON values holds.
pub open spec fn json_fields(fields: Seq<(String, serde_json::Value)>) -> Seq<
    (Seq<char>, JsonView),
> {
    fields.map_values(|field: (String, serde_json::Value)| (field.0@, json_model(field.1)))
}

/// No two fields have one name.
pub open spec fn distinct_names(fields: Seq<(Seq<char>, JsonView)>) -> bool {
    forall|i: int, j: int| 0 <= i < j < fields.len() ==> (#[trigger] fields[i]).0 != (
    #[trigger] fields[j]).0
}

/// The value of the first field called `name`.
pub open spec fn field_of(fields: Seq<(Seq<char>, JsonView)>, name: Seq<char>) -> Option<JsonView>
    decreases fields.len(),
{
    if fields.len() == 0 {
        None
    } else if fields[0].0 == name {
        Some(fields[0].1)
    } else {
        field_of(fields.drop_first(), name)
    }
}

/// The value of the field called `name` in a document; none when the document
/// is no record or has no such field.
pub open spec fn member_of(document: JsonView, name: Seq<char>) -> Option<JsonView> {
    match document {
        JsonView::Record(fields) => field_of(fields, name),
        _ => None,
    }
}

/// `serde_json::Value::String`: the document that is a text.
#[verifier::external_body]
pub(crate) fn json_text(text: &str) -> (result: serde_json::Value)
    ensures
        json_model(result) == JsonView::Text(text@),
{
    serde_json::Value::String(text.to_owned())
}

/// `serde_json::Value::from` on an unsigned integer: the document that is a
/// number, written in JSON as the decimal numeral.
#[verifier::external_body]
pub(crate) fn json_number(number: u64) -> (result: serde_json::Value)
    ensures
        json_model(result) == JsonView::Number(text::decimal(number as nat)),
{
    serde_json::Value::from(number)
}

/// `serde_json::Value::Array`: the document that is a list.
#[verifier::external_body]
pub(crate) fn json_list(items: Vec<serde_json::Value>) -> (result: serde_json::Value)
    ensures
        json_model(result) == JsonView::List(json_models(items@)),
{
    serde_json::Value::Array(items)
}

/// `serde_json::Map::from_iter` and `serde_json::Value::Object`: the document
/// that is a record. With the crate's `preserve_order` feature the fields stay
/// in the given order, as long as no name occurs twice.
#[verifier::external_body]
pub(crate) fn json_record(fields: Vec<(String, serde_json::Value)>) -> (result: serde_json::Value)
    requires
        distinct_names(json_fields(fields@)),
    ensures
        json_model(result) == JsonView::Record(json_fields(fields@)),
{
    serde_json::Value::Object(fields.into_iter().collect())
}

/// `serde_json::to_vec`: the compact JSON text of a document. Writing a
/// document into memory does not fail, and no other document has the same text.
#[verifier::external_body]
pub(crate) fn json_to_vec(value: &serde_json::Value) -> (result: Result<Vec<u8>, String>)
    ensures
        result is Ok,
        result->Ok_0@ == json_bytes(json_model(*value)),
        forall|other: JsonView| #[trigger]
            json_bytes(other) == result->Ok_0@ ==> other == json_model(*value),
{
    serde_json::to_vec(value).map_err(|error| error.to_string())
}

/// `serde_json::from_slice`: the document that JSON text holds, or the message
/// of the error. Which texts are refused, and in which words, is not stated.
#[verifier::external_body]
pub(crate) fn json_from_slice(bytes: &[u8]) -> (result: Result<serde_json::Value, String>)
    ensures
        match result {
            Ok(value) => json_document(bytes@) == Ok::<JsonView, Seq<char>>(json_model(value)),
            Err(message) => json_document(bytes@) == Err::<JsonView, Seq<char>>(message@),
        },
{
    serde_json::from_slice(bytes).map_err(|error| error.to_string())
}

/// `serde_json::Value::get`: the field called `name`, when the document is a
/// record that has it.
#[verifier::external_body]
pub(crate) fn json_get<'a>(value: &'a serde_json::Value, name: &str) -> (result: Option<
    &'a serde_json::Value,
>)
    ensures
        match result {
            Some(found) => member_of(json_model(*value), name@) == Some(json_model(*found)),
            None => member_of(json_model(*value), name@) is None,
        },
{
    value.get(name)
}

/// `serde_json::Value::is_null`: whether the document is `null`.
#[verifier::external_body]
pub(crate) fn json_is_null(value: &serde_json::Value) -> (result: bool)
    ensures
        result == (json_model(*value) is Null),
{
    value.is_null()
}

/// `sha2::Sha256::digest`: the SHA-256 digest of some bytes, which is always
/// 32 bytes long.
#[verifier::external_body]
pub(crate) fn sha256_digest(bytes: &[u8]) -> (result: Vec<u8>)
    ensures
        result@ == sha256(bytes@),
        result@.len() == 32,
{
    sha2::Sha256::digest(bytes).to_vec()
}

/// `String::from_utf8`: the text that valid UTF-8 encodes, or the message with
/// which other bytes are refused.
#[verifier::external_body]
pub(crate) fn utf8_text(bytes: Vec<u8>) -> (result: Result<String, String>)
    ensures
        match result {
            Ok(text) => valid_utf8(bytes@) && text@ == decode_utf8(bytes@),
            Err(message) => !valid_utf8(bytes@) && message@ == utf8_refusal(bytes@),
        },
{
    String::from_utf8(bytes).map_err(|error| error.to_string())
}

/// `String::from_utf8_lossy`: the text that some bytes encode, with a
/// replacement character in place of what is no UTF-8. On valid UTF-8 it is the
/// text that the bytes encode.
#[verifier::external_body]
pub(crate) fn utf8_lossy(bytes: &[u8]) -> (result: String)
    ensures
        result@ == lossy_text(bytes@),
        valid_utf8(bytes@) ==> result@ == decode_utf8(bytes@),
{
    String::from_utf8_lossy(bytes).into_owned()
}

} // verus!
