//! What this library takes from `serde_json`: reading a payload as a JSON
//! document and looking at one member of it. Nothing in this file is proved;
//! each contract says what the library believes of the function it names.

use vstd::prelude::*;

verus! {

/// A JSON value as `serde_json` holds it. Nothing is known of what is inside
/// one but what the functions below tell.
#[verifier::external_type_specification]
#[verifier::external_body]
pub struct ExValue(serde_json::Value);

/// The error that `serde_json` gives for a text that it cannot read.
#[verifier::external_type_specification]
#[verifier::external_body]
pub struct ExError(serde_json::Error);

/// The document that `serde_json::from_str` reads from `text`, or `None`
/// where it gives an error.
pub uninterp spec fn json_document(text: Seq<char>) -> Option<serde_json::Value>;

/// What indexing `doc` with the string `name` gives: the member of that name
/// where `doc` is an object that has one, else the JSON null.
pub uninterp spec fn json_member(doc: serde_json::Value, name: Seq<char>) -> serde_json::Value;

/// The text of `value` where it is a JSON string, else `None`.
pub uninterp spec fn json_string(value: serde_json::Value) -> Option<Seq<char>>;

/// Calls `serde_json::from_str` for a `serde_json::Value`. The result is a
/// function of the text alone: the document named `json_document(text)`, or an
/// error where there is none.
#[verifier::external_body]
pub(crate) fn parse_document(text: &str) -> (parsed: Result<serde_json::Value, serde_json::Error>)
    ensures
        match parsed {
            Ok(doc) => json_document(text@) == Some(doc),
            Err(_) => json_document(text@) is None,
        },
{
    serde_json::from_str(text)
}

/// Indexes a `serde_json::Value` with a string, as `doc[name]` does. The
/// index operator of `Value` does not panic: for a missing member, or a value
/// that is no object, it gives a reference to a null.
#[verifier::external_body]
pub(crate) fn member<'a>(doc: &'a serde_json::Value, name: &str) -> (found: &'a serde_json::Value)
    ensures
        *found == json_member(*doc, name@),
{
    &doc[name]
}

/// Calls `serde_json::Value::as_str`: the text of a JSON string, `None` for
/// any other value.
#[verifier::external_body]
pub(crate) fn string_of<'a>(value: &'a serde_json::Value) -> (text: Option<&'a str>)
    ensures
        match text {
            Some(t) => json_string(*value) == Some(t@),
            None => json_string(*value) is None,
        },
{
    value.as_str()
}

} // verus!
