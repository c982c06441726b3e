//! Reading the answer of the secret store.
//!
//! The store keeps, under an identifier, a payload: a JSON object in which the
//! secret's value stands in the field named like the identifier. Asking the
//! store is not this library's part; it takes the store's reply and says what
//! the lookup came to.

use crate::json::{json_document, json_member, json_string, member, parse_document, string_of};
use crate::render::Resolution;
use vstd::prelude::*;
use vstd::string::StringExecFns;

verus! {

/// What the store sent back for one identifier.
#[derive(Debug, Clone, PartialEq, Eq)]
pub enum StoreReply {
    /// The secret's payload.
    Payload(String),
    /// The store knows the identifier but sent no payload for it.
    Empty,
    /// The store has no secret under the identifier, or could not be asked.
    Missing,
}

/// Why a lookup gave no value.
#[derive(Debug, Clone, Copy, PartialEq, Eq)]
pub enum LookupError {
    /// The store has no secret under the identifier, or could not be asked.
    NoSuchSecret,
    /// The store sent no payload.
    NoPayload,
    /// The payload is not a JSON document.
    MalformedPayload,
    /// The payload holds no string in a field named like the key.
    MissingField,
}

/// The outcome of looking `key` up in a payload.
pub open spec fn field_of(payload: Seq<char>, key: Seq<char>) -> Result<Seq<char>, LookupError> {
    match json_document(payload) {
        Some(doc) => match json_string(json_member(doc, key)) {
            Some(value) => Ok(value),
            None => Err(LookupError::MissingField),
        },
        None => Err(LookupError::MalformedPayload),
    }
}

/// The outcome of a lookup of `key` that the store answered with `reply`.
pub open spec fn lookup(key: Seq<char>, reply: StoreReply) -> Result<Seq<char>, LookupError> {
    match reply {
        StoreReply::Payload(payload) => field_of(payload@, key),
        StoreReply::Empty => Err(LookupError::NoPayload),
        StoreReply::Missing => Err(LookupError::NoSuchSecret),
    }
}

/// `got` is `wanted`, the value taken as its characters.
pub open spec fn agrees(
    got: Result<String, LookupError>,
    wanted: Result<Seq<char>, LookupError>,
) -> bool {
    match got {
        Ok(value) => wanted == Ok::<Seq<char>, LookupError>(value@),
        Err(cause) => wanted == Err::<Seq<char>, LookupError>(cause),
    }
}

/// Reads `payload` as a JSON document and takes the string in its field
/// named `key`.
pub fn read_field(payload: &str, key: &str) -> (got: Result<String, LookupError>)
    ensures
        agrees(got, field_of(payload@, key@)),
{
    match parse_document(payload) {
        Ok(doc) => match string_of(member(&doc, key)) {
            Some(value) => Ok(String::from_str(value)),
            None => Err(LookupError::MissingField),
        },
        Err(_) => Err(LookupError::MalformedPayload),
    }
}

/// The secret for `s`, taken from what the store sent back for it. No reply
/// makes this fail otherwise than by an error that says why there is no
/// value.
pub fn get_secret(s: &str, reply: &StoreReply) -> (got: Result<String, LookupError>)
    ensures
        agrees(got, lookup(s@, *reply)),
{
    match reply {
        StoreReply::Payload(payload) => read_field(payload.as_str(), s),
        StoreReply::Empty => Err(LookupError::NoPayload),
        StoreReply::Missing => Err(LookupError::NoSuchSecret),
    }
}

/// What a lookup means for the token: its value, or that there is none,
/// whatever the cause.
pub fn outcome_of(got: Result<String, LookupError>) -> (outcome: Resolution)
    ensures
        match got {
            Ok(value) => outcome == Resolution::Resolved(value),
            Err(_) => outcome == Resolution::NotFound,
        },
{
    match got {
        Ok(value) => Resolution::Resolved(value),
        Err(_) => Resolution::NotFound,
    }
}

/// The warning for a key whose lookup gave no value. It names the key.
pub fn warning(key: &str) -> (text: String)
    ensures
        text@ == "Secret "@ + key@ + " not found."@,
{
    let mut text = String::from_str("Secret ");
    text.append(key);
    text.append(" not found.");
    text
}

} // verus!
