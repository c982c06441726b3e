use secret_populator::render::Resolution;
use secret_populator::store::{get_secret, outcome_of, read_field, warning, LookupError, StoreReply};

fn payload(text: &str) -> StoreReply {
    StoreReply::Payload(text.to_string())
}

#[test]
fn can_get_secret() {
    let reply = payload("{\"test/secret\": \"abcd\"}");
    assert_eq!(get_secret("test/secret", &reply).unwrap(), "abcd")
}

#[test]
fn secret_is_the_field_named_like_the_key() {
    let reply = payload("{\"other\": \"no\", \"db/password\": \"s3cr3t\", \"more\": 1}");
    assert_eq!(get_secret("db/password", &reply), Ok("s3cr3t".to_string()));
    assert_eq!(get_secret("other", &reply), Ok("no".to_string()));
}

#[test]
fn secret_value_is_unescaped_json_text() {
    let reply = payload("{\"k\": \"a\\\"b\\n\\u00e9\"}");
    assert_eq!(get_secret("k", &reply), Ok("a\"b\n\u{e9}".to_string()));
}

#[test]
fn missing_secret_is_no_such_secret() {
    assert_eq!(get_secret("db/password", &StoreReply::Missing), Err(LookupError::NoSuchSecret));
}

#[test]
fn absent_payload_is_no_payload() {
    assert_eq!(get_secret("db/password", &StoreReply::Empty), Err(LookupError::NoPayload));
}

#[test]
fn unparseable_payload_is_malformed() {
    assert_eq!(get_secret("k", &payload("not json")), Err(LookupError::MalformedPayload));
    assert_eq!(get_secret("k", &payload("")), Err(LookupError::MalformedPayload));
    assert_eq!(get_secret("k", &payload("{\"k\": \"v\"} trailing")), Err(LookupError::MalformedPayload));
    assert_eq!(get_secret("k", &payload("{\"k\": ")), Err(LookupError::MalformedPayload));
}

#[test]
fn payload_without_the_field_is_missing_field() {
    assert_eq!(get_secret("k", &payload("{\"other\": \"v\"}")), Err(LookupError::MissingField));
    assert_eq!(get_secret("k", &payload("{}")), Err(LookupError::MissingField));
}

#[test]
fn field_name_is_matched_exactly() {
    let reply = payload("{\"Key\": \"v\", \" key\": \"w\"}");
    assert_eq!(get_secret("key", &reply), Err(LookupError::MissingField));
    assert_eq!(get_secret("Key", &reply), Ok("v".to_string()));
    assert_eq!(get_secret(" key", &reply), Ok("w".to_string()));
}

#[test]
fn field_that_is_no_string_is_missing_field() {
    assert_eq!(get_secret("k", &payload("{\"k\": 7}")), Err(LookupError::MissingField));
    assert_eq!(get_secret("k", &payload("{\"k\": null}")), Err(LookupError::MissingField));
    assert_eq!(get_secret("k", &payload("{\"k\": {\"k\": \"v\"}}")), Err(LookupError::MissingField));
}

#[test]
fn payload_that_is_no_object_is_missing_field() {
    assert_eq!(get_secret("k", &payload("\"k\"")), Err(LookupError::MissingField));
    assert_eq!(get_secret("k", &payload("[\"k\"]")), Err(LookupError::MissingField));
    assert_eq!(get_secret("k", &payload("12")), Err(LookupError::MissingField));
}

#[test]
fn empty_key_is_looked_up_like_any_other() {
    assert_eq!(get_secret("", &payload("{\"\": \"v\"}")), Ok("v".to_string()));
    assert_eq!(get_secret("", &payload("{\"k\": \"v\"}")), Err(LookupError::MissingField));
}

#[test]
fn read_field_reads_one_payload() {
    assert_eq!(read_field("{\"a\": \"x\", \"b\": \"y\"}", "b"), Ok("y".to_string()));
    assert_eq!(read_field("{\"a\": \"x\"}", "b"), Err(LookupError::MissingField));
    assert_eq!(read_field("{", "b"), Err(LookupError::MalformedPayload));
}

#[test]
fn every_failure_collapses_to_not_found() {
    assert_eq!(outcome_of(Err(LookupError::NoSuchSecret)), Resolution::NotFound);
    assert_eq!(outcome_of(Err(LookupError::NoPayload)), Resolution::NotFound);
    assert_eq!(outcome_of(Err(LookupError::MalformedPayload)), Resolution::NotFound);
    assert_eq!(outcome_of(Err(LookupError::MissingField)), Resolution::NotFound);
}

#[test]
fn a_value_is_resolved_as_it_is() {
    assert_eq!(outcome_of(Ok("abcd".to_string())), Resolution::Resolved("abcd".to_string()));
    assert_eq!(outcome_of(Ok(String::new())), Resolution::Resolved(String::new()));
}

#[test]
fn warning_names_the_key() {
    assert_eq!(warning("db/password"), "Secret db/password not found.");
    assert_eq!(warning(""), "Secret  not found.");
}
