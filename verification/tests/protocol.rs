//! The wire protocol, line by line.

use minidb::names::{Bucket, Key, NameError, Value, ValueError};
use minidb::protocol::{ProtocolError, Request, Response};

#[test]
fn every_request_survives_the_round_trip() {
    for line in [
        "GET users alice",
        "DEL users alice",
        "SET users alice hello",
        "SET users alice a value with spaces in it",
    ] {
        let request = Request::parse(line).expect("a valid request");
        assert!(request.to_string() == line);
    }
}

#[test]
fn every_response_survives_it_too() {
    for line in ["OK", "NIL", "VALUE hello", "ERR unknown bucket"] {
        let response = Response::parse(line).expect("a valid response");
        assert!(response.to_string() == line);
    }
}

#[test]
fn a_verb_nobody_implements_is_reported_as_such() {
    assert!(Request::parse("PING") == Err(ProtocolError::UnknownVerb("PING".to_owned())));
}

#[test]
fn a_request_missing_its_key_is_not_a_request() {
    assert!(Request::parse("GET users") == Err(ProtocolError::MissingArgument));
}

#[test]
fn a_value_with_a_newline_cannot_be_built_at_all() {
    assert!(Value::parse("two\nlines") == Err(ValueError::Newline { index: 3 }));
}

#[test]
fn a_verb_is_read_in_any_case() {
    let request = Request::parse("get users alice").unwrap();
    assert!(request == Request::Get {
            bucket: Bucket::parse("users").unwrap(),
            key: Key::parse("alice").unwrap(),
        });
    assert!(request.to_string() == "GET users alice");
    assert!(Request::parse("ping") == Err(ProtocolError::UnknownVerb("PING".to_owned())));
}

#[test]
fn a_set_keeps_the_rest_of_the_line_as_its_value() {
    let request = Request::parse("SET users alice a b  c").unwrap();
    assert!(request == Request::Put {
            bucket: Bucket::parse("users").unwrap(),
            key: Key::parse("alice").unwrap(),
            value: Value::parse("a b  c").unwrap(),
        });
}

#[test]
fn a_get_ignores_what_follows_its_key() {
    let request = Request::parse("GET users alice and more").unwrap();
    assert!(request.to_string() == "GET users alice");
}

#[test]
fn an_empty_line_is_an_empty_request() {
    assert!(Request::parse("") == Err(ProtocolError::Empty));
    assert!(Request::parse(" GET users alice") == Err(ProtocolError::Empty));
}

#[test]
fn every_missing_argument_is_reported() {
    assert!(Request::parse("GET") == Err(ProtocolError::MissingArgument));
    assert!(Request::parse("DEL users") == Err(ProtocolError::MissingArgument));
    assert!(Request::parse("SET users alice") == Err(ProtocolError::MissingArgument));
}

#[test]
fn a_bad_name_is_reported_before_a_missing_key() {
    assert!(Request::parse("GET us!ers") == Err(ProtocolError::BadName(NameError::InvalidCharacter {
            character: '!',
            index: 2
        })));
    assert!(Request::parse("GET users ") == Err(ProtocolError::BadName(NameError::Empty)));
}

#[test]
fn a_bad_value_is_reported() {
    let long = format!("SET users alice {}", "x".repeat(4097));
    assert!(Request::parse(&long) == Err(ProtocolError::BadValue(ValueError::TooLong { length: 4097 })));
    assert!(Request::parse("SET users alice a\rb") == Err(ProtocolError::BadValue(ValueError::Newline { index: 1 })));
}

#[test]
fn responses_that_are_not_responses() {
    assert!(Response::parse("") == Err(ProtocolError::Empty));
    assert!(Response::parse("OK extra") == Err(ProtocolError::UnknownVerb("OK".to_owned())));
    assert!(Response::parse("VALUE") == Err(ProtocolError::UnknownVerb("VALUE".to_owned())));
    assert!(Response::parse(" x") == Err(ProtocolError::UnknownVerb("".to_owned())));
    assert!(Response::parse("ok") == Err(ProtocolError::UnknownVerb("ok".to_owned())));
    assert!(Response::parse("VALUE a\rb") == Err(ProtocolError::BadValue(ValueError::Newline { index: 1 })));
}

#[test]
fn a_response_value_and_an_error_keep_their_spaces() {
    assert!(Response::parse("VALUE a b c") == Ok(Response::Value(Value::parse("a b c").unwrap())));
    assert!(Response::parse("VALUE ") == Ok(Response::Value(Value::parse("").unwrap())));
    assert!(Response::parse("ERR ") == Ok(Response::Error(String::new())));
    assert!(Response::Error(String::new()).to_string() == "ERR ");
}

#[test]
fn protocol_errors_read_as_the_server_reports_them() {
    assert!(ProtocolError::Empty.to_string() == "empty request");
    assert!(ProtocolError::UnknownVerb("PING".to_owned()).to_string() == "unknown verb PING");
    assert!(ProtocolError::MissingArgument.to_string() == "missing argument");
    assert!(ProtocolError::BadName(NameError::Empty).to_string() == "invalid name: Empty");
    assert!(ProtocolError::BadName(NameError::TooLong { length: 65 }).to_string() == "invalid name: TooLong { length: 65 }");
    assert!(ProtocolError::BadName(NameError::InvalidCharacter {
            character: '!',
            index: 3
        })
        .to_string() == "invalid name: InvalidCharacter { character: '!', index: 3 }");
    assert!(ProtocolError::BadName(NameError::InvalidCharacter {
            character: '\'',
            index: 0
        })
        .to_string() == "invalid name: InvalidCharacter { character: '\\'', index: 0 }");
    assert!(ProtocolError::BadValue(ValueError::TooLong { length: 4097 }).to_string() == "invalid value: TooLong { length: 4097 }");
    assert!(ProtocolError::BadValue(ValueError::Newline { index: 10 }).to_string() == "invalid value: Newline { index: 10 }");
}

#[test]
fn name_and_value_errors_convert_into_protocol_errors() {
    assert!(ProtocolError::from(NameError::Empty) == ProtocolError::BadName(NameError::Empty));
    assert!(ProtocolError::from(ValueError::Newline { index: 0 }) == ProtocolError::BadValue(ValueError::Newline { index: 0 }));
}
