//! Which strings can be bucket names, keys and values.

use minidb::names::{Bucket, Key, NameError, Value, ValueError};

#[test]
fn a_name_may_hold_letters_digits_and_four_marks() {
    let bucket = Bucket::parse("Users-2024_v1.0/eu").unwrap();
    assert!(bucket.as_str() == "Users-2024_v1.0/eu");
    assert!(Key::parse("alice").unwrap().as_str() == "alice");
}

#[test]
fn an_empty_name_is_refused() {
    assert!(Bucket::parse("") == Err(NameError::Empty));
    assert!(Key::parse("") == Err(NameError::Empty));
}

#[test]
fn a_name_is_limited_to_sixty_four_bytes() {
    assert!(Key::parse(&"k".repeat(64)).is_ok());
    assert!(Key::parse(&"k".repeat(65)) == Err(NameError::TooLong { length: 65 }));
    // Thirty-three two-byte characters: too long in bytes, though short in characters.
    assert!(Bucket::parse(&"é".repeat(33)) == Err(NameError::TooLong { length: 66 }));
}

#[test]
fn the_first_bad_character_is_reported_with_its_offset() {
    assert!(Bucket::parse("ab cd!") == Err(NameError::InvalidCharacter {
            character: ' ',
            index: 2
        }));
    assert!(Key::parse("aé") == Err(NameError::InvalidCharacter {
            character: 'é',
            index: 1
        }));
}

#[test]
fn a_value_is_limited_to_four_kilobytes() {
    assert!(Value::parse(&"v".repeat(4096)).is_ok());
    assert!(Value::parse(&"v".repeat(4097)) == Err(ValueError::TooLong { length: 4097 }));
}

#[test]
fn a_line_break_is_reported_at_its_byte_offset() {
    assert!(Value::parse("héllo\r") == Err(ValueError::Newline { index: 6 }));
    assert!(Value::parse("\n") == Err(ValueError::Newline { index: 0 }));
}

#[test]
fn a_value_may_hold_anything_else() {
    let value = Value::parse("a value, with spaces: ünïcödé!").unwrap();
    assert!(value.as_str() == "a value, with spaces: ünïcödé!");
    assert!(Value::parse("").unwrap().as_str() == "");
}

#[test]
fn a_value_is_described_by_its_size_alone() {
    assert!(Value::parse("secret").unwrap().describe() == "Value(<redacted, 6 bytes>)");
    assert!(Value::parse("é").unwrap().describe() == "Value(<redacted, 2 bytes>)");
}

#[test]
fn a_clone_is_equal_to_its_original() {
    let bucket = Bucket::parse("users").unwrap();
    let key = Key::parse("alice").unwrap();
    let value = Value::parse("hello").unwrap();
    assert!(bucket.clone() == bucket);
    assert!(key.clone() == key);
    assert!(value.clone() == value);
    assert!(Key::parse("bob").unwrap() != key);
}

#[test]
fn debugging_output_never_shows_a_value() {
    let value = Value::parse("secret").unwrap();
    let shown = value.describe();
    assert!(shown == "Value(<redacted, 6 bytes>)");
    assert!(!shown.contains("secret"));
}

#[test]
fn a_name_holds_ascii_letters_digits_and_four_marks_only() {
    for accepted in ["a", "Z", "7", "/", "-", "_", "."] {
        assert!(Key::parse(accepted).is_ok(), "{accepted}");
    }
    for (refused, character) in [(" ", ' '), ("*", '*'), (":", ':'), ("é", 'é')] {
        assert!(Key::parse(refused) == Err(NameError::InvalidCharacter { character, index: 0 }));
    }
}

#[test]
fn a_name_is_checked_for_emptiness_then_length_then_characters() {
    assert!(Key::parse("") == Err(NameError::Empty));
    assert!(Key::parse(&"!".repeat(65)) == Err(NameError::TooLong { length: 65 }));
    assert!(
        Key::parse("ok-so.far/then!and?") == Err(NameError::InvalidCharacter { character: '!', index: 14 })
    );
}
