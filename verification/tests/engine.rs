use gsjf::engine::{extract, validate};
use gsjf::reader::{JSONReader, JSONType, Reader};
use gsjf::result::{ErrorKind, Extraction, JSONError, Outcome};

const DOC: &[u8] =
    r#"{"name":"alex","boy":true,"hobbies":["cooking","guitar"],"nested":{"foo":"bar"}}"#
        .as_bytes();

fn text<'a>(doc: &'a [u8], extraction: &Extraction) -> &'a [u8] {
    let value = extraction.values.last().unwrap();
    &doc[value.range.0..value.range.1]
}

#[test]
fn extract_name() {
    let found = extract(DOC, b"name");
    assert_eq!(found.outcome, Outcome::Resolved);
    assert_eq!(found.values.len(), 1);
    assert_eq!(found.values[0].json_type, JSONType::STRING);
    assert_eq!(found.values[0].range, (8, 14));
    assert_eq!(text(DOC, &found), br#""alex""#);
}

#[test]
fn extract_boy() {
    let found = extract(DOC, b"boy");
    assert_eq!(found.outcome, Outcome::Resolved);
    assert_eq!(found.values.len(), 1);
    assert_eq!(found.values[0].json_type, JSONType::BOOLEAN);
    assert_eq!(text(DOC, &found), b"true");
}

#[test]
fn extract_nested_foo() {
    let found = extract(DOC, b"nested.foo");
    assert_eq!(found.outcome, Outcome::Resolved);
    assert_eq!(found.values.len(), 2);
    assert_eq!(found.values[0].json_type, JSONType::OBJECT);
    assert_eq!(&DOC[found.values[0].range.0..found.values[0].range.1], br#"{"foo":"bar"}"#);
    assert_eq!(found.values[1].json_type, JSONType::STRING);
    assert_eq!(text(DOC, &found), br#""bar""#);
}

#[test]
fn extract_missing() {
    let found = extract(DOC, b"missing");
    assert_eq!(found.outcome, Outcome::NotFound);
    assert!(found.values.is_empty());
    let found = extract(DOC, b"nested.missing");
    assert_eq!(found.outcome, Outcome::NotFound);
    assert_eq!(found.values.len(), 1);
    assert_eq!(found.values[0].json_type, JSONType::OBJECT);
}

#[test]
fn extract_array_and_number() {
    let found = extract(DOC, b"hobbies");
    assert_eq!(found.outcome, Outcome::Resolved);
    assert_eq!(found.values[0].json_type, JSONType::ARRAY);
    assert_eq!(text(DOC, &found), br#"["cooking","guitar"]"#);
    let doc = br#"{ "age" : 32 , "none" : null }"#;
    let found = extract(doc, b"age");
    assert_eq!(found.outcome, Outcome::Resolved);
    assert_eq!(found.values[0].json_type, JSONType::NUMBER);
    assert_eq!(found.values[0].range, (10, 12));
    let found = extract(doc, b"none");
    assert_eq!(found.values[0].json_type, JSONType::NULL);
    assert_eq!(found.values[0].range, (24, 28));
}

#[test]
fn extract_does_not_leave_the_selected_object() {
    let doc = br#"{"nested":{"foo":1},"name":"x"}"#;
    let found = extract(doc, b"nested.name");
    assert_eq!(found.outcome, Outcome::NotFound);
    assert_eq!(found.values.len(), 1);
    let found = extract(doc, b"name.nested");
    assert_eq!(found.outcome, Outcome::NotFound);
    assert_eq!(found.values.len(), 1);
    assert_eq!(found.values[0].json_type, JSONType::STRING);
}

#[test]
fn extract_passes_over_empty_components() {
    for path in [&b".nested.foo"[..], b"nested..foo", b"nested.foo.", b"..nested...foo.."] {
        let found = extract(DOC, path);
        assert_eq!(found.outcome, Outcome::Resolved);
        assert_eq!(found.values.len(), 2);
        assert_eq!(text(DOC, &found), br#""bar""#);
    }
    let found = extract(DOC, b"");
    assert_eq!(found.outcome, Outcome::Resolved);
    assert!(found.values.is_empty());
    let found = extract(DOC, b"name.");
    assert_eq!(found.outcome, Outcome::Resolved);
    assert_eq!(found.values.len(), 1);
}

#[test]
fn extract_tells_malformed_from_missing() {
    let found = extract(br#"{"a" 1}"#, b"a");
    assert_eq!(
        found.outcome,
        Outcome::Malformed(JSONError { kind: ErrorKind::UnexpectedByte, offset: 5 })
    );
    assert!(found.values.is_empty());
    let found = extract(br#"{"a""#, b"a");
    assert_eq!(
        found.outcome,
        Outcome::Malformed(JSONError { kind: ErrorKind::Truncated, offset: 4 })
    );
    let found = extract(br#"{"a":}"#, b"a");
    assert_eq!(
        found.outcome,
        Outcome::Malformed(JSONError { kind: ErrorKind::MalformedValue, offset: 5 })
    );
    let found = extract(br#"{"a":{"b":[1,2}"#, b"a.b");
    assert_eq!(
        found.outcome,
        Outcome::Malformed(JSONError { kind: ErrorKind::Truncated, offset: 15 })
    );
    assert_eq!(found.values.len(), 1);
    assert_eq!(found.values[0].range, (5, 15));
    let found = extract(br#"{"a":{"b":[1,2"#, b"a.b");
    assert_eq!(
        found.outcome,
        Outcome::Malformed(JSONError { kind: ErrorKind::Truncated, offset: 14 })
    );
    assert!(found.values.is_empty());
}

#[test]
fn extract_with_whitespace() {
    let doc = br#"
{
  "name": "alex",
  "nested": {"foo": "bar", "herp": false, "something": null},
  "something":  "else"
}
    "#;
    let found = extract(doc, b"something");
    assert_eq!(found.outcome, Outcome::Resolved);
    assert_eq!(text(doc, &found), br#""else""#);
    let found = extract(doc, b"nested.something");
    assert_eq!(found.outcome, Outcome::Resolved);
    assert_eq!(found.values[1].json_type, JSONType::NULL);
    assert_eq!(text(doc, &found), b"null");
    let found = extract(doc, b"nested.herp");
    assert_eq!(found.values[1].json_type, JSONType::BOOLEAN);
    assert_eq!(text(doc, &found), b"false");
}

#[test]
fn extract_agrees_with_find_key_and_read_value() {
    let mut reader = JSONReader::new(DOC);
    assert_eq!(reader.find_key(b"hobbies"), Some((27, 34)));
    let value = reader.read_value().unwrap();
    let found = extract(DOC, b"hobbies");
    assert_eq!(found.values[0], value);
}

#[test]
fn extract_wants_one_colon_after_the_key() {
    let found = extract(br#"{"a" : 1}"#, b"a");
    assert_eq!(found.outcome, Outcome::Resolved);
    assert_eq!(found.values[0].range, (7, 8));
    let found = extract(br#"{"a"::1}"#, b"a");
    assert_eq!(
        found.outcome,
        Outcome::Malformed(JSONError { kind: ErrorKind::MalformedValue, offset: 5 })
    );
    let found = extract(br#"{"a",1}"#, b"a");
    assert_eq!(
        found.outcome,
        Outcome::Malformed(JSONError { kind: ErrorKind::UnexpectedByte, offset: 4 })
    );
}

#[test]
fn validate_reports_kind_and_offset() {
    assert_eq!(validate(DOC), Ok(()));
    assert_eq!(
        validate(br#"{"is": null, "isnt":nil}"#),
        Err(JSONError { kind: ErrorKind::UnexpectedByte, offset: 21 })
    );
}
