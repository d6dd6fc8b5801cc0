use gsjf::engine::validate;
use gsjf::reader::{JSONReader, Reader};
use gsjf::result::{ErrorKind, JSONError};
use gsjf::validation::{
    check_array, check_boolean, check_document, check_null, check_number, check_object,
    check_string, check_value, Validator,
};

const JSON_BOOLEAN: &[u8] = r#"{"foo": true, "bar": false}"#.as_bytes();
const JSON_NULL: &[u8] = r#"{"is": null, "isnt":nil}"#.as_bytes();
const JSON_STRING: &[u8] = r#"{}"#.as_bytes();

fn refusal(json: &[u8]) -> (ErrorKind, usize) {
    let e: JSONError = validate(json).unwrap_err();
    (e.kind, e.offset)
}

#[test]
fn test_validate_boolean() {
    let mut reader: JSONReader = JSONReader::new(JSON_BOOLEAN);
    reader.seek(9);
    assert_eq!(reader.validate_boolean(), true);
    reader.seek(22);
    assert_eq!(reader.validate_boolean(), true);
}

#[test]
fn test_validate_null() {
    let mut reader: JSONReader = JSONReader::new(JSON_NULL);
    reader.seek(7);
    assert_eq!(reader.validate_null(), true);
    reader.seek(44);
    assert_eq!(reader.validate_null(), false);
}

#[test]
fn test_validate_string() {
    let mut reader: JSONReader = JSONReader::new(JSON_STRING);
    assert_eq!(reader.validate(), true);
    let mut reader: JSONReader = JSONReader::new(JSON_BOOLEAN);
    reader.seek(2);
    assert_eq!(reader.validate_string(), true);
    assert_eq!(reader.cursor(), 6);
    reader.seek(3);
    assert_eq!(reader.validate_string(), false);
    assert_eq!(reader.cursor(), 3);
}

#[test]
fn states_leave_the_cursor_past_the_construct() {
    let mut reader: JSONReader = JSONReader::new(JSON_BOOLEAN);
    reader.seek(9);
    assert!(reader.validate_boolean());
    assert_eq!(reader.cursor(), 12);
    reader.seek(22);
    assert!(reader.validate_boolean());
    assert_eq!(reader.cursor(), 26);
    let mut reader: JSONReader = JSONReader::new(JSON_NULL);
    reader.seek(8);
    assert!(reader.validate_null());
    assert_eq!(reader.cursor(), 11);
    reader.seek(21);
    assert!(!reader.validate_null());
    assert_eq!(reader.cursor(), 21);
}

#[test]
fn states_begin_at_the_start_of_a_fresh_buffer() {
    assert!(JSONReader::new(b"null").validate_null());
    assert!(JSONReader::new(b"  false").validate_boolean());
    assert!(JSONReader::new(b"{}").validate_object());
    assert!(JSONReader::new(b"[ ]").validate_array());
    assert!(JSONReader::new(b"-0.5").validate_number());
    assert!(JSONReader::new(br#""x""#).validate_string());
    assert!(JSONReader::new(b" [1, {\"a\": null}] ").validate_value());
    assert!(!JSONReader::new(b"nul").validate_null());
    assert!(!JSONReader::new(b"tru").validate_boolean());
    assert!(!JSONReader::new(b"[}").validate_array());
    assert!(!JSONReader::new(b"[]").validate_object());
    assert!(!JSONReader::new(b"{}").validate_array());
    assert!(!JSONReader::new(b"--1").validate_number());
    assert!(!JSONReader::new(b"").validate_value());
}

#[test]
fn validate_judges_the_whole_buffer() {
    let mut reader: JSONReader = JSONReader::new(JSON_BOOLEAN);
    reader.seek(5);
    assert!(reader.validate());
    assert_eq!(reader.cursor(), JSON_BOOLEAN.len());
    let mut reader: JSONReader = JSONReader::new(JSON_NULL);
    reader.seek(5);
    assert!(!reader.validate());
    assert_eq!(reader.cursor(), 5);
}

#[test]
fn validation_examples() {
    assert!(validate(JSON_NULL).is_err());
    assert_eq!(refusal(JSON_NULL), (ErrorKind::UnexpectedByte, 21));
    assert_eq!(validate(JSON_BOOLEAN), Ok(()));
    assert_eq!(validate(b"{}"), Ok(()));
    assert_eq!(validate(b"[]"), Ok(()));
    assert_eq!(refusal(br#"{"a":}"#), (ErrorKind::MalformedValue, 5));
}

#[test]
fn escape_validity() {
    assert_eq!(refusal(br#""\u00ZZ""#), (ErrorKind::InvalidEscape, 5));
    assert_eq!(validate(br#""\\""#), Ok(()));
    assert_eq!(refusal(br#""\\"""#), (ErrorKind::TrailingData, 4));
    assert_eq!(validate(br#""\"""#), Ok(()));
    assert_eq!(refusal(br#""\""#), (ErrorKind::Truncated, 3));
    assert_eq!(validate(br#""\" \\ \/ \b \f \n \r \t \u12aF""#), Ok(()));
    assert_eq!(refusal(br#""\x""#), (ErrorKind::InvalidEscape, 2));
    assert_eq!(refusal(br#""\u12g4""#), (ErrorKind::InvalidEscape, 5));
    assert_eq!(refusal(br#""\u12"#), (ErrorKind::Truncated, 5));
    assert_eq!(refusal(br#""\"#), (ErrorKind::Truncated, 2));
    assert_eq!(refusal(br#""\uzzzz""#), (ErrorKind::InvalidEscape, 3));
}

#[test]
fn error_kinds() {
    assert_eq!(refusal(br#"{"a":1"#), (ErrorKind::Truncated, 6));
    assert_eq!(refusal(br#"{"a" 1}"#), (ErrorKind::UnexpectedByte, 5));
    assert_eq!(refusal(br#"{"a":1 "b":2}"#), (ErrorKind::UnexpectedByte, 7));
    assert_eq!(refusal(br#"{a:1}"#), (ErrorKind::UnexpectedByte, 1));
    assert_eq!(refusal(br#"{"a":1,}"#), (ErrorKind::UnexpectedByte, 7));
    assert_eq!(refusal(b"[1,]"), (ErrorKind::MalformedValue, 3));
    assert_eq!(refusal(b"[1 2]"), (ErrorKind::UnexpectedByte, 3));
    assert_eq!(refusal(b"{} x"), (ErrorKind::TrailingData, 3));
    assert_eq!(refusal(b"{}{}"), (ErrorKind::TrailingData, 2));
    assert_eq!(refusal(b""), (ErrorKind::Truncated, 0));
    assert_eq!(refusal(b"   "), (ErrorKind::Truncated, 3));
    assert_eq!(refusal(b"?"), (ErrorKind::MalformedValue, 0));
    assert_eq!(refusal(b"["), (ErrorKind::Truncated, 1));
    assert_eq!(refusal(b"[[[]]"), (ErrorKind::Truncated, 5));
    assert_eq!(refusal(br#""abc"#), (ErrorKind::Truncated, 4));
    assert_eq!(refusal(b"tru"), (ErrorKind::Truncated, 3));
    assert_eq!(refusal(b"trux"), (ErrorKind::UnexpectedByte, 3));
    assert_eq!(refusal(b"nil"), (ErrorKind::UnexpectedByte, 1));
    assert_eq!(refusal(b"fals"), (ErrorKind::Truncated, 4));
}

#[test]
fn numbers() {
    for good in [
        &b"0"[..], b"-0", b"7", b"10", b"-12", b"0.5", b"1.25", b"1e5", b"1E5", b"1e+5", b"1e-5",
        b"-1.5e10", b"0e0", b" 42 ",
    ] {
        assert_eq!(validate(good), Ok(()));
    }
    assert_eq!(refusal(b"01"), (ErrorKind::TrailingData, 1));
    assert_eq!(refusal(b"-"), (ErrorKind::Truncated, 1));
    assert_eq!(refusal(b"-a"), (ErrorKind::UnexpectedByte, 1));
    assert_eq!(refusal(b"1."), (ErrorKind::Truncated, 2));
    assert_eq!(refusal(b"1.e5"), (ErrorKind::UnexpectedByte, 2));
    assert_eq!(refusal(b".5"), (ErrorKind::UnexpectedByte, 0));
    assert_eq!(refusal(b"1e"), (ErrorKind::Truncated, 2));
    assert_eq!(refusal(b"1e+"), (ErrorKind::Truncated, 3));
    assert_eq!(refusal(b"1e+x"), (ErrorKind::UnexpectedByte, 3));
    assert_eq!(refusal(b"+1"), (ErrorKind::MalformedValue, 0));
    assert_eq!(refusal(b"1.5.2"), (ErrorKind::TrailingData, 3));
}

#[test]
fn nested_documents() {
    let doc = br#"
{
  "name": "alex",
  "boy": true,
  "age": 32,
  "hobbies": ["cooking", "guitar"],
  "nested": {"foo": "bar", "herp": false, "something": null},
  "something":  "else"
}
    "#;
    assert_eq!(validate(doc), Ok(()));
    assert_eq!(validate(b"[[],[[]],{\"a\":[{}]}]"), Ok(()));
    assert_eq!(validate(b" \t\r\n[ 1 , 2 ]\n"), Ok(()));
    assert_eq!(validate(br#"{"a}":"{"}"#), Ok(()));
    assert_eq!(validate(b"\"raw \x01 control\""), Ok(()));
    assert_eq!(refusal(b"[1,2}"), (ErrorKind::UnexpectedByte, 4));
    assert_eq!(refusal(br#"{"a":[1,{"b":tru}]}"#), (ErrorKind::UnexpectedByte, 16));
}

#[test]
fn deep_nesting() {
    let mut doc: Vec<u8> = Vec::new();
    for _ in 0..200 {
        doc.push(b'[');
    }
    for _ in 0..200 {
        doc.push(b']');
    }
    assert_eq!(validate(&doc), Ok(()));
    doc.pop();
    assert_eq!(refusal(&doc), (ErrorKind::Truncated, 399));
}

#[test]
fn checks_start_at_the_next_unread_byte() {
    let data = br#"{"k": [true, null, -1, "s"]}"#;
    let mut reader = JSONReader::new(data);
    assert_eq!(check_object(&mut reader), Ok(()));
    assert_eq!(reader.cursor(), data.len());
    reader.seek(1);
    assert_eq!(check_string(&mut reader), Ok(()));
    assert_eq!(reader.cursor(), 4);
    reader.seek(5);
    assert_eq!(check_value(&mut reader), Ok(()));
    assert_eq!(reader.cursor(), 27);
    reader.seek(6);
    assert_eq!(check_array(&mut reader), Ok(()));
    assert_eq!(reader.cursor(), 27);
    reader.seek(7);
    assert_eq!(check_boolean(&mut reader), Ok(()));
    assert_eq!(reader.cursor(), 11);
    reader.seek(13);
    assert_eq!(check_null(&mut reader), Ok(()));
    assert_eq!(reader.cursor(), 17);
    reader.seek(19);
    assert_eq!(check_number(&mut reader), Ok(()));
    assert_eq!(reader.cursor(), 21);
    reader.seek(12);
    let e = check_null(&mut reader).unwrap_err();
    assert_eq!((e.kind, e.offset), (ErrorKind::UnexpectedByte, 12));
    assert_eq!(reader.cursor(), 12);
    let e = check_object(&mut reader).unwrap_err();
    assert_eq!((e.kind, e.offset), (ErrorKind::UnexpectedByte, 12));
    let e = check_array(&mut reader).unwrap_err();
    assert_eq!((e.kind, e.offset), (ErrorKind::UnexpectedByte, 12));
    let e = check_string(&mut reader).unwrap_err();
    assert_eq!((e.kind, e.offset), (ErrorKind::UnexpectedByte, 12));
    reader.seek(3);
    assert_eq!(check_document(&mut reader), Ok(()));
    assert_eq!(reader.cursor(), data.len());
}

#[test]
fn validator_agrees_with_the_grammar_on_small_inputs() {
    let valid: [&[u8]; 8] = [
        b"null", b"true", b"false", b"0", br#""""#, b"{}", b"[]", br#"{"":[null,{"a":-1e2}]}"#,
    ];
    for doc in valid {
        assert_eq!(validate(doc), Ok(()));
        assert!(JSONReader::new(doc).validate());
    }
    let invalid: [&[u8]; 8] =
        [b"nul", b"True", b"00", b"'a'", b"{,}", b"[,]", br#"{"a"}"#, br#"{"a":1}}"#];
    for doc in invalid {
        assert!(validate(doc).is_err());
        assert!(!JSONReader::new(doc).validate());
    }
}

#[test]
fn position_after_a_state_is_the_last_byte_of_the_construct() {
    let mut reader = JSONReader::new(br#""\\"""#);
    reader.seek(1);
    assert!(reader.validate_string());
    assert_eq!(reader.position(), 3);
    let mut reader = JSONReader::new(br#""\n\u00aF" "#);
    reader.seek(1);
    assert!(reader.validate_string());
    assert_eq!(reader.position(), 9);
    let mut reader = JSONReader::new(JSON_BOOLEAN);
    reader.seek(1);
    assert_eq!(reader.current(), Some(b'{'));
    assert!(reader.validate_object());
    assert_eq!(reader.position(), 26);
    let mut reader = JSONReader::new(b"[true,null] ");
    reader.seek(1);
    assert_eq!(reader.current(), Some(b'['));
    assert!(reader.validate_array());
    assert_eq!(reader.position(), 10);
    let mut reader = JSONReader::new(JSON_BOOLEAN);
    reader.seek(22);
    assert_eq!(reader.current(), Some(b'f'));
    assert!(reader.validate_boolean());
    assert_eq!(reader.position(), 25);
    let mut reader = JSONReader::new(JSON_NULL);
    reader.seek(8);
    assert_eq!(reader.current(), Some(b'n'));
    assert!(reader.validate_null());
    assert_eq!(reader.position(), 10);
}
