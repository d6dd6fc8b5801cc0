use gsjf::reader::{JSONReader, JSONType, JSONValue, Reader};
use gsjf::result::ErrorKind;

const JSON: &[u8] =
    r#"{"name":"alex","boy":true,"age":32,"hobbies":["cooking","guitar"],"nested":{"foo":"bar"}}"#
        .as_bytes();

#[test]
fn test_find_key() {
    assert_eq!(JSONReader::new(JSON).find_key("boy".as_bytes()), Some((16, 19)))
}

#[test]
fn test_read_string() {
    let mut reader = JSONReader::new(JSON);
    reader.seek(9);
    assert_eq!(reader.read_string(), Some((9, 13)))
}

#[test]
#[allow(non_snake_case)]
fn test_read_string__escaped() {
    let data = r#""fo\"o" "#.as_bytes();
    let mut reader: JSONReader = JSONReader::new(data);
    assert_eq!(reader.next(), Some(b'"'));
    assert_eq!(reader.read_string(), Some((1, 6)));
    assert_eq!(reader.cursor(), 7);
}

#[test]
fn read_string_takes_escaped_backslash_before_quote() {
    let data = r#""\\" x"#.as_bytes();
    let mut reader = JSONReader::new(data);
    reader.seek(1);
    assert_eq!(reader.read_string(), Some((1, 3)));
    assert_eq!(reader.cursor(), 4);
}

#[test]
fn read_string_unterminated_leaves_cursor() {
    let data = r#""abc"#.as_bytes();
    let mut reader = JSONReader::new(data);
    reader.seek(1);
    assert_eq!(reader.read_string(), None);
    assert_eq!(reader.cursor(), 1);
    let data = br#""abc\"#;
    let mut reader = JSONReader::new(data);
    reader.seek(1);
    assert_eq!(reader.read_string(), None);
}

#[test]
fn next_reaches_the_last_byte() {
    let mut reader = JSONReader::new(b"ab");
    assert_eq!(reader.cursor(), 0);
    assert_eq!(reader.peek(), Some(b'a'));
    assert_eq!(reader.next(), Some(b'a'));
    assert_eq!(reader.peek(), Some(b'b'));
    assert_eq!(reader.next(), Some(b'b'));
    assert_eq!(reader.cursor(), 2);
    assert_eq!(reader.peek(), None);
    assert_eq!(reader.next(), None);
    assert_eq!(reader.cursor(), 2);
}

#[test]
fn next_on_empty_buffer() {
    let mut reader = JSONReader::new(b"");
    assert_eq!(reader.next(), None);
    assert_eq!(reader.prev(), None);
    assert_eq!(reader.current(), None);
    assert_eq!(reader.last(), None);
}

#[test]
fn prev_steps_back() {
    let mut reader = JSONReader::new(b"ab");
    assert_eq!(reader.prev(), None);
    reader.seek(2);
    assert_eq!(reader.prev(), Some(b'b'));
    assert_eq!(reader.cursor(), 1);
    assert_eq!(reader.prev(), Some(b'a'));
    assert_eq!(reader.cursor(), 0);
    assert_eq!(reader.prev(), None);
    assert_eq!(reader.cursor(), 0);
}

#[test]
fn current_is_the_last_consumed_byte() {
    let mut reader = JSONReader::new(b"xyz");
    assert_eq!(reader.current(), None);
    assert_eq!(reader.last(), None);
    reader.next();
    assert_eq!(reader.current(), Some(b'x'));
    assert_eq!(reader.last(), Some(b'x'));
    reader.seek(3);
    assert_eq!(reader.current(), Some(b'z'));
}

#[test]
fn seek_beyond_the_end_reads_as_exhausted() {
    let mut reader = JSONReader::new(b"xyz");
    reader.seek(10);
    assert_eq!(reader.cursor(), 10);
    assert_eq!(reader.next(), None);
    assert_eq!(reader.peek(), None);
    assert_eq!(reader.prev(), None);
    assert_eq!(reader.current(), None);
    assert_eq!(reader.cursor(), 10);
    reader.reset();
    assert_eq!(reader.cursor(), 0);
    assert_eq!(reader.next(), Some(b'x'));
}

#[test]
fn scan_finds_matching_delimiter() {
    let data = br#"{"a":{"b":[1,2]},"c":3} "#;
    let mut reader = JSONReader::new(data);
    reader.seek(1);
    assert_eq!(reader.scan(b'{', b'}'), Some(23));
    assert_eq!(reader.cursor(), 23);
    reader.seek(6);
    assert_eq!(reader.scan(b'{', b'}'), Some(16));
    reader.seek(11);
    assert_eq!(reader.scan(b'[', b']'), Some(15));
}

#[test]
fn scan_ignores_delimiters_inside_strings() {
    let data = br#"{"key":"a}b"}"#;
    let mut reader = JSONReader::new(data);
    reader.seek(1);
    assert_eq!(reader.scan(b'{', b'}'), Some(13));
    let data = br#"{"k\"}":"{"}"#;
    let mut reader = JSONReader::new(data);
    reader.seek(1);
    assert_eq!(reader.scan(b'{', b'}'), Some(12));
}

#[test]
fn scan_from_inside_goes_back_to_the_opening() {
    let data = br#"[1,[2,3],4]"#;
    let mut reader = JSONReader::new(data);
    reader.seek(6);
    assert_eq!(reader.scan(b'[', b']'), Some(8));
    reader.seek(2);
    assert_eq!(reader.scan(b'[', b']'), Some(11));
}

#[test]
fn scan_unbalanced_is_none() {
    let data = br#"{"a":{"b":1}"#;
    let mut reader = JSONReader::new(data);
    reader.seek(1);
    assert_eq!(reader.scan(b'{', b'}'), None);
    assert_eq!(reader.cursor(), 1);
    let mut reader = JSONReader::new(b"abc");
    reader.seek(2);
    assert_eq!(reader.scan(b'{', b'}'), None);
    let mut reader = JSONReader::new(b"{}");
    assert_eq!(reader.scan(b'{', b'}'), None);
}

#[test]
fn skip_to_next_and_previous() {
    let mut reader = JSONReader::new(b"a,b,c");
    assert_eq!(reader.skip_to_next(b','), Some(2));
    assert_eq!(reader.cursor(), 2);
    assert_eq!(reader.skip_to_next(b','), Some(4));
    assert_eq!(reader.skip_to_next(b','), None);
    assert_eq!(reader.cursor(), 4);
    assert_eq!(reader.skip_to_previous(b','), Some(3));
    assert_eq!(reader.cursor(), 3);
    assert_eq!(reader.skip_to_previous(b','), Some(1));
    assert_eq!(reader.skip_to_previous(b','), None);
    assert_eq!(reader.cursor(), 1);
}

#[test]
fn skip_past_whitespace_passes_every_whitespace_byte() {
    let mut reader = JSONReader::new(b" \t\r\n x  ");
    reader.skip_past_whitespace();
    assert_eq!(reader.cursor(), 5);
    reader.skip_past_whitespace();
    assert_eq!(reader.cursor(), 5);
    reader.seek(6);
    reader.skip_past_whitespace();
    assert_eq!(reader.cursor(), 8);
}

#[test]
fn select_gives_the_bytes_of_a_span() {
    let reader = JSONReader::new(JSON);
    assert_eq!(reader.select((9, 13)), Some("alex".as_bytes()));
    assert_eq!(reader.select((0, 0)), Some("".as_bytes()));
    assert_eq!(reader.select((5, 4)), None);
    assert_eq!(reader.select((0, JSON.len() + 1)), None);
    assert_eq!(reader.select((0, JSON.len())), Some(JSON));
}

#[test]
fn read_known_bounds_a_literal() {
    let mut reader = JSONReader::new(b"[null]");
    reader.seek(2);
    assert_eq!(reader.read_known(4), Some((1, 5)));
    assert_eq!(reader.cursor(), 5);
    reader.seek(4);
    assert_eq!(reader.read_known(4), None);
    assert_eq!(reader.cursor(), 4);
    reader.seek(0);
    assert_eq!(reader.read_known(1), None);
    reader.seek(3);
    assert_eq!(reader.read_known(usize::MAX), None);
}

#[test]
fn read_json_bounds_a_container() {
    let data = br#"{"a":[1,{"b":2}],"c":{}}"#;
    let mut reader = JSONReader::new(data);
    reader.seek(1);
    assert_eq!(reader.read_json(), Some((0, 24)));
    assert_eq!(reader.cursor(), 24);
    reader.seek(6);
    assert_eq!(reader.read_json(), Some((5, 16)));
    reader.seek(3);
    assert_eq!(reader.read_json(), None);
    assert_eq!(reader.cursor(), 3);
    reader.seek(0);
    assert_eq!(reader.read_json(), None);
}

#[test]
fn read_number_follows_the_number_grammar() {
    let data = b"[-12.5e+3,0,7]";
    let mut reader = JSONReader::new(data);
    reader.seek(2);
    assert_eq!(reader.read_number(), Some((1, 9)));
    assert_eq!(reader.cursor(), 9);
    reader.seek(11);
    assert_eq!(reader.read_number(), Some((10, 11)));
    reader.seek(1);
    assert_eq!(reader.read_number(), None);
    assert_eq!(reader.cursor(), 1);
    reader.seek(0);
    assert_eq!(reader.read_number(), None);
}

#[test]
fn scan_number_reports_where_it_fails() {
    let mut reader = JSONReader::new(b"012");
    assert_eq!(reader.scan_number(), Ok(1));
    let mut reader = JSONReader::new(b"-");
    let e = reader.scan_number().unwrap_err();
    assert_eq!((e.kind, e.offset), (ErrorKind::Truncated, 1));
    assert_eq!(reader.cursor(), 0);
    let mut reader = JSONReader::new(b"1.x");
    let e = reader.scan_number().unwrap_err();
    assert_eq!((e.kind, e.offset), (ErrorKind::UnexpectedByte, 2));
    let mut reader = JSONReader::new(b"1e+");
    let e = reader.scan_number().unwrap_err();
    assert_eq!((e.kind, e.offset), (ErrorKind::Truncated, 3));
    let mut reader = JSONReader::new(b".5");
    let e = reader.scan_number().unwrap_err();
    assert_eq!((e.kind, e.offset), (ErrorKind::UnexpectedByte, 0));
    let mut reader = JSONReader::new(b"10.25E-7,");
    assert_eq!(reader.scan_number(), Ok(8));
    assert_eq!(reader.cursor(), 8);
}

#[test]
fn at_tests_the_next_byte() {
    let mut reader = JSONReader::new(b"ab");
    assert!(reader.at(b'a'));
    assert!(!reader.at(b'b'));
    reader.seek(2);
    assert!(!reader.at(b'a'));
}

#[test]
fn read_value_classifies_and_bounds() {
    let data = br#"  "alex" true false null -1.5 {"a":"}"} [1,[2]] "#;
    let mut reader = JSONReader::new(data);
    let v = reader.read_value().unwrap();
    assert_eq!((v.json_type, v.range), (JSONType::STRING, (2, 8)));
    assert_eq!(reader.cursor(), 8);
    let v = reader.read_value().unwrap();
    assert_eq!((v.json_type, v.range), (JSONType::BOOLEAN, (9, 13)));
    let v = reader.read_value().unwrap();
    assert_eq!((v.json_type, v.range), (JSONType::BOOLEAN, (14, 19)));
    let v = reader.read_value().unwrap();
    assert_eq!((v.json_type, v.range), (JSONType::NULL, (20, 24)));
    let v = reader.read_value().unwrap();
    assert_eq!((v.json_type, v.range), (JSONType::NUMBER, (25, 29)));
    let v = reader.read_value().unwrap();
    assert_eq!((v.json_type, v.range), (JSONType::OBJECT, (30, 39)));
    let v = reader.read_value().unwrap();
    assert_eq!((v.json_type, v.range), (JSONType::ARRAY, (40, 47)));
    assert_eq!(reader.cursor(), 47);
    let e = reader.read_value().unwrap_err();
    assert_eq!((e.kind, e.offset), (ErrorKind::Truncated, 48));
    assert_eq!(reader.cursor(), 47);
}

#[test]
fn read_value_refuses_an_unknown_leading_byte() {
    let mut reader = JSONReader::new(b" ;1");
    let e = reader.read_value().unwrap_err();
    assert_eq!((e.kind, e.offset), (ErrorKind::MalformedValue, 1));
    assert_eq!(reader.cursor(), 0);
    let mut reader = JSONReader::new(b"::1");
    let e = reader.read_value().unwrap_err();
    assert_eq!((e.kind, e.offset), (ErrorKind::MalformedValue, 1));
    let mut reader = JSONReader::new(b" : ,");
    let e = reader.read_value().unwrap_err();
    assert_eq!((e.kind, e.offset), (ErrorKind::MalformedValue, 3));
    let mut reader = JSONReader::new(b" : ");
    let e = reader.read_value().unwrap_err();
    assert_eq!((e.kind, e.offset), (ErrorKind::Truncated, 3));
    assert_eq!(reader.cursor(), 0);
    let mut reader = JSONReader::new(b"}");
    let e = reader.read_value().unwrap_err();
    assert_eq!((e.kind, e.offset), (ErrorKind::MalformedValue, 0));
}

#[test]
fn read_value_truncated_constructs() {
    let mut reader = JSONReader::new(b"nul");
    let e = reader.read_value().unwrap_err();
    assert_eq!((e.kind, e.offset), (ErrorKind::Truncated, 3));
    let mut reader = JSONReader::new(br#" "abc"#);
    let e = reader.read_value().unwrap_err();
    assert_eq!((e.kind, e.offset), (ErrorKind::Truncated, 5));
    let mut reader = JSONReader::new(b"[1,2");
    let e = reader.read_value().unwrap_err();
    assert_eq!((e.kind, e.offset), (ErrorKind::Truncated, 4));
    let mut reader = JSONReader::new(b"-x");
    let e = reader.read_value().unwrap_err();
    assert_eq!((e.kind, e.offset), (ErrorKind::UnexpectedByte, 1));
}

#[test]
fn find_key_is_shallow() {
    let data = br#"{"a":1,"b":{"a":2}}"#;
    assert_eq!(JSONReader::new(data).find_key(b"a"), Some((2, 3)));
    assert_eq!(JSONReader::new(data).find_key(b"b"), Some((8, 9)));
    assert_eq!(JSONReader::new(data).find_key(b"c"), None);
    let data = br#"{"b":{"a":2},"a":1}"#;
    let mut reader = JSONReader::new(data);
    assert_eq!(reader.find_key(b"a"), Some((14, 15)));
    assert_eq!(reader.cursor(), 16);
}

#[test]
fn find_key_stops_where_the_level_closes() {
    let data = br#"{"in":{"x":1},"out":2}"#;
    let mut reader = JSONReader::new(data);
    reader.seek(6);
    assert_eq!(reader.find_key(b"out"), None);
    assert_eq!(reader.cursor(), 6);
    assert_eq!(reader.find_key(b"x"), Some((8, 9)));
}

#[test]
fn find_key_on_malformed_input() {
    assert_eq!(JSONReader::new(br#"{"a":{"b":1,"c":2"#).find_key(b"c"), None);
    assert_eq!(JSONReader::new(br#"{"a":1,"c"#).find_key(b"c"), None);
    assert_eq!(JSONReader::new(b"").find_key(b"c"), None);
}

#[test]
fn find_key_compares_whole_content() {
    let data = br#"{"ab":1,"a":2,"":3}"#;
    assert_eq!(JSONReader::new(data).find_key(b"a"), Some((9, 10)));
    assert_eq!(JSONReader::new(data).find_key(b""), Some((15, 15)));
    assert_eq!(JSONReader::new(data).find_key(b"abc"), None);
}

#[test]
fn value_new_keeps_its_arguments() {
    let v = JSONValue::new(JSONType::NUMBER, (3, 7));
    assert_eq!(v.json_type, JSONType::NUMBER);
    assert_eq!(v.range, (3, 7));
}

#[test]
fn position_is_the_index_of_the_byte_consumed_last() {
    let mut reader = JSONReader::new(b"abcd");
    assert_eq!(reader.position(), 0);
    assert_eq!(reader.cursor(), 0);
    assert_eq!(reader.next(), Some(b'a'));
    assert_eq!(reader.position(), 0);
    assert_eq!(reader.cursor(), 1);
    assert_eq!(reader.next(), Some(b'b'));
    assert_eq!(reader.last(), Some(b'b'));
    assert_eq!(reader.position(), 1);
    assert_eq!(reader.cursor(), 2);
    assert_eq!(reader.next(), Some(b'c'));
    assert_eq!(reader.position(), 2);
    reader.seek(4);
    assert_eq!(reader.position(), 3);
    assert_eq!(reader.next(), None);
    assert_eq!(reader.position(), 3);
    reader.seek(9);
    assert_eq!(reader.position(), 8);
    assert_eq!(reader.cursor(), 9);
}

#[test]
fn read_value_after_find_key_reads_the_value_under_the_key() {
    let mut reader = JSONReader::new(JSON);
    assert_eq!(reader.find_key(b"boy"), Some((16, 19)));
    let v = reader.read_value().unwrap();
    assert_eq!((v.json_type, v.range), (JSONType::BOOLEAN, (21, 25)));
    assert_eq!(reader.cursor(), 25);
    let mut reader = JSONReader::new(br#"{"age":32}"#);
    assert_eq!(reader.find_key(b"age"), Some((2, 5)));
    let v = reader.read_value().unwrap();
    assert_eq!((v.json_type, v.range), (JSONType::NUMBER, (7, 9)));
    let mut reader = JSONReader::new(JSON);
    assert_eq!(reader.find_key(b"name"), Some((2, 6)));
    let v = reader.read_value().unwrap();
    assert_eq!((v.json_type, v.range), (JSONType::STRING, (8, 14)));
    let mut reader = JSONReader::new(br#"{"k" :  [1] }"#);
    assert_eq!(reader.find_key(b"k"), Some((2, 3)));
    let v = reader.read_value().unwrap();
    assert_eq!((v.json_type, v.range), (JSONType::ARRAY, (8, 11)));
}
