use gsjf::minify::minify;

fn minified(json: &[u8]) -> Vec<u8> {
    minify(json).unwrap().into_vec()
}

#[test]
fn minify_drops_whitespace_outside_strings() {
    let doc = br#"
{
  "name": "alex",
  "age": 32,
  "hobbies": ["cooking", "guitar"]
}
    "#;
    assert_eq!(
        minified(doc),
        br#"{"name":"alex","age":32,"hobbies":["cooking","guitar"]}"#.to_vec()
    );
}

#[test]
fn minify_keeps_strings_verbatim() {
    assert_eq!(minified(br#"{ "a b" : " c\td " }"#), br#"{"a b":" c\td "}"#.to_vec());
    assert_eq!(minified(b"[ \"x\ty\" ]"), b"[\"x\ty\"]".to_vec());
    assert_eq!(minified(b"\"a\x01 b\" \x01 1"), b"\"a\x01 b\"1".to_vec());
}

#[test]
fn minify_respects_escaped_quotes() {
    assert_eq!(minified(br#"[ "a\" b" , 1 ]"#), br#"["a\" b",1]"#.to_vec());
    assert_eq!(minified(br#"[ "a\\" , "b c" ]"#), br#"["a\\","b c"]"#.to_vec());
    assert_eq!(minified(br#"[ "a\\\" x" , 2 ]"#), br#"["a\\\" x",2]"#.to_vec());
}

#[test]
fn minify_needs_no_valid_document() {
    assert_eq!(minified(b""), b"".to_vec());
    assert_eq!(minified(b" \n\t "), b"".to_vec());
    assert_eq!(minified(b"} x ] :"), b"}x]:".to_vec());
    assert_eq!(minified(b"[ \"open  "), b"[\"open  ".to_vec());
    assert_eq!(minified(b"\"end\\"), b"\"end\\".to_vec());
}

#[test]
fn minify_reaches_the_last_byte() {
    assert_eq!(minified(b"[1, 2]"), b"[1,2]".to_vec());
    assert_eq!(minified(b"x"), b"x".to_vec());
}

#[test]
fn minify_is_idempotent() {
    let docs: [&[u8]; 6] = [
        br#" { "a" : [ 1 , 2 , { "b c" : "d\" e" } ] , "f" : null } "#,
        b"  ",
        b"[ \"unterminated  ",
        br#""\\" "x y" "#,
        b"a \" b \\",
        b"\x00\x1f \" \x00 \" \x7f",
    ];
    for doc in docs {
        let once = minified(doc);
        let twice = minified(&once);
        assert_eq!(twice, once);
    }
}
