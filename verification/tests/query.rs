use gsjf::query::{Query, QueryComponent};

fn paths<'a>(query: &Query<'a>) -> Vec<&'a [u8]> {
    query.components.iter().map(|c| c.path).collect()
}

#[test]
fn single_path() {
    let expectation = Query {
        raw: "foo".as_bytes(),
        components: vec![QueryComponent { path: "foo".as_bytes() }],
    };
    assert_eq!(Query::from("foo"), expectation);
}

#[test]
fn dotted_path() {
    let query = Query::from("nested.foo.bar");
    assert_eq!(query.raw, "nested.foo.bar".as_bytes());
    assert_eq!(paths(&query), vec![&b"nested"[..], b"foo", b"bar"]);
}

#[test]
fn empty_pieces_are_kept() {
    assert_eq!(paths(&Query::from("")), vec![&b""[..]]);
    assert_eq!(paths(&Query::from(".")), vec![&b""[..], b""]);
    assert_eq!(paths(&Query::from(".a")), vec![&b""[..], b"a"]);
    assert_eq!(paths(&Query::from("a.")), vec![&b"a"[..], b""]);
    assert_eq!(paths(&Query::from("a..b")), vec![&b"a"[..], b"", b"b"]);
}

#[test]
fn from_bytes_splits_like_from() {
    assert_eq!(Query::from_bytes(b"key.next"), Query::from("key.next"));
    assert_eq!(paths(&Query::from_bytes(b"k\xffey.n")), vec![&b"k\xffey"[..], b"n"]);
}
