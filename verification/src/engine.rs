//! The two services of the engine on a whole document: resolving a key path
//! and judging validity.

use vstd::prelude::*;
use crate::bytes::{COLON, POINT};
use crate::descent::{Parse, document_end, fail, skip_whitespace};
use crate::grammar::document;
use crate::query::{split, Query};
use crate::reader::{key_search, value_span, JSONReader, JSONType, JSONValue, Reader};
use crate::result::{Ending, ErrorKind, Extraction, JSONError, Outcome};
use crate::validation::check_document;

verus! {

/// The offset one past the colon that follows a key, where `i` is the offset
/// one past the key's closing quote.
pub open spec fn colon_end(s: Seq<u8>, i: int) -> Parse {
    let c = skip_whitespace(s, i);
    if c < 0 || c >= s.len() {
        fail(ErrorKind::Truncated, c)
    } else if s[c] != COLON {
        fail(ErrorKind::UnexpectedByte, c)
    } else {
        Ok(c + 1)
    }
}

/// The values that the components of `paths` select, from component `n` on,
/// and how the walk ends.
///
/// `from` is the offset at which the search for the next key begins: the
/// opening delimiter of the object or array that the component before
/// selected, or the start of the document. It is `None` when that component
/// selected a value that is neither, in which no key can be found. An empty
/// component selects nothing and changes nothing.
pub open spec fn resolve(s: Seq<u8>, from: Option<int>, paths: Seq<Seq<u8>>, n: int) -> (
    Seq<(JSONType, int, int)>,
    Ending,
)
    decreases paths.len() - n,
{
    if n < 0 || n >= paths.len() {
        (Seq::empty(), Ending::Resolved)
    } else if paths[n].len() == 0 {
        resolve(s, from, paths, n + 1)
    } else {
        match from {
            None => (Seq::empty(), Ending::NotFound),
            Some(o) => match key_search(s, o, paths[n], false) {
                None => (Seq::empty(), Ending::NotFound),
                Some((_, b)) => match colon_end(s, b + 1) {
                    Err(e) => (Seq::empty(), Ending::Malformed(e)),
                    Ok(_) => match value_span(s, b + 1) {
                        Err(e) => (Seq::empty(), Ending::Malformed(e)),
                        Ok(v) => {
                            let inner = if v.0 == JSONType::OBJECT || v.0 == JSONType::ARRAY {
                                Some(v.1)
                            } else {
                                None
                            };
                            let rest = resolve(s, inner, paths, n + 1);
                            (seq![v] + rest.0, rest.1)
                        },
                    },
                },
            },
        }
    }
}

/// Resolves a dotted key path in a document, without reading the siblings of
/// the values on the way.
///
/// Each component is looked up as a key at the level that the component
/// before selected. A colon must follow the key, and the value after it is
/// classified and bounded. The first key that is missing, or the first place where the
/// document cannot be read, ends the walk. The lookup takes the first string
/// at its level that equals the component for the key, so a string value that
/// equals a later key hides that key, and the walk ends as malformed at the
/// byte that stands where the colon should.
pub fn extract(json: &[u8], raw: &[u8]) -> (extraction: Extraction)
    ensures
        extraction.spans() == resolve(json@, Some(0), split(raw@, POINT), 0).0,
        extraction.outcome@ == resolve(json@, Some(0), split(raw@, POINT), 0).1,
{
    let mut reader: JSONReader = JSONReader::new(json);
    let query: Query = Query::from_bytes(raw);
    let mut values: Vec<JSONValue> = Vec::new();
    let mut inside: bool = true;
    let mut n: usize = 0;
    let ghost goal = resolve(json@, Some(0), query.paths(), 0);
    assert(values@.map_values(|v: JSONValue| v@) + goal.0 =~= goal.0);
    while n < query.components.len()
        invariant
            reader.buffer() == json@,
            n <= query.components@.len(),
            query.paths() == split(raw@, POINT),
            goal == resolve(json@, Some(0), query.paths(), 0),
            values@.map_values(|v: JSONValue| v@) + resolve(
                json@,
                if inside {
                    Some(reader.offset() as int)
                } else {
                    None
                },
                query.paths(),
                n as int,
            ).0 == goal.0,
            resolve(
                json@,
                if inside {
                    Some(reader.offset() as int)
                } else {
                    None
                },
                query.paths(),
                n as int,
            ).1 == goal.1,
        decreases query.components@.len() - n,
    {
        let selector: &[u8] = query.components[n].path;
        assert(query.paths()[n as int] == selector@);
        if selector.len() > 0 {
            if !inside {
                assert(values@.map_values(|v: JSONValue| v@) + Seq::empty() =~= values@.map_values(
                    |v: JSONValue| v@,
                ));
                return Extraction { values, outcome: Outcome::NotFound };
            }
            let found: Result<JSONValue, Outcome> = match reader.find_key(selector) {
                None => Err(Outcome::NotFound),
                Some(_) => {
                    let key_end: usize = reader.cursor();
                    reader.skip_past_whitespace();
                    let at: usize = reader.cursor();
                    match reader.peek() {
                        None => Err(
                            Outcome::Malformed(
                                JSONError { kind: ErrorKind::Truncated, offset: at },
                            ),
                        ),
                        Some(token) => {
                            if token != COLON {
                                Err(
                                    Outcome::Malformed(
                                        JSONError { kind: ErrorKind::UnexpectedByte, offset: at },
                                    ),
                                )
                            } else {
                                reader.seek(key_end);
                                match reader.read_value() {
                                    Ok(value) => Ok(value),
                                    Err(e) => Err(Outcome::Malformed(e)),
                                }
                            }
                        },
                    }
                },
            };
            match found {
                Err(outcome) => {
                    assert(values@.map_values(|v: JSONValue| v@) + Seq::empty()
                        =~= values@.map_values(|v: JSONValue| v@));
                    return Extraction { values, outcome };
                },
                Ok(value) => {
                    let ghost before = values@;
                    values.push(value);
                    match value.json_type {
                        JSONType::OBJECT | JSONType::ARRAY => {
                            reader.seek(value.range.0);
                        },
                        _ => {
                            inside = false;
                        },
                    }
                    assert(values@.map_values(|v: JSONValue| v@) + resolve(
                        json@,
                        if inside {
                            Some(reader.offset() as int)
                        } else {
                            None
                        },
                        query.paths(),
                        n + 1,
                    ).0 =~= before.map_values(|v: JSONValue| v@) + (seq![value@] + resolve(
                        json@,
                        if inside {
                            Some(reader.offset() as int)
                        } else {
                            None
                        },
                        query.paths(),
                        n + 1,
                    ).0));
                },
            }
        }
        n += 1;
    }
    assert(values@.map_values(|v: JSONValue| v@) + Seq::empty() =~= values@.map_values(
        |v: JSONValue| v@,
    ));
    Extraction { values, outcome: Outcome::Resolved }
}

/// Judges a document: one JSON value with nothing but whitespace around it.
/// A refusal names the first failure and the offset at which it was met.
pub fn validate(json: &[u8]) -> (verdict: Result<(), JSONError>)
    ensures
        verdict is Ok <==> document(json@),
        verdict matches Err(e) ==> document_end(json@) == Err::<int, (ErrorKind, int)>(e@),
{
    let mut reader: JSONReader = JSONReader::new(json);
    check_document(&mut reader)
}

} // verus!
