//! The byte cursor and the reading operations built on it: bounding a
//! string, a number, a nested value, and finding a key at one level.
//!
//! The reading operations are shallow. They find where a value ends and do
//! not examine what it holds.

use vstd::prelude::*;
use crate::bytes::{byte_at, digit, is_digit, is_number_start, number_start, whitespace};
use crate::bytes::{BACKSLASH, CLOSE_BRACE, CLOSE_BRACKET, COLON, LOWER_E, LOWER_F, LOWER_N};
use crate::bytes::LOWER_T;
use crate::bytes::MINUS;
use crate::bytes::{OPEN_BRACE, OPEN_BRACKET, PLUS, POINT, QUOTE, UPPER_E, ZERO};
use crate::descent::{digits_end, lemma_string_close_bounds, number_end, skip_whitespace};
use crate::descent::string_close;
use crate::result::{ErrorKind, JSONError};

verus! {

/// A half-open span `[start, end)` of offsets into the buffer.
pub type JSONRange = (usize, usize);

/// The six kinds of JSON value.
#[derive(Clone, Copy, Debug, PartialEq, Eq, Structural)]
pub enum JSONType {
    ARRAY,
    OBJECT,
    NULL,
    STRING,
    BOOLEAN,
    NUMBER,
}

/// The kind of a value and the span of its raw bytes: delimiters included
/// for objects, arrays and strings, the literal's own length for booleans
/// and null.
#[derive(Clone, Copy, Debug, PartialEq, Eq)]
pub struct JSONValue {
    pub json_type: JSONType,
    pub range: JSONRange,
}

impl View for JSONValue {
    type V = (JSONType, int, int);

    open spec fn view(&self) -> (JSONType, int, int) {
        (self.json_type, self.range.0 as int, self.range.1 as int)
    }
}

impl JSONValue {
    /// A value of the given kind that spans `range`.
    pub fn new(json_type: JSONType, range: (usize, usize)) -> (value: JSONValue)
        ensures
            value.json_type == json_type,
            value.range == range,
    {
        JSONValue { json_type, range }
    }
}

// ---------------------------------------------------------------------------
// What the reading operations find
// ---------------------------------------------------------------------------

/// The least offset at or after `i` that holds `val`.
pub open spec fn first_from(s: Seq<u8>, i: int, val: u8) -> Option<int>
    decreases s.len() - i,
{
    if i < 0 || i >= s.len() {
        None
    } else if s[i] == val {
        Some(i)
    } else {
        first_from(s, i + 1, val)
    }
}

/// The greatest offset before `i` that holds `val`.
pub open spec fn nearest_before(s: Seq<u8>, i: int, val: u8) -> Option<int>
    decreases i,
{
    if i <= 0 || i > s.len() {
        None
    } else if s[i - 1] == val {
        Some(i - 1)
    } else {
        nearest_before(s, i - 1, val)
    }
}

/// The offset one past the `close` that brings the nesting depth from
/// `depth` down to zero, going forward from `i`. Every `open` adds one level
/// and every `close` takes one away. A string literal is passed over as one
/// unit, so a delimiter inside it does not count. `None` when the input ends
/// first.
pub open spec fn scan_end(s: Seq<u8>, i: int, open: u8, close: u8, depth: nat) -> Option<int>
    decreases s.len() - i,
    via scan_end_decreases
{
    if i < 0 || i >= s.len() {
        None
    } else if s[i] == QUOTE {
        match string_close(s, i + 1) {
            Some(q) => scan_end(s, q + 1, open, close, depth),
            None => None,
        }
    } else if s[i] == open {
        scan_end(s, i + 1, open, close, depth + 1)
    } else if s[i] != close {
        scan_end(s, i + 1, open, close, depth)
    } else if depth <= 1 {
        Some(i + 1)
    } else {
        scan_end(s, i + 1, open, close, (depth - 1) as nat)
    }
}

#[via_fn]
proof fn scan_end_decreases(s: Seq<u8>, i: int, open: u8, close: u8, depth: nat) {
    lemma_string_close_bounds(s, i + 1);
}

pub proof fn lemma_scan_end_bounds(s: Seq<u8>, i: int, open: u8, close: u8, depth: nat)
    ensures
        scan_end(s, i, open, close, depth) matches Some(e) ==> i < e <= s.len(),
    decreases s.len() - i,
{
    if 0 <= i < s.len() {
        if s[i] == QUOTE {
            lemma_string_close_bounds(s, i + 1);
            match string_close(s, i + 1) {
                Some(q) => lemma_scan_end_bounds(s, q + 1, open, close, depth),
                None => {},
            }
        } else if s[i] == open {
            lemma_scan_end_bounds(s, i + 1, open, close, depth + 1);
        } else if s[i] != close {
            lemma_scan_end_bounds(s, i + 1, open, close, depth);
        } else if depth > 1 {
            lemma_scan_end_bounds(s, i + 1, open, close, (depth - 1) as nat);
        }
    }
}

/// What `scan` answers with the cursor at offset `o`: the forward scan
/// begins just past the nearest `open` at or before the current token.
pub open spec fn scan_result(s: Seq<u8>, o: int, open: u8, close: u8) -> Option<int> {
    match nearest_before(s, o, open) {
        Some(k) => scan_end(s, k + 1, open, close, 1),
        None => None,
    }
}

/// The offset one past the object or array whose opening delimiter stands
/// at `i`.
pub open spec fn container_end(s: Seq<u8>, i: int) -> Option<int> {
    if byte_at(s, i) == Some(OPEN_BRACE) {
        scan_end(s, i + 1, OPEN_BRACE, CLOSE_BRACE, 1)
    } else if byte_at(s, i) == Some(OPEN_BRACKET) {
        scan_end(s, i + 1, OPEN_BRACKET, CLOSE_BRACKET, 1)
    } else {
        None
    }
}

/// The content span of the first string literal at the current nesting
/// level, going forward from `i`, whose content equals `key`.
///
/// The first opening delimiter met enters the container that is searched,
/// unless `entered` says that this has happened. Every later one opens a
/// nested value, which is passed over whole. The delimiter that closes the
/// level ends the search.
pub open spec fn key_search(s: Seq<u8>, i: int, key: Seq<u8>, entered: bool) -> Option<(int, int)>
    decreases s.len() - i,
    via key_search_decreases
{
    if i < 0 || i >= s.len() {
        None
    } else if s[i] == OPEN_BRACE || s[i] == OPEN_BRACKET {
        if !entered {
            key_search(s, i + 1, key, true)
        } else {
            match container_end(s, i) {
                Some(e) => key_search(s, e, key, entered),
                None => None,
            }
        }
    } else if s[i] == CLOSE_BRACE || s[i] == CLOSE_BRACKET {
        None
    } else if s[i] == QUOTE {
        match string_close(s, i + 1) {
            Some(q) => if s.subrange(i + 1, q) == key {
                Some((i + 1, q))
            } else {
                key_search(s, q + 1, key, entered)
            },
            None => None,
        }
    } else {
        key_search(s, i + 1, key, entered)
    }
}

#[via_fn]
proof fn key_search_decreases(s: Seq<u8>, i: int, key: Seq<u8>, entered: bool) {
    lemma_string_close_bounds(s, i + 1);
    lemma_scan_end_bounds(s, i + 1, OPEN_BRACE, CLOSE_BRACE, 1);
    lemma_scan_end_bounds(s, i + 1, OPEN_BRACKET, CLOSE_BRACKET, 1);
}

/// A span of `n` bytes from `k` on, if the input has that many.
pub open spec fn known_span(s: Seq<u8>, k: int, n: int, json_type: JSONType) -> Result<
    (JSONType, int, int),
    (ErrorKind, int),
> {
    if k + n <= s.len() {
        Ok((json_type, k, k + n))
    } else {
        Err((ErrorKind::Truncated, s.len() as int))
    }
}

/// Where the value begins that is read from offset `i`: past whitespace,
/// past the colon that follows a key if one stands there, and past
/// whitespace again.
pub open spec fn value_start(s: Seq<u8>, i: int) -> int {
    let k = skip_whitespace(s, i);
    if byte_at(s, k) == Some(COLON) {
        skip_whitespace(s, k + 1)
    } else {
        k
    }
}

/// Kind and span of the value that is read from offset `i`, which may be
/// the offset just past a key.
///
/// The leading byte decides the kind. A literal is bounded by its length, a
/// string by its closing quote, an object or array by its matching
/// delimiter, and a number by the number grammar. The contents of strings
/// and containers are not examined.
pub open spec fn value_span(s: Seq<u8>, i: int) -> Result<(JSONType, int, int), (ErrorKind, int)> {
    let k = value_start(s, i);
    if k < 0 || k >= s.len() {
        Err((ErrorKind::Truncated, k))
    } else if s[k] == LOWER_N {
        known_span(s, k, 4, JSONType::NULL)
    } else if s[k] == LOWER_T {
        known_span(s, k, 4, JSONType::BOOLEAN)
    } else if s[k] == LOWER_F {
        known_span(s, k, 5, JSONType::BOOLEAN)
    } else if is_number_start(s[k]) {
        match number_end(s, k) {
            Ok(e) => Ok((JSONType::NUMBER, k, e)),
            Err(e) => Err(e),
        }
    } else if s[k] == QUOTE {
        match string_close(s, k + 1) {
            Some(q) => Ok((JSONType::STRING, k, q + 1)),
            None => Err((ErrorKind::Truncated, s.len() as int)),
        }
    } else if s[k] == OPEN_BRACE || s[k] == OPEN_BRACKET {
        match container_end(s, k) {
            Some(e) => Ok(
                (
                    if s[k] == OPEN_BRACE {
                        JSONType::OBJECT
                    } else {
                        JSONType::ARRAY
                    },
                    k,
                    e,
                ),
            ),
            None => Err((ErrorKind::Truncated, s.len() as int)),
        }
    } else {
        Err((ErrorKind::MalformedValue, k))
    }
}

// ---------------------------------------------------------------------------
// The cursor
// ---------------------------------------------------------------------------

/// A cursor over an immutable byte buffer.
///
/// The offset is the index of the next unread byte. The current token is the
/// byte just before it, the one that the last read consumed; at offset 0
/// there is none. Any offset may be set: one at or beyond the end of the
/// buffer reads as exhausted input. An operation that finds nothing leaves
/// the cursor where it was.
pub trait Reader {
    /// The bytes under the cursor. No operation changes them.
    spec fn buffer(&self) -> Seq<u8>;

    /// The index of the next unread byte.
    spec fn offset(&self) -> usize;

    /// Returns the current position of the reader: the index of the current
    /// token, the byte that was consumed last, and 0 when nothing has been
    /// consumed.
    fn position(&self) -> (pos: usize)
        ensures
            pos == if self.offset() == 0 {
                0
            } else {
                self.offset() - 1
            },
    ;

    /// Returns the offset of the cursor, the index of the next unread byte.
    /// It is the offset that `seek` sets.
    fn cursor(&self) -> (pos: usize)
        ensures
            pos == self.offset(),
    ;

    /// Retrieves the next byte and moves past it, or `None` if none is left.
    fn next(&mut self) -> (token: Option<u8>)
        ensures
            final(self).buffer() == old(self).buffer(),
            token == byte_at(old(self).buffer(), old(self).offset() as int),
            token is Some ==> final(self).offset() == old(self).offset() + 1,
            token is None ==> final(self).offset() == old(self).offset(),
    ;

    /// Moves back by one byte and retrieves it, or `None` if the cursor is at
    /// the start or beyond the end.
    fn prev(&mut self) -> (token: Option<u8>)
        ensures
            final(self).buffer() == old(self).buffer(),
            token == byte_at(old(self).buffer(), old(self).offset() - 1),
            token is Some ==> final(self).offset() == old(self).offset() - 1,
            token is None ==> final(self).offset() == old(self).offset(),
    ;

    /// Retrieves the next byte, if there is one, and does not move.
    fn peek(&self) -> (token: Option<u8>)
        ensures
            token == byte_at(self.buffer(), self.offset() as int),
    ;

    /// Retrieves the byte that was consumed last.
    fn last(&self) -> (token: Option<u8>)
        ensures
            token == byte_at(self.buffer(), self.offset() - 1),
    ;

    /// Retrieves the current token and does not move.
    fn current(&self) -> (token: Option<u8>)
        ensures
            token == byte_at(self.buffer(), self.offset() - 1),
    ;

    /// Reads a string whose opening quote is the current token, up to and
    /// including the closing quote. The span is that of the content, without
    /// the quotes.
    fn read_string(&mut self) -> (range: Option<(usize, usize)>)
        ensures
            final(self).buffer() == old(self).buffer(),
            match string_close(old(self).buffer(), old(self).offset() as int) {
                Some(q) => range matches Some(r) && r.0 == old(self).offset() && r.1 == q && final(
                    self
                ).offset() == q + 1,
                None => range is None && final(self).offset() == old(self).offset(),
            },
    ;

    /// Reads a number whose first byte is the current token.
    fn read_number(&mut self) -> (range: Option<JSONRange>)
        ensures
            final(self).buffer() == old(self).buffer(),
            match number_end(old(self).buffer(), old(self).offset() - 1) {
                Ok(e) if old(self).offset() > 0 => range matches Some(r) && r.0 == old(
                    self
                ).offset() - 1 && r.1 == e && final(self).offset() == e,
                _ => range is None && final(self).offset() == old(self).offset(),
            },
    ;

    /// Reads an object or an array whose opening delimiter is the current
    /// token, up to and including the delimiter that closes it.
    fn read_json(&mut self) -> (range: Option<(usize, usize)>)
        ensures
            final(self).buffer() == old(self).buffer(),
            match container_end(old(self).buffer(), old(self).offset() - 1) {
                Some(e) => range matches Some(r) && r.0 == old(self).offset() - 1 && r.1 == e
                    && final(self).offset() == e,
                None => range is None && final(self).offset() == old(self).offset(),
            },
    ;

    /// Reads a known number of bytes, the first of which is the current token
    /// (for things like null, false, true).
    fn read_known(&mut self, bytes: usize) -> (range: Option<(usize, usize)>)
        ensures
            final(self).buffer() == old(self).buffer(),
            old(self).offset() > 0 && old(self).offset() - 1 + bytes <= old(self).buffer().len()
                ==> (range matches Some(r) && r.0 == old(self).offset() - 1 && r.1 == r.0 + bytes
                && final(self).offset() == r.1),
            !(old(self).offset() > 0 && old(self).offset() - 1 + bytes <= old(self).buffer().len())
                ==> range is None && final(self).offset() == old(self).offset(),
    ;

    /// Finds a key in the current level of the JSON object. The span is that
    /// of the key's content, and the cursor comes to rest just past the key's
    /// closing quote.
    fn find_key(&mut self, key: &[u8]) -> (range: Option<(usize, usize)>)
        ensures
            final(self).buffer() == old(self).buffer(),
            match key_search(old(self).buffer(), old(self).offset() as int, key@, false) {
                Some((a, b)) => range matches Some(r) && r.0 == a && r.1 == b && final(
                    self
                ).offset() == b + 1,
                None => range is None && final(self).offset() == old(self).offset(),
            },
    ;

    /// Classifies and bounds the value at the next significant byte, and
    /// moves past it. Called where `find_key` left the cursor, it passes
    /// over the colon after the key and reads the value under the key.
    fn read_value(&mut self) -> (value: Result<JSONValue, JSONError>)
        ensures
            final(self).buffer() == old(self).buffer(),
            match value {
                Ok(v) => value_span(old(self).buffer(), old(self).offset() as int) == Ok::<
                    (JSONType, int, int),
                    (ErrorKind, int),
                >(v@) && final(self).offset() == v.range.1,
                Err(e) => value_span(old(self).buffer(), old(self).offset() as int) == Err::<
                    (JSONType, int, int),
                    (ErrorKind, int),
                >(e@) && final(self).offset() == old(self).offset(),
            },
    ;

    /// Seeks to the provided offset.
    fn seek(&mut self, offset: usize)
        ensures
            final(self).buffer() == old(self).buffer(),
            final(self).offset() == offset,
    ;

    /// Resets to the beginning.
    fn reset(&mut self)
        ensures
            final(self).buffer() == old(self).buffer(),
            final(self).offset() == 0,
    ;

    /// Scans through an open-close pair and returns the end position, one
    /// past the matching `close`. The cursor sits on `open` or inside the
    /// span that it opens.
    fn scan(&mut self, open: u8, close: u8) -> (end: Option<usize>)
        ensures
            final(self).buffer() == old(self).buffer(),
            match scan_result(old(self).buffer(), old(self).offset() as int, open, close) {
                Some(e) => end matches Some(p) && p == e && final(self).offset() == e,
                None => end is None && final(self).offset() == old(self).offset(),
            },
    ;

    /// Skips ahead past the next occurrence of `val`.
    fn skip_to_next(&mut self, val: u8) -> (pos: Option<usize>)
        ensures
            final(self).buffer() == old(self).buffer(),
            match first_from(old(self).buffer(), old(self).offset() as int, val) {
                Some(k) => pos matches Some(p) && p == k + 1 && final(self).offset() == k + 1,
                None => pos is None && final(self).offset() == old(self).offset(),
            },
    ;

    /// Moves back onto the nearest occurrence of `val` before the cursor.
    fn skip_to_previous(&mut self, val: u8) -> (pos: Option<usize>)
        ensures
            final(self).buffer() == old(self).buffer(),
            match nearest_before(old(self).buffer(), old(self).offset() as int, val) {
                Some(k) => pos matches Some(p) && p == k && final(self).offset() == k,
                None => pos is None && final(self).offset() == old(self).offset(),
            },
    ;

    /// Moves past the whitespace at the cursor.
    fn skip_past_whitespace(&mut self)
        ensures
            final(self).buffer() == old(self).buffer(),
            final(self).offset() == skip_whitespace(old(self).buffer(), old(self).offset() as int),
    ;

    /// The bytes of a span, if it lies inside the buffer.
    fn select(&self, range: JSONRange) -> (bytes: Option<&[u8]>)
        ensures
            range.0 <= range.1 <= self.buffer().len() ==> bytes is Some && bytes.unwrap()@
                == self.buffer().subrange(range.0 as int, range.1 as int),
            !(range.0 <= range.1 <= self.buffer().len()) ==> bytes is None,
    ;
}

/// The cursor of the engine: a borrowed buffer and an offset into it.
pub struct JSONReader<'a> {
    data: &'a [u8],
    offset: usize,
}

impl<'a> JSONReader<'a> {
    /// A reader at the start of `data`.
    pub fn new(data: &'a [u8]) -> (reader: JSONReader<'a>)
        ensures
            reader.buffer() == data@,
            reader.offset() == 0,
    {
        JSONReader { data, offset: 0 }
    }

    /// Whether the next unread byte is `byte`.
    pub fn at(&self, byte: u8) -> (yes: bool)
        ensures
            yes == (byte_at(self.buffer(), self.offset() as int) == Some(byte)),
    {
        self.offset < self.data.len() && self.data[self.offset] == byte
    }

    /// Moves past the digits at the cursor.
    fn skip_digits(&mut self)
        ensures
            final(self).data == old(self).data,
            final(self).offset == digits_end(old(self).data@, old(self).offset as int),
    {
        while self.offset < self.data.len() && digit(self.data[self.offset])
            invariant
                self.data == old(self).data,
                digits_end(self.data@, old(self).offset as int) == digits_end(
                    self.data@,
                    self.offset as int,
                ),
            decreases self.data@.len() - self.offset,
        {
            self.offset += 1;
        }
    }

    /// Reads one digit or more. `Err` holds the failure, and the cursor then
    /// rests where it failed.
    fn digits(&mut self) -> (run: Result<(), JSONError>)
        ensures
            final(self).data == old(self).data,
            match run {
                Ok(_) => old(self).offset < old(self).data@.len() && is_digit(
                    old(self).data@[old(self).offset as int],
                ) && final(self).offset == digits_end(old(self).data@, old(self).offset + 1),
                Err(e) => final(self).offset == old(self).offset && e.offset == old(self).offset
                    && if old(self).offset >= old(self).data@.len() {
                    e.kind == ErrorKind::Truncated
                } else {
                    e.kind == ErrorKind::UnexpectedByte && !is_digit(
                        old(self).data@[old(self).offset as int],
                    )
                },
            },
    {
        if self.offset >= self.data.len() {
            Err(JSONError { kind: ErrorKind::Truncated, offset: self.offset })
        } else if !digit(self.data[self.offset]) {
            Err(JSONError { kind: ErrorKind::UnexpectedByte, offset: self.offset })
        } else {
            self.offset += 1;
            self.skip_digits();
            Ok(())
        }
    }

    /// Reads a number whose first byte is the next unread byte, and returns
    /// the offset one past it. On failure the cursor stays where it was.
    pub fn scan_number(&mut self) -> (end: Result<usize, JSONError>)
        ensures
            final(self).buffer() == old(self).buffer(),
            match end {
                Ok(e) => number_end(old(self).buffer(), old(self).offset() as int) == Ok::<
                    int,
                    (ErrorKind, int),
                >(e as int) && final(self).offset() == e,
                Err(e) => number_end(old(self).buffer(), old(self).offset() as int) == Err::<
                    int,
                    (ErrorKind, int),
                >(e@) && final(self).offset() == old(self).offset(),
            },
    {
        let origin: usize = self.offset;
        if self.at(MINUS) {
            self.next();
        }
        if self.at(ZERO) {
            self.next();
        } else {
            match self.digits() {
                Ok(_) => {},
                Err(e) => {
                    self.offset = origin;
                    return Err(e);
                },
            }
        }
        if self.at(POINT) {
            self.next();
            match self.digits() {
                Ok(_) => {},
                Err(e) => {
                    self.offset = origin;
                    return Err(e);
                },
            }
        }
        if self.at(LOWER_E) || self.at(UPPER_E) {
            self.next();
            if self.at(PLUS) || self.at(MINUS) {
                self.next();
            }
            match self.digits() {
                Ok(_) => {},
                Err(e) => {
                    self.offset = origin;
                    return Err(e);
                },
            }
        }
        Ok(self.offset)
    }

    /// Whether the bytes of the span `[start, end)` are those of `key`.
    fn span_is(&self, start: usize, end: usize, key: &[u8]) -> (same: bool)
        requires
            start <= end <= self.data@.len(),
        ensures
            same == (self.data@.subrange(start as int, end as int) == key@),
    {
        if end - start != key.len() {
            return false;
        }
        let mut n: usize = 0;
        while n < key.len()
            invariant
                start <= end <= self.data@.len(),
                end - start == key@.len(),
                n <= key@.len(),
                forall|j: int| 0 <= j < n ==> self.data@[start + j] == key@[j],
            decreases key@.len() - n,
        {
            if self.data[start + n] != key[n] {
                assert(self.data@.subrange(start as int, end as int)[n as int] != key@[n as int]);
                return false;
            }
            n += 1;
        }
        assert(self.data@.subrange(start as int, end as int) =~= key@);
        true
    }
}

impl<'a> Reader for JSONReader<'a> {
    closed spec fn buffer(&self) -> Seq<u8> {
        self.data@
    }

    closed spec fn offset(&self) -> usize {
        self.offset
    }

    fn position(&self) -> (pos: usize) {
        if self.offset == 0 {
            0
        } else {
            self.offset - 1
        }
    }

    fn cursor(&self) -> (pos: usize) {
        self.offset
    }

    fn next(&mut self) -> (token: Option<u8>) {
        if self.offset < self.data.len() {
            let token: u8 = self.data[self.offset];
            self.offset += 1;
            Some(token)
        } else {
            None
        }
    }

    fn prev(&mut self) -> (token: Option<u8>) {
        if self.offset == 0 || self.offset > self.data.len() {
            None
        } else {
            self.offset -= 1;
            Some(self.data[self.offset])
        }
    }

    fn peek(&self) -> (token: Option<u8>) {
        if self.offset < self.data.len() {
            Some(self.data[self.offset])
        } else {
            None
        }
    }

    fn last(&self) -> (token: Option<u8>) {
        if self.offset == 0 || self.offset > self.data.len() {
            None
        } else {
            Some(self.data[self.offset - 1])
        }
    }

    fn current(&self) -> (token: Option<u8>) {
        self.last()
    }

    fn read_string(&mut self) -> (range: Option<(usize, usize)>) {
        let start: usize = self.offset;
        loop
            invariant
                self.data == old(self).data,
                start == old(self).offset,
                string_close(self.data@, start as int) == string_close(
                    self.data@,
                    self.offset as int,
                ),
            decreases self.data@.len() - self.offset,
        {
            match self.next() {
                None => {
                    self.seek(start);
                    return None;
                },
                Some(token) => {
                    if token == QUOTE {
                        return Some((start, self.offset - 1));
                    } else if token == BACKSLASH {
                        if self.next().is_none() {
                            self.seek(start);
                            return None;
                        }
                    }
                },
            }
        }
    }

    fn read_number(&mut self) -> (range: Option<JSONRange>) {
        let origin: usize = self.offset;
        if origin == 0 {
            return None;
        }
        let start: usize = origin - 1;
        self.seek(start);
        match self.scan_number() {
            Ok(end) => Some((start, end)),
            Err(_) => {
                self.seek(origin);
                None
            },
        }
    }

    fn read_json(&mut self) -> (range: Option<(usize, usize)>) {
        if self.offset == 0 {
            return None;
        }
        let start: usize = self.offset - 1;
        let end: Option<usize> = match self.current() {
            None => None,
            Some(token) => {
                if token == OPEN_BRACE {
                    self.scan(OPEN_BRACE, CLOSE_BRACE)
                } else if token == OPEN_BRACKET {
                    self.scan(OPEN_BRACKET, CLOSE_BRACKET)
                } else {
                    None
                }
            },
        };
        match end {
            None => None,
            Some(index) => Some((start, index)),
        }
    }

    fn read_known(&mut self, bytes: usize) -> (range: Option<(usize, usize)>) {
        if self.offset == 0 {
            return None;
        }
        let start: usize = self.offset - 1;
        if start > self.data.len() || bytes > self.data.len() - start {
            return None;
        }
        self.seek(start + bytes);
        Some((start, self.offset))
    }

    fn find_key(&mut self, key: &[u8]) -> (range: Option<(usize, usize)>) {
        let origin: usize = self.offset;
        let mut hit_first_json: bool = false;
        loop
            invariant
                self.data == old(self).data,
                origin == old(self).offset,
                key_search(self.data@, origin as int, key@, false) == key_search(
                    self.data@,
                    self.offset as int,
                    key@,
                    hit_first_json,
                ),
            decreases self.data@.len() - self.offset,
        {
            match self.next() {
                None => {
                    self.seek(origin);
                    return None;
                },
                Some(token) => {
                    if token == OPEN_BRACE || token == OPEN_BRACKET {
                        if !hit_first_json {
                            hit_first_json = true;
                        } else {
                            proof {
                                lemma_scan_end_bounds(
                                    self.data@,
                                    self.offset as int,
                                    OPEN_BRACE,
                                    CLOSE_BRACE,
                                    1,
                                );
                                lemma_scan_end_bounds(
                                    self.data@,
                                    self.offset as int,
                                    OPEN_BRACKET,
                                    CLOSE_BRACKET,
                                    1,
                                );
                            }
                            if self.read_json().is_none() {
                                self.seek(origin);
                                return None;
                            }
                        }
                    } else if token == CLOSE_BRACE || token == CLOSE_BRACKET {
                        self.seek(origin);
                        return None;
                    } else if token == QUOTE {
                        proof {
                            lemma_string_close_bounds(self.data@, self.offset as int);
                        }
                        match self.read_string() {
                            None => {
                                self.seek(origin);
                                return None;
                            },
                            Some(found) => {
                                if self.span_is(found.0, found.1, key) {
                                    return Some(found);
                                }
                            },
                        }
                    }
                },
            }
        }
    }

    fn read_value(&mut self) -> (value: Result<JSONValue, JSONError>) {
        let origin: usize = self.offset;
        self.skip_past_whitespace();
        if self.at(COLON) {
            self.next();
            self.skip_past_whitespace();
        }
        let start: usize = self.offset;
        let length: usize = self.data.len();
        let found: Result<JSONValue, JSONError> = match self.next() {
            None => Err(JSONError { kind: ErrorKind::Truncated, offset: start }),
            Some(token) => {
                if token == LOWER_N || token == LOWER_T || token == LOWER_F {
                    let json_type: JSONType = if token == LOWER_N {
                        JSONType::NULL
                    } else {
                        JSONType::BOOLEAN
                    };
                    match self.read_known(if token == LOWER_F { 5 } else { 4 }) {
                        Some(range) => Ok(JSONValue::new(json_type, range)),
                        None => Err(JSONError { kind: ErrorKind::Truncated, offset: length }),
                    }
                } else if number_start(token) {
                    self.seek(start);
                    match self.scan_number() {
                        Ok(end) => Ok(JSONValue::new(JSONType::NUMBER, (start, end))),
                        Err(e) => Err(e),
                    }
                } else if token == QUOTE {
                    proof {
                        lemma_string_close_bounds(self.data@, self.offset as int);
                    }
                    match self.read_string() {
                        Some(_) => Ok(JSONValue::new(JSONType::STRING, (start, self.offset))),
                        None => Err(JSONError { kind: ErrorKind::Truncated, offset: length }),
                    }
                } else if token == OPEN_BRACE || token == OPEN_BRACKET {
                    let json_type: JSONType = if token == OPEN_BRACE {
                        JSONType::OBJECT
                    } else {
                        JSONType::ARRAY
                    };
                    match self.read_json() {
                        Some(range) => Ok(JSONValue::new(json_type, range)),
                        None => Err(JSONError { kind: ErrorKind::Truncated, offset: length }),
                    }
                } else {
                    Err(JSONError { kind: ErrorKind::MalformedValue, offset: start })
                }
            },
        };
        if found.is_err() {
            self.seek(origin);
        }
        found
    }

    fn seek(&mut self, offset: usize) {
        self.offset = offset;
    }

    fn reset(&mut self) {
        self.seek(0)
    }

    fn scan(&mut self, open: u8, close: u8) -> (end: Option<usize>) {
        let origin: usize = self.offset;
        if self.skip_to_previous(open).is_none() {
            return None;
        }
        self.next();
        let mut depth: usize = 1;
        loop
            invariant
                self.data == old(self).data,
                origin == old(self).offset,
                1 <= depth <= self.offset,
                scan_result(self.data@, origin as int, open, close) == scan_end(
                    self.data@,
                    self.offset as int,
                    open,
                    close,
                    depth as nat,
                ),
            decreases self.data@.len() - self.offset,
        {
            match self.next() {
                None => {
                    self.seek(origin);
                    return None;
                },
                Some(token) => {
                    if token == QUOTE {
                        proof {
                            lemma_string_close_bounds(self.data@, self.offset as int);
                        }
                        if self.read_string().is_none() {
                            self.seek(origin);
                            return None;
                        }
                    } else if token == open {
                        depth += 1;
                    } else if token == close {
                        depth -= 1;
                        if depth == 0 {
                            return Some(self.offset);
                        }
                    }
                },
            }
        }
    }

    fn skip_to_next(&mut self, val: u8) -> (pos: Option<usize>) {
        let start: usize = self.offset;
        loop
            invariant
                self.data == old(self).data,
                start == old(self).offset,
                first_from(self.data@, start as int, val) == first_from(
                    self.data@,
                    self.offset as int,
                    val,
                ),
            decreases self.data@.len() - self.offset,
        {
            match self.next() {
                None => {
                    self.seek(start);
                    return None;
                },
                Some(token) => {
                    if token == val {
                        return Some(self.offset);
                    }
                },
            }
        }
    }

    fn skip_to_previous(&mut self, val: u8) -> (pos: Option<usize>) {
        let start: usize = self.offset;
        loop
            invariant
                self.data == old(self).data,
                start == old(self).offset,
                nearest_before(self.data@, start as int, val) == nearest_before(
                    self.data@,
                    self.offset as int,
                    val,
                ),
            decreases self.offset,
        {
            match self.prev() {
                None => {
                    self.seek(start);
                    return None;
                },
                Some(token) => {
                    if token == val {
                        return Some(self.offset);
                    }
                },
            }
        }
    }

    fn skip_past_whitespace(&mut self) {
        loop
            invariant
                self.data == old(self).data,
                skip_whitespace(self.data@, old(self).offset as int) == skip_whitespace(
                    self.data@,
                    self.offset as int,
                ),
            decreases self.data@.len() - self.offset,
        {
            match self.peek() {
                None => return ,
                Some(token) => {
                    if whitespace(token) {
                        self.next();
                    } else {
                        return ;
                    }
                },
            }
        }
    }

    fn select(&self, range: JSONRange) -> (bytes: Option<&[u8]>) {
        if range.0 <= range.1 && range.1 <= self.data.len() {
            Some(vstd::slice::slice_subrange(self.data, range.0, range.1))
        } else {
            None
        }
    }
}

} // verus!
