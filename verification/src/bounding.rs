//! On well-formed input the reading operations, which do not examine what
//! they pass over, bound a value where the grammar says that it ends.

use vstd::prelude::*;
use crate::agreement::{closes, lemma_blank_is_skipped, lemma_number_complete};
use crate::agreement::lemma_value_first_byte;
use crate::bytes::{false_literal, is_digit, is_hex_digit, is_whitespace, null_literal};
use crate::bytes::true_literal;
use crate::bytes::{CLOSE_BRACE, CLOSE_BRACKET, COLON, LOWER_F, LOWER_N, LOWER_T, MINUS};
use crate::bytes::{OPEN_BRACE, OPEN_BRACKET, PLUS, QUOTE};
use crate::descent::{skip_whitespace, string_close};
use crate::grammar::{array, blank, character, characters, comma, element, elements, integer};
use crate::grammar::{literal, member, members, number, number_tail, object};
use crate::grammar::{string, value};
use crate::reader::{container_end, scan_end, scan_result, value_span, JSONType};
use crate::result::ErrorKind;

verus! {

/// The two pairs of delimiters that nest.
pub open spec fn nests(open: u8, close: u8) -> bool {
    (open == OPEN_BRACE && close == CLOSE_BRACE) || (open == OPEN_BRACKET && close
        == CLOSE_BRACKET)
}

/// A byte that neither nests nor opens a string.
pub open spec fn plain(b: u8) -> bool {
    b != QUOTE && b != OPEN_BRACE && b != CLOSE_BRACE && b != OPEN_BRACKET && b != CLOSE_BRACKET
}

/// The kind that the first byte of a value announces.
pub open spec fn kind_of(b: u8) -> JSONType {
    if b == OPEN_BRACE {
        JSONType::OBJECT
    } else if b == OPEN_BRACKET {
        JSONType::ARRAY
    } else if b == QUOTE {
        JSONType::STRING
    } else if b == LOWER_N {
        JSONType::NULL
    } else if b == LOWER_T || b == LOWER_F {
        JSONType::BOOLEAN
    } else {
        JSONType::NUMBER
    }
}

/// The quote that closes a string is found without looking at the escape
/// codes.
pub proof fn lemma_string_close_of_characters(s: Seq<u8>, i: int, q: int)
    requires
        characters(s, i, q),
        q < s.len(),
        s[q] == QUOTE,
    ensures
        string_close(s, i) == Some(q),
    decreases q - i,
{
    if i < q {
        let k = choose|k: int| i < k <= q && #[trigger] character(s, i, k) && characters(s, k, q);
        lemma_string_close_of_characters(s, k, q);
        if k == i + 6 {
            lemma_string_close_of_hex(s, i + 2, k, q);
        }
    }
}

/// Hexadecimal digits hold no quote and no backslash, so the search for the
/// closing quote steps over them one by one.
proof fn lemma_string_close_of_hex(s: Seq<u8>, i: int, k: int, q: int)
    requires
        0 <= i <= k <= q < s.len(),
        forall|m: int| i <= m < k ==> is_hex_digit(#[trigger] s[m]),
    ensures
        string_close(s, i) == string_close(s, k),
    decreases k - i,
{
    if i < k {
        assert(is_hex_digit(s[i]));
        lemma_string_close_of_hex(s, i + 1, k, q);
    }
}

/// A scan steps over plain bytes without a change of depth.
pub proof fn lemma_scan_plain(s: Seq<u8>, i: int, j: int, open: u8, close: u8, depth: nat)
    requires
        0 <= i <= j <= s.len(),
        nests(open, close),
        forall|k: int| i <= k < j ==> plain(#[trigger] s[k]),
    ensures
        scan_end(s, i, open, close, depth) == scan_end(s, j, open, close, depth),
    decreases j - i,
{
    if i < j {
        assert(plain(s[i]));
        lemma_scan_plain(s, i + 1, j, open, close, depth);
    }
}

proof fn lemma_scan_blank(s: Seq<u8>, i: int, j: int, open: u8, close: u8, depth: nat)
    requires
        blank(s, i, j),
        nests(open, close),
    ensures
        scan_end(s, i, open, close, depth) == scan_end(s, j, open, close, depth),
{
    assert forall|k: int| i <= k < j implies plain(#[trigger] s[k]) by {
        assert(is_whitespace(s[k]));
    }
    lemma_scan_plain(s, i, j, open, close, depth);
}

proof fn lemma_scan_literal(
    s: Seq<u8>,
    i: int,
    j: int,
    lit: Seq<u8>,
    open: u8,
    close: u8,
    depth: nat,
)
    requires
        literal(s, i, j, lit),
        lit == null_literal() || lit == true_literal() || lit == false_literal(),
        nests(open, close),
    ensures
        scan_end(s, i, open, close, depth) == scan_end(s, j, open, close, depth),
{
    lemma_literal_is_plain(s, i, j, lit);
    lemma_scan_plain(s, i, j, open, close, depth);
}

/// The bytes of `null`, `true` and `false` are plain.
pub proof fn lemma_literal_is_plain(s: Seq<u8>, i: int, j: int, lit: Seq<u8>)
    requires
        literal(s, i, j, lit),
        lit == null_literal() || lit == true_literal() || lit == false_literal(),
    ensures
        forall|k: int| i <= k < j ==> plain(#[trigger] s[k]),
{
    assert(s.subrange(i, j).len() == lit.len());
    assert forall|k: int| i <= k < j implies plain(#[trigger] s[k]) by {
        assert(s.subrange(i, j)[k - i] == lit[k - i]);
    }
}

/// The bytes of a number are plain.
pub proof fn lemma_number_is_plain(s: Seq<u8>, i: int, j: int)
    requires
        number(s, i, j),
    ensures
        0 <= i < j <= s.len(),
        forall|k: int| i <= k < j ==> plain(#[trigger] s[k]),
{
    let (a, b, c) = choose|a: int, b: int, c: int|
        #![trigger integer(s, a, b), number_tail(s, b, c, j)]
        0 <= i && (a == i || (a == i + 1 && s[i] == MINUS)) && integer(s, a, b) && number_tail(
            s,
            b,
            c,
            j,
        );
    assert forall|k: int| i <= k < j implies plain(#[trigger] s[k]) by {
        if a <= k < b {
            assert(is_digit(s[k]));
        } else if b < k < c {
            assert(is_digit(s[k]));
        } else if c + 1 < k {
            assert(is_digit(s[k]));
        } else if k == c + 1 {
            if !(s[c + 1] == PLUS || s[c + 1] == MINUS) {
                assert(is_digit(s[k]));
            }
        }
    }
}

proof fn lemma_scan_number(s: Seq<u8>, i: int, j: int, open: u8, close: u8, depth: nat)
    requires
        number(s, i, j),
        nests(open, close),
    ensures
        0 <= i < j <= s.len(),
        scan_end(s, i, open, close, depth) == scan_end(s, j, open, close, depth),
{
    lemma_number_is_plain(s, i, j);
    lemma_scan_plain(s, i, j, open, close, depth);
}

proof fn lemma_scan_string(s: Seq<u8>, i: int, j: int, open: u8, close: u8, depth: nat)
    requires
        string(s, i, j),
        nests(open, close),
    ensures
        scan_end(s, i, open, close, depth) == scan_end(s, j, open, close, depth),
{
    lemma_string_close_of_characters(s, i + 1, j - 1);
}

/// A scan that meets a value leaves it at its end, at the depth at which it
/// met it.
pub proof fn lemma_scan_value(s: Seq<u8>, i: int, j: int, open: u8, close: u8, depth: nat)
    requires
        value(s, i, j),
        nests(open, close),
        depth >= 1,
    ensures
        scan_end(s, i, open, close, depth) == scan_end(s, j, open, close, depth),
    decreases j - i, 1int,
{
    lemma_value_first_byte(s, i, j);
    if object(s, i, j) {
        let inner = if open == OPEN_BRACE {
            depth + 1
        } else {
            depth
        };
        if blank(s, i + 1, j - 1) {
            lemma_scan_blank(s, i + 1, j - 1, open, close, inner as nat);
        } else {
            lemma_scan_members(s, i + 1, j - 1, open, close, inner as nat);
        }
    } else if array(s, i, j) {
        let inner = if open == OPEN_BRACKET {
            depth + 1
        } else {
            depth
        };
        if blank(s, i + 1, j - 1) {
            lemma_scan_blank(s, i + 1, j - 1, open, close, inner as nat);
        } else {
            lemma_scan_elements(s, i + 1, j - 1, open, close, inner as nat);
        }
    } else if string(s, i, j) {
        lemma_scan_string(s, i, j, open, close, depth);
    } else if literal(s, i, j, null_literal()) {
        lemma_scan_literal(s, i, j, null_literal(), open, close, depth);
    } else if literal(s, i, j, true_literal()) {
        lemma_scan_literal(s, i, j, true_literal(), open, close, depth);
    } else if literal(s, i, j, false_literal()) {
        lemma_scan_literal(s, i, j, false_literal(), open, close, depth);
    } else {
        lemma_scan_number(s, i, j, open, close, depth);
    }
}

proof fn lemma_scan_element(s: Seq<u8>, i: int, j: int, open: u8, close: u8, depth: nat)
    requires
        element(s, i, j),
        nests(open, close),
        depth >= 1,
    ensures
        scan_end(s, i, open, close, depth) == scan_end(s, j, open, close, depth),
    decreases j - i, 2int,
{
    let (a, b) = choose|a: int, b: int|
        #![trigger blank(s, i, a), blank(s, b, j)]
        blank(s, i, a) && a < b && blank(s, b, j) && value(s, a, b);
    lemma_scan_blank(s, i, a, open, close, depth);
    lemma_scan_value(s, a, b, open, close, depth);
    lemma_scan_blank(s, b, j, open, close, depth);
}

proof fn lemma_scan_elements(s: Seq<u8>, i: int, j: int, open: u8, close: u8, depth: nat)
    requires
        elements(s, i, j),
        nests(open, close),
        depth >= 1,
    ensures
        scan_end(s, i, open, close, depth) == scan_end(s, j, open, close, depth),
    decreases j - i, 3int,
{
    if element(s, i, j) {
        lemma_scan_element(s, i, j, open, close, depth);
    } else {
        let k = choose|k: int|
            0 <= i < k < j <= s.len() && #[trigger] comma(s, k) && element(s, i, k) && elements(
                s,
                k + 1,
                j,
            );
        lemma_scan_element(s, i, k, open, close, depth);
        lemma_scan_elements(s, k + 1, j, open, close, depth);
    }
}

proof fn lemma_scan_member(s: Seq<u8>, i: int, j: int, open: u8, close: u8, depth: nat)
    requires
        member(s, i, j),
        nests(open, close),
        depth >= 1,
    ensures
        scan_end(s, i, open, close, depth) == scan_end(s, j, open, close, depth),
    decreases j - i, 3int,
{
    let (a, b, c) = choose|a: int, b: int, c: int|
        #![trigger string(s, a, b), blank(s, b, c)]
        blank(s, i, a) && string(s, a, b) && blank(s, b, c) && c < j <= s.len() && s[c] == COLON
            && element(s, c + 1, j);
    lemma_scan_blank(s, i, a, open, close, depth);
    lemma_scan_string(s, a, b, open, close, depth);
    lemma_scan_blank(s, b, c, open, close, depth);
    lemma_scan_element(s, c + 1, j, open, close, depth);
}

proof fn lemma_scan_members(s: Seq<u8>, i: int, j: int, open: u8, close: u8, depth: nat)
    requires
        members(s, i, j),
        nests(open, close),
        depth >= 1,
    ensures
        scan_end(s, i, open, close, depth) == scan_end(s, j, open, close, depth),
    decreases j - i, 4int,
{
    if member(s, i, j) {
        lemma_scan_member(s, i, j, open, close, depth);
    } else {
        let k = choose|k: int|
            0 <= i < k < j <= s.len() && #[trigger] comma(s, k) && member(s, i, k) && members(
                s,
                k + 1,
                j,
            );
        lemma_scan_member(s, i, k, open, close, depth);
        lemma_scan_members(s, k + 1, j, open, close, depth);
    }
}

/// The matching delimiter of a well-formed object or array is the one that
/// ends it.
pub proof fn lemma_container_end(s: Seq<u8>, i: int, j: int)
    requires
        object(s, i, j) || array(s, i, j),
    ensures
        container_end(s, i) == Some(j),
{
    if object(s, i, j) {
        if blank(s, i + 1, j - 1) {
            lemma_scan_blank(s, i + 1, j - 1, OPEN_BRACE, CLOSE_BRACE, 1);
        } else {
            lemma_scan_members(s, i + 1, j - 1, OPEN_BRACE, CLOSE_BRACE, 1);
        }
    } else {
        if blank(s, i + 1, j - 1) {
            lemma_scan_blank(s, i + 1, j - 1, OPEN_BRACKET, CLOSE_BRACKET, 1);
        } else {
            lemma_scan_elements(s, i + 1, j - 1, OPEN_BRACKET, CLOSE_BRACKET, 1);
        }
    }
}

/// A scan from the opening delimiter of a well-formed object or array ends
/// one past the delimiter that closes it.
pub proof fn lemma_scan_of_container(s: Seq<u8>, i: int, j: int)
    requires
        object(s, i, j) || array(s, i, j),
    ensures
        object(s, i, j) ==> scan_result(s, i + 1, OPEN_BRACE, CLOSE_BRACE) == Some(j),
        array(s, i, j) ==> scan_result(s, i + 1, OPEN_BRACKET, CLOSE_BRACKET) == Some(j),
{
    lemma_container_end(s, i, j);
}

/// Reading the value under a key gives the span of the value, and the kind
/// that its first byte announces: from the offset just past the key, over
/// whitespace, the colon and whitespace again.
pub proof fn lemma_value_span_after_key(s: Seq<u8>, i: int, c: int, a: int, j: int)
    requires
        blank(s, i, c),
        c < s.len(),
        s[c] == COLON,
        blank(s, c + 1, a),
        value(s, a, j),
        closes(s, j),
    ensures
        value_span(s, i) == Ok::<(JSONType, int, int), (ErrorKind, int)>((kind_of(s[a]), a, j)),
{
    lemma_value_first_byte(s, a, j);
    lemma_blank_is_skipped(s, i, c);
    lemma_blank_is_skipped(s, c + 1, a);
    lemma_value_span_of_value(s, a, a, j);
    assert(skip_whitespace(s, a) == a);
}

/// Reading a well-formed value gives the span of the value, and the kind
/// that its first byte announces.
pub proof fn lemma_value_span_of_value(s: Seq<u8>, i: int, a: int, j: int)
    requires
        blank(s, i, a),
        value(s, a, j),
        closes(s, j),
    ensures
        value_span(s, i) == Ok::<(JSONType, int, int), (ErrorKind, int)>((kind_of(s[a]), a, j)),
{
    lemma_value_first_byte(s, a, j);
    lemma_blank_is_skipped(s, i, a);
    if object(s, a, j) || array(s, a, j) {
        lemma_container_end(s, a, j);
    } else if string(s, a, j) {
        lemma_string_close_of_characters(s, a + 1, j - 1);
    } else if literal(s, a, j, null_literal()) {
        assert(s.subrange(a, j).len() == null_literal().len());
    } else if literal(s, a, j, true_literal()) {
        assert(s.subrange(a, j).len() == true_literal().len());
    } else if literal(s, a, j, false_literal()) {
        assert(s.subrange(a, j).len() == false_literal().len());
    } else {
        lemma_number_complete(s, a, j);
    }
}

} // verus!
