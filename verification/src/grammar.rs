//! What a JSON text is, as productions over spans of a byte sequence.
//!
//! Every predicate here says that the bytes of the half-open span `[i, j)`
//! form one construct, and nothing about how a reader finds where the
//! construct ends.

use vstd::prelude::*;
use crate::bytes::{false_literal, is_digit, is_hex_digit, is_simple_escape, is_whitespace};
use crate::bytes::{null_literal, true_literal, BACKSLASH, CLOSE_BRACE, CLOSE_BRACKET, COLON, COMMA};
use crate::bytes::{LOWER_E, LOWER_U, MINUS, OPEN_BRACE, OPEN_BRACKET, PLUS, POINT, QUOTE, UPPER_E};
use crate::bytes::ZERO;

verus! {

/// The span holds nothing but whitespace. It may be empty.
pub open spec fn blank(s: Seq<u8>, i: int, j: int) -> bool {
    0 <= i <= j <= s.len() && forall|k: int| i <= k < j ==> is_whitespace(#[trigger] s[k])
}

/// The span holds the bytes of `lit`.
pub open spec fn literal(s: Seq<u8>, i: int, j: int, lit: Seq<u8>) -> bool {
    0 <= i <= j <= s.len() && s.subrange(i, j) == lit
}

/// The span holds one digit or more.
pub open spec fn digits(s: Seq<u8>, i: int, j: int) -> bool {
    0 <= i < j <= s.len() && forall|k: int| i <= k < j ==> is_digit(#[trigger] s[k])
}

/// The integer part of a number: digits, with no leading zero before
/// another digit.
pub open spec fn integer(s: Seq<u8>, i: int, j: int) -> bool {
    digits(s, i, j) && (s[i] == ZERO ==> j == i + 1)
}

/// A fraction: a point and digits.
pub open spec fn fraction(s: Seq<u8>, i: int, j: int) -> bool {
    0 <= i < j <= s.len() && s[i] == POINT && digits(s, i + 1, j)
}

/// An exponent: `e` or `E`, an optional sign, and digits.
pub open spec fn exponent(s: Seq<u8>, i: int, j: int) -> bool {
    0 <= i < j <= s.len() && (s[i] == LOWER_E || s[i] == UPPER_E) && (digits(s, i + 1, j) || ((s[i
        + 1] == PLUS || s[i + 1] == MINUS) && digits(s, i + 2, j)))
}

/// What follows the integer part that ends at `b`: an optional fraction up
/// to `c` and an optional exponent up to `j`.
pub open spec fn number_tail(s: Seq<u8>, b: int, c: int, j: int) -> bool {
    (c == b || fraction(s, b, c)) && (j == c || exponent(s, c, j))
}

/// A number: an optional minus sign, an integer part, an optional fraction
/// and an optional exponent.
pub open spec fn number(s: Seq<u8>, i: int, j: int) -> bool {
    exists|a: int, b: int, c: int|
        #![trigger integer(s, a, b), number_tail(s, b, c, j)]
        0 <= i && (a == i || (a == i + 1 && s[i] == MINUS)) && integer(s, a, b) && number_tail(
            s,
            b,
            c,
            j,
        )
}

/// Four hexadecimal digits from `i` on.
pub open spec fn hex_quad(s: Seq<u8>, i: int) -> bool {
    is_hex_digit(s[i]) && is_hex_digit(s[i + 1]) && is_hex_digit(s[i + 2]) && is_hex_digit(
        s[i + 3],
    )
}

/// One character of a string: a byte that is neither a quote nor a
/// backslash, or a backslash with one of `" \ / b f n r t`, or `\u` with
/// four hexadecimal digits.
pub open spec fn character(s: Seq<u8>, i: int, j: int) -> bool {
    0 <= i < j <= s.len() && if s[i] != BACKSLASH {
        j == i + 1 && s[i] != QUOTE
    } else if j == i + 2 {
        is_simple_escape(s[i + 1])
    } else {
        j == i + 6 && s[i + 1] == LOWER_U && hex_quad(s, i + 2)
    }
}

/// The content of a string: any number of characters.
pub open spec fn characters(s: Seq<u8>, i: int, j: int) -> bool
    decreases j - i,
{
    0 <= i <= j <= s.len() && (i == j || exists|k: int|
        i < k <= j && #[trigger] character(s, i, k) && characters(s, k, j))
}

/// A string: characters between two quotes.
pub open spec fn string(s: Seq<u8>, i: int, j: int) -> bool {
    0 <= i && i + 2 <= j <= s.len() && s[i] == QUOTE && s[j - 1] == QUOTE && characters(
        s,
        i + 1,
        j - 1,
    )
}

/// A comma stands at `k`.
pub open spec fn comma(s: Seq<u8>, k: int) -> bool {
    s[k] == COMMA
}

/// A value: `null`, `true`, `false`, a number, a string, an object or an
/// array.
pub open spec fn value(s: Seq<u8>, i: int, j: int) -> bool
    decreases j - i, 1int,
{
    literal(s, i, j, null_literal()) || literal(s, i, j, true_literal()) || literal(
        s,
        i,
        j,
        false_literal(),
    ) || number(s, i, j) || string(s, i, j) || object(s, i, j) || array(s, i, j)
}

/// A value with optional whitespace on either side.
pub open spec fn element(s: Seq<u8>, i: int, j: int) -> bool
    decreases j - i, 2int,
{
    exists|a: int, b: int|
        #![trigger blank(s, i, a), blank(s, b, j)]
        blank(s, i, a) && a < b && blank(s, b, j) && value(s, a, b)
}

/// Elements separated by commas, one or more.
pub open spec fn elements(s: Seq<u8>, i: int, j: int) -> bool
    decreases j - i, 3int,
{
    element(s, i, j) || exists|k: int|
        0 <= i < k < j <= s.len() && #[trigger] comma(s, k) && element(s, i, k) && elements(
            s,
            k + 1,
            j,
        )
}

/// An array: brackets around whitespace or elements.
pub open spec fn array(s: Seq<u8>, i: int, j: int) -> bool
    decreases j - i, 0int,
{
    0 <= i && i + 2 <= j <= s.len() && s[i] == OPEN_BRACKET && s[j - 1] == CLOSE_BRACKET && (blank(
        s,
        i + 1,
        j - 1,
    ) || elements(s, i + 1, j - 1))
}

/// A member of an object: a string key and an element, with a colon between
/// them and optional whitespace around the key.
pub open spec fn member(s: Seq<u8>, i: int, j: int) -> bool
    decreases j - i, 3int,
{
    exists|a: int, b: int, c: int|
        #![trigger string(s, a, b), blank(s, b, c)]
        blank(s, i, a) && string(s, a, b) && blank(s, b, c) && c < j <= s.len() && s[c] == COLON
            && element(s, c + 1, j)
}

/// Members separated by commas, one or more.
pub open spec fn members(s: Seq<u8>, i: int, j: int) -> bool
    decreases j - i, 4int,
{
    member(s, i, j) || exists|k: int|
        0 <= i < k < j <= s.len() && #[trigger] comma(s, k) && member(s, i, k) && members(
            s,
            k + 1,
            j,
        )
}

/// An object: braces around whitespace or members.
pub open spec fn object(s: Seq<u8>, i: int, j: int) -> bool
    decreases j - i, 0int,
{
    0 <= i && i + 2 <= j <= s.len() && s[i] == OPEN_BRACE && s[j - 1] == CLOSE_BRACE && (blank(
        s,
        i + 1,
        j - 1,
    ) || members(s, i + 1, j - 1))
}

/// A JSON text: one value, with optional whitespace before and after it and
/// nothing else.
pub open spec fn document(s: Seq<u8>) -> bool {
    element(s, 0, s.len() as int)
}

} // verus!
