//! What a reader finds that goes forward through the bytes.
//!
//! Each `*_end` function answers, for a construct that begins at offset `i`,
//! either the offset one past its last byte or the failure that the reader
//! meets first. JSON needs one byte of lookahead and no backtracking, so the
//! answer is unique.

use vstd::prelude::*;
use crate::bytes::{byte_at, false_literal, is_digit, is_hex_digit, is_number_start};
use crate::bytes::{is_simple_escape, is_whitespace, null_literal, true_literal, BACKSLASH};
use crate::bytes::{CLOSE_BRACE, CLOSE_BRACKET, COLON, COMMA, LOWER_E, LOWER_F, LOWER_N, LOWER_T};
use crate::bytes::{LOWER_U, MINUS, OPEN_BRACE, OPEN_BRACKET, PLUS, POINT, QUOTE, UPPER_E, ZERO};
use crate::result::ErrorKind;

verus! {

/// Offset one past a construct, or the kind and offset of the failure.
pub type Parse = Result<int, (ErrorKind, int)>;

pub open spec fn fail(kind: ErrorKind, at: int) -> Parse {
    Err((kind, at))
}

/// The first offset at or after `i` that holds no whitespace byte; `i` itself
/// when `i` lies outside the sequence.
pub open spec fn skip_whitespace(s: Seq<u8>, i: int) -> int
    decreases s.len() - i,
{
    if 0 <= i < s.len() && is_whitespace(s[i]) {
        skip_whitespace(s, i + 1)
    } else {
        i
    }
}

/// `skip_whitespace` passes over whitespace only and stops at the first
/// byte that is none.
pub proof fn lemma_skip_whitespace(s: Seq<u8>, i: int)
    ensures
        i <= skip_whitespace(s, i),
        0 <= i <= s.len() ==> skip_whitespace(s, i) <= s.len(),
        forall|j: int|
            i <= j < skip_whitespace(s, i) ==> 0 <= j < s.len() && is_whitespace(#[trigger] s[j]),
        0 <= skip_whitespace(s, i) < s.len() ==> !is_whitespace(s[skip_whitespace(s, i)]),
    decreases s.len() - i,
{
    if 0 <= i < s.len() && is_whitespace(s[i]) {
        lemma_skip_whitespace(s, i + 1);
    }
}

// ---------------------------------------------------------------------------
// Strings
// ---------------------------------------------------------------------------

/// The offset of the quote that closes a string whose content begins at `i`.
/// A backslash takes the byte after it along, whatever that byte is. `None`
/// when the input ends first.
pub open spec fn string_close(s: Seq<u8>, i: int) -> Option<int>
    decreases s.len() - i,
{
    if i < 0 || i >= s.len() {
        None
    } else if s[i] == QUOTE {
        Some(i)
    } else if s[i] != BACKSLASH {
        string_close(s, i + 1)
    } else if i + 1 >= s.len() {
        None
    } else {
        string_close(s, i + 2)
    }
}

pub proof fn lemma_string_close_bounds(s: Seq<u8>, i: int)
    ensures
        string_close(s, i) matches Some(q) ==> i <= q < s.len() && s[q] == QUOTE,
    decreases s.len() - i,
{
    if 0 <= i < s.len() && s[i] != QUOTE {
        if s[i] != BACKSLASH {
            lemma_string_close_bounds(s, i + 1);
        } else if i + 1 < s.len() {
            lemma_string_close_bounds(s, i + 2);
        }
    }
}

/// Exactly `n` hexadecimal digits from offset `i` on.
pub open spec fn hex_run_end(s: Seq<u8>, i: int, n: nat) -> Parse
    decreases n,
{
    if n == 0 {
        Ok(i)
    } else if i >= s.len() {
        fail(ErrorKind::Truncated, i)
    } else if !is_hex_digit(s[i]) {
        fail(ErrorKind::InvalidEscape, i)
    } else {
        hex_run_end(s, i + 1, (n - 1) as nat)
    }
}

pub proof fn lemma_hex_run_end_bounds(s: Seq<u8>, i: int, n: nat)
    requires
        0 <= i <= s.len(),
    ensures
        hex_run_end(s, i, n) matches Ok(e) ==> e == i + n && e <= s.len(),
        hex_run_end(s, i, n) matches Err(e) ==> i <= e.1 < i + n && e.1 <= s.len(),
    decreases n,
{
    if n > 0 && i < s.len() && is_hex_digit(s[i]) {
        lemma_hex_run_end_bounds(s, i + 1, (n - 1) as nat);
    }
}

/// The rest of a string, from offset `i` inside it up to and including the
/// closing quote. After a backslash stands one of `" \ / b f n r t`, or `u`
/// and four hexadecimal digits. Every other byte stands for itself.
pub open spec fn string_body_end(s: Seq<u8>, i: int) -> Parse
    decreases s.len() - i,
{
    if i < 0 || i >= s.len() {
        fail(ErrorKind::Truncated, i)
    } else if s[i] == QUOTE {
        Ok(i + 1)
    } else if s[i] != BACKSLASH {
        string_body_end(s, i + 1)
    } else if i + 1 >= s.len() {
        fail(ErrorKind::Truncated, i + 1)
    } else if is_simple_escape(s[i + 1]) {
        string_body_end(s, i + 2)
    } else if s[i + 1] != LOWER_U {
        fail(ErrorKind::InvalidEscape, i + 1)
    } else if hex_run_end(s, i + 2, 4) is Ok {
        proof {
            lemma_hex_run_end_bounds(s, i + 2, 4);
        }
        string_body_end(s, i + 6)
    } else {
        hex_run_end(s, i + 2, 4)
    }
}

/// A string literal whose opening quote stands at `i`.
pub open spec fn string_end(s: Seq<u8>, i: int) -> Parse {
    if i < 0 || i >= s.len() {
        fail(ErrorKind::Truncated, i)
    } else if s[i] != QUOTE {
        fail(ErrorKind::UnexpectedByte, i)
    } else {
        string_body_end(s, i + 1)
    }
}

pub proof fn lemma_string_body_end_bounds(s: Seq<u8>, i: int)
    ensures
        string_body_end(s, i) matches Ok(e) ==> i < e <= s.len(),
    decreases s.len() - i,
{
    if 0 <= i < s.len() && s[i] != QUOTE {
        if s[i] != BACKSLASH {
            lemma_string_body_end_bounds(s, i + 1);
        } else if i + 1 < s.len() {
            if is_simple_escape(s[i + 1]) {
                lemma_string_body_end_bounds(s, i + 2);
            } else if s[i + 1] == LOWER_U && hex_run_end(s, i + 2, 4) is Ok {
                lemma_hex_run_end_bounds(s, i + 2, 4);
                lemma_string_body_end_bounds(s, i + 6);
            }
        }
    }
}

// ---------------------------------------------------------------------------
// Literals and numbers
// ---------------------------------------------------------------------------

/// The bytes of `lit` from its index `k` on, at offset `i + k` and after.
/// The end is one past the whole literal.
pub open spec fn literal_from(s: Seq<u8>, i: int, lit: Seq<u8>, k: int) -> Parse
    decreases lit.len() - k,
{
    if k < 0 || k >= lit.len() {
        Ok(i + lit.len())
    } else if i + k < 0 || i + k >= s.len() {
        fail(ErrorKind::Truncated, i + k)
    } else if s[i + k] != lit[k] {
        fail(ErrorKind::UnexpectedByte, i + k)
    } else {
        literal_from(s, i, lit, k + 1)
    }
}

/// The literal `null` at offset `i`.
pub open spec fn null_end(s: Seq<u8>, i: int) -> Parse {
    literal_from(s, i, null_literal(), 0)
}

/// The literal `false` at offset `i` if an `f` stands there, else the
/// literal `true`.
pub open spec fn boolean_end(s: Seq<u8>, i: int) -> Parse {
    if byte_at(s, i) == Some(LOWER_F) {
        literal_from(s, i, false_literal(), 0)
    } else {
        literal_from(s, i, true_literal(), 0)
    }
}

/// The first offset at or after `i` that holds no digit.
pub open spec fn digits_end(s: Seq<u8>, i: int) -> int
    decreases s.len() - i,
{
    if 0 <= i < s.len() && is_digit(s[i]) {
        digits_end(s, i + 1)
    } else {
        i
    }
}

pub proof fn lemma_digits_end_bounds(s: Seq<u8>, i: int)
    ensures
        i <= digits_end(s, i),
        0 <= i <= s.len() ==> digits_end(s, i) <= s.len(),
    decreases s.len() - i,
{
    if 0 <= i < s.len() && is_digit(s[i]) {
        lemma_digits_end_bounds(s, i + 1);
    }
}

/// An optional exponent at offset `i`: `e` or `E`, an optional sign, and one
/// digit or more.
pub open spec fn exponent_end(s: Seq<u8>, i: int) -> Parse {
    if byte_at(s, i) == Some(LOWER_E) || byte_at(s, i) == Some(UPPER_E) {
        let d = if byte_at(s, i + 1) == Some(PLUS) || byte_at(s, i + 1) == Some(MINUS) {
            i + 2
        } else {
            i + 1
        };
        if d >= s.len() {
            fail(ErrorKind::Truncated, d)
        } else if !is_digit(s[d]) {
            fail(ErrorKind::UnexpectedByte, d)
        } else {
            Ok(digits_end(s, d + 1))
        }
    } else {
        Ok(i)
    }
}

/// An optional fraction at offset `i`, a point and one digit or more, and
/// the optional exponent after it.
pub open spec fn fraction_end(s: Seq<u8>, i: int) -> Parse {
    if byte_at(s, i) == Some(POINT) {
        if i + 1 >= s.len() {
            fail(ErrorKind::Truncated, i + 1)
        } else if !is_digit(s[i + 1]) {
            fail(ErrorKind::UnexpectedByte, i + 1)
        } else {
            exponent_end(s, digits_end(s, i + 2))
        }
    } else {
        exponent_end(s, i)
    }
}

/// A number at offset `i`: an optional `-`, then `0` or a digit from 1 to 9
/// with any digits after it, then an optional fraction and an optional
/// exponent.
pub open spec fn number_end(s: Seq<u8>, i: int) -> Parse {
    let a = if byte_at(s, i) == Some(MINUS) {
        i + 1
    } else {
        i
    };
    if a < 0 || a >= s.len() {
        fail(ErrorKind::Truncated, a)
    } else if s[a] == ZERO {
        fraction_end(s, a + 1)
    } else if is_digit(s[a]) {
        fraction_end(s, digits_end(s, a + 1))
    } else {
        fail(ErrorKind::UnexpectedByte, a)
    }
}

pub proof fn lemma_number_end_bounds(s: Seq<u8>, i: int)
    ensures
        number_end(s, i) matches Ok(e) ==> i < e <= s.len(),
{
    let a = if byte_at(s, i) == Some(MINUS) {
        i + 1
    } else {
        i
    };
    if 0 <= a < s.len() && is_digit(s[a]) {
        let b = if s[a] == ZERO {
            a + 1
        } else {
            digits_end(s, a + 1)
        };
        lemma_digits_end_bounds(s, a + 1);
        let c = if byte_at(s, b) == Some(POINT) {
            digits_end(s, b + 2)
        } else {
            b
        };
        lemma_digits_end_bounds(s, b + 2);
        lemma_digits_end_bounds(s, c + 2);
        lemma_digits_end_bounds(s, c + 3);
    }
}

// ---------------------------------------------------------------------------
// Values
// ---------------------------------------------------------------------------

/// A JSON value at the first significant byte at or after `i`.
///
/// An object is `{`, then `}` or members separated by commas, each a string,
/// a colon and a value, and `}`. An array is `[`, then `]` or values
/// separated by commas, and `]`. Whitespace may stand around every token.
pub open spec fn value_end(s: Seq<u8>, i: int) -> Parse
    decreases s.len() - i, 0int,
{
    if i < 0 || i >= s.len() {
        fail(ErrorKind::Truncated, i)
    } else if is_whitespace(s[i]) {
        value_end(s, i + 1)
    } else if s[i] == OPEN_BRACE {
        let k = skip_whitespace(s, i + 1);
        proof {
            lemma_skip_whitespace(s, i + 1);
        }
        if byte_at(s, k) == Some(CLOSE_BRACE) {
            Ok(k + 1)
        } else {
            members_end(s, k)
        }
    } else if s[i] == OPEN_BRACKET {
        let k = skip_whitespace(s, i + 1);
        proof {
            lemma_skip_whitespace(s, i + 1);
        }
        if byte_at(s, k) == Some(CLOSE_BRACKET) {
            Ok(k + 1)
        } else {
            elements_end(s, k)
        }
    } else if s[i] == QUOTE {
        string_end(s, i)
    } else if s[i] == LOWER_N {
        null_end(s, i)
    } else if s[i] == LOWER_T || s[i] == LOWER_F {
        boolean_end(s, i)
    } else if is_number_start(s[i]) {
        number_end(s, i)
    } else {
        fail(ErrorKind::MalformedValue, i)
    }
}

/// The members of an object from the key at `k` on, up to and including the
/// closing brace.
pub open spec fn members_end(s: Seq<u8>, k: int) -> Parse
    decreases s.len() - k, 1int,
{
    match string_end(s, k) {
        Ok(a) => {
            let c = skip_whitespace(s, a);
            proof {
                lemma_string_body_end_bounds(s, k + 1);
                lemma_skip_whitespace(s, a);
            }
            if c < 0 || c >= s.len() {
                fail(ErrorKind::Truncated, c)
            } else if s[c] != COLON {
                fail(ErrorKind::UnexpectedByte, c)
            } else {
                match value_end(s, c + 1) {
                    Ok(v) if v > c => {
                        let d = skip_whitespace(s, v);
                        proof {
                            lemma_skip_whitespace(s, v);
                            lemma_skip_whitespace(s, d + 1);
                        }
                        if d >= s.len() {
                            fail(ErrorKind::Truncated, d)
                        } else if s[d] == COMMA {
                            members_end(s, skip_whitespace(s, d + 1))
                        } else if s[d] == CLOSE_BRACE {
                            Ok(d + 1)
                        } else {
                            fail(ErrorKind::UnexpectedByte, d)
                        }
                    },
                    other => other,
                }
            }
        },
        Err(e) => Err(e),
    }
}

/// The elements of an array from the value at or after `k` on, up to and
/// including the closing bracket.
pub open spec fn elements_end(s: Seq<u8>, k: int) -> Parse
    decreases s.len() - k, 1int,
{
    match value_end(s, k) {
        Ok(v) if v > k => {
            let d = skip_whitespace(s, v);
            proof {
                lemma_skip_whitespace(s, v);
            }
            if d >= s.len() {
                fail(ErrorKind::Truncated, d)
            } else if s[d] == COMMA {
                elements_end(s, d + 1)
            } else if s[d] == CLOSE_BRACKET {
                Ok(d + 1)
            } else {
                fail(ErrorKind::UnexpectedByte, d)
            }
        },
        other => other,
    }
}

/// An object whose opening brace stands at `i`.
pub open spec fn object_end(s: Seq<u8>, i: int) -> Parse {
    if i < 0 || i >= s.len() {
        fail(ErrorKind::Truncated, i)
    } else if s[i] != OPEN_BRACE {
        fail(ErrorKind::UnexpectedByte, i)
    } else {
        value_end(s, i)
    }
}

/// An array whose opening bracket stands at `i`.
pub open spec fn array_end(s: Seq<u8>, i: int) -> Parse {
    if i < 0 || i >= s.len() {
        fail(ErrorKind::Truncated, i)
    } else if s[i] != OPEN_BRACKET {
        fail(ErrorKind::UnexpectedByte, i)
    } else {
        value_end(s, i)
    }
}

/// A literal that is matched in full ends inside the input.
pub proof fn lemma_literal_from_bounds(s: Seq<u8>, i: int, lit: Seq<u8>, k: int)
    requires
        0 <= k <= lit.len(),
        0 <= i,
    ensures
        literal_from(s, i, lit, k) matches Ok(e) ==> e == i + lit.len() && (k < lit.len() ==> e
            <= s.len()),
    decreases lit.len() - k,
{
    if k < lit.len() && i + k < s.len() && s[i + k] == lit[k] {
        lemma_literal_from_bounds(s, i, lit, k + 1);
    }
}

/// A value holds at least one byte and ends inside the input.
pub proof fn lemma_value_end_bounds(s: Seq<u8>, i: int)
    ensures
        value_end(s, i) matches Ok(e) ==> i < e <= s.len(),
    decreases s.len() - i, 0int,
{
    if 0 <= i < s.len() {
        if is_whitespace(s[i]) {
            lemma_value_end_bounds(s, i + 1);
        } else if s[i] == OPEN_BRACE {
            lemma_skip_whitespace(s, i + 1);
            lemma_members_end_bounds(s, skip_whitespace(s, i + 1));
        } else if s[i] == OPEN_BRACKET {
            lemma_skip_whitespace(s, i + 1);
            lemma_elements_end_bounds(s, skip_whitespace(s, i + 1));
        } else if s[i] == QUOTE {
            lemma_string_body_end_bounds(s, i + 1);
        } else if s[i] == LOWER_N {
            lemma_literal_from_bounds(s, i, null_literal(), 0);
        } else if s[i] == LOWER_T || s[i] == LOWER_F {
            lemma_literal_from_bounds(s, i, true_literal(), 0);
            lemma_literal_from_bounds(s, i, false_literal(), 0);
        } else if is_number_start(s[i]) {
            lemma_number_end_bounds(s, i);
        }
    }
}

/// The members of an object end inside the input.
pub proof fn lemma_members_end_bounds(s: Seq<u8>, k: int)
    ensures
        members_end(s, k) matches Ok(e) ==> k < e <= s.len(),
    decreases s.len() - k, 1int,
{
    lemma_string_body_end_bounds(s, k + 1);
    match string_end(s, k) {
        Ok(a) => {
            lemma_skip_whitespace(s, a);
            let c = skip_whitespace(s, a);
            if 0 <= c < s.len() && s[c] == COLON {
                lemma_value_end_bounds(s, c + 1);
                match value_end(s, c + 1) {
                    Ok(v) => {
                        lemma_skip_whitespace(s, v);
                        let d = skip_whitespace(s, v);
                        if d < s.len() && s[d] == COMMA {
                            lemma_skip_whitespace(s, d + 1);
                            lemma_members_end_bounds(s, skip_whitespace(s, d + 1));
                        }
                    },
                    Err(_) => {},
                }
            }
        },
        Err(_) => {},
    }
}

/// The elements of an array end inside the input.
pub proof fn lemma_elements_end_bounds(s: Seq<u8>, k: int)
    ensures
        elements_end(s, k) matches Ok(e) ==> k < e <= s.len(),
    decreases s.len() - k, 1int,
{
    lemma_value_end_bounds(s, k);
    match value_end(s, k) {
        Ok(v) => {
            lemma_skip_whitespace(s, v);
            let d = skip_whitespace(s, v);
            if d < s.len() && s[d] == COMMA {
                lemma_elements_end_bounds(s, d + 1);
            }
        },
        Err(_) => {},
    }
}

/// Whitespace in front of a value belongs to no token: the value is the one
/// that begins at the first significant byte.
pub proof fn lemma_value_end_skips_whitespace(s: Seq<u8>, i: int)
    ensures
        value_end(s, i) == value_end(s, skip_whitespace(s, i)),
    decreases s.len() - i,
{
    if 0 <= i < s.len() && is_whitespace(s[i]) {
        lemma_value_end_skips_whitespace(s, i + 1);
    }
}

/// A whole document: one value, with nothing but whitespace after it.
pub open spec fn document_end(s: Seq<u8>) -> Parse {
    match value_end(s, 0) {
        Ok(v) => {
            let t = skip_whitespace(s, v);
            if 0 <= t < s.len() {
                fail(ErrorKind::TrailingData, t)
            } else {
                Ok(t)
            }
        },
        Err(e) => Err(e),
    }
}

} // verus!
