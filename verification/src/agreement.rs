//! The reader's view of the grammar and the productions agree: going
//! forward from the start of a construct, a reader ends where the
//! production says the construct ends, and nowhere else.

use vstd::prelude::*;
use crate::bytes::{byte_at, false_literal, is_digit, is_number_start, is_simple_escape};
use crate::bytes::{is_whitespace, null_literal, true_literal, BACKSLASH, CLOSE_BRACE};
use crate::bytes::{CLOSE_BRACKET, COLON, COMMA, LOWER_E, LOWER_F, LOWER_N, LOWER_T, MINUS};
use crate::bytes::{OPEN_BRACE, OPEN_BRACKET, PLUS, POINT, QUOTE, UPPER_E, ZERO};
use crate::descent::{digits_end, document_end, elements_end, hex_run_end};
use crate::descent::lemma_skip_whitespace;
use crate::descent::{lemma_string_body_end_bounds, lemma_value_end_bounds};
use crate::descent::{lemma_value_end_skips_whitespace, literal_from, members_end, number_end};
use crate::descent::{skip_whitespace, string_body_end, string_end, value_end};
use crate::grammar::{array, blank, character, characters, comma, digits, document, element};
use crate::grammar::{elements, exponent, fraction, hex_quad, integer, literal, member, members};
use crate::grammar::{number, number_tail, object, string, value};
use crate::result::ErrorKind;

verus! {

/// The byte at `j`, if there is one, can stand after a value: it is
/// whitespace, a comma, or a closing delimiter.
pub open spec fn closes(s: Seq<u8>, j: int) -> bool {
    j >= s.len() || is_whitespace(s[j]) || s[j] == COMMA || s[j] == CLOSE_BRACKET || s[j]
        == CLOSE_BRACE
}

/// A blank span that ends at a significant byte, or at the end of the
/// input, is what `skip_whitespace` passes over.
pub proof fn lemma_blank_is_skipped(s: Seq<u8>, i: int, a: int)
    requires
        blank(s, i, a),
        a >= s.len() || !is_whitespace(s[a]),
    ensures
        skip_whitespace(s, i) == a,
    decreases a - i,
{
    if i < a {
        assert(is_whitespace(s[i]));
        lemma_blank_is_skipped(s, i + 1, a);
    }
}

/// What `skip_whitespace` passes over is blank.
pub proof fn lemma_skipped_is_blank(s: Seq<u8>, i: int)
    requires
        0 <= i <= s.len(),
    ensures
        blank(s, i, skip_whitespace(s, i)),
{
    lemma_skip_whitespace(s, i);
}

// ---------------------------------------------------------------------------
// Literals
// ---------------------------------------------------------------------------

proof fn lemma_literal_from_matches(s: Seq<u8>, i: int, lit: Seq<u8>, k: int)
    requires
        0 <= i,
        0 <= k <= lit.len(),
        literal_from(s, i, lit, k) is Ok,
    ensures
        literal_from(s, i, lit, k) == Ok::<int, (ErrorKind, int)>(i + lit.len()),
        k < lit.len() ==> i + lit.len() <= s.len(),
        forall|m: int| k <= m < lit.len() ==> s[i + m] == #[trigger] lit[m],
    decreases lit.len() - k,
{
    if k < lit.len() {
        lemma_literal_from_matches(s, i, lit, k + 1);
    }
}

/// A reader that matches a literal has read the literal's bytes.
pub proof fn lemma_literal_sound(s: Seq<u8>, i: int, lit: Seq<u8>)
    requires
        0 <= i,
        lit.len() > 0,
        literal_from(s, i, lit, 0) is Ok,
    ensures
        literal_from(s, i, lit, 0) == Ok::<int, (ErrorKind, int)>(i + lit.len()),
        literal(s, i, i + lit.len(), lit),
{
    lemma_literal_from_matches(s, i, lit, 0);
    assert(s.subrange(i, i + lit.len()) =~= lit);
}

proof fn lemma_literal_from_complete(s: Seq<u8>, i: int, j: int, lit: Seq<u8>, k: int)
    requires
        literal(s, i, j, lit),
        0 <= k <= lit.len(),
    ensures
        literal_from(s, i, lit, k) == Ok::<int, (ErrorKind, int)>(j),
    decreases lit.len() - k,
{
    assert(s.subrange(i, j).len() == lit.len());
    if k < lit.len() {
        assert(s.subrange(i, j)[k] == lit[k]);
        lemma_literal_from_complete(s, i, j, lit, k + 1);
    }
}

/// A reader matches a literal wherever its bytes stand.
pub proof fn lemma_literal_complete(s: Seq<u8>, i: int, j: int, lit: Seq<u8>)
    requires
        literal(s, i, j, lit),
    ensures
        literal_from(s, i, lit, 0) == Ok::<int, (ErrorKind, int)>(j),
{
    lemma_literal_from_complete(s, i, j, lit, 0);
}

// ---------------------------------------------------------------------------
// Strings
// ---------------------------------------------------------------------------

proof fn lemma_hex_run_is_quad(s: Seq<u8>, i: int)
    requires
        0 <= i,
    ensures
        hex_run_end(s, i, 4) is Ok <==> i + 4 <= s.len() && hex_quad(s, i),
{
    reveal_with_fuel(hex_run_end, 5);
}

/// Where a reader finds the closing quote, the bytes before it are the
/// characters of a string.
pub proof fn lemma_string_body_sound(s: Seq<u8>, i: int)
    requires
        0 <= i,
        string_body_end(s, i) is Ok,
    ensures
        string_body_end(s, i) matches Ok(e) && i < e <= s.len() && s[e - 1] == QUOTE && characters(
            s,
            i,
            e - 1,
        ),
    decreases s.len() - i,
{
    let e = string_body_end(s, i)->Ok_0;
    lemma_string_body_end_bounds(s, i);
    if s[i] != QUOTE {
        let k = if s[i] != BACKSLASH {
            i + 1
        } else if is_simple_escape(s[i + 1]) {
            i + 2
        } else {
            i + 6
        };
        lemma_hex_run_is_quad(s, i + 2);
        lemma_string_body_sound(s, k);
        assert(character(s, i, k) && characters(s, k, e - 1));
    }
}

/// A reader finds the closing quote of a string at the end of its
/// characters.
pub proof fn lemma_string_body_complete(s: Seq<u8>, i: int, q: int)
    requires
        characters(s, i, q),
        q < s.len(),
        s[q] == QUOTE,
    ensures
        string_body_end(s, i) == Ok::<int, (ErrorKind, int)>(q + 1),
    decreases q - i,
{
    if i < q {
        let k = choose|k: int| i < k <= q && #[trigger] character(s, i, k) && characters(s, k, q);
        lemma_hex_run_is_quad(s, i + 2);
        lemma_string_body_complete(s, k, q);
    }
}

/// The reader and the production agree on strings.
pub proof fn lemma_string_agreement(s: Seq<u8>, i: int, j: int)
    requires
        0 <= i,
    ensures
        string_end(s, i) == Ok::<int, (ErrorKind, int)>(j) <==> string(s, i, j),
{
    if string_end(s, i) == Ok::<int, (ErrorKind, int)>(j) {
        lemma_string_body_sound(s, i + 1);
    }
    if string(s, i, j) {
        lemma_string_body_complete(s, i + 1, j - 1);
    }
}

// ---------------------------------------------------------------------------
// Numbers
// ---------------------------------------------------------------------------

/// `digits_end` passes over digits only and stops at the first byte that is
/// none.
pub proof fn lemma_digits_end(s: Seq<u8>, i: int)
    requires
        0 <= i <= s.len(),
    ensures
        i <= digits_end(s, i) <= s.len(),
        forall|k: int| i <= k < digits_end(s, i) ==> is_digit(#[trigger] s[k]),
        digits_end(s, i) < s.len() ==> !is_digit(s[digits_end(s, i)]),
    decreases s.len() - i,
{
    if i < s.len() && is_digit(s[i]) {
        lemma_digits_end(s, i + 1);
    }
}

/// A run of digits that ends at a byte that is no digit, or at the end of
/// the input, is what `digits_end` passes over.
pub proof fn lemma_digits_run(s: Seq<u8>, i: int, j: int)
    requires
        0 <= i <= j <= s.len(),
        forall|k: int| i <= k < j ==> is_digit(#[trigger] s[k]),
        j >= s.len() || !is_digit(s[j]),
    ensures
        digits_end(s, i) == j,
    decreases j - i,
{
    if i < j {
        assert(is_digit(s[i]));
        lemma_digits_run(s, i + 1, j);
    }
}

/// Where a reader ends a number, the bytes that it read are a number.
pub proof fn lemma_number_sound(s: Seq<u8>, i: int)
    requires
        0 <= i,
        number_end(s, i) is Ok,
    ensures
        number_end(s, i) matches Ok(e) && number(s, i, e),
{
    let e = number_end(s, i)->Ok_0;
    let a = if byte_at(s, i) == Some(MINUS) {
        i + 1
    } else {
        i
    };
    let b = if s[a] == ZERO {
        a + 1
    } else {
        digits_end(s, a + 1)
    };
    lemma_digits_end(s, a + 1);
    assert(integer(s, a, b));
    let c = if byte_at(s, b) == Some(POINT) {
        digits_end(s, b + 2)
    } else {
        b
    };
    if byte_at(s, b) == Some(POINT) {
        lemma_digits_end(s, b + 2);
        assert(fraction(s, b, c));
    }
    if byte_at(s, c) == Some(LOWER_E) || byte_at(s, c) == Some(UPPER_E) {
        let d = if byte_at(s, c + 1) == Some(PLUS) || byte_at(s, c + 1) == Some(MINUS) {
            c + 2
        } else {
            c + 1
        };
        lemma_digits_end(s, d + 1);
        assert(exponent(s, c, e));
    }
    assert(integer(s, a, b) && number_tail(s, b, c, e));
}

/// A reader ends a number where the number ends, if what follows cannot
/// continue it.
pub proof fn lemma_number_complete(s: Seq<u8>, i: int, j: int)
    requires
        number(s, i, j),
        closes(s, j),
    ensures
        number_end(s, i) == Ok::<int, (ErrorKind, int)>(j),
{
    let (a, b, c) = choose|a: int, b: int, c: int|
        #![trigger integer(s, a, b), number_tail(s, b, c, j)]
        0 <= i && (a == i || (a == i + 1 && s[i] == MINUS)) && integer(s, a, b) && number_tail(
            s,
            b,
            c,
            j,
        );
    assert(is_digit(s[a]));
    if s[a] != ZERO {
        lemma_digits_run(s, a + 1, b);
    }
    if c != b {
        assert(is_digit(s[b + 1]));
        lemma_digits_run(s, b + 2, c);
    }
    if j != c {
        let d = if digits(s, c + 1, j) {
            c + 1
        } else {
            c + 2
        };
        assert(is_digit(s[d]));
        lemma_digits_run(s, d + 1, j);
    }
}

// ---------------------------------------------------------------------------
// Values
// ---------------------------------------------------------------------------

/// The first byte of a value is significant, and it is none of the bytes
/// that close a construct.
pub proof fn lemma_value_first_byte(s: Seq<u8>, a: int, j: int)
    requires
        value(s, a, j),
    ensures
        0 <= a < j <= s.len(),
        !is_whitespace(s[a]),
        s[a] != CLOSE_BRACKET,
        s[a] != CLOSE_BRACE,
        s[a] != COLON,
        s[a] != COMMA,
        s[a] == OPEN_BRACE <==> object(s, a, j),
        s[a] == OPEN_BRACKET <==> array(s, a, j),
        s[a] == QUOTE <==> string(s, a, j),
        s[a] == LOWER_N <==> literal(s, a, j, null_literal()),
        s[a] == LOWER_T <==> literal(s, a, j, true_literal()),
        s[a] == LOWER_F <==> literal(s, a, j, false_literal()),
        number(s, a, j) ==> is_number_start(s[a]),
{
    if literal(s, a, j, null_literal()) {
        assert(s.subrange(a, j).len() == null_literal().len());
        assert(s.subrange(a, j)[0] == null_literal()[0]);
    }
    if literal(s, a, j, true_literal()) {
        assert(s.subrange(a, j).len() == true_literal().len());
        assert(s.subrange(a, j)[0] == true_literal()[0]);
    }
    if literal(s, a, j, false_literal()) {
        assert(s.subrange(a, j).len() == false_literal().len());
        assert(s.subrange(a, j)[0] == false_literal()[0]);
    }
    if number(s, a, j) {
        let (x, b, c) = choose|x: int, b: int, c: int|
            #![trigger integer(s, x, b), number_tail(s, b, c, j)]
            0 <= a && (x == a || (x == a + 1 && s[a] == MINUS)) && integer(s, x, b)
                && number_tail(s, b, c, j);
        assert(is_digit(s[x]));
    }
}

/// Where a reader ends a value, the bytes from the first significant one on
/// are a value.
pub proof fn lemma_value_sound(s: Seq<u8>, i: int)
    requires
        0 <= i,
        value_end(s, i) is Ok,
    ensures
        value_end(s, i) matches Ok(e) && i <= skip_whitespace(s, i) < e <= s.len() && value(
            s,
            skip_whitespace(s, i),
            e,
        ),
    decreases s.len() - i, 0int,
{
    let e = value_end(s, i)->Ok_0;
    lemma_value_end_bounds(s, i);
    if is_whitespace(s[i]) {
        lemma_value_sound(s, i + 1);
    } else if s[i] == OPEN_BRACE {
        let k = skip_whitespace(s, i + 1);
        lemma_skipped_is_blank(s, i + 1);
        if byte_at(s, k) != Some(CLOSE_BRACE) {
            lemma_members_sound(s, i + 1);
        }
        assert(object(s, i, e));
    } else if s[i] == OPEN_BRACKET {
        let k = skip_whitespace(s, i + 1);
        lemma_skipped_is_blank(s, i + 1);
        if byte_at(s, k) != Some(CLOSE_BRACKET) {
            lemma_elements_sound(s, k);
            lemma_elements_lead(s, i + 1, k, e - 1);
        }
        assert(array(s, i, e));
    } else if s[i] == QUOTE {
        lemma_string_agreement(s, i, e);
    } else if s[i] == LOWER_N {
        lemma_literal_sound(s, i, null_literal());
    } else if s[i] == LOWER_T {
        lemma_literal_sound(s, i, true_literal());
    } else if s[i] == LOWER_F {
        lemma_literal_sound(s, i, false_literal());
    } else {
        lemma_number_sound(s, i);
    }
}

/// Blank bytes in front of elements belong to the first of them.
proof fn lemma_element_lead(s: Seq<u8>, i: int, k: int, j: int)
    requires
        blank(s, i, k),
        element(s, k, j),
    ensures
        element(s, i, j),
{
    let (a, b) = choose|a: int, b: int|
        #![trigger blank(s, k, a), blank(s, b, j)]
        blank(s, k, a) && a < b && blank(s, b, j) && value(s, a, b);
    assert(blank(s, i, a) && blank(s, b, j));
}

proof fn lemma_elements_lead(s: Seq<u8>, i: int, k: int, j: int)
    requires
        blank(s, i, k),
        elements(s, k, j),
    ensures
        elements(s, i, j),
{
    if element(s, k, j) {
        lemma_element_lead(s, i, k, j);
    } else {
        let m = choose|m: int|
            0 <= k < m < j <= s.len() && #[trigger] comma(s, m) && element(s, k, m) && elements(
                s,
                m + 1,
                j,
            );
        lemma_element_lead(s, i, k, m);
        assert(comma(s, m));
    }
}

/// Where a reader ends the members of an object, the bytes before the
/// closing brace are members.
pub proof fn lemma_members_sound(s: Seq<u8>, p: int)
    requires
        0 <= p <= s.len(),
        members_end(s, skip_whitespace(s, p)) is Ok,
    ensures
        members_end(s, skip_whitespace(s, p)) matches Ok(e) && p < e <= s.len() && s[e - 1]
            == CLOSE_BRACE && members(s, p, e - 1),
    decreases s.len() - p, 1int,
{
    let k = skip_whitespace(s, p);
    let e = members_end(s, k)->Ok_0;
    lemma_skipped_is_blank(s, p);
    let a = string_end(s, k)->Ok_0;
    lemma_string_agreement(s, k, a);
    let c = skip_whitespace(s, a);
    lemma_skipped_is_blank(s, a);
    let v = value_end(s, c + 1)->Ok_0;
    lemma_value_sound(s, c + 1);
    let d = skip_whitespace(s, v);
    lemma_skipped_is_blank(s, c + 1);
    lemma_skipped_is_blank(s, v);
    assert(blank(s, c + 1, skip_whitespace(s, c + 1)) && blank(s, v, d));
    assert(element(s, c + 1, d));
    assert(string(s, k, a) && blank(s, a, c));
    assert(member(s, p, d));
    if s[d] == COMMA {
        lemma_members_sound(s, d + 1);
        assert(comma(s, d));
        assert(members(s, p, e - 1));
    }
}

/// Where a reader ends the elements of an array, the bytes before the
/// closing bracket are elements.
pub proof fn lemma_elements_sound(s: Seq<u8>, k: int)
    requires
        0 <= k,
        elements_end(s, k) is Ok,
    ensures
        elements_end(s, k) matches Ok(e) && k < e <= s.len() && s[e - 1] == CLOSE_BRACKET
            && elements(s, k, e - 1),
    decreases s.len() - k, 1int,
{
    let e = elements_end(s, k)->Ok_0;
    let v = value_end(s, k)->Ok_0;
    lemma_value_sound(s, k);
    lemma_value_end_bounds(s, k);
    lemma_skipped_is_blank(s, k);
    let d = skip_whitespace(s, v);
    lemma_skipped_is_blank(s, v);
    assert(blank(s, k, skip_whitespace(s, k)) && blank(s, v, d));
    assert(element(s, k, d));
    if s[d] == COMMA {
        lemma_elements_sound(s, d + 1);
        assert(comma(s, d));
        assert(elements(s, k, e - 1));
    }
}

/// A reader ends a value where the value ends, if what follows cannot
/// continue it.
pub proof fn lemma_value_complete(s: Seq<u8>, a: int, j: int)
    requires
        value(s, a, j),
        closes(s, j),
    ensures
        value_end(s, a) == Ok::<int, (ErrorKind, int)>(j),
    decreases j - a, 1int,
{
    lemma_value_first_byte(s, a, j);
    if object(s, a, j) {
        if blank(s, a + 1, j - 1) {
            lemma_blank_is_skipped(s, a + 1, j - 1);
        } else {
            lemma_members_complete(s, a + 1, j - 1);
        }
    } else if array(s, a, j) {
        if blank(s, a + 1, j - 1) {
            lemma_blank_is_skipped(s, a + 1, j - 1);
        } else {
            lemma_elements_complete(s, a + 1, j - 1);
            lemma_elements_end_skips_whitespace(s, a + 1);
        }
    } else if string(s, a, j) {
        lemma_string_agreement(s, a, j);
    } else if literal(s, a, j, null_literal()) {
        lemma_literal_complete(s, a, j, null_literal());
    } else if literal(s, a, j, true_literal()) {
        lemma_literal_complete(s, a, j, true_literal());
    } else if literal(s, a, j, false_literal()) {
        lemma_literal_complete(s, a, j, false_literal());
    } else {
        lemma_number_complete(s, a, j);
    }
}

/// A reader that begins at an element ends its value inside it, with only
/// whitespace left up to the element's end.
pub proof fn lemma_element_complete(s: Seq<u8>, i: int, j: int)
    requires
        element(s, i, j),
        closes(s, j),
        j >= s.len() || !is_whitespace(s[j]),
    ensures
        value_end(s, i) matches Ok(v) && i < v <= j && skip_whitespace(s, v) == j,
        skip_whitespace(s, i) < s.len(),
        s[skip_whitespace(s, i)] != CLOSE_BRACKET,
    decreases j - i, 2int,
{
    let (a, b) = choose|a: int, b: int|
        #![trigger blank(s, i, a), blank(s, b, j)]
        blank(s, i, a) && a < b && blank(s, b, j) && value(s, a, b);
    lemma_value_first_byte(s, a, b);
    lemma_blank_is_skipped(s, i, a);
    lemma_blank_is_skipped(s, b, j);
    lemma_value_end_skips_whitespace(s, i);
    if b < j {
        assert(is_whitespace(s[b]));
    }
    lemma_value_complete(s, a, b);
}

/// Whitespace in front of the elements of an array changes nothing.
proof fn lemma_elements_end_skips_whitespace(s: Seq<u8>, i: int)
    requires
        0 <= i,
    ensures
        elements_end(s, i) is Ok ==> elements_end(s, skip_whitespace(s, i)) == elements_end(s, i),
{
    lemma_value_end_skips_whitespace(s, i);
    lemma_value_end_bounds(s, i);
    lemma_value_end_bounds(s, skip_whitespace(s, i));
    lemma_skip_whitespace(s, i);
    if value_end(s, i) is Ok {
        lemma_value_sound(s, i);
    }
}

/// A reader ends the elements of an array one past the closing bracket.
pub proof fn lemma_elements_complete(s: Seq<u8>, i: int, j: int)
    requires
        elements(s, i, j),
        j < s.len(),
        s[j] == CLOSE_BRACKET,
    ensures
        elements_end(s, i) == Ok::<int, (ErrorKind, int)>(j + 1),
        skip_whitespace(s, i) < s.len(),
        s[skip_whitespace(s, i)] != CLOSE_BRACKET,
    decreases j - i, 3int,
{
    if element(s, i, j) {
        lemma_element_complete(s, i, j);
    } else {
        let k = choose|k: int|
            0 <= i < k < j <= s.len() && #[trigger] comma(s, k) && element(s, i, k) && elements(
                s,
                k + 1,
                j,
            );
        lemma_element_complete(s, i, k);
        lemma_elements_complete(s, k + 1, j);
    }
}

/// After a member that ends at `j`, a reader goes on by what stands at `j`.
proof fn lemma_member_complete(s: Seq<u8>, i: int, j: int)
    requires
        member(s, i, j),
        j < s.len(),
        s[j] == COMMA || s[j] == CLOSE_BRACE,
    ensures
        skip_whitespace(s, i) < s.len(),
        s[skip_whitespace(s, i)] == QUOTE,
        members_end(s, skip_whitespace(s, i)) == if s[j] == COMMA {
            members_end(s, skip_whitespace(s, j + 1))
        } else {
            Ok::<int, (ErrorKind, int)>(j + 1)
        },
    decreases j - i, 3int,
{
    let (a, b, c) = choose|a: int, b: int, c: int|
        #![trigger string(s, a, b), blank(s, b, c)]
        blank(s, i, a) && string(s, a, b) && blank(s, b, c) && c < j <= s.len() && s[c] == COLON
            && element(s, c + 1, j);
    lemma_blank_is_skipped(s, i, a);
    lemma_string_agreement(s, a, b);
    lemma_blank_is_skipped(s, b, c);
    lemma_element_complete(s, c + 1, j);
}

/// A reader ends the members of an object one past the closing brace.
pub proof fn lemma_members_complete(s: Seq<u8>, i: int, j: int)
    requires
        members(s, i, j),
        j < s.len(),
        s[j] == CLOSE_BRACE,
    ensures
        members_end(s, skip_whitespace(s, i)) == Ok::<int, (ErrorKind, int)>(j + 1),
        skip_whitespace(s, i) < s.len(),
        s[skip_whitespace(s, i)] == QUOTE,
    decreases j - i, 4int,
{
    if member(s, i, j) {
        lemma_member_complete(s, i, j);
    } else {
        let k = choose|k: int|
            0 <= i < k < j <= s.len() && #[trigger] comma(s, k) && member(s, i, k) && members(
                s,
                k + 1,
                j,
            );
        lemma_member_complete(s, i, k);
        lemma_members_complete(s, k + 1, j);
    }
}

/// The validator's judgement is the grammar's: a reader accepts a byte
/// sequence as a document exactly if the sequence is one JSON value, with
/// optional whitespace before and after it and nothing else.
pub proof fn lemma_validator_agreement(s: Seq<u8>)
    ensures
        document_end(s) is Ok <==> document(s),
{
    if document_end(s) is Ok {
        let v = value_end(s, 0)->Ok_0;
        lemma_value_sound(s, 0);
        lemma_skipped_is_blank(s, 0);
        lemma_skipped_is_blank(s, v);
        assert(blank(s, 0, skip_whitespace(s, 0)) && blank(s, v, s.len() as int));
    }
    if document(s) {
        lemma_element_complete(s, 0, s.len() as int);
    }
}

} // verus!
