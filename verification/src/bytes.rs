//! The bytes that JSON gives a meaning to, and the classes that they fall
//! into.

use vstd::prelude::*;

verus! {

pub const QUOTE: u8 = 0x22;
pub const BACKSLASH: u8 = 0x5c;
pub const OPEN_BRACE: u8 = 0x7b;
pub const CLOSE_BRACE: u8 = 0x7d;
pub const OPEN_BRACKET: u8 = 0x5b;
pub const CLOSE_BRACKET: u8 = 0x5d;
pub const COLON: u8 = 0x3a;
pub const COMMA: u8 = 0x2c;
pub const MINUS: u8 = 0x2d;
pub const PLUS: u8 = 0x2b;
pub const POINT: u8 = 0x2e;
pub const ZERO: u8 = 0x30;
pub const SPACE: u8 = 0x20;
pub const TAB: u8 = 0x09;
pub const LINE_FEED: u8 = 0x0a;
pub const CARRIAGE_RETURN: u8 = 0x0d;
pub const LOWER_N: u8 = 0x6e;
pub const LOWER_T: u8 = 0x74;
pub const LOWER_F: u8 = 0x66;
pub const LOWER_U: u8 = 0x75;
pub const LOWER_E: u8 = 0x65;
pub const UPPER_E: u8 = 0x45;
pub const LOWER_A: u8 = 0x61;
pub const LOWER_B: u8 = 0x62;
pub const LOWER_L: u8 = 0x6c;
pub const LOWER_R: u8 = 0x72;
pub const LOWER_S: u8 = 0x73;
pub const UPPER_A: u8 = 0x41;
pub const UPPER_F: u8 = 0x46;
pub const NINE: u8 = 0x39;
pub const SLASH: u8 = 0x2f;

/// The byte at offset `i`, if the sequence has one there.
pub open spec fn byte_at(s: Seq<u8>, i: int) -> Option<u8> {
    if 0 <= i < s.len() {
        Some(s[i])
    } else {
        None
    }
}

/// Space, horizontal tab, line feed, carriage return.
pub open spec fn is_whitespace(b: u8) -> bool {
    b == SPACE || b == TAB || b == LINE_FEED || b == CARRIAGE_RETURN
}

pub open spec fn is_digit(b: u8) -> bool {
    ZERO <= b <= NINE
}

pub open spec fn is_hex_digit(b: u8) -> bool {
    is_digit(b) || (UPPER_A <= b <= UPPER_F) || (LOWER_A <= b <= LOWER_F)
}

/// The escape codes that stand alone after a backslash: `" \ / b f n r t`.
pub open spec fn is_simple_escape(b: u8) -> bool {
    b == QUOTE || b == BACKSLASH || b == SLASH || b == LOWER_B || b == LOWER_F || b == LOWER_N
        || b == LOWER_R || b == LOWER_T
}

/// The bytes that send a value down the number path: a digit, `-` or `.`.
pub open spec fn is_number_start(b: u8) -> bool {
    is_digit(b) || b == MINUS || b == POINT
}

pub fn whitespace(b: u8) -> (yes: bool)
    ensures
        yes == is_whitespace(b),
{
    b == SPACE || b == TAB || b == LINE_FEED || b == CARRIAGE_RETURN
}

pub fn digit(b: u8) -> (yes: bool)
    ensures
        yes == is_digit(b),
{
    ZERO <= b && b <= NINE
}

pub fn hex_digit(b: u8) -> (yes: bool)
    ensures
        yes == is_hex_digit(b),
{
    digit(b) || (UPPER_A <= b && b <= UPPER_F) || (LOWER_A <= b && b <= LOWER_F)
}

pub fn simple_escape(b: u8) -> (yes: bool)
    ensures
        yes == is_simple_escape(b),
{
    b == QUOTE || b == BACKSLASH || b == SLASH || b == LOWER_B || b == LOWER_F || b == LOWER_N
        || b == LOWER_R || b == LOWER_T
}

pub fn number_start(b: u8) -> (yes: bool)
    ensures
        yes == is_number_start(b),
{
    digit(b) || b == MINUS || b == POINT
}

/// The bytes of `null`.
pub open spec fn null_literal() -> Seq<u8> {
    seq![LOWER_N, LOWER_U, LOWER_L, LOWER_L]
}

/// The bytes of `true`.
pub open spec fn true_literal() -> Seq<u8> {
    seq![LOWER_T, LOWER_R, LOWER_U, LOWER_E]
}

/// The bytes of `false`.
pub open spec fn false_literal() -> Seq<u8> {
    seq![LOWER_F, LOWER_A, LOWER_L, LOWER_S, LOWER_E]
}

} // verus!
