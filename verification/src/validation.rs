//! The validator: a recursive descent over the document that drives the
//! cursor through every byte of it.
//!
//! The `check_*` functions do the work and name the first failure. The
//! states of `Validator` answer yes or no.

use vstd::prelude::*;
use crate::agreement::lemma_validator_agreement;
use crate::bytes::{byte_at, hex_digit, number_start, simple_escape, BACKSLASH, CLOSE_BRACE};
use crate::bytes::{CLOSE_BRACKET, COLON, COMMA, LOWER_A, LOWER_E, LOWER_F, LOWER_L, LOWER_N};
use crate::bytes::{LOWER_R, LOWER_S, LOWER_T, LOWER_U, OPEN_BRACE, OPEN_BRACKET, QUOTE};
use crate::descent::{Parse, array_end, boolean_end, document_end, elements_end, hex_run_end};
use crate::descent::{lemma_skip_whitespace, lemma_string_body_end_bounds, lemma_value_end_bounds};
use crate::descent::{lemma_value_end_skips_whitespace, literal_from, members_end, null_end};
use crate::descent::{number_end, object_end, skip_whitespace, string_body_end, string_end};
use crate::descent::value_end;
use crate::grammar::document;
use crate::reader::{JSONReader, Reader};
use crate::result::{ErrorKind, JSONError};

verus! {

/// A check that moved the cursor from `before` to `after` agrees with what
/// the grammar expects: on success the cursor rests one past the construct,
/// and on failure it has not moved and the error is the grammar's.
pub open spec fn checked(
    outcome: Result<(), JSONError>,
    before: int,
    after: int,
    expected: Parse,
) -> bool {
    match outcome {
        Ok(_) => expected == Ok::<int, (ErrorKind, int)>(after),
        Err(e) => expected == Err::<int, (ErrorKind, int)>(e@) && after == before,
    }
}

/// The boolean form of `checked`.
pub open spec fn accepted(valid: bool, before: int, after: int, expected: Parse) -> bool {
    match expected {
        Ok(end) => valid && after == end,
        Err(_) => !valid && after == before,
    }
}

/// Where a state of the validator looks for its construct with the cursor at
/// offset `o`: at the current token, or at the start of the buffer when
/// nothing has been consumed, and past any whitespace from there.
pub open spec fn token_start(s: Seq<u8>, o: int) -> int {
    skip_whitespace(
        s,
        if o > 0 {
            o - 1
        } else {
            0
        },
    )
}

/// Consumes the next byte if it is `byte`.
fn expect(reader: &mut JSONReader<'_>, byte: u8) -> (outcome: Result<(), JSONError>)
    ensures
        final(reader).buffer() == old(reader).buffer(),
        match outcome {
            Ok(_) => byte_at(old(reader).buffer(), old(reader).offset() as int) == Some(byte)
                && final(reader).offset() == old(reader).offset() + 1,
            Err(e) => final(reader).offset() == old(reader).offset() && e.offset == old(
                reader,
            ).offset() && match byte_at(old(reader).buffer(), old(reader).offset() as int) {
                Some(b) => b != byte && e.kind == ErrorKind::UnexpectedByte,
                None => e.kind == ErrorKind::Truncated,
            },
        },
{
    let at: usize = reader.cursor();
    match reader.peek() {
        None => Err(JSONError { kind: ErrorKind::Truncated, offset: at }),
        Some(token) => {
            if token == byte {
                reader.next();
                Ok(())
            } else {
                Err(JSONError { kind: ErrorKind::UnexpectedByte, offset: at })
            }
        },
    }
}

/// Checks the four hexadecimal digits of a `\u` escape. On failure the
/// cursor rests somewhere inside the escape.
fn check_hex_quad(reader: &mut JSONReader<'_>) -> (outcome: Result<(), JSONError>)
    requires
        old(reader).offset() <= old(reader).buffer().len(),
    ensures
        final(reader).buffer() == old(reader).buffer(),
        match outcome {
            Ok(_) => hex_run_end(old(reader).buffer(), old(reader).offset() as int, 4) is Ok
                && final(reader).offset() == old(reader).offset() + 4 && final(reader).offset()
                <= old(reader).buffer().len(),
            Err(e) => hex_run_end(old(reader).buffer(), old(reader).offset() as int, 4) == Err::<
                int,
                (ErrorKind, int),
            >(e@),
        },
{
    let mut n: usize = 0;
    while n < 4
        invariant
            n <= 4,
            reader.buffer() == old(reader).buffer(),
            reader.offset() == old(reader).offset() + n,
            reader.offset() <= reader.buffer().len(),
            hex_run_end(reader.buffer(), old(reader).offset() as int, 4) == hex_run_end(
                reader.buffer(),
                reader.offset() as int,
                (4 - n) as nat,
            ),
        decreases 4 - n,
    {
        let at: usize = reader.cursor();
        match reader.next() {
            None => {
                return Err(JSONError { kind: ErrorKind::Truncated, offset: at });
            },
            Some(token) => {
                if !hex_digit(token) {
                    return Err(JSONError { kind: ErrorKind::InvalidEscape, offset: at });
                }
            },
        }
        n += 1;
    }
    Ok(())
}

/// Checks a string literal whose opening quote is the next unread byte, and
/// every escape sequence in it.
pub fn check_string(reader: &mut JSONReader<'_>) -> (outcome: Result<(), JSONError>)
    ensures
        final(reader).buffer() == old(reader).buffer(),
        checked(
            outcome,
            old(reader).offset() as int,
            final(reader).offset() as int,
            string_end(old(reader).buffer(), old(reader).offset() as int),
        ),
{
    let origin: usize = reader.cursor();
    match expect(reader, QUOTE) {
        Ok(_) => {},
        Err(e) => {
            return Err(e);
        },
    }
    loop
        invariant
            reader.buffer() == old(reader).buffer(),
            origin == old(reader).offset(),
            string_end(reader.buffer(), origin as int) == string_body_end(
                reader.buffer(),
                reader.offset() as int,
            ),
        decreases reader.buffer().len() - reader.offset(),
    {
        let at: usize = reader.cursor();
        match reader.next() {
            None => {
                reader.seek(origin);
                return Err(JSONError { kind: ErrorKind::Truncated, offset: at });
            },
            Some(token) => {
                if token == QUOTE {
                    return Ok(());
                } else if token == BACKSLASH {
                    let escape: usize = reader.cursor();
                    let escaped: Option<u8> = reader.next();
                    let proper: Result<(), JSONError> = match escaped {
                        None => Err(JSONError { kind: ErrorKind::Truncated, offset: escape }),
                        Some(code) => {
                            if simple_escape(code) {
                                Ok(())
                            } else if code == LOWER_U {
                                check_hex_quad(reader)
                            } else {
                                Err(JSONError { kind: ErrorKind::InvalidEscape, offset: escape })
                            }
                        },
                    };
                    match proper {
                        Ok(_) => {},
                        Err(e) => {
                            reader.seek(origin);
                            return Err(e);
                        },
                    }
                }
            },
        }
    }
}

/// Checks a number whose first byte is the next unread byte.
pub fn check_number(reader: &mut JSONReader<'_>) -> (outcome: Result<(), JSONError>)
    ensures
        final(reader).buffer() == old(reader).buffer(),
        checked(
            outcome,
            old(reader).offset() as int,
            final(reader).offset() as int,
            number_end(old(reader).buffer(), old(reader).offset() as int),
        ),
{
    match reader.scan_number() {
        Ok(_) => Ok(()),
        Err(e) => Err(e),
    }
}

/// Checks the literal `null` at the next unread byte.
pub fn check_null(reader: &mut JSONReader<'_>) -> (outcome: Result<(), JSONError>)
    ensures
        final(reader).buffer() == old(reader).buffer(),
        checked(
            outcome,
            old(reader).offset() as int,
            final(reader).offset() as int,
            null_end(old(reader).buffer(), old(reader).offset() as int),
        ),
{
    let origin: usize = reader.cursor();
    proof {
        reveal_with_fuel(literal_from, 5);
    }
    let mut outcome: Result<(), JSONError> = expect(reader, LOWER_N);
    if outcome.is_ok() {
        outcome = expect(reader, LOWER_U);
    }
    if outcome.is_ok() {
        outcome = expect(reader, LOWER_L);
    }
    if outcome.is_ok() {
        outcome = expect(reader, LOWER_L);
    }
    if outcome.is_err() {
        reader.seek(origin);
    }
    outcome
}

/// Checks the literal `true` or `false` at the next unread byte.
pub fn check_boolean(reader: &mut JSONReader<'_>) -> (outcome: Result<(), JSONError>)
    ensures
        final(reader).buffer() == old(reader).buffer(),
        checked(
            outcome,
            old(reader).offset() as int,
            final(reader).offset() as int,
            boolean_end(old(reader).buffer(), old(reader).offset() as int),
        ),
{
    let origin: usize = reader.cursor();
    proof {
        reveal_with_fuel(literal_from, 6);
    }
    let mut outcome: Result<(), JSONError>;
    if reader.at(LOWER_F) {
        outcome = expect(reader, LOWER_F);
        if outcome.is_ok() {
            outcome = expect(reader, LOWER_A);
        }
        if outcome.is_ok() {
            outcome = expect(reader, LOWER_L);
        }
        if outcome.is_ok() {
            outcome = expect(reader, LOWER_S);
        }
        if outcome.is_ok() {
            outcome = expect(reader, LOWER_E);
        }
    } else {
        outcome = expect(reader, LOWER_T);
        if outcome.is_ok() {
            outcome = expect(reader, LOWER_R);
        }
        if outcome.is_ok() {
            outcome = expect(reader, LOWER_U);
        }
        if outcome.is_ok() {
            outcome = expect(reader, LOWER_E);
        }
    }
    if outcome.is_err() {
        reader.seek(origin);
    }
    outcome
}

/// Checks the value at the next significant byte: skips the whitespace in
/// front of it and hands over to the check that its first byte selects.
pub fn check_value(reader: &mut JSONReader<'_>) -> (outcome: Result<(), JSONError>)
    ensures
        final(reader).buffer() == old(reader).buffer(),
        checked(
            outcome,
            old(reader).offset() as int,
            final(reader).offset() as int,
            value_end(old(reader).buffer(), old(reader).offset() as int),
        ),
    decreases old(reader).buffer().len() - old(reader).offset(), 1int,
{
    let origin: usize = reader.cursor();
    reader.skip_past_whitespace();
    let start: usize = reader.cursor();
    proof {
        lemma_value_end_skips_whitespace(reader.buffer(), origin as int);
        lemma_skip_whitespace(reader.buffer(), origin as int);
    }
    let outcome: Result<(), JSONError> = match reader.peek() {
        None => Err(JSONError { kind: ErrorKind::Truncated, offset: start }),
        Some(token) => {
            if token == OPEN_BRACE {
                check_object(reader)
            } else if token == OPEN_BRACKET {
                check_array(reader)
            } else if token == QUOTE {
                check_string(reader)
            } else if token == LOWER_N {
                check_null(reader)
            } else if token == LOWER_T || token == LOWER_F {
                check_boolean(reader)
            } else if number_start(token) {
                check_number(reader)
            } else {
                Err(JSONError { kind: ErrorKind::MalformedValue, offset: start })
            }
        },
    };
    if outcome.is_err() {
        reader.seek(origin);
    }
    outcome
}

/// Checks an object whose opening brace is the next unread byte: members
/// separated by commas, each a string key, a colon and a value.
pub fn check_object(reader: &mut JSONReader<'_>) -> (outcome: Result<(), JSONError>)
    ensures
        final(reader).buffer() == old(reader).buffer(),
        checked(
            outcome,
            old(reader).offset() as int,
            final(reader).offset() as int,
            object_end(old(reader).buffer(), old(reader).offset() as int),
        ),
    decreases old(reader).buffer().len() - old(reader).offset(), 0int,
{
    let origin: usize = reader.cursor();
    match expect(reader, OPEN_BRACE) {
        Ok(_) => {},
        Err(e) => {
            return Err(e);
        },
    }
    reader.skip_past_whitespace();
    proof {
        lemma_skip_whitespace(reader.buffer(), origin + 1);
    }
    if reader.at(CLOSE_BRACE) {
        reader.next();
        return Ok(());
    }
    loop
        invariant
            reader.buffer() == old(reader).buffer(),
            origin == old(reader).offset(),
            origin < reader.offset() <= reader.buffer().len(),
            object_end(reader.buffer(), origin as int) == members_end(
                reader.buffer(),
                reader.offset() as int,
            ),
        decreases reader.buffer().len() - reader.offset(),
    {
        proof {
            lemma_string_body_end_bounds(reader.buffer(), reader.offset() + 1);
        }
        let mut outcome: Result<(), JSONError> = check_string(reader);
        if outcome.is_ok() {
            proof {
                lemma_skip_whitespace(reader.buffer(), reader.offset() as int);
            }
            reader.skip_past_whitespace();
            outcome = expect(reader, COLON);
        }
        if outcome.is_ok() {
            proof {
                lemma_value_end_bounds(reader.buffer(), reader.offset() as int);
            }
            outcome = check_value(reader);
        }
        if outcome.is_ok() {
            proof {
                lemma_skip_whitespace(reader.buffer(), reader.offset() as int);
            }
            reader.skip_past_whitespace();
            let at: usize = reader.cursor();
            match reader.next() {
                None => {
                    outcome = Err(JSONError { kind: ErrorKind::Truncated, offset: at });
                },
                Some(token) => {
                    if token == COMMA {
                        proof {
                            lemma_skip_whitespace(reader.buffer(), reader.offset() as int);
                        }
                        reader.skip_past_whitespace();
                    } else if token == CLOSE_BRACE {
                        return Ok(());
                    } else {
                        outcome = Err(JSONError { kind: ErrorKind::UnexpectedByte, offset: at });
                    }
                },
            }
        }
        match outcome {
            Ok(_) => {},
            Err(e) => {
                reader.seek(origin);
                return Err(e);
            },
        }
    }
}

/// Checks an array whose opening bracket is the next unread byte: values
/// separated by commas.
pub fn check_array(reader: &mut JSONReader<'_>) -> (outcome: Result<(), JSONError>)
    ensures
        final(reader).buffer() == old(reader).buffer(),
        checked(
            outcome,
            old(reader).offset() as int,
            final(reader).offset() as int,
            array_end(old(reader).buffer(), old(reader).offset() as int),
        ),
    decreases old(reader).buffer().len() - old(reader).offset(), 0int,
{
    let origin: usize = reader.cursor();
    match expect(reader, OPEN_BRACKET) {
        Ok(_) => {},
        Err(e) => {
            return Err(e);
        },
    }
    reader.skip_past_whitespace();
    proof {
        lemma_skip_whitespace(reader.buffer(), origin + 1);
    }
    if reader.at(CLOSE_BRACKET) {
        reader.next();
        return Ok(());
    }
    loop
        invariant
            reader.buffer() == old(reader).buffer(),
            origin == old(reader).offset(),
            origin < reader.offset() <= reader.buffer().len(),
            array_end(reader.buffer(), origin as int) == elements_end(
                reader.buffer(),
                reader.offset() as int,
            ),
        decreases reader.buffer().len() - reader.offset(),
    {
        proof {
            lemma_value_end_bounds(reader.buffer(), reader.offset() as int);
        }
        let mut outcome: Result<(), JSONError> = check_value(reader);
        if outcome.is_ok() {
            proof {
                lemma_skip_whitespace(reader.buffer(), reader.offset() as int);
            }
            reader.skip_past_whitespace();
            let at: usize = reader.cursor();
            match reader.next() {
                None => {
                    outcome = Err(JSONError { kind: ErrorKind::Truncated, offset: at });
                },
                Some(token) => {
                    if token == COMMA {
                    } else if token == CLOSE_BRACKET {
                        return Ok(());
                    } else {
                        outcome = Err(JSONError { kind: ErrorKind::UnexpectedByte, offset: at });
                    }
                },
            }
        }
        match outcome {
            Ok(_) => {},
            Err(e) => {
                reader.seek(origin);
                return Err(e);
            },
        }
    }
}

/// Checks the whole buffer as one document, wherever the cursor stands: one
/// value, and nothing but whitespace after it.
pub fn check_document(reader: &mut JSONReader<'_>) -> (outcome: Result<(), JSONError>)
    ensures
        final(reader).buffer() == old(reader).buffer(),
        checked(
            outcome,
            old(reader).offset() as int,
            final(reader).offset() as int,
            document_end(old(reader).buffer()),
        ),
        outcome is Ok <==> document(old(reader).buffer()),
{
    let origin: usize = reader.cursor();
    proof {
        lemma_validator_agreement(reader.buffer());
    }
    reader.reset();
    let mut outcome: Result<(), JSONError> = check_value(reader);
    if outcome.is_ok() {
        proof {
            lemma_value_end_bounds(reader.buffer(), 0);
            lemma_skip_whitespace(reader.buffer(), reader.offset() as int);
        }
        reader.skip_past_whitespace();
        if reader.peek().is_some() {
            outcome = Err(JSONError { kind: ErrorKind::TrailingData, offset: reader.cursor() });
        }
    }
    if outcome.is_err() {
        reader.seek(origin);
    }
    outcome
}

/// Moves the cursor to where a state of the validator begins: back onto the
/// current token, if there is one, and past the whitespace from there.
fn enter(reader: &mut JSONReader<'_>) -> (origin: usize)
    ensures
        final(reader).buffer() == old(reader).buffer(),
        origin == old(reader).offset(),
        final(reader).offset() == token_start(old(reader).buffer(), old(reader).offset() as int),
{
    let origin: usize = reader.cursor();
    if origin > 0 {
        reader.seek(origin - 1);
    }
    reader.skip_past_whitespace();
    origin
}

/// Puts the cursor back to `origin` after a check that failed.
fn settle(reader: &mut JSONReader<'_>, origin: usize, outcome: Result<(), JSONError>) -> (valid:
    bool)
    ensures
        final(reader).buffer() == old(reader).buffer(),
        valid == outcome is Ok,
        final(reader).offset() == if valid {
            old(reader).offset()
        } else {
            origin
        },
{
    match outcome {
        Ok(_) => true,
        Err(_) => {
            reader.seek(origin);
            false
        },
    }
}

/// The states of the recursive-descent validator.
///
/// `validate` judges the whole buffer. Every other state judges one
/// construct, whose first byte is the current token, the byte that the
/// dispatching read consumed; whitespace in front of the construct is passed
/// over. A state that accepts leaves the cursor one past the construct, and
/// one that refuses leaves it where it was.
pub trait Validator: Reader {
    /// Whether the buffer is one JSON value with nothing but whitespace
    /// around it.
    fn validate(&mut self) -> (valid: bool)
        ensures
            final(self).buffer() == old(self).buffer(),
            valid == document(old(self).buffer()),
            accepted(
                valid,
                old(self).offset() as int,
                final(self).offset() as int,
                document_end(old(self).buffer()),
            ),
    ;

    /// Whether a value of any kind begins at the current token.
    fn validate_value(&mut self) -> (valid: bool)
        ensures
            final(self).buffer() == old(self).buffer(),
            accepted(
                valid,
                old(self).offset() as int,
                final(self).offset() as int,
                value_end(
                    old(self).buffer(),
                    token_start(old(self).buffer(), old(self).offset() as int),
                ),
            ),
    ;

    /// Whether an object begins at the current token.
    fn validate_object(&mut self) -> (valid: bool)
        ensures
            final(self).buffer() == old(self).buffer(),
            accepted(
                valid,
                old(self).offset() as int,
                final(self).offset() as int,
                object_end(
                    old(self).buffer(),
                    token_start(old(self).buffer(), old(self).offset() as int),
                ),
            ),
    ;

    /// Whether an array begins at the current token.
    fn validate_array(&mut self) -> (valid: bool)
        ensures
            final(self).buffer() == old(self).buffer(),
            accepted(
                valid,
                old(self).offset() as int,
                final(self).offset() as int,
                array_end(
                    old(self).buffer(),
                    token_start(old(self).buffer(), old(self).offset() as int),
                ),
            ),
    ;

    /// Whether a string begins at the current token, with every escape
    /// sequence in it well formed.
    fn validate_string(&mut self) -> (valid: bool)
        ensures
            final(self).buffer() == old(self).buffer(),
            accepted(
                valid,
                old(self).offset() as int,
                final(self).offset() as int,
                string_end(
                    old(self).buffer(),
                    token_start(old(self).buffer(), old(self).offset() as int),
                ),
            ),
    ;

    /// Whether a number begins at the current token.
    fn validate_number(&mut self) -> (valid: bool)
        ensures
            final(self).buffer() == old(self).buffer(),
            accepted(
                valid,
                old(self).offset() as int,
                final(self).offset() as int,
                number_end(
                    old(self).buffer(),
                    token_start(old(self).buffer(), old(self).offset() as int),
                ),
            ),
    ;

    /// Whether the literal `true` or `false` begins at the current token.
    fn validate_boolean(&mut self) -> (valid: bool)
        ensures
            final(self).buffer() == old(self).buffer(),
            accepted(
                valid,
                old(self).offset() as int,
                final(self).offset() as int,
                boolean_end(
                    old(self).buffer(),
                    token_start(old(self).buffer(), old(self).offset() as int),
                ),
            ),
    ;

    /// Whether the literal `null` begins at the current token.
    fn validate_null(&mut self) -> (valid: bool)
        ensures
            final(self).buffer() == old(self).buffer(),
            accepted(
                valid,
                old(self).offset() as int,
                final(self).offset() as int,
                null_end(
                    old(self).buffer(),
                    token_start(old(self).buffer(), old(self).offset() as int),
                ),
            ),
    ;
}

impl<'a> Validator for JSONReader<'a> {
    fn validate(&mut self) -> (valid: bool) {
        check_document(self).is_ok()
    }

    fn validate_value(&mut self) -> (valid: bool) {
        let origin: usize = enter(self);
        let outcome: Result<(), JSONError> = check_value(self);
        settle(self, origin, outcome)
    }

    fn validate_object(&mut self) -> (valid: bool) {
        let origin: usize = enter(self);
        let outcome: Result<(), JSONError> = check_object(self);
        settle(self, origin, outcome)
    }

    fn validate_array(&mut self) -> (valid: bool) {
        let origin: usize = enter(self);
        let outcome: Result<(), JSONError> = check_array(self);
        settle(self, origin, outcome)
    }

    fn validate_string(&mut self) -> (valid: bool) {
        let origin: usize = enter(self);
        let outcome: Result<(), JSONError> = check_string(self);
        settle(self, origin, outcome)
    }

    fn validate_number(&mut self) -> (valid: bool) {
        let origin: usize = enter(self);
        let outcome: Result<(), JSONError> = check_number(self);
        settle(self, origin, outcome)
    }

    fn validate_boolean(&mut self) -> (valid: bool) {
        let origin: usize = enter(self);
        let outcome: Result<(), JSONError> = check_boolean(self);
        settle(self, origin, outcome)
    }

    fn validate_null(&mut self) -> (valid: bool) {
        let origin: usize = enter(self);
        let outcome: Result<(), JSONError> = check_null(self);
        settle(self, origin, outcome)
    }
}

} // verus!
