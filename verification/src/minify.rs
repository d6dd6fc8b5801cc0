//! Minification: a copy of the document without the whitespace outside its
//! strings.

use vstd::prelude::*;
use crate::bytes::{BACKSLASH, QUOTE, SPACE};
use crate::reader::{JSONReader, Reader};

verus! {

/// Where the minifier stands with respect to string literals.
#[derive(Clone, Copy, Debug, PartialEq, Eq, Structural)]
pub enum Mode {
    /// Outside every string.
    Plain,
    /// Inside a string.
    Quoted,
    /// Inside a string, just after a backslash.
    Escaped,
}

/// The mode after a byte that was read in `mode`.
pub open spec fn mode_after(mode: Mode, byte: u8) -> Mode {
    match mode {
        Mode::Plain => if byte == QUOTE {
            Mode::Quoted
        } else {
            Mode::Plain
        },
        Mode::Quoted => if byte == QUOTE {
            Mode::Plain
        } else if byte == BACKSLASH {
            Mode::Escaped
        } else {
            Mode::Quoted
        },
        Mode::Escaped => Mode::Quoted,
    }
}

/// Whether a byte that is read in `mode` is kept. Outside strings a byte is
/// kept if it is greater than the space character. Inside a string every
/// byte is kept.
pub open spec fn keeps(mode: Mode, byte: u8) -> bool {
    mode != Mode::Plain || byte > SPACE
}

/// What minification leaves of `s` when it starts in `mode`.
pub open spec fn minified_in(s: Seq<u8>, mode: Mode) -> Seq<u8>
    decreases s.len(),
{
    if s.len() == 0 {
        Seq::empty()
    } else if keeps(mode, s[0]) {
        seq![s[0]] + minified_in(s.drop_first(), mode_after(mode, s[0]))
    } else {
        minified_in(s.drop_first(), mode)
    }
}

/// What minification leaves of a document.
pub open spec fn minified(s: Seq<u8>) -> Seq<u8> {
    minified_in(s, Mode::Plain)
}

/// Minifying what was minified changes nothing, in whatever mode both
/// passes start.
pub proof fn lemma_minified_in_idempotent(s: Seq<u8>, mode: Mode)
    ensures
        minified_in(minified_in(s, mode), mode) == minified_in(s, mode),
    decreases s.len(),
{
    if s.len() > 0 {
        if keeps(mode, s[0]) {
            let rest = minified_in(s.drop_first(), mode_after(mode, s[0]));
            let out = seq![s[0]] + rest;
            lemma_minified_in_idempotent(s.drop_first(), mode_after(mode, s[0]));
            assert(out.drop_first() =~= rest);
        } else {
            lemma_minified_in_idempotent(s.drop_first(), mode);
        }
    }
}

/// Minification is idempotent: a second pass over a minified document gives
/// the same bytes.
pub proof fn lemma_minify_idempotent(s: Seq<u8>)
    ensures
        minified(minified(s)) == minified(s),
{
    lemma_minified_in_idempotent(s, Mode::Plain);
}

/// `Vec::into_boxed_slice`: the boxed slice holds the elements of the vector,
/// in the same order.
#[verifier::external_body]
fn into_boxed_slice(bytes: Vec<u8>) -> (boxed: Box<[u8]>)
    ensures
        boxed@ == bytes@,
{
    bytes.into_boxed_slice()
}

/// Copies the document without the whitespace outside its strings, in one
/// forward pass. The input need not be valid JSON, and the result is always
/// `Some`.
pub fn minify(json: &[u8]) -> (out: Option<Box<[u8]>>)
    ensures
        out matches Some(bytes) && bytes@ == minified(json@),
{
    let mut reader: JSONReader = JSONReader::new(json);
    let mut new: Vec<u8> = Vec::new();
    let mut mode: Mode = Mode::Plain;
    assert(json@.subrange(0, json@.len() as int) =~= json@);
    assert(new@ + minified(json@) =~= minified(json@));
    loop
        invariant
            reader.buffer() == json@,
            reader.offset() <= json@.len(),
            new@ + minified_in(json@.subrange(reader.offset() as int, json@.len() as int), mode)
                == minified(json@),
        decreases json@.len() - reader.offset(),
    {
        let ghost rest = json@.subrange(reader.offset() as int, json@.len() as int);
        match reader.next() {
            None => {
                assert(new@ + Seq::<u8>::empty() =~= new@);
                return Some(into_boxed_slice(new));
            },
            Some(token) => {
                assert(rest.drop_first() =~= json@.subrange(
                    reader.offset() as int,
                    json@.len() as int,
                ));
                match mode {
                    Mode::Plain => {
                        if token > SPACE {
                            assert(new@.push(token) + minified_in(
                                rest.drop_first(),
                                mode_after(mode, token),
                            ) =~= new@ + (seq![token] + minified_in(
                                rest.drop_first(),
                                mode_after(mode, token),
                            )));
                            new.push(token);
                            if token == QUOTE {
                                mode = Mode::Quoted;
                            }
                        }
                    },
                    Mode::Quoted => {
                        assert(new@.push(token) + minified_in(
                            rest.drop_first(),
                            mode_after(mode, token),
                        ) =~= new@ + (seq![token] + minified_in(
                            rest.drop_first(),
                            mode_after(mode, token),
                        )));
                        new.push(token);
                        if token == QUOTE {
                            mode = Mode::Plain;
                        } else if token == BACKSLASH {
                            mode = Mode::Escaped;
                        }
                    },
                    Mode::Escaped => {
                        assert(new@.push(token) + minified_in(
                            rest.drop_first(),
                            mode_after(mode, token),
                        ) =~= new@ + (seq![token] + minified_in(
                            rest.drop_first(),
                            mode_after(mode, token),
                        )));
                        new.push(token);
                        mode = Mode::Quoted;
                    },
                }
            },
        }
    }
}

} // verus!
