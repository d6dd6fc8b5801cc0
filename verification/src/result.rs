//! What the engine reports: failures with their offsets, and the outcome of
//! an extraction.

use vstd::prelude::*;
use crate::reader::{JSONType, JSONValue};

verus! {

/// Why a document, or a part of one, was refused.
#[derive(Clone, Copy, Debug, PartialEq, Eq, Structural)]
pub enum ErrorKind {
    /// The input ended before a construct was closed.
    Truncated,
    /// A byte stands where the grammar does not allow it.
    UnexpectedByte,
    /// A backslash is followed by something that is no escape code, or `\u`
    /// is not followed by four hexadecimal digits.
    InvalidEscape,
    /// The first byte of a value begins no JSON value.
    MalformedValue,
    /// Significant bytes follow a complete top-level value.
    TrailingData,
}

/// A failure together with the offset of the byte at which it was detected.
/// For `Truncated` that is the offset at which a byte was needed and none
/// was left.
#[derive(Clone, Copy, Debug, PartialEq, Eq, Structural)]
pub struct JSONError {
    pub kind: ErrorKind,
    pub offset: usize,
}

impl View for JSONError {
    type V = (ErrorKind, int);

    open spec fn view(&self) -> (ErrorKind, int) {
        (self.kind, self.offset as int)
    }
}

/// How the walk along a key path ended, as contracts speak of it: the
/// failure of a malformed document is a kind and an offset.
pub enum Ending {
    Resolved,
    NotFound,
    Malformed((ErrorKind, int)),
}

/// How the walk along a key path ended.
#[derive(Clone, Copy, Debug, PartialEq, Eq, Structural)]
pub enum Outcome {
    /// Every component of the path was resolved.
    Resolved,
    /// A key is not present at its level.
    NotFound,
    /// The document could not be read where the path led.
    Malformed(JSONError),
}

impl View for Outcome {
    type V = Ending;

    open spec fn view(&self) -> Ending {
        match *self {
            Outcome::Resolved => Ending::Resolved,
            Outcome::NotFound => Ending::NotFound,
            Outcome::Malformed(e) => Ending::Malformed(e@),
        }
    }
}

/// The result of an extraction: the value that each resolved component
/// selected, in the order of the path, and how the walk ended. When it
/// ended with `Resolved`, the last value is the one that the path names.
#[derive(Debug)]
pub struct Extraction {
    pub values: Vec<JSONValue>,
    pub outcome: Outcome,
}

impl Extraction {
    /// Kind and span of each value.
    pub open spec fn spans(&self) -> Seq<(JSONType, int, int)> {
        self.values@.map_values(|v: JSONValue| v@)
    }
}

} // verus!
