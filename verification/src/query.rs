//! The query language: a path is made of pieces separated by dots, and each
//! piece is a key that selects a member of the object that the pieces before
//! it selected.
//!
//! Some examples:
//! `key` selects the value of `key` in the top-level object;
//! `key.next` selects the value of `next` in the object under `key`.
//!
//! A dot at either end of the path, or two dots in a row, make an empty
//! piece. Splitting keeps it, and extraction passes over it, so `.key.next`
//! selects what `key.next` selects.

use vstd::prelude::*;
use vstd::slice::slice_subrange;
use vstd::string::StringSliceAdditionalSpecFns;
use crate::bytes::POINT;

verus! {

/// A path and the components that its dots separate.
#[derive(Debug, PartialEq)]
pub struct Query<'a> {
    pub raw: &'a [u8],
    pub components: Vec<QueryComponent<'a>>,
}

/// One piece of a path: the key that it selects.
#[derive(Debug, PartialEq)]
pub struct QueryComponent<'a> {
    pub path: &'a [u8],
}

/// The pieces of `s` from offset `start` on, where the bytes from `start` up
/// to `i` are known to hold no separator.
pub open spec fn pieces(s: Seq<u8>, start: int, i: int, sep: u8) -> Seq<Seq<u8>>
    decreases s.len() - i,
{
    if i < 0 || i >= s.len() {
        seq![s.subrange(start, s.len() as int)]
    } else if s[i] == sep {
        seq![s.subrange(start, i)] + pieces(s, i + 1, i + 1, sep)
    } else {
        pieces(s, start, i + 1, sep)
    }
}

/// The pieces between the separators of `s`, in order. There is one piece
/// more than there are separators, and a piece may be empty.
pub open spec fn split(s: Seq<u8>, sep: u8) -> Seq<Seq<u8>> {
    pieces(s, 0, 0, sep)
}

/// The pieces put together again, with a separator between each two.
pub open spec fn join(parts: Seq<Seq<u8>>, sep: u8) -> Seq<u8>
    decreases parts.len(),
{
    if parts.len() == 0 {
        Seq::empty()
    } else if parts.len() == 1 {
        parts[0]
    } else {
        parts[0] + seq![sep] + join(parts.drop_first(), sep)
    }
}

/// No byte of the sequence is the separator.
pub open spec fn free_of(piece: Seq<u8>, sep: u8) -> bool {
    forall|k: int| 0 <= k < piece.len() ==> #[trigger] piece[k] != sep
}

proof fn lemma_pieces(s: Seq<u8>, start: int, i: int, sep: u8)
    requires
        0 <= start <= i <= s.len(),
        free_of(s.subrange(start, i), sep),
    ensures
        pieces(s, start, i, sep).len() >= 1,
        forall|n: int|
            0 <= n < pieces(s, start, i, sep).len() ==> free_of(
                #[trigger] pieces(s, start, i, sep)[n],
                sep,
            ),
        join(pieces(s, start, i, sep), sep) == s.subrange(start, s.len() as int),
    decreases s.len() - i,
{
    if i >= s.len() {
        assert(s.subrange(start, i) == s.subrange(start, s.len() as int));
    } else if s[i] == sep {
        let first = s.subrange(start, i);
        let rest = pieces(s, i + 1, i + 1, sep);
        assert(free_of(s.subrange(i + 1, i + 1), sep));
        lemma_pieces(s, i + 1, i + 1, sep);
        let all = seq![first] + rest;
        assert(all.drop_first() =~= rest);
        assert(first + seq![sep] + s.subrange(i + 1, s.len() as int) =~= s.subrange(
            start,
            s.len() as int,
        ));
        assert forall|n: int| 0 <= n < all.len() implies free_of(#[trigger] all[n], sep) by {
            if n > 0 {
                assert(all[n] == rest[n - 1]);
            }
        }
    } else {
        assert forall|k: int| 0 <= k < i + 1 - start implies #[trigger] s.subrange(start, i + 1)[k]
            != sep by {
            if k < i - start {
                assert(s.subrange(start, i)[k] != sep);
            }
        }
        lemma_pieces(s, start, i + 1, sep);
    }
}

/// Splitting loses nothing and leaves no separator behind: the pieces hold
/// no separator, and joined with the separator they give the sequence that
/// was split.
pub proof fn lemma_split_joins(s: Seq<u8>, sep: u8)
    ensures
        split(s, sep).len() >= 1,
        forall|n: int| 0 <= n < split(s, sep).len() ==> free_of(#[trigger] split(s, sep)[n], sep),
        join(split(s, sep), sep) == s,
{
    assert(free_of(s.subrange(0, 0), sep));
    lemma_pieces(s, 0, 0, sep);
    assert(s.subrange(0, s.len() as int) =~= s);
}

/// The paths of a sequence of components.
pub open spec fn paths_of(components: Seq<QueryComponent<'_>>) -> Seq<Seq<u8>> {
    components.map_values(|c: QueryComponent<'_>| c.path@)
}

impl<'a> Query<'a> {
    /// The path of each component, in order.
    pub open spec fn paths(&self) -> Seq<Seq<u8>> {
        paths_of(self.components@)
    }

    /// Splits a path at its dots.
    pub fn from(raw: &'a str) -> (query: Query<'a>)
        ensures
            query.raw@ == raw.spec_bytes(),
            query.paths() == split(raw.spec_bytes(), POINT),
    {
        Query::from_bytes(raw.as_bytes())
    }

    /// Splits the bytes of a path at its dots.
    pub fn from_bytes(raw: &'a [u8]) -> (query: Query<'a>)
        ensures
            query.raw@ == raw@,
            query.paths() == split(raw@, POINT),
    {
        let mut components: Vec<QueryComponent<'a>> = Vec::new();
        let mut start: usize = 0;
        let mut i: usize = 0;
        assert(paths_of(components@) + split(raw@, POINT) =~= split(raw@, POINT));
        while i < raw.len()
            invariant
                start <= i <= raw@.len(),
                paths_of(components@) + pieces(raw@, start as int, i as int, POINT) == split(
                    raw@,
                    POINT,
                ),
            decreases raw@.len() - i,
        {
            if raw[i] == POINT {
                let piece: &'a [u8] = slice_subrange(raw, start, i);
                assert(paths_of(components@.push(QueryComponent { path: piece })) + pieces(
                    raw@,
                    i + 1,
                    i + 1,
                    POINT,
                ) =~= paths_of(components@) + (seq![piece@] + pieces(raw@, i + 1, i + 1, POINT)));
                components.push(QueryComponent { path: piece });
                start = i + 1;
            }
            i += 1;
        }
        let piece: &'a [u8] = slice_subrange(raw, start, raw.len());
        assert(paths_of(components@.push(QueryComponent { path: piece })) =~= paths_of(
            components@,
        ) + seq![piece@]);
        components.push(QueryComponent { path: piece });
        Query { raw, components }
    }
}

} // verus!
