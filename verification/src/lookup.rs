//! On a well-formed object, looking up a key finds a string that stands at
//! the object's own level, and finds none only if no string there equals the
//! key.

use vstd::prelude::*;
use crate::agreement::{lemma_blank_is_skipped, lemma_element_complete, lemma_string_agreement};
use crate::agreement::lemma_value_first_byte;
use crate::bounding::{lemma_container_end, lemma_literal_is_plain, lemma_number_is_plain, plain};
use crate::bounding::lemma_string_close_of_characters;
use crate::bytes::{false_literal, is_whitespace, null_literal, true_literal, CLOSE_BRACE, COLON};
use crate::bytes::{COMMA, QUOTE};
use crate::grammar::{array, blank, comma, element, literal, member, members, object};
use crate::grammar::{string, value};
use crate::reader::key_search;

verus! {

/// The string with content `[a, e)` belongs to the member `[i, j)`: it is
/// the member's key, or it is the member's value.
pub open spec fn member_string(s: Seq<u8>, i: int, j: int, a: int, e: int) -> bool {
    exists|k0: int, k1: int, c: int|
        #![trigger string(s, k0, k1), blank(s, k1, c)]
        blank(s, i, k0) && string(s, k0, k1) && blank(s, k1, c) && c < j <= s.len() && s[c]
            == COLON && element(s, c + 1, j) && ((a == k0 + 1 && e == k1 - 1) || (blank(
            s,
            c + 1,
            a - 1,
        ) && string(s, a - 1, e + 1) && blank(s, e + 1, j)))
}

/// The string with content `[a, e)` belongs to one of the members `[i, j)`.
/// Such a string stands at the level of the object that holds the members,
/// inside no nested object or array.
pub open spec fn members_string(s: Seq<u8>, i: int, j: int, a: int, e: int) -> bool
    decreases j - i,
{
    (member(s, i, j) && member_string(s, i, j, a, e)) || exists|k: int|
        0 <= i < k < j <= s.len() && #[trigger] comma(s, k) && member(s, i, k) && members(
            s,
            k + 1,
            j,
        ) && (member_string(s, i, k, a, e) || members_string(s, k + 1, j, a, e))
}

/// No string of the member `[i, j)` has the content `key`.
pub open spec fn member_lacks(s: Seq<u8>, i: int, j: int, key: Seq<u8>) -> bool {
    forall|a: int, e: int|
        #![trigger s.subrange(a, e)]
        member_string(s, i, j, a, e) ==> s.subrange(a, e) != key
}

/// No string of the members `[i, j)` has the content `key`.
pub open spec fn members_lack(s: Seq<u8>, i: int, j: int, key: Seq<u8>) -> bool {
    forall|a: int, e: int|
        #![trigger s.subrange(a, e)]
        members_string(s, i, j, a, e) ==> s.subrange(a, e) != key
}

/// The search gave the content span of a string that equals `key`.
pub open spec fn hit(s: Seq<u8>, found: Option<(int, int)>, key: Seq<u8>) -> bool {
    found matches Some((a, e)) && 0 < a <= e < s.len() && s.subrange(a, e) == key && s[a - 1]
        == QUOTE && s[e] == QUOTE
}

/// The search steps over plain bytes.
pub proof fn lemma_search_plain(s: Seq<u8>, i: int, j: int, key: Seq<u8>, entered: bool)
    requires
        0 <= i <= j <= s.len(),
        forall|k: int| i <= k < j ==> plain(#[trigger] s[k]),
    ensures
        key_search(s, i, key, entered) == key_search(s, j, key, entered),
    decreases j - i,
{
    if i < j {
        assert(plain(s[i]));
        lemma_search_plain(s, i + 1, j, key, entered);
    }
}

proof fn lemma_search_blank(s: Seq<u8>, i: int, j: int, key: Seq<u8>, entered: bool)
    requires
        blank(s, i, j),
    ensures
        key_search(s, i, key, entered) == key_search(s, j, key, entered),
{
    assert forall|k: int| i <= k < j implies plain(#[trigger] s[k]) by {
        assert(is_whitespace(s[k]));
    }
    lemma_search_plain(s, i, j, key, entered);
}

/// The search takes a string if its content is the key, and goes on after
/// it if not.
pub proof fn lemma_search_string(s: Seq<u8>, i: int, j: int, key: Seq<u8>, entered: bool)
    requires
        string(s, i, j),
    ensures
        key_search(s, i, key, entered) == if s.subrange(i + 1, j - 1) == key {
            Some((i + 1, j - 1))
        } else {
            key_search(s, j, key, entered)
        },
{
    lemma_string_close_of_characters(s, i + 1, j - 1);
}

/// Inside a container the search passes over a value whole, unless the
/// value is a string that equals the key.
pub proof fn lemma_search_value(s: Seq<u8>, i: int, j: int, key: Seq<u8>)
    requires
        value(s, i, j),
    ensures
        key_search(s, i, key, true) == if string(s, i, j) && s.subrange(i + 1, j - 1) == key {
            Some((i + 1, j - 1))
        } else {
            key_search(s, j, key, true)
        },
{
    lemma_value_first_byte(s, i, j);
    if object(s, i, j) || array(s, i, j) {
        lemma_container_end(s, i, j);
    } else if string(s, i, j) {
        lemma_search_string(s, i, j, key, true);
    } else if literal(s, i, j, null_literal()) {
        lemma_literal_is_plain(s, i, j, null_literal());
        lemma_search_plain(s, i, j, key, true);
    } else if literal(s, i, j, true_literal()) {
        lemma_literal_is_plain(s, i, j, true_literal());
        lemma_search_plain(s, i, j, key, true);
    } else if literal(s, i, j, false_literal()) {
        lemma_literal_is_plain(s, i, j, false_literal());
        lemma_search_plain(s, i, j, key, true);
    } else {
        lemma_number_is_plain(s, i, j);
        lemma_search_plain(s, i, j, key, true);
    }
}

/// A member that begins at `i` ends at one place only.
pub proof fn lemma_member_end_unique(s: Seq<u8>, i: int, j1: int, j2: int)
    requires
        member(s, i, j1),
        member(s, i, j2),
        j1 < s.len(),
        j2 < s.len(),
        s[j1] == COMMA || s[j1] == CLOSE_BRACE,
        s[j2] == COMMA || s[j2] == CLOSE_BRACE,
    ensures
        j1 == j2,
{
    let (a1, b1, c1) = choose|a: int, b: int, c: int|
        #![trigger string(s, a, b), blank(s, b, c)]
        blank(s, i, a) && string(s, a, b) && blank(s, b, c) && c < j1 <= s.len() && s[c] == COLON
            && element(s, c + 1, j1);
    let (a2, b2, c2) = choose|a: int, b: int, c: int|
        #![trigger string(s, a, b), blank(s, b, c)]
        blank(s, i, a) && string(s, a, b) && blank(s, b, c) && c < j2 <= s.len() && s[c] == COLON
            && element(s, c + 1, j2);
    lemma_blank_is_skipped(s, i, a1);
    lemma_blank_is_skipped(s, i, a2);
    lemma_string_agreement(s, a1, b1);
    lemma_string_agreement(s, a1, b2);
    lemma_blank_is_skipped(s, b1, c1);
    lemma_blank_is_skipped(s, b1, c2);
    lemma_element_complete(s, c1 + 1, j1);
    lemma_element_complete(s, c1 + 1, j2);
}

/// Inside an object the search finds a string of the member at which it
/// stands, if one equals the key, and goes on after the member if none
/// does.
pub proof fn lemma_member_search(s: Seq<u8>, i: int, j: int, key: Seq<u8>)
    requires
        member(s, i, j),
        j < s.len(),
        s[j] == COMMA || s[j] == CLOSE_BRACE,
    ensures
        if member_lacks(s, i, j, key) {
            key_search(s, i, key, true) == key_search(s, j, key, true)
        } else {
            hit(s, key_search(s, i, key, true), key) && member_string(
                s,
                i,
                j,
                key_search(s, i, key, true)->Some_0.0,
                key_search(s, i, key, true)->Some_0.1,
            )
        },
{
    let (k0, k1, c) = choose|a: int, b: int, c: int|
        #![trigger string(s, a, b), blank(s, b, c)]
        blank(s, i, a) && string(s, a, b) && blank(s, b, c) && c < j <= s.len() && s[c] == COLON
            && element(s, c + 1, j);
    let (x, y) = choose|a: int, b: int|
        #![trigger blank(s, c + 1, a), blank(s, b, j)]
        blank(s, c + 1, a) && a < b && blank(s, b, j) && value(s, a, b);
    lemma_search_blank(s, i, k0, key, true);
    lemma_search_string(s, k0, k1, key, true);
    lemma_search_blank(s, k1, c, key, true);
    assert(plain(s[c]));
    lemma_search_plain(s, c, c + 1, key, true);
    lemma_search_blank(s, c + 1, x, key, true);
    lemma_search_value(s, x, y, key);
    lemma_search_blank(s, y, j, key, true);
    lemma_value_first_byte(s, x, y);
    assert(string(s, k0, k1) && blank(s, k1, c));
    if s.subrange(k0 + 1, k1 - 1) == key {
        assert(member_string(s, i, j, k0 + 1, k1 - 1));
    } else if string(s, x, y) && s.subrange(x + 1, y - 1) == key {
        assert(member_string(s, i, j, x + 1, y - 1));
    } else {
        assert forall|a: int, e: int| member_string(s, i, j, a, e) implies #[trigger] s.subrange(
            a,
            e,
        ) != key by {
            let (m0, m1, mc) = choose|m0: int, m1: int, mc: int|
                #![trigger string(s, m0, m1), blank(s, m1, mc)]
                blank(s, i, m0) && string(s, m0, m1) && blank(s, m1, mc) && mc < j <= s.len()
                    && s[mc] == COLON && element(s, mc + 1, j) && ((a == m0 + 1 && e == m1 - 1)
                    || (blank(s, mc + 1, a - 1) && string(s, a - 1, e + 1) && blank(s, e + 1, j)));
            lemma_blank_is_skipped(s, i, k0);
            lemma_blank_is_skipped(s, i, m0);
            lemma_string_agreement(s, k0, k1);
            lemma_string_agreement(s, k0, m1);
            lemma_blank_is_skipped(s, k1, c);
            lemma_blank_is_skipped(s, k1, mc);
            if !(a == m0 + 1 && e == m1 - 1) {
                lemma_blank_is_skipped(s, c + 1, x);
                lemma_blank_is_skipped(s, c + 1, a - 1);
                lemma_string_agreement(s, x, y);
                lemma_string_agreement(s, x, e + 1);
            }
        }
    }
}

/// Inside an object the search finds a string of the members that are left,
/// if one equals the key, and ends with nothing where the object closes if
/// none does.
pub proof fn lemma_members_search(s: Seq<u8>, i: int, j: int, key: Seq<u8>)
    requires
        members(s, i, j),
        j < s.len(),
        s[j] == CLOSE_BRACE,
    ensures
        if members_lack(s, i, j, key) {
            key_search(s, i, key, true) is None
        } else {
            hit(s, key_search(s, i, key, true), key) && members_string(
                s,
                i,
                j,
                key_search(s, i, key, true)->Some_0.0,
                key_search(s, i, key, true)->Some_0.1,
            )
        },
    decreases j - i,
{
    if member(s, i, j) {
        lemma_member_search(s, i, j, key);
        if member_lacks(s, i, j, key) {
            assert forall|a: int, e: int| members_string(s, i, j, a, e) implies
                #[trigger] s.subrange(a, e) != key by {
                if !member_string(s, i, j, a, e) {
                    let k = choose|k: int|
                        0 <= i < k < j <= s.len() && #[trigger] comma(s, k) && member(s, i, k)
                            && members(s, k + 1, j) && (member_string(s, i, k, a, e)
                            || members_string(s, k + 1, j, a, e));
                    lemma_member_end_unique(s, i, k, j);
                }
            }
        }
    } else {
        let k = choose|k: int|
            0 <= i < k < j <= s.len() && #[trigger] comma(s, k) && member(s, i, k) && members(
                s,
                k + 1,
                j,
            );
        lemma_member_search(s, i, k, key);
        lemma_members_search(s, k + 1, j, key);
        assert(plain(s[k]));
        lemma_search_plain(s, k, k + 1, key, true);
        if member_lacks(s, i, k, key) && members_lack(s, k + 1, j, key) {
            assert forall|a: int, e: int| members_string(s, i, j, a, e) implies
                #[trigger] s.subrange(a, e) != key by {
                let m = choose|m: int|
                    0 <= i < m < j <= s.len() && #[trigger] comma(s, m) && member(s, i, m)
                        && members(s, m + 1, j) && (member_string(s, i, m, a, e) || members_string(
                        s,
                        m + 1,
                        j,
                        a,
                        e,
                    ));
                lemma_member_end_unique(s, i, m, k);
            }
        } else {
            let found = key_search(s, i, key, true)->Some_0;
            assert(comma(s, k));
            assert(members_string(s, i, j, found.0, found.1));
        }
    }
}

/// Looking up a key in a well-formed object, from the start of the object
/// or from whitespace in front of it, finds a string that equals the key and
/// stands at the object's own level, inside no nested value. It finds
/// nothing only if no string at that level equals the key.
pub proof fn lemma_find_key_in_object(s: Seq<u8>, o: int, i: int, j: int, key: Seq<u8>)
    requires
        blank(s, o, i),
        object(s, i, j),
    ensures
        if members_lack(s, i + 1, j - 1, key) {
            key_search(s, o, key, false) is None
        } else {
            hit(s, key_search(s, o, key, false), key) && members_string(
                s,
                i + 1,
                j - 1,
                key_search(s, o, key, false)->Some_0.0,
                key_search(s, o, key, false)->Some_0.1,
            )
        },
{
    lemma_search_blank(s, o, i, key, false);
    if blank(s, i + 1, j - 1) {
        lemma_search_blank(s, i + 1, j - 1, key, true);
        assert forall|a: int, e: int| members_string(s, i + 1, j - 1, a, e) implies
            #[trigger] s.subrange(a, e) != key by {
            lemma_blank_holds_no_member(s, i + 1, j - 1, a, e);
        }
    } else {
        lemma_members_search(s, i + 1, j - 1, key);
    }
}

/// Whitespace holds no member.
proof fn lemma_blank_holds_no_member(s: Seq<u8>, i: int, j: int, a: int, e: int)
    requires
        blank(s, i, j),
    ensures
        !members_string(s, i, j, a, e),
{
    if members_string(s, i, j, a, e) {
        let m = if member(s, i, j) && member_string(s, i, j, a, e) {
            j
        } else {
            choose|k: int|
                0 <= i < k < j <= s.len() && #[trigger] comma(s, k) && member(s, i, k) && members(
                    s,
                    k + 1,
                    j,
                ) && (member_string(s, i, k, a, e) || members_string(s, k + 1, j, a, e))
        };
        let (k0, k1, c) = choose|a: int, b: int, c: int|
            #![trigger string(s, a, b), blank(s, b, c)]
            blank(s, i, a) && string(s, a, b) && blank(s, b, c) && c < m <= s.len() && s[c]
                == COLON && element(s, c + 1, m);
        assert(is_whitespace(s[k0]));
    }
}

} // verus!
