//! Byte-stream searches used by the raw write paths, performed by the
//! `memchr` crate.

use vstd::prelude::*;

verus! {

/// The needle `sub` occurs in `s` starting at index `i`.
pub open spec fn matches_at(s: Seq<u8>, sub: Seq<u8>, i: int) -> bool {
    0 <= i && i + sub.len() <= s.len() && s.subrange(i, i + sub.len() as int) == sub
}

/// The needle `sub` occurs somewhere in `s`.
pub open spec fn has_subseq(s: Seq<u8>, sub: Seq<u8>) -> bool {
    exists|i: int| matches_at(s, sub, i)
}

/// Relies on `memchr::memchr2`: returns the index of the first occurrence of
/// one of the two needle bytes in the haystack, or `None` when neither
/// occurs.
pub assume_specification [ memchr::memchr2 ](needle1: u8, needle2: u8, haystack: &[u8]) -> (r:
    Option<usize>)
    ensures
        match r {
            Some(i) => {
                &&& 0 <= i < haystack@.len()
                &&& (haystack@[i as int] == needle1 || haystack@[i as int] == needle2)
                &&& forall|j: int| 0 <= j < i ==> haystack@[j] != needle1 && haystack@[j] != needle2
            },
            None => forall|j: int|
                0 <= j < haystack@.len() ==> haystack@[j] != needle1 && haystack@[j] != needle2,
        },
;

/// Relies on `memchr::memmem::find`: returns the index of the first
/// occurrence of the needle in the haystack, or `None` when the needle does
/// not occur.
pub assume_specification [ memchr::memmem::find ](haystack: &[u8], needle: &[u8]) -> (r: Option<
    usize,
>)
    ensures
        match r {
            Some(i) => matches_at(haystack@, needle@, i as int) && forall|j: int|
                0 <= j < i ==> !matches_at(haystack@, needle@, j),
            None => forall|j: int| !matches_at(haystack@, needle@, j),
        },
;

} // verus!
