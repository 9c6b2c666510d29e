//! Byte searching: the first occurrence of a byte or of a byte string.
use vstd::prelude::*;

verus! {

/// The newline byte that separates lines.
pub const NEWLINE: u8 = 10u8;

/// `needle` occurs in `hay` starting at index `i`.
pub open spec fn occurs_at(hay: Seq<u8>, needle: Seq<u8>, i: int) -> bool {
    &&& 0 <= i
    &&& i + needle.len() <= hay.len()
    &&& hay.subrange(i, i + needle.len()) == needle
}

/// `needle` occurs somewhere in `hay` (the empty needle occurs in every haystack).
pub open spec fn contains(hay: Seq<u8>, needle: Seq<u8>) -> bool {
    exists|i: int| occurs_at(hay, needle, i)
}

/// `i` is the index of the first occurrence of `needle` in `hay`.
pub open spec fn is_first_occurrence(hay: Seq<u8>, needle: Seq<u8>, i: int) -> bool {
    &&& occurs_at(hay, needle, i)
    &&& forall|j: int| 0 <= j < i ==> !occurs_at(hay, needle, j)
}

/// `i` is the index of the first byte of `hay` equal to `b`.
pub open spec fn is_first_byte(hay: Seq<u8>, b: u8, i: int) -> bool {
    &&& 0 <= i < hay.len()
    &&& hay[i] == b
    &&& forall|j: int| 0 <= j < i ==> hay[j] != b
}

/// `b` does not occur in `hay`.
pub open spec fn lacks_byte(hay: Seq<u8>, b: u8) -> bool {
    forall|j: int| 0 <= j < hay.len() ==> hay[j] != b
}

/// `memchr::memmem::find`: the index of the first occurrence of `needle` in
/// `haystack`, or `None` when it does not occur.  The crate documents it as
/// "the index of the first occurrence of the given needle"; an empty needle
/// occurs at index 0.
#[verifier::external_body]
pub(crate) fn memmem_find(haystack: &[u8], needle: &[u8]) -> (r: Option<usize>)
    ensures
        match r {
            Some(i) => is_first_occurrence(haystack@, needle@, i as int),
            None => !contains(haystack@, needle@),
        },
{
    memchr::memmem::find(haystack, needle)
}

/// `memchr::memchr`: the index of the first byte of `haystack` equal to
/// `needle`, or `None` when there is none.  The crate documents it as
/// semantically `haystack.iter().position(|&b| b == needle)`.
#[verifier::external_body]
pub(crate) fn memchr_byte(needle: u8, haystack: &[u8]) -> (r: Option<usize>)
    ensures
        match r {
            Some(i) => is_first_byte(haystack@, needle, i as int),
            None => lacks_byte(haystack@, needle),
        },
{
    memchr::memchr(needle, haystack)
}

/// Whether `keyword` occurs in `line` (a substring search by `memmem`).
pub fn find_keyword(line: &[u8], keyword: &[u8]) -> (r: bool)
    ensures
        r == contains(line@, keyword@),
{
    memmem_find(line, keyword).is_some()
}

} // verus!
