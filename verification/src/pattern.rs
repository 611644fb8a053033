//! Containment of one sequence in another as a contiguous run.

use vstd::prelude::*;
use vstd::string::StringSliceAdditionalSpecFns;
use crate::encoding::lemma_substring_iff_encoded;

verus! {

/// `needle` occurs in `hay` at position `at`.
pub open spec fn occurs_at<T>(needle: Seq<T>, hay: Seq<T>, at: int) -> bool {
    &&& 0 <= at
    &&& at + needle.len() <= hay.len()
    &&& hay.subrange(at, at + needle.len()) =~= needle
}

/// `needle` occurs somewhere in `hay` as a contiguous run.
/// The empty sequence occurs in every sequence.
pub open spec fn is_substring<T>(needle: Seq<T>, hay: Seq<T>) -> bool {
    exists|at: int| occurs_at(needle, hay, at)
}

/// A sequence occurs between whatever stands before and after it.
pub proof fn lemma_occurs_between<T>(before: Seq<T>, needle: Seq<T>, after: Seq<T>)
    ensures
        occurs_at(needle, before + needle + after, before.len() as int),
        is_substring(needle, before + needle + after),
{
    assert(occurs_at(needle, before + needle + after, before.len() as int));
}

/// Where `needle` occurs at `at`, the sequence is what stands before `at`,
/// then `needle`, then what stands after it.
pub proof fn lemma_occurrence_splits<T>(needle: Seq<T>, hay: Seq<T>, at: int)
    requires
        occurs_at(needle, hay, at),
    ensures
        hay =~= hay.take(at) + needle + hay.skip(at + needle.len()),
{
}

/// What occurs in a part of a sequence occurs in the sequence.
pub proof fn lemma_substring_of_substring<T>(needle: Seq<T>, part: Seq<T>, hay: Seq<T>)
    requires
        is_substring(needle, part),
        is_substring(part, hay),
    ensures
        is_substring(needle, hay),
{
    let inner = choose|at: int| occurs_at(needle, part, at);
    let outer = choose|at: int| occurs_at(part, hay, at);
    assert(hay.subrange(outer + inner, outer + inner + needle.len()) =~= hay.subrange(
        outer,
        outer + part.len(),
    ).subrange(inner, inner + needle.len()));
    assert(occurs_at(needle, hay, outer + inner));
}

/// Whether `needle` stands in `hay` at position `at`.
fn matches_at(hay: &[u8], needle: &[u8], at: usize) -> (matched: bool)
    requires
        at + needle.len() <= hay.len(),
    ensures
        matched == occurs_at(needle@, hay@, at as int),
{
    let len: usize = needle.len();
    let mut k: usize = 0;
    while k < len
        invariant
            k <= len == needle.len(),
            at + len <= hay.len(),
            forall|j: int| 0 <= j < k ==> hay@[at + j] == needle@[j],
        decreases len - k,
    {
        if hay[at + k] != needle[k] {
            return false;
        }
        k += 1;
    }
    true
}

/// Whether the bytes `needle` occur in the bytes `hay`, tried at each
/// position from the left.
pub fn occurs_in(hay: &[u8], needle: &[u8]) -> (found: bool)
    ensures
        found == is_substring(needle@, hay@),
{
    if needle.len() > hay.len() {
        return false;
    }
    let last: usize = hay.len() - needle.len();
    let mut at: usize = 0;
    while at < last
        invariant
            at <= last,
            last + needle.len() == hay.len(),
            forall|j: int| 0 <= j < at ==> !occurs_at(needle@, hay@, j),
        decreases last - at,
    {
        if matches_at(hay, needle, at) {
            return true;
        }
        at += 1;
    }
    matches_at(hay, needle, last)
}

/// Whether `needle` occurs in `hay`. Both are compared as they are,
/// character for character; the empty string occurs in every string.
pub fn contains(hay: &str, needle: &str) -> (found: bool)
    ensures
        found == is_substring(needle@, hay@),
{
    proof {
        lemma_substring_iff_encoded(needle@, hay@);
    }
    occurs_in(hay.as_bytes(), needle.as_bytes())
}

} // verus!
