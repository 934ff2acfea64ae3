//! Substring search.
//!
//! What it means for one sequence to occur in another is said for sequences
//! of any kind. The search itself runs over bytes: text is searched as UTF-8
//! code units, so the offsets it gives are byte offsets.

use vstd::prelude::*;

verus! {

/// `needle` stands in `hay` at offset `at`.
pub open spec fn occurs_at<T>(hay: Seq<T>, needle: Seq<T>, at: int) -> bool {
    &&& 0 <= at
    &&& at + needle.len() <= hay.len()
    &&& hay.subrange(at, at + needle.len()) == needle
}

/// `needle` stands somewhere in `hay`.
pub open spec fn contains<T>(hay: Seq<T>, needle: Seq<T>) -> bool {
    exists|at: int| occurs_at(hay, needle, at)
}

/// `at` is the offset of the leftmost occurrence of `needle` in `hay`.
pub open spec fn is_first_occurrence<T>(hay: Seq<T>, needle: Seq<T>, at: int) -> bool {
    &&& occurs_at(hay, needle, at)
    &&& forall|earlier: int| 0 <= earlier < at ==> !occurs_at(hay, needle, earlier)
}

/// The offset of the leftmost occurrence of `needle` in `hay`, if there is one.
pub open spec fn first_occurrence<T>(hay: Seq<T>, needle: Seq<T>) -> Option<int> {
    if contains(hay, needle) {
        Some(choose|at: int| is_first_occurrence(hay, needle, at))
    } else {
        None
    }
}

/// A leftmost occurrence is the value of `first_occurrence`.
pub proof fn lemma_first_occurrence_is<T>(hay: Seq<T>, needle: Seq<T>, at: int)
    requires
        is_first_occurrence(hay, needle, at),
    ensures
        first_occurrence(hay, needle) == Some(at),
{
    let chosen = choose|c: int| is_first_occurrence(hay, needle, c);
    assert(is_first_occurrence(hay, needle, chosen));
    if chosen < at {
        assert(!occurs_at(hay, needle, chosen));
    } else if at < chosen {
        assert(!occurs_at(hay, needle, at));
    }
}

/// Where `needle` occurs at all, `first_occurrence` names its leftmost offset.
pub proof fn lemma_first_occurrence_exists<T>(hay: Seq<T>, needle: Seq<T>)
    requires
        contains(hay, needle),
    ensures
        first_occurrence(hay, needle) matches Some(at) && is_first_occurrence(hay, needle, at),
{
    let witness = choose|at: int| occurs_at(hay, needle, at);
    lemma_least_occurrence(hay, needle, witness, 0);
}

/// Scanning upward from `from`, below which nothing occurs, reaches a
/// leftmost occurrence no later than the known occurrence `known`.
proof fn lemma_least_occurrence<T>(hay: Seq<T>, needle: Seq<T>, known: int, from: int)
    requires
        occurs_at(hay, needle, known),
        0 <= from <= known,
        forall|earlier: int| 0 <= earlier < from ==> !occurs_at(hay, needle, earlier),
    ensures
        exists|at: int| is_first_occurrence(hay, needle, at),
    decreases known - from,
{
    if occurs_at(hay, needle, from) {
        assert(is_first_occurrence(hay, needle, from));
    } else {
        lemma_least_occurrence(hay, needle, known, from + 1);
    }
}

/// Tests whether `needle` stands in `hay` at `at`.
pub(crate) fn matches_at(hay: &[u8], needle: &[u8], at: usize) -> (hit: bool)
    requires
        at + needle@.len() <= hay@.len(),
    ensures
        hit == occurs_at(hay@, needle@, at as int),
{
    let n: usize = needle.len();
    let h: usize = hay.len();
    let mut k: usize = 0;
    while k < n
        invariant
            n == needle@.len(),
            h == hay@.len(),
            k <= n,
            at + n <= h,
            forall|j: int| 0 <= j < k ==> hay@[at + j] == needle@[j],
        decreases n - k,
    {
        if hay[at + k] != needle[k] {
            assert(hay@.subrange(at as int, at + n)[k as int] != needle@[k as int]);
            return false;
        }
        k += 1;
    }
    assert(hay@.subrange(at as int, at + n) =~= needle@);
    true
}

/// Finds the leftmost occurrence of `needle` in `hay`.
///
/// An empty `needle` occurs at offset 0 of every `hay`.
pub fn find(hay: &[u8], needle: &[u8]) -> (found: Option<usize>)
    ensures
        found is Some <==> contains(hay@, needle@),
        found matches Some(at) ==> is_first_occurrence(hay@, needle@, at as int),
        match found {
            Some(at) => first_occurrence(hay@, needle@) == Some(at as int),
            None => first_occurrence(hay@, needle@) is None,
        },
{
    let n: usize = needle.len();
    let h: usize = hay.len();
    if n > h {
        return None;
    }
    let last: usize = h - n;
    let mut at: usize = 0;
    loop
        invariant
            n == needle@.len(),
            h == hay@.len(),
            n <= h,
            last == h - n,
            at <= last,
            forall|earlier: int| 0 <= earlier < at ==> !occurs_at(hay@, needle@, earlier),
        decreases last - at,
    {
        if matches_at(hay, needle, at) {
            proof {
                lemma_first_occurrence_is(hay@, needle@, at as int);
            }
            return Some(at);
        }
        if at == last {
            return None;
        }
        at += 1;
    }
}

} // verus!
