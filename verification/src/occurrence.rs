//! What it means for a needle to occur in a byte sequence, and the ordered
//! list of all the places where it does.

use vstd::prelude::*;

verus! {

/// `needle` lies in `hay` starting at index `at`.
pub open spec fn occurs_at(hay: Seq<u8>, needle: Seq<u8>, at: int) -> bool {
    &&& 0 <= at
    &&& at + needle.len() <= hay.len()
    &&& hay.subrange(at, at + needle.len()) == needle
}

/// `found` is the answer to "where does `needle` first occur in `hay`?":
/// the smallest index at which it occurs, or `None` when it occurs nowhere.
pub open spec fn is_first_occurrence(hay: Seq<u8>, needle: Seq<u8>, found: Option<usize>) -> bool {
    match found {
        Some(at) => occurs_at(hay, needle, at as int) && forall|j: int|
            0 <= j < at ==> !occurs_at(hay, needle, j),
        None => forall|j: int| !occurs_at(hay, needle, j),
    }
}

/// The indices in `lo..hi` at which `needle` occurs in `hay`, ascending.
pub open spec fn matches_between(hay: Seq<u8>, needle: Seq<u8>, lo: int, hi: int) -> Seq<int>
    decreases hi - lo,
{
    if hi <= lo {
        Seq::empty()
    } else if occurs_at(hay, needle, hi - 1) {
        matches_between(hay, needle, lo, hi - 1).push(hi - 1)
    } else {
        matches_between(hay, needle, lo, hi - 1)
    }
}

/// Every index at which `needle` occurs in `hay`, ascending. Occurrences may
/// overlap one another.
pub open spec fn all_matches(hay: Seq<u8>, needle: Seq<u8>) -> Seq<int> {
    matches_between(hay, needle, 0, hay.len() - needle.len() + 1)
}

/// Calls `memchr::memmem::find`, which returns the index of the first
/// occurrence of a non-empty needle in the haystack, or `None` if the needle
/// does not occur in it. Nothing here is proved of that search: the contract
/// restates the crate's documentation.
#[verifier::external_body]
pub(crate) fn memmem_find(haystack: &[u8], needle: &[u8]) -> (found: Option<usize>)
    requires
        needle@.len() > 0,
    ensures
        is_first_occurrence(haystack@, needle@, found),
{
    memchr::memmem::find(haystack, needle)
}

/// An occurrence is the same fact whether it is looked for in the whole
/// sequence or in a slice of it that contains the occurrence entirely.
pub proof fn lemma_occurs_in_subrange(
    hay: Seq<u8>,
    needle: Seq<u8>,
    from: int,
    to: int,
    at: int,
)
    requires
        0 <= from <= to <= hay.len(),
        0 <= at,
    ensures
        occurs_at(hay.subrange(from, to), needle, at) <==> (occurs_at(hay, needle, from + at)
            && from + at + needle.len() <= to),
{
    let part = hay.subrange(from, to);
    if at + needle.len() <= part.len() {
        assert(part.subrange(at, at + needle.len()) =~= hay.subrange(
            from + at,
            from + at + needle.len(),
        ));
    }
}

/// The list for `lo..hi` holds exactly the occurrences in that range, each
/// once, in ascending order.
pub proof fn lemma_matches_between_exact(hay: Seq<u8>, needle: Seq<u8>, lo: int, hi: int)
    ensures
        forall|k: int|
            0 <= k < matches_between(hay, needle, lo, hi).len() ==> {
                let at = #[trigger] matches_between(hay, needle, lo, hi)[k];
                lo <= at < hi && occurs_at(hay, needle, at)
            },
        forall|j: int, k: int|
            0 <= j < k < matches_between(hay, needle, lo, hi).len() ==> matches_between(
                hay,
                needle,
                lo,
                hi,
            )[j] < matches_between(hay, needle, lo, hi)[k],
        forall|at: int|
            lo <= at < hi && occurs_at(hay, needle, at) ==> matches_between(
                hay,
                needle,
                lo,
                hi,
            ).contains(at),
    decreases hi - lo,
{
    if hi > lo {
        lemma_matches_between_exact(hay, needle, lo, hi - 1);
        let shorter = matches_between(hay, needle, lo, hi - 1);
        let whole = matches_between(hay, needle, lo, hi);
        assert forall|at: int| lo <= at < hi && occurs_at(hay, needle, at) implies whole.contains(
            at,
        ) by {
            if at == hi - 1 {
                assert(whole[whole.len() - 1] == at);
            } else {
                assert(shorter.contains(at));
                let k = choose|k: int| 0 <= k < shorter.len() && shorter[k] == at;
                assert(whole[k] == at);
            }
        }
    }
}

/// A range splits at any point inside it into two ranges whose lists join
/// to the list of the whole.
pub proof fn lemma_matches_between_split(
    hay: Seq<u8>,
    needle: Seq<u8>,
    lo: int,
    mid: int,
    hi: int,
)
    requires
        lo <= mid <= hi,
    ensures
        matches_between(hay, needle, lo, hi) == matches_between(hay, needle, lo, mid)
            + matches_between(hay, needle, mid, hi),
    decreases hi - mid,
{
    let left = matches_between(hay, needle, lo, mid);
    if hi == mid {
        assert(left + Seq::<int>::empty() =~= left);
    } else {
        lemma_matches_between_split(hay, needle, lo, mid, hi - 1);
        let right = matches_between(hay, needle, mid, hi - 1);
        if occurs_at(hay, needle, hi - 1) {
            assert((left + right).push(hi - 1) =~= left + right.push(hi - 1));
        }
    }
}

/// A range in which the needle occurs nowhere has an empty list.
pub proof fn lemma_matches_between_none(hay: Seq<u8>, needle: Seq<u8>, lo: int, hi: int)
    requires
        forall|at: int| lo <= at < hi ==> !occurs_at(hay, needle, at),
    ensures
        matches_between(hay, needle, lo, hi) == Seq::<int>::empty(),
    decreases hi - lo,
{
    if hi > lo {
        lemma_matches_between_none(hay, needle, lo, hi - 1);
    }
}

/// Moving the upper end of a range across indices at which the needle does
/// not occur leaves the list as it was.
pub proof fn lemma_matches_between_stable(
    hay: Seq<u8>,
    needle: Seq<u8>,
    lo: int,
    hi: int,
    other: int,
)
    requires
        lo <= hi <= other,
        forall|at: int| hi <= at < other ==> !occurs_at(hay, needle, at),
    ensures
        matches_between(hay, needle, lo, other) == matches_between(hay, needle, lo, hi),
{
    lemma_matches_between_split(hay, needle, lo, hi, other);
    lemma_matches_between_none(hay, needle, hi, other);
    let left = matches_between(hay, needle, lo, hi);
    assert(left + Seq::<int>::empty() =~= left);
}

/// Once the needle occurs nowhere from `from` on, the list up to `from` is
/// the list of all occurrences.
pub proof fn lemma_matches_complete(hay: Seq<u8>, needle: Seq<u8>, from: int)
    requires
        0 <= from,
        forall|at: int| from <= at ==> !occurs_at(hay, needle, at),
    ensures
        matches_between(hay, needle, 0, from) == all_matches(hay, needle),
{
    let top = hay.len() - needle.len() + 1;
    if from <= top {
        lemma_matches_between_stable(hay, needle, 0, from, top);
    } else if top >= 0 {
        lemma_matches_between_stable(hay, needle, 0, top, from);
    } else {
        lemma_matches_between_none(hay, needle, 0, from);
    }
}

/// The occurrences inside the slice `from..to` of `hay` are the occurrences
/// of `hay` that lie wholly inside `from..to`, moved down by `from`.
pub proof fn lemma_matches_in_window(
    hay: Seq<u8>,
    needle: Seq<u8>,
    from: int,
    to: int,
    upto: int,
)
    requires
        0 <= from <= to <= hay.len(),
        upto <= to - from - needle.len() + 1,
    ensures
        matches_between(hay.subrange(from, to), needle, 0, upto).len() == matches_between(
            hay,
            needle,
            from,
            from + upto,
        ).len(),
        forall|k: int|
            0 <= k < matches_between(hay.subrange(from, to), needle, 0, upto).len()
                ==> #[trigger] matches_between(hay.subrange(from, to), needle, 0, upto)[k] + from
                == matches_between(hay, needle, from, from + upto)[k],
    decreases upto,
{
    if upto > 0 {
        lemma_matches_in_window(hay, needle, from, to, upto - 1);
        lemma_occurs_in_subrange(hay, needle, from, to, upto - 1);
    }
}

/// `all_matches` holds an index exactly when the needle occurs there, holds
/// none twice, and lists them in ascending order.
pub proof fn lemma_all_matches_exact(hay: Seq<u8>, needle: Seq<u8>)
    ensures
        forall|at: int| all_matches(hay, needle).contains(at) <==> occurs_at(hay, needle, at),
        forall|j: int, k: int|
            0 <= j < k < all_matches(hay, needle).len() ==> all_matches(hay, needle)[j]
                < all_matches(hay, needle)[k],
        forall|k: int|
            0 <= k < all_matches(hay, needle).len() ==> 0 <= #[trigger] all_matches(
                hay,
                needle,
            )[k] <= hay.len() - needle.len(),
{
    lemma_matches_between_exact(hay, needle, 0, hay.len() - needle.len() + 1);
}

/// There is one answer to "where does the needle first occur?".
pub proof fn lemma_first_occurrence_unique(
    hay: Seq<u8>,
    needle: Seq<u8>,
    a: Option<usize>,
    b: Option<usize>,
)
    requires
        is_first_occurrence(hay, needle, a),
        is_first_occurrence(hay, needle, b),
    ensures
        a == b,
{
}

} // verus!
