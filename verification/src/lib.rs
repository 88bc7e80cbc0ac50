//! Streaming search for a literal byte pattern: every occurrence in a byte
//! stream of any length, overlapping ones included, found window by window
//! and reported by its offset in the whole stream.

use vstd::prelude::*;

pub mod engine;
pub mod io;
pub mod occurrence;

use crate::occurrence::{is_first_occurrence, memmem_find, occurs_at};

verus! {

/// Returns the index of the first occurrence of `needle` in `haystack`.
///
/// An empty needle occurs at index 0 of every haystack, the empty one too.
pub fn find(haystack: &[u8], needle: &[u8]) -> (found: Option<usize>)
    ensures
        is_first_occurrence(haystack@, needle@, found),
        needle@.len() == 0 ==> found == Some(0usize),
{
    if needle.is_empty() {
        assert(haystack@.subrange(0, 0) =~= needle@);
        return Some(0);
    }
    memmem_find(haystack, needle)
}

/// Tells whether `needle` occurs anywhere in `haystack`.
pub fn contains(haystack: &[u8], needle: &[u8]) -> (yes: bool)
    ensures
        yes <==> exists|at: int| occurs_at(haystack@, needle@, at),
{
    match find(haystack, needle) {
        Some(at) => {
            assert(occurs_at(haystack@, needle@, at as int));
            true
        },
        None => false,
    }
}

} // verus!
