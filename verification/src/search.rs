//! Locating a value inside an array of integers.

use rayon::iter::{IndexedParallelIterator, IntoParallelRefIterator};
use vstd::prelude::*;

verus! {

/// Largest length that is still scanned sequentially, left to right.
pub const PARALLEL_CUTOVER: usize = 100;

/// `i` is the lowest index of `data` that holds `target`.
pub open spec fn is_first_match(data: Seq<i32>, target: i32, i: int) -> bool {
    &&& 0 <= i < data.len()
    &&& data[i] == target
    &&& forall|j: int| 0 <= j < i ==> data[j] != target
}

/// An array has one lowest match at most.
pub proof fn lemma_first_match_unique(data: Seq<i32>, target: i32, i: int, j: int)
    requires
        is_first_match(data, target, i),
        is_first_match(data, target, j),
    ensures
        i == j,
{
    if i < j {
        assert(data[i] != target);
    } else if j < i {
        assert(data[j] != target);
    }
}

/// Whether one element is the value searched for.
pub fn is_target(item: i32, target: i32) -> (hit: bool)
    ensures
        hit == (item == target),
{
    item == target
}

/// Sequential scan from the left: the lowest matching index.
pub fn position_first(data: &[i32], target: i32) -> (found: Option<usize>)
    ensures
        match found {
            Some(i) => is_first_match(data@, target, i as int),
            None => !data@.contains(target),
        },
{
    let mut i: usize = 0;
    while i < data.len()
        invariant
            i <= data@.len(),
            forall|j: int| 0 <= j < i ==> data@[j] != target,
        decreases data@.len() - i,
    {
        if is_target(data[i], target) {
            return Some(i);
        }
        i += 1;
    }
    None
}

/// rayon's `position_any` on the slice's parallel iterator. Which match comes
/// back depends on how the work was split, so the contract says only what
/// holds of every outcome: an index that comes back holds the target, and
/// nothing comes back only where no element does.
#[verifier::external_body]
fn position_any(data: &[i32], target: i32) -> (found: Option<usize>)
    ensures
        match found {
            Some(i) => i < data@.len() && data@[i as int] == target,
            None => !data@.contains(target),
        },
{
    data.par_iter().position_any(|item| is_target(*item, target))
}

/// Finds an index of `data` that holds `target`.
///
/// Up to `PARALLEL_CUTOVER` elements the scan is sequential and the lowest
/// matching index is returned. Longer arrays are scanned concurrently and any
/// matching index may be returned.
pub fn which_c(data: &[i32], target: i32) -> (found: Option<usize>)
    ensures
        match found {
            Some(i) => {
                &&& i < data@.len()
                &&& data@[i as int] == target
                &&& data@.len() <= PARALLEL_CUTOVER ==> is_first_match(data@, target, i as int)
            },
            None => !data@.contains(target),
        },
        !data@.contains(target) ==> found is None,
        forall|p: int|
            data@.len() <= PARALLEL_CUTOVER && is_first_match(data@, target, p) ==> found == Some(
                p as usize,
            ),
{
    if data.len() > PARALLEL_CUTOVER {
        position_any(data, target)
    } else {
        let found = position_first(data, target);
        proof {
            assert forall|p: int| is_first_match(data@, target, p) implies found == Some(
                p as usize,
            ) by {
                assert(data@.contains(target));
                lemma_first_match_unique(data@, target, p, found->0 as int);
            }
        }
        found
    }
}

} // verus!
