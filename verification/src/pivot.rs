//! The choice of the pivot around which the hull is scanned: the lowest
//! point, and of several lowest points the first, over an oracle that
//! compares the heights of two points.

use vstd::prelude::*;

verus! {

/// An order of the points by height: `lower(i, j)` says that point `i` lies
/// strictly lower than point `j`.
pub type Height = spec_fn(int, int) -> bool;

/// The first of the lowest points among the first `count`: each point
/// replaces the lowest so far only where it lies strictly lower.
pub open spec fn pivot_of(count: nat, lower: Height) -> int
    decreases count,
{
    if count <= 1 {
        0
    } else {
        let so_far = pivot_of((count - 1) as nat, lower);
        if lower(count - 1, so_far) {
            count - 1
        } else {
            so_far
        }
    }
}

/// `oracle` answers by `lower` on every two points below `count`.
pub open spec fn compares_by<F: Fn(usize, usize) -> bool>(
    oracle: F,
    lower: Height,
    count: nat,
) -> bool {
    forall|i: usize, j: usize, r: bool|
        i < count && j < count && #[trigger] call_ensures(oracle, (i, j), r) ==> r == lower(
            i as int,
            j as int,
        )
}

/// Finds the point that the scan turns around: the lowest of `count`
/// points, and of several lowest ones the first.
pub fn find_pivot<F: Fn(usize, usize) -> bool>(count: usize, lower: F) -> (min_i: usize)
    requires
        count >= 1,
        forall|i: usize, j: usize| j < i < count ==> call_requires(lower, (i, j)),
    ensures
        min_i < count,
        forall|height: Height| #[trigger]
            compares_by(lower, height, count as nat) ==> min_i == pivot_of(count as nat, height),
{
    let mut min_i: usize = 0;
    let mut i: usize = 1;
    while i < count
        invariant
            1 <= i <= count,
            min_i < i,
            forall|i: usize, j: usize| j < i < count ==> call_requires(lower, (i, j)),
            forall|height: Height| #[trigger]
                compares_by(lower, height, count as nat) ==> min_i == pivot_of(i as nat, height),
        decreases count - i,
    {
        if lower(i, min_i) {
            min_i = i;
        }
        i += 1;
    }
    min_i
}

/// `lower(i, j)`, in a form that quantifiers can be matched on.
pub open spec fn lies_lower(lower: Height, i: int, j: int) -> bool {
    lower(i, j)
}

/// `lower` orders the points below `count` by a height that each of them
/// has: no point lies lower than itself, lying lower carries over from one
/// point to the next, and a point that lies lower than another lies lower
/// than any third unless the third lies lower than that other.
pub open spec fn orders_by_height(lower: Height, count: nat) -> bool {
    &&& forall|i: int| 0 <= i < count ==> !#[trigger] lies_lower(lower, i, i)
    &&& forall|i: int, j: int, k: int|
        0 <= i < count && 0 <= j < count && 0 <= k < count && #[trigger] lies_lower(lower, i, j)
            && #[trigger] lies_lower(lower, j, k) ==> lies_lower(lower, i, k)
    &&& forall|i: int, j: int, k: int|
        0 <= i < count && 0 <= j < count && 0 <= k < count && #[trigger] lies_lower(lower, i, j)
            ==> #[trigger] lies_lower(lower, i, k) || lies_lower(lower, k, j)
}

/// Where `lower` orders the points by height, no point lies lower than the
/// pivot and every point before the pivot lies higher.
pub proof fn lemma_pivot_is_first_lowest(count: nat, lower: Height, other: int)
    requires
        orders_by_height(lower, count),
        0 <= other < count,
    ensures
        0 <= pivot_of(count, lower) < count,
        !lower(other, pivot_of(count, lower)),
        other < pivot_of(count, lower) ==> lower(pivot_of(count, lower), other),
    decreases count,
{
    if count > 1 {
        let so_far = pivot_of((count - 1) as nat, lower);
        assert(orders_by_height(lower, (count - 1) as nat));
        lemma_pivot_is_first_lowest((count - 1) as nat, lower, 0);
        if other < count - 1 {
            lemma_pivot_is_first_lowest((count - 1) as nat, lower, other);
            if lower(count - 1, so_far) {
                assert(lies_lower(lower, count - 1, so_far));
                assert(lies_lower(lower, count - 1, other) || lies_lower(lower, other, so_far));
                if lower(other, count - 1) {
                    assert(lies_lower(lower, other, count - 1));
                    assert(lies_lower(lower, other, so_far));
                }
            }
        } else {
            assert(!lies_lower(lower, other, other));
        }
    } else {
        assert(!lies_lower(lower, 0, 0));
    }
}

/// The pivot is one of the points.
pub proof fn lemma_pivot_is_in_range(count: nat, lower: Height)
    requires
        count >= 1,
    ensures
        0 <= pivot_of(count, lower) < count,
    decreases count,
{
    if count > 1 {
        lemma_pivot_is_in_range((count - 1) as nat, lower);
    }
}

} // verus!
