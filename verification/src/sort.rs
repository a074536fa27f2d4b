//! The sort of the points by angle around the pivot, between the choice of
//! the pivot and the scan of the hull.
//!
//! The sort is the standard one. What it is given to compare by is the
//! library's order by angle; what it does with it is taken on trust.

use std::cmp::Ordering;
use vstd::prelude::*;
use crate::math::Vector2;
use crate::polygon::{angle_order, angle_order_of, Order};
use crate::scalar::{Fun, Model, Op, Rel, Scalars};

verus! {

/// The order by angle around `pivot` is a total order of `points`: of two
/// points either one comes before the other or they are at the same angle,
/// whichever is asked first, and coming before carries over from point to
/// point, as being at the same angle does.
pub open spec fn totally_ordered<T: Copy>(
    points: Seq<Vector2<T>>,
    pivot: Vector2<T>,
    m: Model<T>,
) -> bool {
    &&& forall|i: int, j: int|
        0 <= i < points.len() && 0 <= j < points.len() ==> (#[trigger] angle_order_of(
            points[i],
            points[j],
            pivot,
            m,
        ) is Before <==> angle_order_of(points[j], points[i], pivot, m) is After)
    &&& forall|i: int, j: int|
        0 <= i < points.len() && 0 <= j < points.len() ==> (#[trigger] angle_order_of(
            points[i],
            points[j],
            pivot,
            m,
        ) is Same <==> angle_order_of(points[j], points[i], pivot, m) is Same)
    &&& forall|i: int, j: int, k: int|
        0 <= i < points.len() && 0 <= j < points.len() && 0 <= k < points.len()
            && #[trigger] angle_order_of(points[i], points[j], pivot, m) is Before
            && #[trigger] angle_order_of(points[j], points[k], pivot, m) is Before
            ==> angle_order_of(points[i], points[k], pivot, m) is Before
    &&& forall|i: int, j: int, k: int|
        0 <= i < points.len() && 0 <= j < points.len() && 0 <= k < points.len()
            && #[trigger] angle_order_of(points[i], points[j], pivot, m) is Same
            && #[trigger] angle_order_of(points[j], points[k], pivot, m) is Same
            ==> angle_order_of(points[i], points[k], pivot, m) is Same
}

/// No point of `points` comes after a later one in the order by angle
/// around `pivot`.
pub open spec fn ascending<T: Copy>(
    points: Seq<Vector2<T>>,
    pivot: Vector2<T>,
    m: Model<T>,
) -> bool {
    forall|i: int, j: int|
        0 <= i <= j < points.len() ==> !(#[trigger] angle_order_of(
            points[i],
            points[j],
            pivot,
            m,
        ) is After)
}

/// The oracles of `s` answer by some model, and under every model that
/// they answer by the order by angle around `pivot` is a total order of
/// `points`.
pub open spec fn sortable<T: Copy, A, U, C>(
    points: Seq<Vector2<T>>,
    pivot: Vector2<T>,
    s: Scalars<T, A, U, C>,
) -> bool where A: Fn(Op, T, T) -> T, U: Fn(Fun, T) -> T, C: Fn(Rel, T, T) -> bool {
    &&& exists|m: Model<T>| s.answer_by(m)
    &&& forall|m: Model<T>| #[trigger] s.answer_by(m) ==> totally_ordered(points, pivot, m)
}

/// The order of `a` and `b` by angle around `pivot`, as the standard sort
/// takes it.
pub fn angle_ordering<T: Copy, A, U, C>(
    a: &Vector2<T>,
    b: &Vector2<T>,
    pivot: &Vector2<T>,
    s: &Scalars<T, A, U, C>,
) -> (ordering: Ordering) where A: Fn(Op, T, T) -> T, U: Fn(Fun, T) -> T, C: Fn(Rel, T, T) -> bool
    requires
        s.askable(),
    ensures
        forall|m: Model<T>| #[trigger]
            s.answer_by(m) ==> match angle_order_of(*a, *b, *pivot, m) {
                Order::Before => ordering is Less,
                Order::Same => ordering is Equal,
                Order::After => ordering is Greater,
            },
{
    match angle_order(*a, *b, *pivot, s) {
        Order::Before => Ordering::Less,
        Order::Same => Ordering::Equal,
        Order::After => Ordering::Greater,
    }
}

/// Sorts `points` by angle around `pivot` with `sort_unstable_by` of the
/// standard library's slices, comparing by `angle_ordering`.
///
/// Taken on trust of `sort_unstable_by`: that it sorts in place and keeps
/// every element of the slice, and that it leaves the slice in ascending
/// order of the comparison where the comparison is a total order. It may
/// panic where the comparison is no total order, which is why that is
/// required.
#[verifier::external_body]
pub(crate) fn sort_by_angle<T: Copy, A, U, C>(
    points: &mut [Vector2<T>],
    pivot: &Vector2<T>,
    s: &Scalars<T, A, U, C>,
) where A: Fn(Op, T, T) -> T, U: Fn(Fun, T) -> T, C: Fn(Rel, T, T) -> bool
    requires
        s.askable(),
        sortable(old(points)@, *pivot, *s),
    ensures
        final(points)@.len() == old(points)@.len(),
        final(points)@.to_multiset() == old(points)@.to_multiset(),
        forall|m: Model<T>| #[trigger] s.answer_by(m) ==> ascending(final(points)@, *pivot, m),
{
    points.sort_unstable_by(|a, b| angle_ordering(a, b, pivot, s));
}

} // verus!
