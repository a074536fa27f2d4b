//! Hull and intersection for points over any scalars.
//!
//! For the hull: the oracles that the pivot and the scan ask, the order of
//! points by angle by which they are sorted between the two, and pivot and
//! scan on points. For the intersection: the oracles that the walk asks,
//! and the intersection of two convex polygons as points.

use vstd::prelude::*;
use vstd::seq_lib::{lemma_multiset_commutative, to_multiset_update};
use crate::intersect::{
    all_in_range, answer_by, askable, convex_intersect_alloc as walk_alloc,
    convex_intersect_no_alloc as walk_no_alloc, in_range, intersection_of, locatable, locates_by,
    Coincide, EdgeOracle, EdgeTest, Vertex,
};
use crate::hull::{
    answers, graham_scan as scan, hull_of, increasing_below, positions, Orientation,
};
use crate::math::Vector2;
use crate::pivot::{compares_by, find_pivot, pivot_of, Height};
use crate::scalar::{is_exact, Fun, Model, Op, Rel, Scalars};
use crate::sort::{ascending, sort_by_angle, sortable, totally_ordered};

verus! {

/// Whether point `i` lies strictly lower than point `j`.
pub open spec fn lower_of<T: Copy>(points: Seq<Vector2<T>>, i: int, j: int, m: Model<T>) -> bool {
    m.less(points[i].y, points[j].y)
}

/// Whether the path from point `a` over `b` to `c` does not turn right or
/// go straight on: the wedge of its two steps is not at most zero.
pub open spec fn left_turn_of<T: Copy>(
    points: Seq<Vector2<T>>,
    a: int,
    b: int,
    c: int,
    m: Model<T>,
) -> bool {
    let old_vec = points[b].minus_of(points[a], m);
    let new_vec = points[c].minus_of(points[b], m);
    !m.at_most(old_vec.wedge_of(new_vec, m).xy, m.zero)
}

/// The height oracle of `points`.
pub open spec fn height_oracle_of<T: Copy>(points: Seq<Vector2<T>>, m: Model<T>) -> Height {
    |i: int, j: int| lower_of(points, i, j, m)
}

/// The orientation oracle of `points`.
pub open spec fn orientation_oracle_of<T: Copy>(
    points: Seq<Vector2<T>>,
    m: Model<T>,
) -> Orientation {
    |a: int, b: int, c: int| left_turn_of(points, a, b, c, m)
}

/// The answer of the pivot's oracle for two of `points`.
pub fn is_lower<T: Copy, A, U, C>(
    points: &[Vector2<T>],
    i: usize,
    j: usize,
    s: &Scalars<T, A, U, C>,
) -> (lower: bool) where A: Fn(Op, T, T) -> T, U: Fn(Fun, T) -> T, C: Fn(Rel, T, T) -> bool
    requires
        s.askable(),
        i < points@.len(),
        j < points@.len(),
    ensures
        forall|m: Model<T>| #[trigger]
            s.answer_by(m) ==> lower == lower_of(points@, i as int, j as int, m),
{
    s.is_less(points[i].y, points[j].y)
}

/// The answer of the hull scan's oracle for three of `points`.
pub fn is_left_turn<T: Copy, A, U, C>(
    points: &[Vector2<T>],
    a: usize,
    b: usize,
    c: usize,
    s: &Scalars<T, A, U, C>,
) -> (left: bool) where A: Fn(Op, T, T) -> T, U: Fn(Fun, T) -> T, C: Fn(Rel, T, T) -> bool
    requires
        s.askable(),
        a < points@.len(),
        b < points@.len(),
        c < points@.len(),
    ensures
        forall|m: Model<T>| #[trigger]
            s.answer_by(m) ==> left == left_turn_of(points@, a as int, b as int, c as int, m),
{
    let old_vec = points[b].minus(points[a], s);
    let new_vec = points[c].minus(points[b], s);
    !s.is_at_most(old_vec.wedge(new_vec, s).xy, s.zero)
}

/// Moves the pivot of `points`, the first of their lowest, to the front
/// and the point at the front to the pivot's place. Returns the pivot.
pub fn take_pivot<T: Copy, A, U, C>(points: &mut [Vector2<T>], s: &Scalars<T, A, U, C>) -> (pivot:
    Vector2<T>) where A: Fn(Op, T, T) -> T, U: Fn(Fun, T) -> T, C: Fn(Rel, T, T) -> bool
    requires
        s.askable(),
        old(points)@.len() >= 1,
    ensures
        final(points)@.len() == old(points)@.len(),
        final(points)@.to_multiset() == old(points)@.to_multiset(),
        pivot == final(points)@[0],
        forall|m: Model<T>| #[trigger]
            s.answer_by(m) ==> final(points)@ == old(points)@.update(
                0,
                old(points)@[pivot_of(
                    old(points)@.len(),
                    height_oracle_of(old(points)@, m),
                )],
            ).update(
                pivot_of(old(points)@.len(), height_oracle_of(old(points)@, m)),
                old(points)@[0],
            ),
{
    let count: usize = points.len();
    let min_i: usize = {
        let seen = &*points;
        let lower = |i: usize, j: usize| -> (lower: bool)
            requires
                i < count,
                j < count,
            ensures
                forall|m: Model<T>| #[trigger]
                    s.answer_by(m) ==> lower == lower_of(seen@, i as int, j as int, m),
            { is_lower(seen, i, j, s) };
        let min_i: usize = find_pivot(count, lower);
        proof {
            assert forall|m: Model<T>| #[trigger] s.answer_by(m) implies min_i == pivot_of(
                count as nat,
                height_oracle_of(seen@, m),
            ) by {
                assert(compares_by(lower, height_oracle_of(seen@, m), count as nat));
            }
        }
        min_i
    };
    let point_0 = points[min_i];
    points[min_i] = points[0];
    points[0] = point_0;
    proof {
        broadcast use vstd::multiset::group_multiset_axioms;

        let before = old(points)@;
        let between = before.update(min_i as int, before[0]);
        to_multiset_update(before, min_i as int, before[0]);
        to_multiset_update(between, 0, before[min_i as int]);
        assert(points@ == between.update(0, before[min_i as int]));
        before.to_multiset_ensures();
        assert(before.to_multiset().count(before[0]) > 0 && before.to_multiset().count(
            before[min_i as int],
        ) > 0) by {
            assert(before.contains(before[0]) && before.contains(before[min_i as int]));
        }
        assert(points@.to_multiset() =~= before.to_multiset());
    }
    point_0
}

/// How one scalar or one point stands to another in an order.
#[derive(Clone, Copy, Debug, PartialEq, Eq)]
pub enum Order {
    Before,
    Same,
    After,
}

/// The place of `x` before or after `y` in the total order of the
/// scalars.
pub open spec fn order_of<T>(x: T, y: T, m: Model<T>) -> Order {
    if m.before(x, y) {
        Order::Before
    } else if m.before(y, x) {
        Order::After
    } else {
        Order::Same
    }
}

/// The order of the points `a` and `b` by their angle around `pivot`,
/// counter-clockwise from the direction of the x axis. The order of two
/// points on the same side of the horizontal through the pivot is the sign
/// of their wedge; across the horizontal the sign is taken the other way
/// round.
pub open spec fn angle_order_of<T: Copy>(
    a: Vector2<T>,
    b: Vector2<T>,
    pivot: Vector2<T>,
    m: Model<T>,
) -> Order {
    let a_dy = m.sub(a.y, pivot.y);
    let b_dy = m.sub(b.y, pivot.y);
    let a_dx = m.sub(a.x, pivot.x);
    let b_dx = m.sub(b.x, pivot.x);
    let lhs = m.mul(b_dx, a_dy);
    let rhs = m.mul(a_dx, b_dy);
    if (m.at_most(m.zero, a_dy) && m.at_most(m.zero, b_dy)) || (m.less(a_dy, m.zero) && m.less(
        b_dy,
        m.zero,
    )) {
        order_of(lhs, rhs, m)
    } else {
        order_of(rhs, lhs, m)
    }
}

/// The place of `x` before or after `y` in the total order of the scalars.
pub fn order<T: Copy, A, U, C>(x: T, y: T, s: &Scalars<T, A, U, C>) -> (order: Order) where
    A: Fn(Op, T, T) -> T,
    U: Fn(Fun, T) -> T,
    C: Fn(Rel, T, T) -> bool,

    requires
        s.askable(),
    ensures
        forall|m: Model<T>| #[trigger] s.answer_by(m) ==> order == order_of(x, y, m),
{
    if s.is_before(x, y) {
        Order::Before
    } else if s.is_before(y, x) {
        Order::After
    } else {
        Order::Same
    }
}

/// Compares two points by their angle around `pivot`, for sorting the
/// points that the hull scan goes through.
pub fn angle_order<T: Copy, A, U, C>(
    a: Vector2<T>,
    b: Vector2<T>,
    pivot: Vector2<T>,
    s: &Scalars<T, A, U, C>,
) -> (order: Order) where A: Fn(Op, T, T) -> T, U: Fn(Fun, T) -> T, C: Fn(Rel, T, T) -> bool
    requires
        s.askable(),
    ensures
        forall|m: Model<T>| #[trigger] s.answer_by(m) ==> order == angle_order_of(a, b, pivot, m),
{
    let a_dy = s.difference(a.y, pivot.y);
    let b_dy = s.difference(b.y, pivot.y);
    let a_dx = s.difference(a.x, pivot.x);
    let b_dx = s.difference(b.x, pivot.x);

    let lhs = s.product(b_dx, a_dy);
    let rhs = s.product(a_dx, b_dy);
    let a_up = s.is_at_most(s.zero, a_dy);
    let b_up = s.is_at_most(s.zero, b_dy);
    let a_down = s.is_less(a_dy, s.zero);
    let b_down = s.is_less(b_dy, s.zero);
    if (a_up && b_up) || (a_down && b_down) {
        self::order(lhs, rhs, s)
    } else {
        self::order(rhs, lhs, s)
    }
}

/// Around a pivot that no point lies lower than, one point comes before
/// another exactly when the other is to its left as seen from the pivot.
pub proof fn lemma_angle_order_is_orientation(
    a: Vector2<int>,
    b: Vector2<int>,
    pivot: Vector2<int>,
    m: Model<int>,
)
    requires
        is_exact(m),
        pivot.y <= a.y,
        pivot.y <= b.y,
    ensures
        angle_order_of(a, b, pivot, m) == Order::Before <==> (a.x - pivot.x) * (b.y - pivot.y) - (
        a.y - pivot.y) * (b.x - pivot.x) > 0,
        angle_order_of(a, b, pivot, m) == Order::After <==> (a.x - pivot.x) * (b.y - pivot.y) - (
        a.y - pivot.y) * (b.x - pivot.x) < 0,
{
    assert((b.x - pivot.x) * (a.y - pivot.y) == (a.y - pivot.y) * (b.x - pivot.x))
        by (nonlinear_arith);
}

/// Scans `points`, which start with their pivot and go on by angle around
/// it, and leaves the indices of their hull in the first `len` entries of
/// `indices_on_hull`, counter-clockwise from the pivot.
pub fn scan_arranged<T: Copy, A, U, C>(
    points: &[Vector2<T>],
    indices_on_hull: &mut [usize],
    s: &Scalars<T, A, U, C>,
) -> (len: usize) where A: Fn(Op, T, T) -> T, U: Fn(Fun, T) -> T, C: Fn(Rel, T, T) -> bool
    requires
        s.askable(),
        old(indices_on_hull)@.len() >= points@.len(),
    ensures
        final(indices_on_hull)@.len() == old(indices_on_hull)@.len(),
        len <= points@.len(),
        forall|k: int|
            points@.len() <= k < old(indices_on_hull)@.len() ==> final(indices_on_hull)@[k]
                == old(indices_on_hull)@[k],
        increasing_below(
            positions(final(indices_on_hull)@.take(len as int)),
            points@.len() as int,
        ),
        forall|m: Model<T>| #[trigger]
            s.answer_by(m) ==> positions(final(indices_on_hull)@.take(len as int)) == hull_of(
                points@.len(),
                orientation_oracle_of(points@, m),
            ),
{
    let count: usize = points.len();
    let left_turn = |a: usize, b: usize, c: usize| -> (left: bool)
        requires
            a < count,
            b < count,
            c < count,
        ensures
            forall|m: Model<T>| #[trigger]
                s.answer_by(m) ==> left == left_turn_of(points@, a as int, b as int, c as int, m),
        { is_left_turn(points, a, b, c, s) };
    let len: usize = scan(count, left_turn, indices_on_hull);
    proof {
        assert forall|m: Model<T>| #[trigger] s.answer_by(m) implies positions(
            indices_on_hull@.take(len as int),
        ) == hull_of(count as nat, orientation_oracle_of(points@, m)) by {
            assert(answers(left_turn, orientation_oracle_of(points@, m), count as nat));
        }
    }
    len
}

/// The pivot of `points` under `m`: the first of their lowest.
pub open spec fn pivot_point_of<T: Copy>(points: Seq<Vector2<T>>, m: Model<T>) -> Vector2<T> {
    points[pivot_of(points.len(), height_oracle_of(points, m))]
}

/// `points` without their pivot under `m`.
pub open spec fn around_pivot_of<T: Copy>(points: Seq<Vector2<T>>, m: Model<T>) -> Seq<
    Vector2<T>,
> {
    points.remove(pivot_of(points.len(), height_oracle_of(points, m)))
}

/// A total order of points is a total order of any points among them.
proof fn lemma_total_order_of_some<T: Copy>(
    all: Seq<Vector2<T>>,
    some: Seq<Vector2<T>>,
    from: spec_fn(int) -> int,
    pivot: Vector2<T>,
    m: Model<T>,
)
    requires
        totally_ordered(all, pivot, m),
        forall|i: int|
            0 <= i < some.len() ==> 0 <= #[trigger] from(i) < all.len() && some[i] == all[from(
                i,
            )],
    ensures
        totally_ordered(some, pivot, m),
{
    assert forall|i: int, j: int| 0 <= i < some.len() && 0 <= j < some.len() implies (
    #[trigger] angle_order_of(some[i], some[j], pivot, m) is Before <==> angle_order_of(
        some[j],
        some[i],
        pivot,
        m,
    ) is After) && (angle_order_of(some[i], some[j], pivot, m) is Same <==> angle_order_of(
        some[j],
        some[i],
        pivot,
        m,
    ) is Same) by {
        assert(some[i] == all[from(i)] && some[j] == all[from(j)]);
        assert(angle_order_of(all[from(i)], all[from(j)], pivot, m) is Before <==> angle_order_of(
            all[from(j)],
            all[from(i)],
            pivot,
            m,
        ) is After);
        assert(angle_order_of(all[from(i)], all[from(j)], pivot, m) is Same <==> angle_order_of(
            all[from(j)],
            all[from(i)],
            pivot,
            m,
        ) is Same);
    }
    assert forall|i: int, j: int, k: int|
        0 <= i < some.len() && 0 <= j < some.len() && 0 <= k < some.len()
            && #[trigger] angle_order_of(some[i], some[j], pivot, m) is Before
            && #[trigger] angle_order_of(
            some[j],
            some[k],
            pivot,
            m,
        ) is Before implies angle_order_of(some[i], some[k], pivot, m) is Before by {
        assert(some[i] == all[from(i)] && some[j] == all[from(j)] && some[k] == all[from(k)]);
        assert(angle_order_of(all[from(i)], all[from(j)], pivot, m) is Before);
        assert(angle_order_of(all[from(j)], all[from(k)], pivot, m) is Before);
    }
    assert forall|i: int, j: int, k: int|
        0 <= i < some.len() && 0 <= j < some.len() && 0 <= k < some.len()
            && #[trigger] angle_order_of(some[i], some[j], pivot, m) is Same
            && #[trigger] angle_order_of(
            some[j],
            some[k],
            pivot,
            m,
        ) is Same implies angle_order_of(some[i], some[k], pivot, m) is Same by {
        assert(some[i] == all[from(i)] && some[j] == all[from(j)] && some[k] == all[from(k)]);
        assert(angle_order_of(all[from(i)], all[from(j)], pivot, m) is Same);
        assert(angle_order_of(all[from(j)], all[from(k)], pivot, m) is Same);
    }
}

/// Wraps `points` in their convex hull. The points are rearranged: their
/// pivot, the first of the lowest, comes to the front, and the others
/// follow by angle around it. The first `len` entries of `indices_on_hull`
/// then name the points of the hull, counter-clockwise from the pivot.
///
/// The points are rearranged by the standard sort, which demands that the
/// order by angle around the pivot is a total order of the other points.
pub fn graham_scan<T: Copy, A, U, C>(
    points: &mut [Vector2<T>],
    indices_on_hull: &mut [usize],
    s: &Scalars<T, A, U, C>,
) -> (len: usize) where A: Fn(Op, T, T) -> T, U: Fn(Fun, T) -> T, C: Fn(Rel, T, T) -> bool
    requires
        s.askable(),
        old(points)@.len() >= 1,
        old(indices_on_hull)@.len() >= old(points)@.len(),
        exists|m: Model<T>| s.answer_by(m),
        forall|m: Model<T>| #[trigger]
            s.answer_by(m) ==> totally_ordered(
                around_pivot_of(old(points)@, m),
                pivot_point_of(old(points)@, m),
                m,
            ),
    ensures
        final(points)@.len() == old(points)@.len(),
        final(points)@.to_multiset() == old(points)@.to_multiset(),
        final(indices_on_hull)@.len() == old(indices_on_hull)@.len(),
        len <= old(points)@.len(),
        forall|k: int|
            old(points)@.len() <= k < old(indices_on_hull)@.len() ==> final(indices_on_hull)@[k]
                == old(indices_on_hull)@[k],
        increasing_below(
            positions(final(indices_on_hull)@.take(len as int)),
            old(points)@.len() as int,
        ),
        forall|m: Model<T>| #[trigger]
            s.answer_by(m) ==> {
                &&& final(points)@[0] == pivot_point_of(old(points)@, m)
                &&& ascending(
                    final(points)@.subrange(1, final(points)@.len() as int),
                    final(points)@[0],
                    m,
                )
                &&& positions(final(indices_on_hull)@.take(len as int)) == hull_of(
                    final(points)@.len(),
                    orientation_oracle_of(final(points)@, m),
                )
            },
{
    let pivot = take_pivot(points, s);
    let ghost arranged = points@;
    let (front, rest) = points.split_at_mut(1);
    proof {
        assert forall|m: Model<T>| #[trigger] s.answer_by(m) implies totally_ordered(
            rest@,
            pivot,
            m,
        ) by {
            let before = old(points)@;
            let at = pivot_of(before.len(), height_oracle_of(before, m));
            crate::pivot::lemma_pivot_is_in_range(before.len(), height_oracle_of(before, m));
            let around = around_pivot_of(before, m);
            let from = |i: int|
                if i + 1 == at {
                    0
                } else if i + 1 < at {
                    i + 1
                } else {
                    i
                };
            assert forall|i: int| 0 <= i < rest@.len() implies 0 <= #[trigger] from(i)
                < around.len() && rest@[i] == around[from(i)] by {
                assert(rest@[i] == arranged[i + 1]);
            }
            lemma_total_order_of_some(around, rest@, from, pivot, m);
        }
        assert(sortable(rest@, pivot, *s));
    }
    let ghost unsorted = rest@;
    let ghost first = front@;
    sort_by_angle(rest, &pivot, s);
    let ghost sorted = rest@;
    proof {
        lemma_multiset_commutative(first, sorted);
        lemma_multiset_commutative(first, unsorted);
        assert(arranged == first + unsorted);
    }
    assert(points@ == first + sorted);
    let len: usize = scan_arranged(points, indices_on_hull, s);
    proof {
        assert(points@.subrange(1, points@.len() as int) == sorted);
        assert(points@[0] == pivot);
        assert forall|m: Model<T>| #[trigger] s.answer_by(m) implies points@[0] == pivot_point_of(
            old(points)@,
            m,
        ) by {
            crate::pivot::lemma_pivot_is_in_range(
                old(points)@.len(),
                height_oracle_of(old(points)@, m),
            );
        }
    }
    len
}

/// The vertex before `head` on a polygon of `len` vertices.
pub open spec fn tail_of(head: usize, len: nat) -> int {
    if head == 0 {
        len - 1
    } else {
        head - 1
    }
}

/// The vertex before `head` on `polygon`.
fn tail<T: Copy>(polygon: &[Vector2<T>], head: usize) -> (old: Vector2<T>)
    requires
        head < polygon@.len(),
    ensures
        old == polygon@[tail_of(head, polygon@.len())],
{
    if head == 0 {
        polygon[polygon.len() - 1]
    } else {
        polygon[head - 1]
    }
}

/// Where the line of the edge of `convex_p` with head `p` meets the line
/// of the edge of `convex_q` with head `q`. Parallel edges divide by zero.
pub open spec fn crossing_of<T: Copy>(
    convex_p: Seq<Vector2<T>>,
    convex_q: Seq<Vector2<T>>,
    p: usize,
    q: usize,
    m: Model<T>,
) -> Vector2<T> {
    let old_p = convex_p[tail_of(p, convex_p.len())];
    let old_q = convex_q[tail_of(q, convex_q.len())];
    let dp = convex_p[p as int].minus_of(old_p, m);
    let dq = convex_q[q as int].minus_of(old_q, m);
    let dold = old_q.minus_of(old_p, m);
    let t = m.div(dq.wedge_of(dold, m).xy, dq.wedge_of(dp, m).xy);
    old_p.plus_of(dp.scaled_of(t, m), m)
}

/// How the edge of `convex_p` with head `p` and the edge of `convex_q`
/// with head `q` lie to each other.
pub open spec fn edge_test_of<T: Copy>(
    convex_p: Seq<Vector2<T>>,
    convex_q: Seq<Vector2<T>>,
    p: usize,
    q: usize,
    m: Model<T>,
) -> EdgeTest {
    let old_p = convex_p[tail_of(p, convex_p.len())];
    let old_q = convex_q[tail_of(q, convex_q.len())];
    let dp = convex_p[p as int].minus_of(old_p, m);
    let dq = convex_q[q as int].minus_of(old_q, m);
    let old_q_to_p = convex_p[p as int].minus_of(old_q, m);
    let dq_dp = dq.wedge_of(dp, m).xy;
    let dold = old_q.minus_of(old_p, m);
    let t = m.div(dq.wedge_of(dold, m).xy, dq_dp);
    let s = m.div(dp.wedge_of(dold, m).xy, dq_dp);
    let old_p_to_q = convex_q[q as int].minus_of(old_p, m);
    EdgeTest {
        crossing: m.at_most(m.zero, t) && m.at_most(t, m.one) && m.at_most(m.zero, s) && m.at_most(
            s,
            m.one,
        ),
        p_in_dq_side: m.less(m.zero, dq.wedge_of(old_q_to_p, m).xy),
        q_in_dp_side: m.less(m.zero, dp.wedge_of(old_p_to_q, m).xy),
        dq_dp_ccw: m.less(m.zero, dq_dp),
    }
}

/// Whether two points are the same in both coordinates.
pub open spec fn same_point_of<T: Copy>(a: Vector2<T>, b: Vector2<T>, m: Model<T>) -> bool {
    m.equal(a.x, b.x) && m.equal(a.y, b.y)
}

/// The point that the vertex `v` of an intersection stands for.
pub open spec fn located_of<T: Copy>(
    convex_p: Seq<Vector2<T>>,
    convex_q: Seq<Vector2<T>>,
    v: Vertex,
    m: Model<T>,
) -> Vector2<T> {
    match v {
        Vertex::Crossing { p, q } => crossing_of(convex_p, convex_q, p, q, m),
        Vertex::OfP(p) => convex_p[p as int],
        Vertex::OfQ(q) => convex_q[q as int],
    }
}

/// The edge oracle of two polygons of points.
pub open spec fn edge_oracle_of<T: Copy>(
    convex_p: Seq<Vector2<T>>,
    convex_q: Seq<Vector2<T>>,
    m: Model<T>,
) -> EdgeOracle {
    |p: usize, q: usize| edge_test_of(convex_p, convex_q, p, q, m)
}

/// The oracle that compares the crossings of two polygons of points.
pub open spec fn coincide_of<T: Copy>(
    convex_p: Seq<Vector2<T>>,
    convex_q: Seq<Vector2<T>>,
    m: Model<T>,
) -> Coincide {
    |p_first: usize, q_first: usize, p: usize, q: usize|
        same_point_of(
            crossing_of(convex_p, convex_q, p_first, q_first, m),
            crossing_of(convex_p, convex_q, p, q, m),
            m,
        )
}

/// The vertices of the intersection of two polygons of points.
pub open spec fn vertices_of<T: Copy>(
    convex_p: Seq<Vector2<T>>,
    convex_q: Seq<Vector2<T>>,
    m: Model<T>,
) -> Seq<Vertex> {
    intersection_of(
        convex_p.len() as usize,
        convex_q.len() as usize,
        edge_oracle_of(convex_p, convex_q, m),
        coincide_of(convex_p, convex_q, m),
    )
}

/// The intersection of two polygons of points, as points.
pub open spec fn convex_intersect_of<T: Copy>(
    convex_p: Seq<Vector2<T>>,
    convex_q: Seq<Vector2<T>>,
    m: Model<T>,
) -> Seq<Vector2<T>> {
    vertices_of(convex_p, convex_q, m).map_values(
        |v: Vertex| located_of(convex_p, convex_q, v, m),
    )
}

/// Where the line of the edge of `convex_p` with head `p` meets the line
/// of the edge of `convex_q` with head `q`.
pub fn crossing<T: Copy, A, U, C>(
    convex_p: &[Vector2<T>],
    convex_q: &[Vector2<T>],
    p: usize,
    q: usize,
    s: &Scalars<T, A, U, C>,
) -> (r: Vector2<T>) where A: Fn(Op, T, T) -> T, U: Fn(Fun, T) -> T, C: Fn(Rel, T, T) -> bool
    requires
        s.askable(),
        p < convex_p@.len(),
        q < convex_q@.len(),
    ensures
        forall|m: Model<T>| #[trigger]
            s.answer_by(m) ==> r == crossing_of(convex_p@, convex_q@, p, q, m),
{
    let old_p = tail(convex_p, p);
    let old_q = tail(convex_q, q);
    let dp = convex_p[p].minus(old_p, s);
    let dq = convex_q[q].minus(old_q, s);
    let dold = old_q.minus(old_p, s);
    let t = s.quotient(dq.wedge(dold, s).xy, dq.wedge(dp, s).xy);
    old_p.plus(dp.scaled(t, s), s)
}

/// How the edge of `convex_p` with head `p` and the edge of `convex_q`
/// with head `q` lie to each other: the answer of the walk's edge oracle.
pub fn edge_test<T: Copy, A, U, C>(
    convex_p: &[Vector2<T>],
    convex_q: &[Vector2<T>],
    p: usize,
    q: usize,
    s: &Scalars<T, A, U, C>,
) -> (test: EdgeTest) where A: Fn(Op, T, T) -> T, U: Fn(Fun, T) -> T, C: Fn(Rel, T, T) -> bool
    requires
        s.askable(),
        p < convex_p@.len(),
        q < convex_q@.len(),
    ensures
        forall|m: Model<T>| #[trigger]
            s.answer_by(m) ==> test == edge_test_of(convex_p@, convex_q@, p, q, m),
{
    let old_p = tail(convex_p, p);
    let old_q = tail(convex_q, q);
    let dp = convex_p[p].minus(old_p, s);
    let dq = convex_q[q].minus(old_q, s);

    let old_q_to_p = convex_p[p].minus(old_q, s);
    let dq_dp = dq.wedge(dp, s).xy;
    let p_in_dq_side = s.is_less(s.zero, dq.wedge(old_q_to_p, s).xy);

    let dold = old_q.minus(old_p, s);
    let t = s.quotient(dq.wedge(dold, s).xy, dq_dp);
    let u = s.quotient(dp.wedge(dold, s).xy, dq_dp);
    let crossing = s.is_at_most(s.zero, t) && s.is_at_most(t, s.one) && s.is_at_most(s.zero, u)
        && s.is_at_most(u, s.one);

    let old_p_to_q = convex_q[q].minus(old_p, s);
    let q_in_dp_side = s.is_less(s.zero, dp.wedge(old_p_to_q, s).xy);
    let dq_dp_ccw = s.is_less(s.zero, dq_dp);
    EdgeTest { crossing, p_in_dq_side, q_in_dp_side, dq_dp_ccw }
}

/// Whether two points are the same in both coordinates.
pub fn same_point<T: Copy, A, U, C>(a: Vector2<T>, b: Vector2<T>, s: &Scalars<T, A, U, C>) -> (same:
    bool) where A: Fn(Op, T, T) -> T, U: Fn(Fun, T) -> T, C: Fn(Rel, T, T) -> bool
    requires
        s.askable(),
    ensures
        forall|m: Model<T>| #[trigger] s.answer_by(m) ==> same == same_point_of(a, b, m),
{
    s.is_equal(a.x, b.x) && s.is_equal(a.y, b.y)
}

/// The point that the vertex `v` of an intersection stands for.
pub fn locate<T: Copy, A, U, C>(
    convex_p: &[Vector2<T>],
    convex_q: &[Vector2<T>],
    v: Vertex,
    s: &Scalars<T, A, U, C>,
) -> (point: Vector2<T>) where A: Fn(Op, T, T) -> T, U: Fn(Fun, T) -> T, C: Fn(Rel, T, T) -> bool
    requires
        s.askable(),
        in_range(v, convex_p@.len() as usize, convex_q@.len() as usize),
    ensures
        forall|m: Model<T>| #[trigger]
            s.answer_by(m) ==> point == located_of(convex_p@, convex_q@, v, m),
{
    match v {
        Vertex::Crossing { p, q } => crossing(convex_p, convex_q, p, q, s),
        Vertex::OfP(p) => convex_p[p],
        Vertex::OfQ(q) => convex_q[q],
    }
}

/// The intersection of two convex polygons, itself a convex polygon, by
/// O'Rourke's walk along the edges of both.
pub fn convex_intersect_alloc<T: Copy, A, U, C>(
    convex_p: &[Vector2<T>],
    convex_q: &[Vector2<T>],
    s: &Scalars<T, A, U, C>,
) -> (convex_r: Vec<Vector2<T>>) where
    A: Fn(Op, T, T) -> T,
    U: Fn(Fun, T) -> T,
    C: Fn(Rel, T, T) -> bool,

    requires
        s.askable(),
        convex_p@.len() >= 2,
        convex_q@.len() >= 2,
        2 * (convex_p@.len() + convex_q@.len()) <= usize::MAX,
    ensures
        convex_r@.len() <= 4 * (convex_p@.len() + convex_q@.len()),
        forall|m: Model<T>| #[trigger]
            s.answer_by(m) ==> convex_r@ == convex_intersect_of(convex_p@, convex_q@, m),
{
    let p_len: usize = convex_p.len();
    let q_len: usize = convex_q.len();
    let ask_edges = |p: usize, q: usize| -> (test: EdgeTest)
        requires
            p < p_len,
            q < q_len,
        ensures
            forall|m: Model<T>| #[trigger]
                s.answer_by(m) ==> test == edge_test_of(convex_p@, convex_q@, p, q, m),
        { edge_test(convex_p, convex_q, p, q, s) };
    let ask_same = |p_first: usize, q_first: usize, p: usize, q: usize| -> (same: bool)
        requires
            p_first < p_len,
            q_first < q_len,
            p < p_len,
            q < q_len,
        ensures
            forall|m: Model<T>| #[trigger]
                s.answer_by(m) ==> same == same_point_of(
                    crossing_of(convex_p@, convex_q@, p_first, q_first, m),
                    crossing_of(convex_p@, convex_q@, p, q, m),
                    m,
                ),
        {
            same_point(
                crossing(convex_p, convex_q, p_first, q_first, s),
                crossing(convex_p, convex_q, p, q, s),
                s,
            )
        };
    assert(askable(ask_edges, ask_same, p_len, q_len));
    let vertices = walk_alloc(p_len, q_len, ask_edges, ask_same);
    proof {
        assert forall|m: Model<T>| #[trigger] s.answer_by(m) implies vertices@ == vertices_of(
            convex_p@,
            convex_q@,
            m,
        ) by {
            assert(answer_by(
                ask_edges,
                ask_same,
                edge_oracle_of(convex_p@, convex_q@, m),
                coincide_of(convex_p@, convex_q@, m),
                p_len,
                q_len,
            ));
        }
    }
    let mut convex_r: Vec<Vector2<T>> = Vec::new();
    let mut k: usize = 0;
    while k < vertices.len()
        invariant
            s.askable(),
            p_len == convex_p@.len(),
            q_len == convex_q@.len(),
            k <= vertices@.len(),
            all_in_range(vertices@, p_len, q_len),
            convex_r@.len() == k,
            forall|m: Model<T>| #[trigger]
                s.answer_by(m) ==> forall|j: int|
                    0 <= j < k ==> convex_r@[j] == located_of(
                        convex_p@,
                        convex_q@,
                        vertices@[j],
                        m,
                    ),
        decreases vertices@.len() - k,
    {
        convex_r.push(locate(convex_p, convex_q, vertices[k], s));
        k += 1;
    }
    proof {
        assert forall|m: Model<T>| #[trigger] s.answer_by(m) implies convex_r@
            == convex_intersect_of(convex_p@, convex_q@, m) by {
            let located = convex_intersect_of(convex_p@, convex_q@, m);
            assert(convex_r@.len() == located.len());
            assert forall|j: int| 0 <= j < convex_r@.len() implies convex_r@[j] == located[j] by {}
        }
    }
    convex_r
}

/// Writes the intersection of two convex polygons to the front of
/// `convex_r` and returns its size, or `None` as soon as a point does not
/// fit; `convex_r` is then full of the points that come first. Nothing is
/// allocated.
pub fn convex_intersect_no_alloc<T: Copy, A, U, C>(
    convex_p: &[Vector2<T>],
    convex_q: &[Vector2<T>],
    convex_r: &mut [Vector2<T>],
    s: &Scalars<T, A, U, C>,
) -> (written: Option<usize>) where
    A: Fn(Op, T, T) -> T,
    U: Fn(Fun, T) -> T,
    C: Fn(Rel, T, T) -> bool,

    requires
        s.askable(),
        convex_p@.len() >= 2,
        convex_q@.len() >= 2,
        2 * (convex_p@.len() + convex_q@.len()) <= usize::MAX,
    ensures
        final(convex_r)@.len() == old(convex_r)@.len(),
        old(convex_r)@.len() >= 4 * (convex_p@.len() + convex_q@.len()) ==> written is Some,
        written matches Some(len) ==> {
            &&& len <= old(convex_r)@.len()
            &&& forall|k: int|
                len <= k < old(convex_r)@.len() ==> final(convex_r)@[k] == old(convex_r)@[k]
        },
        forall|m: Model<T>| #[trigger]
            s.answer_by(m) ==> match written {
                Some(len) => final(convex_r)@.take(len as int) == convex_intersect_of(
                    convex_p@,
                    convex_q@,
                    m,
                ),
                None => {
                    &&& convex_intersect_of(convex_p@, convex_q@, m).len() > old(convex_r)@.len()
                    &&& convex_intersect_of(convex_p@, convex_q@, m).take(
                        old(convex_r)@.len() as int,
                    ) == final(convex_r)@
                },
            },
{
    let p_len: usize = convex_p.len();
    let q_len: usize = convex_q.len();
    let ask_edges = |p: usize, q: usize| -> (test: EdgeTest)
        requires
            p < p_len,
            q < q_len,
        ensures
            forall|m: Model<T>| #[trigger]
                s.answer_by(m) ==> test == edge_test_of(convex_p@, convex_q@, p, q, m),
        { edge_test(convex_p, convex_q, p, q, s) };
    let ask_same = |p_first: usize, q_first: usize, p: usize, q: usize| -> (same: bool)
        requires
            p_first < p_len,
            q_first < q_len,
            p < p_len,
            q < q_len,
        ensures
            forall|m: Model<T>| #[trigger]
                s.answer_by(m) ==> same == same_point_of(
                    crossing_of(convex_p@, convex_q@, p_first, q_first, m),
                    crossing_of(convex_p@, convex_q@, p, q, m),
                    m,
                ),
        {
            same_point(
                crossing(convex_p, convex_q, p_first, q_first, s),
                crossing(convex_p, convex_q, p, q, s),
                s,
            )
        };
    let place = |v: Vertex| -> (point: Vector2<T>)
        requires
            in_range(v, p_len, q_len),
        ensures
            forall|m: Model<T>| #[trigger]
                s.answer_by(m) ==> point == located_of(convex_p@, convex_q@, v, m),
        { locate(convex_p, convex_q, v, s) };
    assert(askable(ask_edges, ask_same, p_len, q_len));
    assert(locatable(place, p_len, q_len));
    let written = walk_no_alloc(p_len, q_len, ask_edges, ask_same, place, convex_r);
    proof {
        assert forall|m: Model<T>| #[trigger] s.answer_by(m) implies match written {
            Some(len) => convex_r@.take(len as int) == convex_intersect_of(
                convex_p@,
                convex_q@,
                m,
            ),
            None => {
                &&& convex_intersect_of(convex_p@, convex_q@, m).len() > old(convex_r)@.len()
                &&& convex_intersect_of(convex_p@, convex_q@, m).take(
                    old(convex_r)@.len() as int,
                ) == convex_r@
            },
        } by {
            let places = |v: Vertex| located_of(convex_p@, convex_q@, v, m);
            assert(answer_by(
                ask_edges,
                ask_same,
                edge_oracle_of(convex_p@, convex_q@, m),
                coincide_of(convex_p@, convex_q@, m),
                p_len,
                q_len,
            ));
            assert(locates_by(place, places, p_len, q_len));
            let vertices = vertices_of(convex_p@, convex_q@, m);
            if written is None {
                assert(vertices.take(old(convex_r)@.len() as int).map_values(places)
                    == vertices.map_values(places).take(old(convex_r)@.len() as int));
            }
        }
    }
    written
}

} // verus!
