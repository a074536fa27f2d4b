//! Why the scan of `hull` yields the convex hull: where the orientation
//! oracle behaves as the orientation of points in general position does and
//! the positions follow each other by angle around the pivot, every point
//! lies to the left of every edge of the hull.
//!
//! The orientation of points is taken by its laws alone, those of a
//! counterclockwise system: `left` is cyclic, antisymmetric, decided for any
//! three points, and transitive around a point within a half plane. That
//! points with exact coordinates obey them is shown in `plane`.

use vstd::prelude::*;
use crate::hull::{
    hull_of, lemma_hull_of_three, lemma_hull_shape, lemma_left_out_turns_right, lemma_settle,
    lemma_settle_keeps_base, lemma_settle_popped, settle, turns_left, Orientation,
};

verus! {

/// `p`, `q` and `r` are three different positions below `count`.
pub open spec fn three_of(count: nat, p: int, q: int, r: int) -> bool {
    &&& 0 <= p < count && 0 <= q < count && 0 <= r < count
    &&& p != q && q != r && p != r
}

/// `t`, `s`, `p`, `q` and `r` are five different positions below `count`.
pub open spec fn five_of(count: nat, t: int, s: int, p: int, q: int, r: int) -> bool {
    &&& three_of(count, t, s, p) && three_of(count, t, q, r) && three_of(count, s, q, r)
    &&& p != q && p != r
}

/// A left turn stays one when its points are rotated.
pub open spec fn cyclic_at(left: Orientation, p: int, q: int, r: int) -> bool {
    left(p, q, r) ==> left(q, r, p)
}

/// A left turn is none when two of its points are swapped.
pub open spec fn antisymmetric_at(left: Orientation, p: int, q: int, r: int) -> bool {
    left(p, q, r) ==> !left(p, r, q)
}

/// Three points turn left one way round or the other: no three are on a line.
pub open spec fn decided_at(left: Orientation, p: int, q: int, r: int) -> bool {
    left(p, q, r) || left(p, r, q)
}

/// Seen from `t`, with `p`, `q` and `r` to the left of the line from `t`
/// to `s`: if `q` is left of `p` and `r` left of `q`, then `r` is left of
/// `p`.
pub open spec fn transitive_at(left: Orientation, t: int, s: int, p: int, q: int, r: int) -> bool {
    left(t, s, p) && left(t, s, q) && left(t, s, r) && left(t, p, q) && left(t, q, r) ==> left(
        t,
        p,
        r,
    )
}

/// Seen from `t`, with `p`, `q` and `r` to the left of the line from `s`
/// to `t`: if `q` is left of `p` and `r` left of `q`, then `r` is left of
/// `p`.
pub open spec fn dual_transitive_at(
    left: Orientation,
    t: int,
    s: int,
    p: int,
    q: int,
    r: int,
) -> bool {
    left(s, t, p) && left(s, t, q) && left(s, t, r) && left(t, p, q) && left(t, q, r) ==> left(
        t,
        p,
        r,
    )
}

/// `left` obeys the laws of the orientation of `count` points in general
/// position.
pub open spec fn counterclockwise(left: Orientation, count: nat) -> bool {
    &&& forall|p: int, q: int, r: int|
        three_of(count, p, q, r) ==> #[trigger] cyclic_at(left, p, q, r)
    &&& forall|p: int, q: int, r: int|
        three_of(count, p, q, r) ==> #[trigger] antisymmetric_at(left, p, q, r)
    &&& forall|p: int, q: int, r: int|
        three_of(count, p, q, r) ==> #[trigger] decided_at(left, p, q, r)
    &&& forall|t: int, s: int, p: int, q: int, r: int|
        five_of(count, t, s, p, q, r) ==> #[trigger] transitive_at(left, t, s, p, q, r)
    &&& forall|t: int, s: int, p: int, q: int, r: int|
        five_of(count, t, s, p, q, r) ==> #[trigger] dual_transitive_at(left, t, s, p, q, r)
}

/// The positions after the pivot follow each other counter-clockwise
/// around it, and the pivot is extreme: seen from it, each later position
/// is to the left of each earlier one.
pub open spec fn sorted_around_pivot(left: Orientation, count: nat) -> bool {
    forall|i: int, j: int| 0 < i < j < count ==> #[trigger] turns_left(left, 0, i, j)
}

/// `p` lies to the left of the edge of `hull` that starts at entry `k`.
pub open spec fn left_of_edge(left: Orientation, hull: Seq<int>, k: int, p: int) -> bool {
    left(hull[k], hull[k + 1], p)
}

/// Every position below `scanned` lies to the left of every edge between
/// two successive entries of `hull`, but for the ends of that edge.
pub open spec fn chain_encloses(left: Orientation, hull: Seq<int>, scanned: int) -> bool {
    forall|k: int, p: int|
        0 <= k && k + 1 < hull.len() && 0 <= p < scanned && p != hull[k] && p != hull[k + 1]
            ==> #[trigger] left_of_edge(left, hull, k, p)
}

/// A left turn seen from each of its three points.
proof fn rotate(left: Orientation, count: nat, p: int, q: int, r: int)
    requires
        counterclockwise(left, count),
        three_of(count, p, q, r),
        left(p, q, r),
    ensures
        left(q, r, p),
        left(r, p, q),
{
    assert(cyclic_at(left, p, q, r));
    assert(cyclic_at(left, q, r, p));
}

/// The left turn that the pivot makes with two later positions.
proof fn sorted(left: Orientation, count: nat, i: int, j: int)
    requires
        counterclockwise(left, count),
        sorted_around_pivot(left, count),
        0 < i < j < count,
    ensures
        left(0, i, j),
        left(i, j, 0),
        left(j, 0, i),
{
    assert(turns_left(left, 0, i, j));
    rotate(left, count, 0, i, j);
}

/// The position that is scanned lies to the left of every edge that
/// `settle` keeps.
proof fn lemma_kept_edges_see_next(count: nat, left: Orientation, k: int)
    requires
        count >= 3,
        counterclockwise(left, count),
        sorted_around_pivot(left, count),
        chain_encloses(left, hull_of((count - 1) as nat, left), count - 1),
        0 <= k,
        k + 1 < settle(hull_of((count - 1) as nat, left), count - 1, left).len(),
    ensures
        left(
            settle(hull_of((count - 1) as nat, left), count - 1, left)[k],
            settle(hull_of((count - 1) as nat, left), count - 1, left)[k + 1],
            count - 1,
        ),
    decreases settle(hull_of((count - 1) as nat, left), count - 1, left).len() - k,
{
    let i = count - 1;
    let before = hull_of(i as nat, left);
    let kept = settle(before, i, left);
    lemma_settle(before, i, left);
    lemma_hull_shape(i as nat, left);
    assert(kept[k] == before[k] && kept[k + 1] == before[k + 1]);
    if k + 2 < kept.len() {
        lemma_kept_edges_see_next(count, left, k + 1);
        assert(kept[k + 2] == before[k + 2]);
        let below = before[k];
        let t = before[k + 1];
        let s = before[k + 2];
        assert(below < t < s < i);
        if below == 0 {
            sorted(left, count, t, i);
        } else {
            assert(left_of_edge(left, before, k + 1, 0));
            assert(left_of_edge(left, before, k + 1, below));
            sorted(left, count, t, i);
            sorted(left, count, below, t);
            assert(transitive_at(left, t, s, i, 0, below));
            rotate(left, count, t, i, below);
        }
    }
}

/// Every earlier position lies to the left of the edge from the top that
/// `settle` keeps to the position that is scanned.
proof fn lemma_new_edge_sees_all(count: nat, left: Orientation, p: int)
    requires
        count >= 3,
        counterclockwise(left, count),
        sorted_around_pivot(left, count),
        chain_encloses(left, hull_of((count - 1) as nat, left), count - 1),
        0 <= p < count - 1,
        p != settle(hull_of((count - 1) as nat, left), count - 1, left).last(),
    ensures
        settle(hull_of((count - 1) as nat, left), count - 1, left).len() >= 2,
        left(settle(hull_of((count - 1) as nat, left), count - 1, left).last(), count - 1, p),
{
    let i = count - 1;
    let before = hull_of(i as nat, left);
    let kept = settle(before, i, left);
    lemma_hull_shape(i as nat, left);
    assert(0 < before[1] < i);
    sorted(left, count, before[1], i);
    lemma_settle_keeps_base(before, i, left);
    lemma_settle(before, i, left);
    let u = kept.len() - 1;
    let top = kept[u];
    let under = kept[u - 1];
    assert(top == before[u] && under == before[u - 1]);
    assert(under < top);
    sorted(left, count, top, i);
    if p == 0 {
    } else if p < top {
        if p == under {
            rotate(left, count, under, top, i);
        } else if under == 0 {
            assert(left_of_edge(left, before, u - 1, p));
            sorted(left, count, p, top);
            assert(antisymmetric_at(left, 0, p, top));
        } else {
            assert(left_of_edge(left, before, u - 1, 0));
            assert(left_of_edge(left, before, u - 1, p));
            sorted(left, count, p, top);
            assert(dual_transitive_at(left, top, under, i, 0, p));
        }
    } else {
        assert(u + 1 < before.len()) by {
            if u + 1 == before.len() {
                assert(top == i - 1);
            }
        }
        let popped = before[u + 1];
        assert(top < popped < i);
        lemma_settle_popped(before, i, left, u + 1);
        assert(decided_at(left, top, popped, i));
        sorted(left, count, top, popped);
        if p != popped {
            assert(left_of_edge(left, before, u, p));
            sorted(left, count, top, p);
            assert(dual_transitive_at(left, top, 0, i, popped, p));
        }
    }
}

/// After any number of positions, each of them lies to the left of every
/// edge between two successive entries of the hull.
pub proof fn lemma_chain_encloses(count: nat, left: Orientation)
    requires
        counterclockwise(left, count),
        sorted_around_pivot(left, count),
    ensures
        chain_encloses(left, hull_of(count, left), count as int),
    decreases count,
{
    let hull = hull_of(count, left);
    lemma_hull_shape(count, left);
    if count >= 3 {
        let i = count - 1;
        let before = hull_of(i as nat, left);
        let kept = settle(before, i, left);
        assert(counterclockwise(left, i as nat));
        assert(sorted_around_pivot(left, i as nat)) by {
            assert forall|a: int, b: int| 0 < a < b < i implies #[trigger] turns_left(
                left,
                0,
                a,
                b,
            ) by {
                assert(turns_left(left, 0, a, b));
            }
        }
        lemma_chain_encloses(i as nat, left);
        lemma_settle(before, i, left);
        lemma_hull_shape(i as nat, left);
        assert(hull == kept.push(i));
        assert forall|k: int, p: int|
            0 <= k && k + 1 < hull.len() && 0 <= p < count && p != hull[k] && p != hull[k
                + 1] implies #[trigger] left_of_edge(left, hull, k, p) by {
            if k + 1 < kept.len() {
                assert(hull[k] == before[k] && hull[k + 1] == before[k + 1]);
                if p == i {
                    lemma_kept_edges_see_next(count, left, k);
                } else {
                    assert(left_of_edge(left, before, k, p));
                }
            } else {
                assert(hull[k] == kept.last() && hull[k + 1] == i);
                lemma_new_edge_sees_all(count, left, p);
            }
        }
    } else if count == 2 {
        assert(hull.len() == 2);
    }
}

/// The entry of `hull` at which the edge from entry `k` ends: the next
/// entry, and the first one after the last.
pub open spec fn edge_end(hull: Seq<int>, k: int) -> int {
    if k + 1 < hull.len() {
        hull[k + 1]
    } else {
        hull[0]
    }
}

/// `d` lies strictly inside the triangle of `a`, `b` and `c`: to the left
/// of each of its edges.
pub open spec fn inside_triangle(left: Orientation, a: int, b: int, c: int, d: int) -> bool {
    left(a, b, d) && left(b, c, d) && left(c, a, d)
}

/// The hull is convex and holds every point: each position lies to the
/// left of every edge of the hull, the edge from its last entry back to the
/// pivot too, but for the two ends of the edge.
pub proof fn lemma_hull_encloses(count: nat, left: Orientation, k: int, p: int)
    requires
        counterclockwise(left, count),
        sorted_around_pivot(left, count),
        count >= 3,
        0 <= k < hull_of(count, left).len(),
        0 <= p < count,
        p != hull_of(count, left)[k],
        p != edge_end(hull_of(count, left), k),
    ensures
        left(hull_of(count, left)[k], edge_end(hull_of(count, left), k), p),
{
    let hull = hull_of(count, left);
    lemma_hull_shape(count, left);
    if k + 1 < hull.len() {
        lemma_chain_encloses(count, left);
        assert(left_of_edge(left, hull, k, p));
    } else {
        sorted(left, count, p, count - 1);
    }
}

/// A position that lies strictly inside a triangle of three others is not
/// on the hull.
pub proof fn lemma_interior_is_left_out(
    count: nat,
    left: Orientation,
    a: int,
    b: int,
    c: int,
    d: int,
)
    requires
        counterclockwise(left, count),
        sorted_around_pivot(left, count),
        three_of(count, a, b, c),
        0 <= d < count,
        d != a && d != b && d != c,
        inside_triangle(left, a, b, c, d),
    ensures
        !hull_of(count, left).contains(d),
{
    let hull = hull_of(count, left);
    if hull.contains(d) {
        let k = choose|k: int| 0 <= k < hull.len() && hull[k] == d;
        lemma_hull_shape(count, left);
        assert forall|later: int| 1 < later < count implies #[trigger] turns_left(
            left,
            0,
            1,
            later,
        ) by {
            sorted(left, count, 1, later);
        }
        lemma_hull_of_three(count, left);
        let y = edge_end(hull, k);
        assert(y != d);
        rotate(left, count, a, b, d);
        rotate(left, count, b, c, d);
        rotate(left, count, c, a, d);
        if y == a {
            lemma_hull_encloses(count, left, k, c);
            assert(antisymmetric_at(left, d, c, a));
        } else if y == b {
            lemma_hull_encloses(count, left, k, a);
            assert(antisymmetric_at(left, d, a, b));
        } else if y == c {
            lemma_hull_encloses(count, left, k, b);
            assert(antisymmetric_at(left, d, b, c));
        } else {
            lemma_hull_encloses(count, left, k, a);
            lemma_hull_encloses(count, left, k, b);
            lemma_hull_encloses(count, left, k, c);
            assert(transitive_at(left, d, y, a, b, c));
            assert(antisymmetric_at(left, d, c, a));
        }
    }
}

/// A position that the hull leaves out lies strictly inside a triangle of
/// the pivot, an earlier and a later position.
pub proof fn lemma_left_out_is_interior(count: nat, left: Orientation, d: int)
    requires
        counterclockwise(left, count),
        sorted_around_pivot(left, count),
        0 <= d < count,
        !hull_of(count, left).contains(d),
    ensures
        exists|a: int, c: int|
            0 < a < d < c < count && #[trigger] inside_triangle(left, 0, a, c, d),
{
    lemma_left_out_turns_right(count, left, d);
    let (a, c) = choose|a: int, c: int|
        0 <= a < d < c < count && !#[trigger] turns_left(left, a, d, c);
    sorted(left, count, d, c);
    if a == 0 {
        assert(turns_left(left, 0, d, c));
    } else {
        sorted(left, count, a, d);
        assert(decided_at(left, a, d, c));
        assert(inside_triangle(left, 0, a, c, d));
    }
}

} // verus!
