//! Points of the plane with exact coordinates, and the proof that their
//! orientation obeys the laws on which the hull's enclosure rests.
//!
//! This is the geometry behind the oracles: an oracle that computes the
//! sign of the wedge product without rounding answers by
//! `orientation_of`.

use vstd::prelude::*;
use crate::enclosure::{
    antisymmetric_at, counterclockwise, cyclic_at, decided_at, dual_transitive_at, edge_end,
    five_of, lemma_hull_encloses, lemma_interior_is_left_out, sorted_around_pivot, three_of,
    transitive_at,
};
use crate::hull::{hull_of, turns_left, Orientation};
use crate::math::Vector2;
use crate::polygon::{
    angle_order_of, around_pivot_of, height_oracle_of, left_turn_of, lower_of,
    orientation_oracle_of, pivot_point_of,
};
use crate::sort::{ascending, totally_ordered};
use crate::scalar::{is_exact, Model};
use crate::pivot::{lemma_pivot_is_first_lowest, lies_lower, orders_by_height, pivot_of, Height};

verus! {

/// A point of the plane with whole coordinates.
pub type Point = Vector2<int>;

/// The wedge product of the vectors from `o` to `a` and from `o` to `b`:
/// twice the signed area of the triangle, positive where `o`, `a`, `b` turn
/// left.
pub open spec fn wedge(o: Point, a: Point, b: Point) -> int {
    (a.x - o.x) * (b.y - o.y) - (a.y - o.y) * (b.x - o.x)
}

/// The orientation of `points`: whether three of them turn left.
pub open spec fn orientation_of(points: Seq<Point>) -> Orientation {
    |a: int, b: int, c: int| wedge(points[a], points[b], points[c]) > 0
}

/// No three of `points` lie on a line.
pub open spec fn in_general_position(points: Seq<Point>) -> bool {
    forall|a: int, b: int, c: int|
        three_of(points.len(), a, b, c) ==> #[trigger] wedge(points[a], points[b], points[c]) != 0
}

/// `points` start with their pivot and go on counter-clockwise around it:
/// seen from the first point, each later point is to the left of each
/// earlier one.
pub open spec fn sorted_by_angle(points: Seq<Point>) -> bool {
    forall|i: int, j: int|
        0 < i < j < points.len() ==> #[trigger] wedge(points[0], points[i], points[j]) > 0
}

/// The wedge product stays as it is when its points are rotated, and
/// changes its sign when two of them are swapped.
pub proof fn lemma_wedge_symmetry(p: Point, q: Point, r: Point)
    ensures
        wedge(q, r, p) == wedge(p, q, r),
        wedge(p, r, q) == -wedge(p, q, r),
{
    assert(wedge(q, r, p) == wedge(p, q, r)) by (nonlinear_arith)
        requires
            wedge(q, r, p) == (r.x - q.x) * (p.y - q.y) - (r.y - q.y) * (p.x - q.x),
            wedge(p, q, r) == (q.x - p.x) * (r.y - p.y) - (q.y - p.y) * (r.x - p.x),
    ;
    assert(wedge(p, r, q) == -wedge(p, q, r)) by (nonlinear_arith)
        requires
            wedge(p, r, q) == (r.x - p.x) * (q.y - p.y) - (r.y - p.y) * (q.x - p.x),
            wedge(p, q, r) == (q.x - p.x) * (r.y - p.y) - (q.y - p.y) * (r.x - p.x),
    ;
}

/// A product of four factors does not depend on how they are paired.
proof fn lemma_pairing(a: int, b: int, c: int, d: int)
    ensures
        (a * b) * (c * d) == (a * d) * (b * c),
        (a * b) * (c * d) == (a * d) * (c * b),
        (a * b) * (c * d) == (a * c) * (b * d),
{
    assert((a * b) * (c * d) == (a * d) * (b * c)) by (nonlinear_arith);
    assert((a * b) * (c * d) == (a * d) * (c * b)) by (nonlinear_arith);
    assert((a * b) * (c * d) == (a * c) * (b * d)) by (nonlinear_arith);
}

/// The product of two differences, multiplied out.
proof fn lemma_product_of_differences(a: int, b: int, c: int, d: int)
    ensures
        (a - b) * (c - d) == a * c - a * d - b * c + b * d,
{
    assert((a - b) * (c - d) == a * c - a * d - b * c + b * d) by (nonlinear_arith);
}

/// The relation between the six wedge products of four vectors from one
/// point `t`.
pub proof fn lemma_wedge_relation(t: Point, s: Point, p: Point, q: Point, r: Point)
    ensures
        wedge(t, s, q) * wedge(t, p, r) == wedge(t, s, p) * wedge(t, q, r) + wedge(t, s, r)
            * wedge(t, p, q),
{
    let sx = s.x - t.x;
    let sy = s.y - t.y;
    let px = p.x - t.x;
    let py = p.y - t.y;
    let qx = q.x - t.x;
    let qy = q.y - t.y;
    let rx = r.x - t.x;
    let ry = r.y - t.y;
    lemma_product_of_differences(sx * qy, sy * qx, px * ry, py * rx);
    lemma_product_of_differences(sx * py, sy * px, qx * ry, qy * rx);
    lemma_product_of_differences(sx * ry, sy * rx, px * qy, py * qx);
    lemma_pairing(sx, py, qx, ry);
    lemma_pairing(sy, px, qy, rx);
    lemma_pairing(sx, qy, px, ry);
    lemma_pairing(sx, qy, py, rx);
    lemma_pairing(sy, qx, px, ry);
    lemma_pairing(sy, qx, py, rx);
}

/// A product of two factors of one sign is positive, of two factors of
/// different signs negative.
proof fn lemma_sign_of_product(a: int, b: int)
    ensures
        a > 0 && b > 0 ==> a * b > 0,
        a < 0 && b > 0 ==> a * b < 0,
        a > 0 && b < 0 ==> a * b < 0,
        a < 0 && b < 0 ==> a * b > 0,
        a == 0 || b == 0 ==> a * b == 0,
{
    assert(a > 0 && b > 0 ==> a * b > 0) by (nonlinear_arith);
    assert(a < 0 && b > 0 ==> a * b < 0) by (nonlinear_arith);
    assert(a > 0 && b < 0 ==> a * b < 0) by (nonlinear_arith);
    assert(a < 0 && b < 0 ==> a * b > 0) by (nonlinear_arith);
    assert(a == 0 || b == 0 ==> a * b == 0) by (nonlinear_arith);
}

/// Seen from `t`, with `p`, `q` and `r` all on one side of the line
/// through `t` and `s`: if `q` is left of `p` and `r` left of `q`, then `r`
/// is left of `p`.
pub proof fn lemma_wedge_transitive(t: Point, s: Point, p: Point, q: Point, r: Point)
    requires
        wedge(t, s, p) > 0 && wedge(t, s, q) > 0 && wedge(t, s, r) > 0 || wedge(t, s, p) < 0
            && wedge(t, s, q) < 0 && wedge(t, s, r) < 0,
        wedge(t, p, q) > 0,
        wedge(t, q, r) > 0,
    ensures
        wedge(t, p, r) > 0,
{
    lemma_wedge_relation(t, s, p, q, r);
    lemma_sign_of_product(wedge(t, s, p), wedge(t, q, r));
    lemma_sign_of_product(wedge(t, s, r), wedge(t, p, q));
    lemma_sign_of_product(wedge(t, s, q), wedge(t, p, r));
}

/// The orientation of points in general position obeys the laws of a
/// counterclockwise system.
pub proof fn lemma_points_are_counterclockwise(points: Seq<Point>)
    requires
        in_general_position(points),
    ensures
        counterclockwise(orientation_of(points), points.len()),
{
    let left = orientation_of(points);
    let count = points.len();
    assert forall|p: int, q: int, r: int| three_of(count, p, q, r) implies #[trigger] cyclic_at(
        left,
        p,
        q,
        r,
    ) by {
        lemma_wedge_symmetry(points[p], points[q], points[r]);
    }
    assert forall|p: int, q: int, r: int|
        three_of(count, p, q, r) implies #[trigger] antisymmetric_at(left, p, q, r) by {
        lemma_wedge_symmetry(points[p], points[q], points[r]);
    }
    assert forall|p: int, q: int, r: int| three_of(count, p, q, r) implies #[trigger] decided_at(
        left,
        p,
        q,
        r,
    ) by {
        lemma_wedge_symmetry(points[p], points[q], points[r]);
        assert(wedge(points[p], points[q], points[r]) != 0);
    }
    assert forall|t: int, s: int, p: int, q: int, r: int|
        five_of(count, t, s, p, q, r) implies #[trigger] transitive_at(left, t, s, p, q, r) by {
        if left(t, s, p) && left(t, s, q) && left(t, s, r) && left(t, p, q) && left(t, q, r) {
            lemma_wedge_transitive(points[t], points[s], points[p], points[q], points[r]);
        }
    }
    assert forall|t: int, s: int, p: int, q: int, r: int|
        five_of(count, t, s, p, q, r) implies #[trigger] dual_transitive_at(
        left,
        t,
        s,
        p,
        q,
        r,
    ) by {
        if left(s, t, p) && left(s, t, q) && left(s, t, r) && left(t, p, q) && left(t, q, r) {
            lemma_wedge_symmetry(points[s], points[t], points[p]);
            lemma_wedge_symmetry(points[s], points[t], points[q]);
            lemma_wedge_symmetry(points[s], points[t], points[r]);
            lemma_wedge_symmetry(points[t], points[p], points[s]);
            lemma_wedge_symmetry(points[t], points[q], points[s]);
            lemma_wedge_symmetry(points[t], points[r], points[s]);
            lemma_wedge_transitive(points[t], points[s], points[p], points[q], points[r]);
        }
    }
}

/// The hull of points in general position that are sorted by angle is
/// their convex hull: every point lies strictly to the left of the line
/// through any two successive points of the hull, unless it is one of the
/// two.
pub proof fn lemma_hull_of_points_is_convex_hull(points: Seq<Point>, k: int, p: int)
    requires
        in_general_position(points),
        sorted_by_angle(points),
        points.len() >= 3,
        0 <= k < hull_of(points.len(), orientation_of(points)).len(),
        0 <= p < points.len(),
        p != hull_of(points.len(), orientation_of(points))[k],
        p != edge_end(hull_of(points.len(), orientation_of(points)), k),
    ensures
        wedge(
            points[hull_of(points.len(), orientation_of(points))[k]],
            points[edge_end(hull_of(points.len(), orientation_of(points)), k)],
            points[p],
        ) > 0,
{
    let left = orientation_of(points);
    lemma_points_are_counterclockwise(points);
    lemma_sorted_points(points);
    lemma_hull_encloses(points.len(), left, k, p);
}

/// Points that are sorted by angle are sorted around the pivot in the
/// terms of their orientation.
pub proof fn lemma_sorted_points(points: Seq<Point>)
    requires
        sorted_by_angle(points),
    ensures
        sorted_around_pivot(orientation_of(points), points.len()),
{
    let left = orientation_of(points);
    assert forall|i: int, j: int| 0 < i < j < points.len() implies #[trigger] turns_left(
        left,
        0,
        i,
        j,
    ) by {
        assert(wedge(points[0], points[i], points[j]) > 0);
    }
}

/// A point that lies strictly inside a triangle of three other points is
/// not on the hull.
pub proof fn lemma_point_inside_triangle_is_left_out(
    points: Seq<Point>,
    a: int,
    b: int,
    c: int,
    d: int,
)
    requires
        in_general_position(points),
        sorted_by_angle(points),
        three_of(points.len(), a, b, c),
        0 <= d < points.len(),
        d != a && d != b && d != c,
        wedge(points[a], points[b], points[d]) > 0,
        wedge(points[b], points[c], points[d]) > 0,
        wedge(points[c], points[a], points[d]) > 0,
    ensures
        !hull_of(points.len(), orientation_of(points)).contains(d),
{
    lemma_points_are_counterclockwise(points);
    lemma_sorted_points(points);
    lemma_interior_is_left_out(points.len(), orientation_of(points), a, b, c, d);
}

/// The order of `points` by height: whether one lies lower than another.
pub open spec fn height_order_of(points: Seq<Point>) -> Height {
    |i: int, j: int| points[i].y < points[j].y
}

/// The pivot of points is the first of their lowest: no point lies lower
/// and every point before it lies higher.
pub proof fn lemma_pivot_of_points_is_first_lowest(points: Seq<Point>, other: int)
    requires
        0 <= other < points.len(),
    ensures
        ({
            let pivot = pivot_of(points.len(), height_order_of(points));
            &&& 0 <= pivot < points.len()
            &&& points[other].y >= points[pivot].y
            &&& other < pivot ==> points[other].y > points[pivot].y
        }),
{
    let lower = height_order_of(points);
    assert(orders_by_height(lower, points.len())) by {
        assert forall|i: int, j: int, k: int|
            0 <= i < points.len() && 0 <= j < points.len() && 0 <= k < points.len()
                && #[trigger] lies_lower(lower, i, j) && #[trigger] lies_lower(
                lower,
                j,
                k,
            ) implies lies_lower(lower, i, k) by {}
    }
    lemma_pivot_is_first_lowest(points.len(), lower, other);
}

/// Under exact arithmetic the oracle of the hull scan answers by the
/// orientation of the points.
pub proof fn lemma_left_turn_is_orientation(
    points: Seq<Point>,
    a: int,
    b: int,
    c: int,
    m: Model<int>,
)
    requires
        is_exact(m),
    ensures
        left_turn_of(points, a, b, c, m) == orientation_of(points)(a, b, c),
{
    let (pa, pb, pc) = (points[a], points[b], points[c]);
    assert((pb.x - pa.x) * (pc.y - pb.y) - (pb.y - pa.y) * (pc.x - pb.x) == wedge(pa, pb, pc))
        by (nonlinear_arith)
        requires
            wedge(pa, pb, pc) == (pb.x - pa.x) * (pc.y - pa.y) - (pb.y - pa.y) * (pc.x - pa.x),
    ;
}

/// Under exact arithmetic the oracle of the pivot answers by the order of
/// the points by height.
pub proof fn lemma_lower_is_height_order(points: Seq<Point>, i: int, j: int, m: Model<int>)
    requires
        is_exact(m),
    ensures
        lower_of(points, i, j, m) == height_order_of(points)(i, j),
{
}

/// Under exact arithmetic the oracles that the scan and the pivot are
/// given for points are the orientation and the order by height of the
/// points.
pub proof fn lemma_oracles_of_points(points: Seq<Point>, m: Model<int>)
    requires
        is_exact(m),
    ensures
        orientation_oracle_of(points, m) == orientation_of(points),
        height_oracle_of(points, m) == height_order_of(points),
{
    assert forall|a: int, b: int, c: int| #[trigger]
        orientation_oracle_of(points, m)(a, b, c) == orientation_of(points)(a, b, c) by {
        lemma_left_turn_is_orientation(points, a, b, c, m);
    }
    assert(orientation_oracle_of(points, m) =~= orientation_of(points));
    assert(height_oracle_of(points, m) =~= height_order_of(points));
}

/// Under exact arithmetic the scan of points in general position that are
/// sorted by angle yields their convex hull: every point lies strictly to
/// the left of the line through any two successive points of the hull,
/// unless it is one of the two.
pub proof fn lemma_scan_yields_convex_hull(points: Seq<Point>, m: Model<int>, k: int, p: int)
    requires
        is_exact(m),
        in_general_position(points),
        sorted_by_angle(points),
        points.len() >= 3,
        0 <= k < hull_of(points.len(), orientation_oracle_of(points, m)).len(),
        0 <= p < points.len(),
        p != hull_of(points.len(), orientation_oracle_of(points, m))[k],
        p != edge_end(hull_of(points.len(), orientation_oracle_of(points, m)), k),
    ensures
        wedge(
            points[hull_of(points.len(), orientation_oracle_of(points, m))[k]],
            points[edge_end(hull_of(points.len(), orientation_oracle_of(points, m)), k)],
            points[p],
        ) > 0,
{
    lemma_oracles_of_points(points, m);
    lemma_hull_of_points_is_convex_hull(points, k, p);
}

/// Around a point that none of two points lies lower than, the order of the
/// two by angle is the sign of their wedge with that point.
pub proof fn lemma_angle_order_of_points(a: Point, b: Point, pivot: Point, m: Model<int>)
    requires
        is_exact(m),
        pivot.y <= a.y,
        pivot.y <= b.y,
    ensures
        angle_order_of(a, b, pivot, m) is Before <==> wedge(pivot, a, b) > 0,
        angle_order_of(a, b, pivot, m) is After <==> wedge(pivot, a, b) < 0,
        angle_order_of(a, b, pivot, m) is Same <==> wedge(pivot, a, b) == 0,
{
    assert((b.x - pivot.x) * (a.y - pivot.y) == (a.y - pivot.y) * (b.x - pivot.x))
        by (nonlinear_arith);
}

/// The wedge of the first and the last of three vectors that point
/// upwards or level, weighed by the height of the second.
proof fn lemma_wedge_of_three(a: Point, b: Point, c: Point, o: Point)
    ensures
        (b.y - o.y) * wedge(o, a, c) == (a.y - o.y) * wedge(o, b, c) + (c.y - o.y) * wedge(
            o,
            a,
            b,
        ),
{
    let (ax, ay) = (a.x - o.x, a.y - o.y);
    let (bx, by) = (b.x - o.x, b.y - o.y);
    let (cx, cy) = (c.x - o.x, c.y - o.y);
    assert(by * (ax * cy - ay * cx) == ay * (bx * cy - by * cx) + cy * (ax * by - ay * bx)) by {
        assert(by * (ax * cy - ay * cx) == by * (ax * cy) - by * (ay * cx)) by (nonlinear_arith);
        assert(ay * (bx * cy - by * cx) == ay * (bx * cy) - ay * (by * cx)) by (nonlinear_arith);
        assert(cy * (ax * by - ay * bx) == cy * (ax * by) - cy * (ay * bx)) by (nonlinear_arith);
        assert(by * (ax * cy) == cy * (ax * by)) by (nonlinear_arith);
        assert(by * (ay * cx) == ay * (by * cx)) by (nonlinear_arith);
        assert(ay * (bx * cy) == cy * (ay * bx)) by (nonlinear_arith);
    }
}

/// Under exact arithmetic the points in general position other than their
/// pivot are totally ordered by angle around it, so that they can be
/// sorted.
pub proof fn lemma_points_can_be_sorted(points: Seq<Point>, m: Model<int>)
    requires
        is_exact(m),
        in_general_position(points),
        points.len() >= 1,
    ensures
        totally_ordered(around_pivot_of(points, m), pivot_point_of(points, m), m),
{
    lemma_oracles_of_points(points, m);
    let at = pivot_of(points.len(), height_order_of(points));
    let pivot = points[at];
    let around = points.remove(at);
    lemma_pivot_of_points_is_first_lowest(points, 0);
    let at_of = |i: int|
        if i < at {
            i
        } else {
            i + 1
        };
    assert forall|i: int| 0 <= i < around.len() implies around[i] == points[#[trigger] at_of(i)]
        && pivot.y <= around[i].y by {
        lemma_pivot_of_points_is_first_lowest(points, at_of(i));
    }
    assert forall|i: int, j: int| 0 <= i < around.len() && 0 <= j < around.len() implies (
    #[trigger] angle_order_of(around[i], around[j], pivot, m) is Before <==> angle_order_of(
        around[j],
        around[i],
        pivot,
        m,
    ) is After) && (angle_order_of(around[i], around[j], pivot, m) is Same <==> angle_order_of(
        around[j],
        around[i],
        pivot,
        m,
    ) is Same) by {
        assert(around[i] == points[at_of(i)] && around[j] == points[at_of(j)]);
        lemma_angle_order_of_points(around[i], around[j], pivot, m);
        lemma_angle_order_of_points(around[j], around[i], pivot, m);
        lemma_wedge_symmetry(pivot, around[i], around[j]);
    }
    assert forall|i: int, j: int, k: int|
        0 <= i < around.len() && 0 <= j < around.len() && 0 <= k < around.len()
            && #[trigger] angle_order_of(around[i], around[j], pivot, m) is Before
            && #[trigger] angle_order_of(
            around[j],
            around[k],
            pivot,
            m,
        ) is Before implies angle_order_of(around[i], around[k], pivot, m) is Before by {
        let (a, b, c) = (around[i], around[j], around[k]);
        assert(a == points[at_of(i)] && b == points[at_of(j)] && c == points[at_of(k)]);
        lemma_angle_order_of_points(a, b, pivot, m);
        lemma_angle_order_of_points(b, c, pivot, m);
        lemma_angle_order_of_points(a, c, pivot, m);
        lemma_wedge_of_three(a, b, c, pivot);
        lemma_wedge_symmetry(pivot, a, b);
        if i == k {
        } else {
            assert(three_of(points.len(), at, at_of(i), at_of(k)));
            assert(wedge(points[at], points[at_of(i)], points[at_of(k)]) != 0);
            lemma_signs(a.y - pivot.y, wedge(pivot, b, c));
            lemma_signs(c.y - pivot.y, wedge(pivot, a, b));
            lemma_signs(b.y - pivot.y, wedge(pivot, a, c));
            if a.y == pivot.y && c.y == pivot.y {
                assert(wedge(pivot, a, c) == 0) by (nonlinear_arith)
                    requires
                        a.y == pivot.y,
                        c.y == pivot.y,
                        wedge(pivot, a, c) == (a.x - pivot.x) * (c.y - pivot.y) - (a.y - pivot.y)
                            * (c.x - pivot.x),
                ;
            }
        }
    }
    assert forall|i: int, j: int, k: int|
        0 <= i < around.len() && 0 <= j < around.len() && 0 <= k < around.len()
            && #[trigger] angle_order_of(around[i], around[j], pivot, m) is Same
            && #[trigger] angle_order_of(
            around[j],
            around[k],
            pivot,
            m,
        ) is Same implies angle_order_of(around[i], around[k], pivot, m) is Same by {
        let (a, b, c) = (around[i], around[j], around[k]);
        assert(a == points[at_of(i)] && b == points[at_of(j)] && c == points[at_of(k)]);
        lemma_angle_order_of_points(a, b, pivot, m);
        lemma_angle_order_of_points(b, c, pivot, m);
        lemma_angle_order_of_points(a, c, pivot, m);
        if i != j {
            assert(three_of(points.len(), at, at_of(i), at_of(j)));
            assert(wedge(points[at], points[at_of(i)], points[at_of(j)]) != 0);
        }
        if j != k {
            assert(three_of(points.len(), at, at_of(j), at_of(k)));
            assert(wedge(points[at], points[at_of(j)], points[at_of(k)]) != 0);
        }
        lemma_wedge_symmetry(pivot, a, a);
    }
}

/// The sign of a product of a factor that is not negative and a factor
/// that is positive, and of a product with a positive factor as a whole.
proof fn lemma_signs(x: int, y: int)
    ensures
        x >= 0 && y > 0 ==> x * y >= 0,
        x > 0 && y > 0 ==> x * y > 0,
        x == 0 ==> x * y == 0,
        x > 0 && x * y > 0 ==> y > 0,
        x > 0 && x * y >= 0 ==> y >= 0,
{
    assert(x >= 0 && y > 0 ==> x * y >= 0) by (nonlinear_arith);
    assert(x > 0 && y > 0 ==> x * y > 0) by (nonlinear_arith);
    assert(x == 0 ==> x * y == 0) by (nonlinear_arith);
    assert(x > 0 && x * y > 0 ==> y > 0) by (nonlinear_arith);
    assert(x > 0 && x * y >= 0 ==> y >= 0) by (nonlinear_arith);
}

/// Under exact arithmetic, points in general position that were rearranged
/// with their pivot at the front and the others in ascending order by
/// angle around it are sorted by angle: the scan then yields their convex
/// hull.
pub proof fn lemma_arranged_points_are_sorted(
    points: Seq<Point>,
    arranged: Seq<Point>,
    m: Model<int>,
)
    requires
        is_exact(m),
        points.len() >= 1,
        arranged.len() == points.len(),
        arranged.to_multiset() == points.to_multiset(),
        arranged[0] == pivot_point_of(points, m),
        ascending(arranged.subrange(1, arranged.len() as int), arranged[0], m),
        in_general_position(arranged),
    ensures
        sorted_by_angle(arranged),
{
    lemma_oracles_of_points(points, m);
    arranged.to_multiset_ensures();
    points.to_multiset_ensures();
    let pivot = arranged[0];
    let rest = arranged.subrange(1, arranged.len() as int);
    assert forall|i: int, j: int| 0 < i < j < arranged.len() implies #[trigger] wedge(
        arranged[0],
        arranged[i],
        arranged[j],
    ) > 0 by {
        assert(arranged.contains(arranged[i]) && arranged.contains(arranged[j]));
        assert(arranged.to_multiset().count(arranged[i]) > 0);
        assert(arranged.to_multiset().count(arranged[j]) > 0);
        assert(points.to_multiset().count(arranged[i]) > 0);
        assert(points.to_multiset().count(arranged[j]) > 0);
        assert(points.contains(arranged[i]) && points.contains(arranged[j]));
        let ki = choose|k: int| 0 <= k < points.len() && points[k] == arranged[i];
        let kj = choose|k: int| 0 <= k < points.len() && points[k] == arranged[j];
        lemma_pivot_of_points_is_first_lowest(points, ki);
        lemma_pivot_of_points_is_first_lowest(points, kj);
        lemma_angle_order_of_points(arranged[i], arranged[j], pivot, m);
        assert(rest[i - 1] == arranged[i] && rest[j - 1] == arranged[j]);
        assert(!(angle_order_of(rest[i - 1], rest[j - 1], pivot, m) is After));
        assert(three_of(arranged.len(), 0, i, j));
    }
}

} // verus!
