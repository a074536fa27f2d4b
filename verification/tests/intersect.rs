use shadow_fit::intersect::{
    advance, convex_intersect_alloc, convex_intersect_no_alloc, EdgeTest, Inside, Step, Vertex,
};

type Point = (f32, f32);

fn add(a: Point, b: Point) -> Point {
    (a.0 + b.0, a.1 + b.1)
}

fn sub(a: Point, b: Point) -> Point {
    (a.0 - b.0, a.1 - b.1)
}

fn scale(a: Point, t: f32) -> Point {
    (a.0 * t, a.1 * t)
}

fn wedge(a: Point, b: Point) -> f32 {
    a.0 * b.1 - a.1 * b.0
}

fn tail(polygon: &[Point], head: usize) -> Point {
    polygon[(head + polygon.len() - 1) % polygon.len()]
}

/// The point at which the line of `P`'s edge meets the line of `Q`'s edge.
fn crossing(convex_p: &[Point], convex_q: &[Point], p: usize, q: usize) -> Point {
    let old_p = tail(convex_p, p);
    let old_q = tail(convex_q, q);
    let dp = sub(convex_p[p], old_p);
    let dq = sub(convex_q[q], old_q);
    let t = wedge(dq, sub(old_q, old_p)) / wedge(dq, dp);
    add(old_p, scale(dp, t))
}

fn edge_test(convex_p: &[Point], convex_q: &[Point], p: usize, q: usize) -> EdgeTest {
    let old_p = tail(convex_p, p);
    let old_q = tail(convex_q, q);
    let dp = sub(convex_p[p], old_p);
    let dq = sub(convex_q[q], old_q);
    let dq_dp = wedge(dq, dp);
    let dold = sub(old_q, old_p);
    let t = wedge(dq, dold) / dq_dp;
    let s = wedge(dp, dold) / dq_dp;
    EdgeTest {
        crossing: t >= 0.0 && t <= 1.0 && s >= 0.0 && s <= 1.0,
        p_in_dq_side: wedge(dq, sub(convex_p[p], old_q)) > 0.0,
        q_in_dp_side: wedge(dp, sub(convex_q[q], old_p)) > 0.0,
        dq_dp_ccw: dq_dp > 0.0,
    }
}

fn intersect(convex_p: &[Point], convex_q: &[Point]) -> Vec<Vertex> {
    convex_intersect_alloc(
        convex_p.len(),
        convex_q.len(),
        |p, q| edge_test(convex_p, convex_q, p, q),
        |p_first, q_first, p_now, q_now| {
            crossing(convex_p, convex_q, p_first, q_first)
                == crossing(convex_p, convex_q, p_now, q_now)
        },
    )
}

fn intersect_into(
    convex_p: &[Point],
    convex_q: &[Point],
    convex_r: &mut [Vertex],
) -> Option<usize> {
    convex_intersect_no_alloc(
        convex_p.len(),
        convex_q.len(),
        |p, q| edge_test(convex_p, convex_q, p, q),
        |p_first, q_first, p_now, q_now| {
            crossing(convex_p, convex_q, p_first, q_first)
                == crossing(convex_p, convex_q, p_now, q_now)
        },
        |v| v,
        convex_r,
    )
}

fn locate(convex_p: &[Point], convex_q: &[Point], vertices: &[Vertex]) -> Vec<Point> {
    vertices
        .iter()
        .map(|v| match *v {
            Vertex::Crossing { p, q } => crossing(convex_p, convex_q, p, q),
            Vertex::OfP(p) => convex_p[p],
            Vertex::OfQ(q) => convex_q[q],
        })
        .collect()
}

const SQUARE: [Point; 4] = [(-1.0, -1.0), (1.0, -1.0), (1.0, 1.0), (-1.0, 1.0)];
const SHIFTED: [Point; 4] = [(0.0, -1.0), (2.0, -1.0), (2.0, 1.0), (0.0, 1.0)];

#[test]
fn square_and_shifted_copy_meet_in_a_rectangle() {
    let vertices = intersect(&SQUARE, &SHIFTED);
    assert_eq!(
        vertices,
        vec![
            Vertex::Crossing { p: 2, q: 3 },
            Vertex::OfQ(3),
            Vertex::Crossing { p: 3, q: 0 },
            Vertex::Crossing { p: 1, q: 0 },
            Vertex::OfP(1),
        ]
    );
    let points = locate(&SQUARE, &SHIFTED, &vertices);
    assert_eq!(points, vec![(1.0, 1.0), (0.0, 1.0), (0.0, 1.0), (0.0, -1.0), (1.0, -1.0)]);
    // The corner where the two upper edges end is met twice; as a cycle of
    // distinct corners this is the rectangle, starting at its upper right.
    let mut corners = points.clone();
    corners.dedup();
    assert_eq!(corners, vec![(1.0, 1.0), (0.0, 1.0), (0.0, -1.0), (1.0, -1.0)]);
    let rectangle = [(0.0, -1.0), (1.0, -1.0), (1.0, 1.0), (0.0, 1.0)];
    let rotated: Vec<Point> = (0..4).map(|k| rectangle[(k + 2) % 4]).collect();
    assert_eq!(corners, rotated);
}

#[test]
fn shifted_copy_and_square_meet_in_the_same_rectangle() {
    let vertices = intersect(&SHIFTED, &SQUARE);
    assert_eq!(
        vertices,
        vec![
            Vertex::Crossing { p: 1, q: 2 },
            Vertex::Crossing { p: 3, q: 2 },
            Vertex::OfP(3),
            Vertex::Crossing { p: 0, q: 1 },
            Vertex::OfQ(1),
        ]
    );
    let points = locate(&SHIFTED, &SQUARE, &vertices);
    assert_eq!(points, vec![(1.0, -1.0), (1.0, 1.0), (0.0, 1.0), (0.0, -1.0), (1.0, -1.0)]);
}

#[test]
fn polygons_apart_have_no_intersection() {
    let far = [(3.0, 3.0), (5.0, 3.0), (5.0, 5.0), (3.0, 5.0)];
    assert_eq!(intersect(&SQUARE, &far), vec![]);
}

#[test]
fn polygon_inside_the_other_meets_none_of_its_edges() {
    let outer = [(-2.0, -2.0), (2.0, -2.0), (2.0, 2.0), (-2.0, 2.0)];
    let inner = [(-1.0, -0.5), (1.0, -1.0), (0.5, 1.0)];
    assert_eq!(intersect(&outer, &inner), vec![]);
}

#[test]
fn corner_inside_the_other_polygon_is_a_vertex() {
    let convex_q = [(0.0, 0.0), (2.0, 0.5), (2.5, 2.0), (0.2, 2.0)];
    let vertices = intersect(&SQUARE, &convex_q);
    assert_eq!(
        vertices,
        vec![
            Vertex::Crossing { p: 2, q: 1 },
            Vertex::OfP(2),
            Vertex::Crossing { p: 3, q: 0 },
            Vertex::OfQ(0),
        ]
    );
    let points = locate(&SQUARE, &convex_q, &vertices);
    assert_eq!(points[0], (1.0, 0.25));
    assert_eq!(points[1], (1.0, 1.0));
    assert!((points[2].0 - 0.1).abs() < 1e-6 && points[2].1 == 1.0);
    assert_eq!(points[3], (0.0, 0.0));
}

#[test]
fn square_and_diamond_meet_in_an_octagon() {
    let square = [(0.0, 0.0), (4.0, 0.0), (4.0, 4.0), (0.0, 4.0)];
    let diamond = [(2.0, -1.0), (5.0, 2.0), (2.0, 5.0), (-1.0, 2.0)];
    let vertices = intersect(&square, &diamond);
    assert_eq!(
        vertices,
        vec![
            Vertex::Crossing { p: 1, q: 1 },
            Vertex::Crossing { p: 2, q: 1 },
            Vertex::Crossing { p: 2, q: 2 },
            Vertex::Crossing { p: 3, q: 2 },
            Vertex::Crossing { p: 3, q: 3 },
            Vertex::Crossing { p: 0, q: 3 },
            Vertex::Crossing { p: 0, q: 0 },
            Vertex::Crossing { p: 1, q: 0 },
        ]
    );
    assert_eq!(
        locate(&square, &diamond, &vertices),
        vec![
            (3.0, 0.0),
            (4.0, 1.0),
            (4.0, 3.0),
            (3.0, 4.0),
            (1.0, 4.0),
            (0.0, 3.0),
            (0.0, 1.0),
            (1.0, 0.0),
        ]
    );
}

#[test]
fn two_triangles_meet_in_a_triangle() {
    let convex_p = [(0.0, 0.0), (4.0, 0.0), (0.0, 4.0)];
    let convex_q = [(1.0, 1.0), (5.0, 1.0), (1.0, 5.0)];
    let vertices = intersect(&convex_p, &convex_q);
    assert_eq!(
        vertices,
        vec![Vertex::Crossing { p: 2, q: 1 }, Vertex::Crossing { p: 2, q: 0 }, Vertex::OfQ(0)]
    );
    assert_eq!(locate(&convex_p, &convex_q, &vertices), vec![(3.0, 1.0), (1.0, 3.0), (1.0, 1.0)]);
}

#[test]
fn buffer_variant_writes_what_the_allocating_one_returns() {
    let expected = intersect(&SQUARE, &SHIFTED);
    let mut convex_r = [Vertex::OfP(99); 7];
    assert_eq!(intersect_into(&SQUARE, &SHIFTED, &mut convex_r), Some(5));
    assert_eq!(convex_r[..5], expected[..]);
    assert_eq!(convex_r[5..], [Vertex::OfP(99); 2]);
}

#[test]
fn buffer_variant_fills_a_buffer_of_exactly_the_size() {
    let expected = intersect(&SQUARE, &SHIFTED);
    let mut convex_r = [Vertex::OfP(99); 5];
    assert_eq!(intersect_into(&SQUARE, &SHIFTED, &mut convex_r), Some(5));
    assert_eq!(convex_r[..], expected[..]);
}

#[test]
fn buffer_variant_reports_a_buffer_that_is_too_small() {
    let expected = intersect(&SQUARE, &SHIFTED);
    let mut convex_r = [Vertex::OfP(99); 4];
    assert_eq!(intersect_into(&SQUARE, &SHIFTED, &mut convex_r), None);
    assert_eq!(convex_r[..], expected[..4]);
    let mut none: [Vertex; 0] = [];
    assert_eq!(intersect_into(&SQUARE, &SHIFTED, &mut none), None);
}

#[test]
fn buffer_variant_needs_no_room_for_an_empty_intersection() {
    let far = [(3.0, 3.0), (5.0, 3.0), (5.0, 5.0), (3.0, 5.0)];
    let mut none: [Vertex; 0] = [];
    assert_eq!(intersect_into(&SQUARE, &far, &mut none), Some(0));
}

#[test]
fn walk_stops_when_it_is_back_at_its_first_crossing() {
    // Every pair of edges crosses and every crossing is the same point.
    let always =
        EdgeTest { crossing: true, p_in_dq_side: true, q_in_dp_side: false, dq_dp_ccw: true };
    let vertices = convex_intersect_alloc(3, 3, |_, _| always, |_, _, _, _| true);
    assert_eq!(vertices, vec![Vertex::Crossing { p: 1, q: 1 }]);
}

#[test]
fn walk_gives_up_after_twice_the_number_of_edges() {
    // Every pair of edges crosses, no crossing is met again, `Q` advances.
    let always =
        EdgeTest { crossing: true, p_in_dq_side: true, q_in_dp_side: false, dq_dp_ccw: true };
    let vertices = convex_intersect_alloc(2, 3, |_, _| always, |_, _, _, _| false);
    assert_eq!(vertices.len(), 10);
    assert_eq!(vertices[0], Vertex::Crossing { p: 1, q: 1 });
    assert_eq!(vertices[9], Vertex::Crossing { p: 1, q: 1 });
    assert!(vertices.iter().all(|v| matches!(v, Vertex::Crossing { p: 1, .. })));
}

#[test]
fn walk_emits_the_inner_polygon_s_vertex_after_a_crossing() {
    // `P` runs inside and advances: each step emits the crossing and the head of `P`.
    let test =
        EdgeTest { crossing: true, p_in_dq_side: true, q_in_dp_side: true, dq_dp_ccw: false };
    let vertices = convex_intersect_alloc(2, 2, |_, _| test, |_, _, _, _| false);
    assert_eq!(vertices.len(), 16);
    assert_eq!(
        vertices[..4],
        [
            Vertex::Crossing { p: 1, q: 1 },
            Vertex::OfP(1),
            Vertex::Crossing { p: 0, q: 1 },
            Vertex::OfP(0),
        ]
    );
}

fn test_of(crossing: bool, p_in_dq_side: bool, q_in_dp_side: bool, dq_dp_ccw: bool) -> EdgeTest {
    EdgeTest { crossing, p_in_dq_side, q_in_dp_side, dq_dp_ccw }
}

#[test]
fn step_moves_along_q_when_its_edge_lies_outside() {
    // Counter-clockwise with the head of `P` on the left of `Q`'s edge: `Q` moves.
    let step = advance(2, 3, Inside::Unknown, test_of(false, true, false, true), false, 4, 4);
    let moved =
        Step { p: 2, q: 0, inside: Inside::Unknown, closed: false, crossing: None, vertex: None };
    assert_eq!(step, moved);
    // Clockwise with the head of `Q` not on the left of `P`'s edge: `Q` moves.
    let step = advance(2, 1, Inside::Unknown, test_of(false, true, false, false), false, 4, 4);
    assert_eq!((step.p, step.q), (2, 2));
}

#[test]
fn step_moves_along_p_otherwise() {
    let step = advance(3, 1, Inside::Unknown, test_of(false, false, true, true), false, 4, 5);
    assert_eq!((step.p, step.q), (0, 1));
    let step = advance(1, 4, Inside::Unknown, test_of(false, false, true, false), false, 4, 5);
    assert_eq!((step.p, step.q), (2, 4));
    assert_eq!(step.vertex, None);
}

#[test]
fn step_emits_the_head_it_leaves_on_the_inner_polygon() {
    let step = advance(2, 3, Inside::Q, test_of(false, true, false, true), false, 4, 4);
    assert_eq!(step.vertex, Some(Vertex::OfQ(3)));
    assert_eq!(step.crossing, None);
    let step = advance(2, 3, Inside::P, test_of(false, true, false, true), false, 4, 4);
    assert_eq!(step.vertex, None);
    let step = advance(2, 3, Inside::P, test_of(false, false, false, true), false, 4, 4);
    assert_eq!(step.vertex, Some(Vertex::OfP(2)));
    assert_eq!((step.p, step.q, step.inside), (3, 3, Inside::P));
}

#[test]
fn step_on_a_crossing_emits_it_and_learns_which_polygon_is_inside() {
    let step = advance(1, 2, Inside::Unknown, test_of(true, true, false, false), false, 3, 3);
    let expected = Step {
        p: 1,
        q: 0,
        inside: Inside::P,
        closed: false,
        crossing: Some(Vertex::Crossing { p: 1, q: 2 }),
        vertex: None,
    };
    assert_eq!(step, expected);
    let step = advance(1, 2, Inside::P, test_of(true, false, false, false), false, 3, 3);
    let expected = Step {
        p: 1,
        q: 0,
        inside: Inside::Q,
        closed: false,
        crossing: Some(Vertex::Crossing { p: 1, q: 2 }),
        vertex: Some(Vertex::OfQ(2)),
    };
    assert_eq!(step, expected);
}

#[test]
fn step_back_at_the_first_crossing_ends_the_walk() {
    let step = advance(1, 2, Inside::P, test_of(true, true, false, true), true, 3, 3);
    let ended = Step { p: 1, q: 2, inside: Inside::P, closed: true, crossing: None, vertex: None };
    assert_eq!(step, ended);
}
