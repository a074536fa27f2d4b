use shadow_fit::hull::graham_scan;
use shadow_fit::pivot::find_pivot;

type Point = (f32, f32);

fn sub(a: Point, b: Point) -> Point {
    (a.0 - b.0, a.1 - b.1)
}

fn wedge(a: Point, b: Point) -> f32 {
    a.0 * b.1 - a.1 * b.0
}

/// Moves the lowest point to the front and orders the rest by angle around it.
fn arrange(points: &mut [Point]) {
    let min_i = {
        let points = &*points;
        find_pivot(points.len(), |i, j| points[i].1 < points[j].1)
    };
    points.swap(0, min_i);
    let pivot = points[0];
    points[1..].sort_unstable_by(|a, b| {
        let a_d = sub(*a, pivot);
        let b_d = sub(*b, pivot);
        let lhs = b_d.0 * a_d.1;
        let rhs = a_d.0 * b_d.1;
        if (a_d.1 >= 0.0 && b_d.1 >= 0.0) || (a_d.1 < 0.0 && b_d.1 < 0.0) {
            lhs.total_cmp(&rhs)
        } else {
            rhs.total_cmp(&lhs)
        }
    });
}

/// The hull of `points`, which are arranged first.
fn hull_points(points: &mut [Point]) -> Vec<Point> {
    arrange(points);
    let points = &*points;
    let mut indices = vec![usize::MAX; points.len()];
    let len = graham_scan(
        points.len(),
        |a, b, c| !(wedge(sub(points[b], points[a]), sub(points[c], points[b])) <= 0.0),
        &mut indices,
    );
    indices[..len].iter().map(|&i| points[i]).collect()
}

#[test]
fn square_corners_come_back_counter_clockwise_from_the_lowest() {
    let mut points = [(1.0, 1.0), (0.0, 0.0), (0.0, 1.0), (1.0, 0.0)];
    arrange(&mut points);
    assert_eq!(points, [(0.0, 0.0), (1.0, 0.0), (1.0, 1.0), (0.0, 1.0)]);
    let mut indices = [usize::MAX; 4];
    let len = graham_scan(
        4,
        |a, b, c| !(wedge(sub(points[b], points[a]), sub(points[c], points[b])) <= 0.0),
        &mut indices,
    );
    assert_eq!(len, 4);
    assert_eq!(indices, [0, 1, 2, 3]);
}

#[test]
fn interior_points_are_left_out() {
    let mut points =
        [(2.0, 2.0), (1.0, 0.5), (0.0, 2.0), (0.5, 1.5), (0.0, 0.0), (1.5, 1.0), (2.0, 0.0)];
    assert_eq!(hull_points(&mut points), vec![(0.0, 0.0), (2.0, 0.0), (2.0, 2.0), (0.0, 2.0)]);
}

#[test]
fn collinear_run_collapses_to_its_ends() {
    let mut points = [(0.0, 0.0), (2.0, 0.0), (2.0, 1.0), (2.0, 2.0), (2.0, 3.0), (0.0, 3.0)];
    assert_eq!(hull_points(&mut points), vec![(0.0, 0.0), (2.0, 0.0), (2.0, 3.0), (0.0, 3.0)]);
}

#[test]
fn triangle_is_its_own_hull() {
    let mut points = [(0.0, 1.0), (-1.0, -1.0), (1.0, -1.0)];
    assert_eq!(hull_points(&mut points), vec![(-1.0, -1.0), (1.0, -1.0), (0.0, 1.0)]);
}

#[test]
fn fewer_than_three_positions_are_all_kept() {
    let mut indices = [7usize; 3];
    assert_eq!(graham_scan(0, |_, _, _| false, &mut indices), 0);
    assert_eq!(indices, [7, 7, 7]);
    assert_eq!(graham_scan(1, |_, _, _| false, &mut indices), 1);
    assert_eq!(indices, [0, 7, 7]);
    assert_eq!(graham_scan(2, |_, _, _| false, &mut indices), 2);
    assert_eq!(indices, [0, 1, 7]);
}

#[test]
fn scan_without_a_left_turn_keeps_the_two_ends() {
    let mut indices = [usize::MAX; 6];
    let len = graham_scan(5, |_, _, _| false, &mut indices);
    assert_eq!(len, 2);
    assert_eq!(indices[..2], [0, 4]);
    assert_eq!(indices[5], usize::MAX);
}

#[test]
fn scan_with_left_turns_only_keeps_every_position() {
    let mut indices = [usize::MAX; 5];
    let len = graham_scan(5, |_, _, _| true, &mut indices);
    assert_eq!(len, 5);
    assert_eq!(indices, [0, 1, 2, 3, 4]);
}

#[test]
fn scan_asks_about_the_two_topmost_positions_and_the_next() {
    // Position 2 turns right between 1 and 3, and so does 1 between 0 and 3.
    let mut indices = [usize::MAX; 5];
    let len = graham_scan(5, |a, b, c| !matches!((a, b, c), (1, 2, 3) | (0, 1, 3)), &mut indices);
    assert_eq!(len, 3);
    assert_eq!(indices[..3], [0, 3, 4]);
}

#[test]
fn pivot_is_the_first_of_the_lowest_points() {
    let heights = [3.0f32, 1.0, 2.0, 1.0, 5.0, 1.0];
    assert_eq!(find_pivot(heights.len(), |i, j| heights[i] < heights[j]), 1);
    let heights = [0.5f32, 1.0, 2.0];
    assert_eq!(find_pivot(heights.len(), |i, j| heights[i] < heights[j]), 0);
    let heights = [2.0f32, 1.0, -4.0];
    assert_eq!(find_pivot(heights.len(), |i, j| heights[i] < heights[j]), 2);
}

#[test]
fn pivot_of_a_single_point_is_that_point() {
    assert_eq!(find_pivot(1, |_, _| true), 0);
}

#[test]
fn pivot_moves_only_to_a_point_that_is_lower_than_the_last_pivot() {
    // Point 2 counts as lower than point 0, point 3 as lower than point 2; point 1 is never chosen.
    let lower = |i: usize, j: usize| matches!((i, j), (2, 0) | (3, 2) | (1, 3));
    assert_eq!(find_pivot(4, lower), 3);
    assert_eq!(find_pivot(3, lower), 2);
    assert_eq!(find_pivot(2, lower), 0);
}

#[test]
fn hull_of_points_on_a_circle_keeps_them_all() {
    let mut points: Vec<Point> = (0..12)
        .map(|k| {
            let angle = (k as f32) * std::f32::consts::TAU / 12.0 + 0.1;
            (angle.cos(), angle.sin())
        })
        .collect();
    let hull = hull_points(&mut points);
    assert_eq!(hull.len(), 12);
    for k in 0..12 {
        let (a, b, c) = (hull[k], hull[(k + 1) % 12], hull[(k + 2) % 12]);
        assert!(wedge(sub(b, a), sub(c, b)) > 0.0);
    }
}

#[test]
fn every_point_lies_left_of_every_hull_edge() {
    let mut points = vec![
        (0.3, 0.1),
        (2.1, 0.4),
        (1.2, 1.1),
        (3.3, 1.7),
        (0.9, 2.6),
        (2.2, 3.1),
        (1.6, 0.2),
        (0.1, 1.9),
        (2.8, 2.4),
        (1.4, 1.9),
        (0.6, 0.8),
    ];
    let hull = hull_points(&mut points);
    assert_eq!(
        hull,
        vec![
            (0.3, 0.1),
            (1.6, 0.2),
            (2.1, 0.4),
            (3.3, 1.7),
            (2.8, 2.4),
            (2.2, 3.1),
            (0.9, 2.6),
            (0.1, 1.9),
        ]
    );
    for k in 0..hull.len() {
        let (from, to) = (hull[k], hull[(k + 1) % hull.len()]);
        for p in points.iter().filter(|p| **p != from && **p != to) {
            assert!(wedge(sub(to, from), sub(*p, to)) > 0.0);
        }
    }
}
