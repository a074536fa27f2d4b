use shadow_fit::math::Vector2;
use shadow_fit::polygon::{
    angle_order, convex_intersect_alloc, convex_intersect_no_alloc, graham_scan, is_left_turn,
    is_lower, scan_arranged, take_pivot, Order,
};
use shadow_fit::scalar::{Fun, Op, Rel, Scalars};
use shadow_fit::sort::angle_ordering;

type Floats = Scalars<f32, fn(Op, f32, f32) -> f32, fn(Fun, f32) -> f32, fn(Rel, f32, f32) -> bool>;

fn float_arith(op: Op, x: f32, y: f32) -> f32 {
    match op {
        Op::Add => x + y,
        Op::Sub => x - y,
        Op::Mul => x * y,
        Op::Div => x / y,
        Op::Min => f32::min(x, y),
        Op::Max => f32::max(x, y),
    }
}

fn float_fun(f: Fun, x: f32) -> f32 {
    match f {
        Fun::Neg => -x,
        Fun::Sqrt => x.sqrt(),
        Fun::Sin => x.sin(),
        Fun::Cos => x.cos(),
    }
}

fn float_rel(r: Rel, x: f32, y: f32) -> bool {
    match r {
        Rel::Less => x < y,
        Rel::AtMost => x <= y,
        Rel::Equal => x == y,
        Rel::Before => x.total_cmp(&y) == std::cmp::Ordering::Less,
    }
}

fn floats() -> Floats {
    Scalars { zero: 0.0, one: 1.0, arith: float_arith, fun: float_fun, rel: float_rel }
}

fn points(coordinates: &[(f32, f32)]) -> Vec<Vector2<f32>> {
    coordinates.iter().map(|&(x, y)| Vector2::new(x, y)).collect()
}

/// The hull of `points`, which are rearranged.
fn hull(points: &mut [Vector2<f32>]) -> Vec<Vector2<f32>> {
    let mut indices = vec![usize::MAX; points.len()];
    let len = graham_scan(points, &mut indices, &floats());
    indices[..len].iter().map(|&i| points[i]).collect()
}

#[test]
fn left_turn_is_a_positive_wedge_of_the_two_steps() {
    let f = floats();
    let p = points(&[(0.0, 0.0), (1.0, 0.0), (1.0, 1.0), (2.0, 0.0), (1.0, -1.0)]);
    assert!(is_left_turn(&p, 0, 1, 2, &f));
    assert!(!is_left_turn(&p, 0, 1, 3, &f));
    assert!(!is_left_turn(&p, 0, 1, 4, &f));
    assert!(!is_left_turn(&p, 2, 1, 0, &f));
}

#[test]
fn lower_compares_the_heights() {
    let f = floats();
    let p = points(&[(0.0, 1.0), (5.0, 0.5), (-1.0, 1.0)]);
    assert!(is_lower(&p, 1, 0, &f));
    assert!(!is_lower(&p, 0, 1, &f));
    assert!(!is_lower(&p, 0, 2, &f));
}

#[test]
fn pivot_is_swapped_with_the_point_at_the_front() {
    let f = floats();
    let mut p = points(&[(0.0, 1.0), (5.0, 0.5), (-1.0, 0.5), (2.0, 3.0)]);
    assert_eq!(take_pivot(&mut p, &f), Vector2::new(5.0, 0.5));
    assert_eq!(p, points(&[(5.0, 0.5), (0.0, 1.0), (-1.0, 0.5), (2.0, 3.0)]));
    let mut single = points(&[(1.0, 1.0)]);
    assert_eq!(take_pivot(&mut single, &f), Vector2::new(1.0, 1.0));
}

#[test]
fn angles_are_ordered_counter_clockwise_from_the_x_axis() {
    let f = floats();
    let pivot = Vector2::new(1.0, 1.0);
    let east = Vector2::new(3.0, 1.0);
    let north_east = Vector2::new(2.0, 2.0);
    let north = Vector2::new(1.0, 4.0);
    let west = Vector2::new(-2.0, 1.0);
    let ring = [east, north_east, north, west];
    for i in 0..ring.len() {
        for j in 0..ring.len() {
            let expected = match i.cmp(&j) {
                std::cmp::Ordering::Less => Order::Before,
                std::cmp::Ordering::Equal => Order::Same,
                std::cmp::Ordering::Greater => Order::After,
            };
            assert_eq!(angle_order(ring[i], ring[j], pivot, &f), expected);
        }
    }
    // Points in one direction are at the same angle.
    assert_eq!(angle_order(north_east, Vector2::new(5.0, 5.0), pivot, &f), Order::Same);
}

#[test]
fn hull_of_a_square_with_points_inside() {
    let mut p = points(&[
        (2.0, 2.0),
        (1.0, 0.5),
        (0.0, 2.0),
        (0.5, 1.5),
        (0.0, 0.0),
        (1.5, 1.0),
        (2.0, 0.0),
    ]);
    assert_eq!(hull(&mut p), points(&[(0.0, 0.0), (2.0, 0.0), (2.0, 2.0), (0.0, 2.0)]));
}

#[test]
fn hull_of_the_corners_of_a_square_is_the_square() {
    let mut p = points(&[(1.0, 1.0), (-1.0, -1.0), (-1.0, 1.0), (1.0, -1.0)]);
    assert_eq!(hull(&mut p), points(&[(-1.0, -1.0), (1.0, -1.0), (1.0, 1.0), (-1.0, 1.0)]));
}

#[test]
fn square_and_its_shifted_copy_meet_in_the_rectangle_between() {
    let f = floats();
    let square = points(&[(-1.0, -1.0), (1.0, -1.0), (1.0, 1.0), (-1.0, 1.0)]);
    let shifted = points(&[(0.0, -1.0), (2.0, -1.0), (2.0, 1.0), (0.0, 1.0)]);
    let mut met = convex_intersect_alloc(&square, &shifted, &f);
    assert_eq!(met, points(&[(1.0, 1.0), (0.0, 1.0), (0.0, 1.0), (0.0, -1.0), (1.0, -1.0)]));
    met.dedup();
    let rectangle = points(&[(0.0, -1.0), (1.0, -1.0), (1.0, 1.0), (0.0, 1.0)]);
    let rotated: Vec<Vector2<f32>> = (0..4).map(|k| rectangle[(k + 2) % 4]).collect();
    assert_eq!(met, rotated);
}

#[test]
fn polygons_in_general_position_meet_in_crossings_and_inner_corners() {
    let f = floats();
    let square = points(&[(0.0, 0.0), (4.0, 0.0), (4.0, 4.0), (0.0, 4.0)]);
    let diamond = points(&[(2.0, -1.0), (5.0, 2.0), (2.0, 5.0), (-1.0, 2.0)]);
    assert_eq!(
        convex_intersect_alloc(&square, &diamond, &f),
        points(&[
            (3.0, 0.0),
            (4.0, 1.0),
            (4.0, 3.0),
            (3.0, 4.0),
            (1.0, 4.0),
            (0.0, 3.0),
            (0.0, 1.0),
            (1.0, 0.0),
        ])
    );
    let p = points(&[(0.0, 0.0), (4.0, 0.0), (0.0, 4.0)]);
    let q = points(&[(1.0, 1.0), (5.0, 1.0), (1.0, 5.0)]);
    assert_eq!(convex_intersect_alloc(&p, &q, &f), points(&[(3.0, 1.0), (1.0, 3.0), (1.0, 1.0)]));
}

#[test]
fn polygons_that_do_not_cross_have_an_empty_intersection() {
    let f = floats();
    let square = points(&[(-1.0, -1.0), (1.0, -1.0), (1.0, 1.0), (-1.0, 1.0)]);
    let far = points(&[(3.0, 3.0), (5.0, 3.0), (5.0, 5.0), (3.0, 5.0)]);
    assert_eq!(convex_intersect_alloc(&square, &far, &f), vec![]);
}

#[test]
fn intersection_is_written_to_a_buffer_that_holds_it() {
    let f = floats();
    let square = points(&[(0.0, 0.0), (4.0, 0.0), (4.0, 4.0), (0.0, 4.0)]);
    let diamond = points(&[(2.0, -1.0), (5.0, 2.0), (2.0, 5.0), (-1.0, 2.0)]);
    let expected = convex_intersect_alloc(&square, &diamond, &f);
    let mut buffer = vec![Vector2::new(9.0, 9.0); 10];
    assert_eq!(convex_intersect_no_alloc(&square, &diamond, &mut buffer, &f), Some(8));
    assert_eq!(buffer[..8], expected[..]);
    assert_eq!(buffer[8..], [Vector2::new(9.0, 9.0); 2]);
    let mut exact = vec![Vector2::new(9.0, 9.0); 8];
    assert_eq!(convex_intersect_no_alloc(&square, &diamond, &mut exact, &f), Some(8));
    assert_eq!(exact, expected);
}

#[test]
fn intersection_that_does_not_fit_the_buffer_is_reported() {
    let f = floats();
    let square = points(&[(0.0, 0.0), (4.0, 0.0), (4.0, 4.0), (0.0, 4.0)]);
    let diamond = points(&[(2.0, -1.0), (5.0, 2.0), (2.0, 5.0), (-1.0, 2.0)]);
    let expected = convex_intersect_alloc(&square, &diamond, &f);
    let mut buffer = vec![Vector2::new(9.0, 9.0); 7];
    assert_eq!(convex_intersect_no_alloc(&square, &diamond, &mut buffer, &f), None);
    assert_eq!(buffer[..], expected[..7]);
}

#[test]
fn graham_scan_arranges_the_points_and_names_their_hull() {
    let f = floats();
    let mut p = points(&[(1.0, 1.0), (3.0, 0.5), (0.0, 2.0), (2.0, 3.0), (2.0, 1.5), (4.0, 2.0)]);
    let mut indices = [usize::MAX; 8];
    let len = graham_scan(&mut p, &mut indices, &f);
    assert_eq!(
        p,
        points(&[(3.0, 0.5), (4.0, 2.0), (2.0, 3.0), (2.0, 1.5), (0.0, 2.0), (1.0, 1.0)])
    );
    assert_eq!(len, 5);
    assert_eq!(indices[..5], [0, 1, 2, 4, 5]);
    assert_eq!(indices[5..], [usize::MAX; 3]);
}

#[test]
fn scan_of_arranged_points_needs_no_sort() {
    let f = floats();
    let p = points(&[(0.0, 0.0), (2.0, 0.0), (2.0, 2.0), (1.0, 1.5), (0.0, 2.0)]);
    let mut indices = [usize::MAX; 5];
    assert_eq!(scan_arranged(&p, &mut indices, &f), 4);
    assert_eq!(indices[..4], [0, 1, 2, 4]);
}

#[test]
fn angle_ordering_is_the_order_by_angle() {
    let f = floats();
    let pivot = Vector2::new(0.0, 0.0);
    let (a, b) = (Vector2::new(2.0, 1.0), Vector2::new(1.0, 2.0));
    assert_eq!(angle_ordering(&a, &b, &pivot, &f), std::cmp::Ordering::Less);
    assert_eq!(angle_ordering(&b, &a, &pivot, &f), std::cmp::Ordering::Greater);
    assert_eq!(angle_ordering(&a, &a, &pivot, &f), std::cmp::Ordering::Equal);
    // Level with the pivot, to its right and to its left: the zero of the product that is
    // taken with the point on the left is negative.
    let (east, west) = (Vector2::new(3.0, 0.0), Vector2::new(-2.0, 0.0));
    assert_eq!(angle_ordering(&east, &west, &pivot, &f), std::cmp::Ordering::Less);
    assert_eq!(angle_ordering(&west, &east, &pivot, &f), std::cmp::Ordering::Greater);
}
