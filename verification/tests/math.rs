use shadow_fit::math::{Affine3, BiVector3, Rotor, Scale2, Scale3, Vector2, Vector3};
use shadow_fit::scalar::{Fun, Op, Rel, Scalars};

type Floats = Scalars<f32, fn(Op, f32, f32) -> f32, fn(Fun, f32) -> f32, fn(Rel, f32, f32) -> bool>;
type Wholes = Scalars<i64, fn(Op, i64, i64) -> i64, fn(Fun, i64) -> i64, fn(Rel, i64, i64) -> bool>;

fn float_arith(op: Op, x: f32, y: f32) -> f32 {
    match op {
        Op::Add => x + y,
        Op::Sub => x - y,
        Op::Mul => x * y,
        Op::Div => x / y,
        Op::Min => f32::min(x, y),
        Op::Max => f32::max(x, y),
    }
}

fn float_fun(f: Fun, x: f32) -> f32 {
    match f {
        Fun::Neg => -x,
        Fun::Sqrt => x.sqrt(),
        Fun::Sin => x.sin(),
        Fun::Cos => x.cos(),
    }
}

fn float_rel(r: Rel, x: f32, y: f32) -> bool {
    match r {
        Rel::Less => x < y,
        Rel::AtMost => x <= y,
        Rel::Equal => x == y,
        Rel::Before => x.total_cmp(&y) == std::cmp::Ordering::Less,
    }
}

fn floats() -> Floats {
    Scalars { zero: 0.0, one: 1.0, arith: float_arith, fun: float_fun, rel: float_rel }
}

fn whole_arith(op: Op, x: i64, y: i64) -> i64 {
    match op {
        Op::Add => x + y,
        Op::Sub => x - y,
        Op::Mul => x * y,
        Op::Div => x / y,
        Op::Min => x.min(y),
        Op::Max => x.max(y),
    }
}

/// Quarter turns only: the angle counts them.
fn whole_fun(f: Fun, x: i64) -> i64 {
    match f {
        Fun::Neg => -x,
        Fun::Sqrt => (x as f64).sqrt() as i64,
        Fun::Sin => [0, 1, 0, -1][x.rem_euclid(4) as usize],
        Fun::Cos => [1, 0, -1, 0][x.rem_euclid(4) as usize],
    }
}

fn whole_rel(r: Rel, x: i64, y: i64) -> bool {
    match r {
        Rel::Less => x < y,
        Rel::AtMost => x <= y,
        Rel::Equal => x == y,
        Rel::Before => x < y,
    }
}

fn wholes() -> Wholes {
    Scalars { zero: 0, one: 1, arith: whole_arith, fun: whole_fun, rel: whole_rel }
}

fn affine<T: Copy>(e: [T; 12]) -> Affine3<T> {
    Affine3 {
        xx: e[0],
        yx: e[1],
        zx: e[2],
        _x: e[3],
        xy: e[4],
        yy: e[5],
        zy: e[6],
        _y: e[7],
        xz: e[8],
        yz: e[9],
        zz: e[10],
        _z: e[11],
    }
}

fn entries(a: &Affine3<f32>) -> [f32; 12] {
    [a.xx, a.yx, a.zx, a._x, a.xy, a.yy, a.zy, a._y, a.xz, a.yz, a.zz, a._z]
}

fn close(a: &Affine3<f32>, b: &Affine3<f32>) -> bool {
    entries(a).iter().zip(entries(b).iter()).all(|(x, y)| (x - y).abs() <= 1e-5 * (1.0 + y.abs()))
}

fn unit_plane(xy: f32, yz: f32, zx: f32) -> BiVector3<f32> {
    let norm = (xy * xy + yz * yz + zx * zx).sqrt();
    BiVector3::new(xy / norm, yz / norm, zx / norm)
}

#[test]
fn vector_products_follow_their_formulas() {
    let s = wholes();
    let a = Vector3::new(1, 2, 3);
    let b = Vector3::new(-4, 5, 6);
    assert_eq!(a.dot(&b, &s), 24);
    assert_eq!(a.norm_sqr(&s), 14);
    assert_eq!(a.wedge(&b, &s), BiVector3 { xy: 13, yz: -3, zx: -18 });
    assert_eq!(a.plus(b, &s), Vector3::new(-3, 7, 9));
    assert_eq!(a.minus(b, &s), Vector3::new(5, -3, -3));
    assert_eq!(a.scaled(3, &s), Vector3::new(3, 6, 9));
    assert_eq!(b.divided(2, &s), Vector3::new(-2, 2, 3));
    assert_eq!(a.negated(&s), Vector3::new(-1, -2, -3));
    assert_eq!(Vector3::identity(&s), Vector3::new(0, 0, 0));
}

#[test]
fn wedge_of_parallel_vectors_is_zero() {
    let s = floats();
    let a = Vector3::new(1.5, -2.0, 0.5);
    assert_eq!(a.wedge(&a.scaled(4.0, &s), &s), BiVector3::new(0.0, 0.0, 0.0));
    let v = Vector2::new(3.0, 4.0);
    assert_eq!(v.wedge(v.scaled(-2.0, &s), &s).xy, 0.0);
}

#[test]
fn plane_vectors_follow_their_formulas() {
    let s = wholes();
    let a = Vector2::new(3, 4);
    let b = Vector2::new(-1, 2);
    assert_eq!(a.wedge(b, &s).xy, 10);
    assert_eq!(b.wedge(a, &s).xy, -10);
    assert_eq!(a.plus(b, &s), Vector2::new(2, 6));
    assert_eq!(a.minus(b, &s), Vector2::new(4, 2));
    assert_eq!(a.scaled(2, &s), Vector2::new(6, 8));
    assert_eq!(a.negated(&s), Vector2::new(-3, -4));
    assert_eq!(Vector2::identity(&s), Vector2::new(0, 0));
    assert_eq!(Scale2::new(2, 3), Scale2 { x: 2, y: 3 });
}

#[test]
fn bivector_products_follow_their_formulas() {
    let s = wholes();
    let a = BiVector3::new(1, 2, 3);
    let b = BiVector3::new(4, -5, 6);
    assert_eq!(a.norm_sqr(&s), 14);
    assert_eq!(a.commute(&b, &s), BiVector3 { xy: 27, yz: 6, zx: -13 });
    assert_eq!(a.plus(b, &s), BiVector3::new(5, -3, 9));
    assert_eq!(a.scaled(2, &s), BiVector3::new(2, 4, 6));
    assert_eq!(b.divided(2, &s), BiVector3::new(2, -2, 3));
    let r = Rotor { _1: 2, xy: 1, yz: -1, zx: 3 };
    assert_eq!(a.times_rotor(r, &s), Rotor { _1: -8, xy: -7, yz: 4, zx: 9 });
}

#[test]
fn rotor_product_follows_its_formula() {
    let s = wholes();
    let a = Rotor { _1: 1, xy: 2, yz: 3, zx: 4 };
    let b = Rotor { _1: 2, xy: 1, yz: -1, zx: 3 };
    assert_eq!(a.norm_sqr(&s), 30);
    assert_eq!(a.times(b, &s), Rotor { _1: -9, xy: -8, yz: 7, zx: 16 });
    assert_eq!(Rotor::identity(&s).times(b, &s), b);
    assert_eq!(b.times(Rotor::identity(&s), &s), b);
    assert_eq!(
        Rotor { _1: 4, xy: 2, yz: -6, zx: 8 }.divided(2, &s),
        Rotor { _1: 2, xy: 1, yz: -3, zx: 4 }
    );
}

#[test]
fn rotor_product_is_associative_and_does_not_commute() {
    let s = wholes();
    let a = Rotor { _1: 1, xy: 2, yz: 3, zx: 4 };
    let b = Rotor { _1: 2, xy: 1, yz: -1, zx: 3 };
    let c = Rotor { _1: -1, xy: 0, yz: 2, zx: 5 };
    assert_eq!(a.times(b, &s).times(c, &s), a.times(b.times(c, &s), &s));
    assert_ne!(a.times(b, &s), b.times(a, &s));
}

#[test]
fn compose_follows_its_formula() {
    let s = wholes();
    let a = affine([1, 2, 3, 4, 5, 6, 7, 8, 9, 10, 11, 12]);
    let b = affine([2, 0, 1, 3, -1, 4, 0, 5, 6, 1, -2, 7]);
    let composed = a.compose(&b, &s);
    // x of the result takes x, y and z of `a` (xx, xy, xz) by the x column of `b`.
    assert_eq!(composed.xx, 1 * 2 + 5 * 0 + 9 * 1);
    assert_eq!(composed.yx, 2 * 2 + 6 * 0 + 10 * 1);
    assert_eq!(composed.zx, 3 * 2 + 7 * 0 + 11 * 1);
    assert_eq!(composed._x, 4 * 2 + 8 * 0 + 12 * 1 + 3);
    assert_eq!(composed.xy, 1 * -1 + 5 * 4 + 9 * 0);
    assert_eq!(composed.yy, 2 * -1 + 6 * 4 + 10 * 0);
    assert_eq!(composed.zy, 3 * -1 + 7 * 4 + 11 * 0);
    assert_eq!(composed._y, 4 * -1 + 8 * 4 + 12 * 0 + 5);
    assert_eq!(composed.xz, 1 * 6 + 5 * 1 + 9 * -2);
    assert_eq!(composed.yz, 2 * 6 + 6 * 1 + 10 * -2);
    assert_eq!(composed.zz, 3 * 6 + 7 * 1 + 11 * -2);
    assert_eq!(composed._z, 4 * 6 + 8 * 1 + 12 * -2 + 7);
}

#[test]
fn compose_applies_the_first_map_and_then_the_second() {
    let s = wholes();
    let a = affine([1, 2, 3, 4, 5, 6, 7, 8, 9, 10, 11, 12]);
    let b = affine([2, 0, 1, 3, -1, 4, 0, 5, 6, 1, -2, 7]);
    let v = Vector3::new(3, -2, 5);
    assert_eq!(v.apply(&a.compose(&b, &s), &s), v.apply(&a, &s).apply(&b, &s));
    assert_ne!(a.compose(&b, &s), b.compose(&a, &s));
}

#[test]
fn compose_is_associative() {
    let s = wholes();
    let a = affine([1, 2, 3, 4, 5, 6, 7, 8, 9, 10, 11, 12]);
    let b = affine([2, 0, 1, 3, -1, 4, 0, 5, 6, 1, -2, 7]);
    let c = affine([0, 3, -2, 1, 4, 1, 1, -6, 2, 2, 5, 9]);
    assert_eq!(a.compose(&b, &s).compose(&c, &s), a.compose(&b.compose(&c, &s), &s));

    let f = floats();
    let a = affine([0.5, -1.25, 2.0, 0.1, 3.5, 0.75, -0.3, 4.0, 1.1, 0.2, -2.5, 0.9]);
    let b = affine([1.5, 0.25, -0.7, 2.2, 0.4, -1.6, 0.8, 0.3, -0.9, 1.3, 0.6, -4.1]);
    let c = affine([-0.2, 0.9, 1.7, 0.5, 2.1, -0.4, 0.35, 1.0, 0.45, -1.8, 0.15, 3.3]);
    assert!(close(&a.compose(&b, &f).compose(&c, &f), &a.compose(&b.compose(&c, &f), &f)));
}

#[test]
fn compose_with_the_identity_changes_nothing() {
    let f = floats();
    let a = affine([0.5, -1.25, 2.0, 0.1, 3.5, 0.75, -0.3, 4.0, 1.1, 0.2, -2.5, 0.9]);
    let identity = Affine3::identity(&f);
    assert_eq!(identity, affine([1.0, 0.0, 0.0, 0.0, 0.0, 1.0, 0.0, 0.0, 0.0, 0.0, 1.0, 0.0]));
    assert_eq!(identity.compose(&a, &f), a);
    assert_eq!(a.compose(&identity, &f), a);
}

#[test]
fn steps_change_the_map_in_place_and_chain() {
    let s = wholes();
    let mut a = Affine3::identity(&s);
    a.scale(&Scale3::new(2, 3, 4), &s).translate(&Vector3::new(1, 1, 1), &s);
    assert_eq!(a, affine([2, 0, 0, 1, 0, 3, 0, 1, 0, 0, 4, 1]));
    // Scaling after the translation scales the translation too.
    let mut b = Affine3::identity(&s);
    b.translate(&Vector3::new(1, 1, 1), &s).scale(&Scale3::new(2, 3, 4), &s);
    assert_eq!(b, affine([2, 0, 0, 2, 0, 3, 0, 3, 0, 0, 4, 4]));
    assert_eq!(Vector3::new(1, 1, 1).apply(&a, &s), Vector3::new(3, 4, 5));
    assert_eq!(Vector3::new(1, 1, 1).apply(&b, &s), Vector3::new(4, 6, 8));
}

#[test]
fn quarter_turn_in_the_xy_plane_takes_x_to_y() {
    let s = wholes();
    let mut a = Affine3::identity(&s);
    a.rotate(1, &BiVector3::new(1, 0, 0), &s);
    assert_eq!(Vector3::new(1, 0, 0).apply(&a, &s), Vector3::new(0, 1, 0));
    assert_eq!(Vector3::new(0, 1, 0).apply(&a, &s), Vector3::new(-1, 0, 0));
    assert_eq!(Vector3::new(0, 0, 1).apply(&a, &s), Vector3::new(0, 0, 1));
    let mut b = Affine3::identity(&s);
    b.rotate(1, &BiVector3::new(0, 0, 1), &s);
    assert_eq!(Vector3::new(0, 0, 1).apply(&b, &s), Vector3::new(1, 0, 0));
}

#[test]
fn rotation_turns_a_map_that_is_there_already() {
    let s = wholes();
    let mut a = Affine3::identity(&s);
    a.translate(&Vector3::new(5, 0, 0), &s).rotate(1, &BiVector3::new(1, 0, 0), &s);
    assert_eq!(a._x, 0);
    assert_eq!(a._y, 5);
    assert_eq!(Vector3::new(1, 0, 0).apply(&a, &s), Vector3::new(0, 6, 0));
}

#[test]
fn from_is_scale_then_rotation_then_translation() {
    let f = floats();
    let scale = Scale3::new(2.0, 0.5, 3.0);
    let translation = Vector3::new(0.25, -4.0, 1.5);
    for (half, plane) in [
        (0.3f32, unit_plane(1.0, 0.0, 0.0)),
        (-1.1, unit_plane(0.0, 1.0, 0.0)),
        (0.7, unit_plane(0.0, 0.0, 1.0)),
        (2.4, unit_plane(0.8, 0.3, 0.9)),
        (-0.45, unit_plane(-0.3, 0.2, -0.7)),
    ] {
        let rotor = plane.scaled(half, &f).exp(&f);
        let built = Affine3::from(scale, rotor, translation, &f);
        let mut stepped = Affine3::identity(&f);
        stepped.scale(&scale, &f).rotate(2.0 * half, &plane, &f).translate(&translation, &f);
        assert!(close(&built, &stepped), "{:?} {:?}", built, stepped);
    }
}

#[test]
fn from_with_whole_numbers_is_exactly_scale_then_rotor_then_translation() {
    let s = wholes();
    let scale = Scale3::new(2, -3, 5);
    let rotor = Rotor { _1: 2, xy: 1, yz: -1, zx: 3 };
    let translation = Vector3::new(7, 8, 9);
    let built = Affine3::from(scale, rotor, translation, &s);
    let turn = Affine3::from(Scale3::identity(&s), rotor, Vector3::identity(&s), &s);
    let mut stepped = Affine3::identity(&s);
    stepped.scale(&scale, &s);
    let mut stepped = stepped.compose(&turn, &s);
    stepped.translate(&translation, &s);
    assert_eq!(built, stepped);
    assert_eq!(built.xx, (1 - 2 * (9 + 1)) * 2);
    assert_eq!(built.xy, 2 * (-3 + 2) * 2);
    assert_eq!(built.yz, 2 * (3 - 2) * -3);
    assert_eq!(built._y, 8);
}

#[test]
fn exp_of_the_zero_bivector_is_the_identity_rotor() {
    let f = floats();
    assert_eq!(BiVector3::new(0.0, 0.0, 0.0).exp(&f), Rotor { _1: 1.0, xy: 0.0, yz: 0.0, zx: 0.0 });
    assert_eq!(BiVector3::new(0.0, 0.0, 0.0).exp(&f), Rotor::identity(&f));
}

#[test]
fn exp_is_cosine_and_sine_times_the_unit_plane() {
    let f = floats();
    let plane = unit_plane(0.8, 0.3, 0.9);
    let angle = 0.6f32;
    let rotor = plane.scaled(angle, &f).exp(&f);
    assert!((rotor._1 - angle.cos()).abs() < 1e-6);
    assert!((rotor.xy - angle.sin() * plane.xy).abs() < 1e-6);
    assert!((rotor.yz - angle.sin() * plane.yz).abs() < 1e-6);
    assert!((rotor.zx - angle.sin() * plane.zx).abs() < 1e-6);
    assert!((rotor.norm_sqr(&f) - 1.0).abs() < 1e-6);
}

#[test]
fn rotor_of_half_the_angle_turns_a_vector_as_the_rotation_does() {
    let f = floats();
    let plane = unit_plane(0.3, -0.4, 0.2);
    let angle = 0.9f32;
    let by_rotor = Affine3::from(
        Scale3::identity(&f),
        plane.scaled(angle / 2.0, &f).exp(&f),
        Vector3::identity(&f),
        &f,
    );
    let mut by_rotation = Affine3::identity(&f);
    by_rotation.rotate(angle, &plane, &f);
    let v = Vector3::new(1.0, -2.0, 0.5);
    let a = v.apply(&by_rotor, &f);
    let b = v.apply(&by_rotation, &f);
    assert!((a.x - b.x).abs() < 1e-5 && (a.y - b.y).abs() < 1e-5 && (a.z - b.z).abs() < 1e-5);
    assert!((a.norm_sqr(&f) - v.norm_sqr(&f)).abs() < 1e-4);
}

#[test]
fn rotor_of_an_angle_turns_by_twice_the_angle() {
    let f = floats();
    let plane = unit_plane(1.0, 0.0, 0.0);
    let angle = 0.3f32;
    let by_rotor = Affine3::from(
        Scale3::identity(&f),
        plane.scaled(angle, &f).exp(&f),
        Vector3::identity(&f),
        &f,
    );
    let mut once = Affine3::identity(&f);
    once.rotate(angle, &plane, &f);
    let mut twice = Affine3::identity(&f);
    twice.rotate(2.0 * angle, &plane, &f);
    assert!(close(&by_rotor, &twice));
    assert!(!close(&by_rotor, &once));
    // A full turn is where the two agree.
    let turn = std::f32::consts::TAU;
    let by_rotor = Affine3::from(
        Scale3::identity(&f),
        plane.scaled(turn, &f).exp(&f),
        Vector3::identity(&f),
        &f,
    );
    let mut by_rotation = Affine3::identity(&f);
    by_rotation.rotate(turn, &plane, &f);
    assert!(entries(&by_rotor)
        .iter()
        .zip(entries(&by_rotation).iter())
        .all(|(x, y)| (x - y).abs() < 1e-5));
}

#[test]
fn rotation_in_a_plane_that_is_no_unit_shears() {
    let f = floats();
    let mut a = Affine3::identity(&f);
    a.rotate(0.5, &BiVector3::new(2.0, 0.0, 0.0), &f);
    let image = Vector3::new(1.0, 0.0, 0.0).apply(&a, &f);
    assert!((image.norm_sqr(&f) - 1.0).abs() > 0.5);
}

#[test]
fn scale_times_scale_and_scale_times_scalar() {
    let s = wholes();
    assert_eq!(Scale3::new(1, 2, 3).times(Scale3::new(4, 5, 6), &s), Scale3::new(4, 10, 18));
    assert_eq!(Scale3::new(1, 2, 3).scaled(3, &s), Scale3::new(3, 6, 9));
    assert_eq!(Scale3::identity(&s), Scale3::new(1, 1, 1));
}

#[test]
fn rotor_product_multiplies_the_norms() {
    let s = wholes();
    let a = Rotor { _1: 1, xy: 2, yz: 3, zx: 4 };
    let b = Rotor { _1: 2, xy: 1, yz: -1, zx: 3 };
    assert_eq!(a.times(b, &s).norm_sqr(&s), a.norm_sqr(&s) * b.norm_sqr(&s));
    assert_eq!(a.times(b, &s).norm_sqr(&s), 450);
}

#[test]
fn rotor_product_turns_by_the_first_rotor_and_then_by_the_second() {
    let f = floats();
    let a = unit_plane(0.8, 0.3, 0.9).scaled(0.4, &f).exp(&f);
    let b = unit_plane(-0.3, 0.2, -0.7).scaled(-0.9, &f).exp(&f);
    let turn = |r: Rotor<f32>| Affine3::from(Scale3::identity(&f), r, Vector3::identity(&f), &f);
    assert!(close(&turn(a.times(b, &f)), &turn(a).compose(&turn(b), &f)));
    assert!(!close(&turn(a.times(b, &f)), &turn(b).compose(&turn(a), &f)));
    assert!((a.times(b, &f).norm_sqr(&f) - 1.0).abs() < 1e-6);
}

#[test]
fn bivector_times_rotor_is_the_rotor_product_of_its_plane() {
    let s = wholes();
    let plane = BiVector3::new(1, 2, 3);
    let as_rotor = Rotor { _1: 0, xy: 1, yz: 2, zx: 3 };
    let r = Rotor { _1: 2, xy: 1, yz: -1, zx: 3 };
    assert_eq!(plane.times_rotor(r, &s), as_rotor.times(r, &s));
}

#[test]
fn rotate_follows_its_formula() {
    let f = floats();
    let start = affine([0.5, -1.25, 2.0, 0.1, 3.5, 0.75, -0.3, 4.0, 1.1, 0.2, -2.5, 0.9]);
    let b = unit_plane(0.8, 0.3, 0.9);
    let norm = 0.77f32;
    let (cos, sin) = (norm.cos(), norm.sin());
    let one_sub_cos = 1.0 - cos;
    let xx = (1.0 - b.yz * b.yz) * cos + b.yz * b.yz;
    let xy = b.zx * b.yz * one_sub_cos + b.xy * sin;
    let xz = b.yz * b.xy * one_sub_cos - b.zx * sin;
    let yx = b.zx * b.yz * one_sub_cos - b.xy * sin;
    let yy = (1.0 - b.zx * b.zx) * cos + b.zx * b.zx;
    let yz = b.xy * b.zx * one_sub_cos + b.yz * sin;
    let zx = b.yz * b.xy * one_sub_cos + b.zx * sin;
    let zy = b.xy * b.zx * one_sub_cos - b.yz * sin;
    let zz = (1.0 - b.xy * b.xy) * cos + b.xy * b.xy;
    let a = start;
    let expected = Affine3 {
        xx: a.xx * xx + a.xy * yx + a.xz * zx,
        yx: a.yx * xx + a.yy * yx + a.yz * zx,
        zx: a.zx * xx + a.zy * yx + a.zz * zx,
        _x: a._x * xx + a._y * yx + a._z * zx,
        xy: a.xx * xy + a.xy * yy + a.xz * zy,
        yy: a.yx * xy + a.yy * yy + a.yz * zy,
        zy: a.zx * xy + a.zy * yy + a.zz * zy,
        _y: a._x * xy + a._y * yy + a._z * zy,
        xz: a.xx * xz + a.xy * yz + a.xz * zz,
        yz: a.yx * xz + a.yy * yz + a.yz * zz,
        zz: a.zx * xz + a.zy * yz + a.zz * zz,
        _z: a._x * xz + a._y * yz + a._z * zz,
    };
    let mut rotated = start;
    rotated.rotate(norm, &b, &f);
    assert_eq!(rotated, expected);
}

#[test]
fn from_follows_its_formula() {
    let f = floats();
    let scale = Scale3::new(2.0, 0.5, 3.0);
    let r = unit_plane(0.8, 0.3, 0.9).scaled(0.4, &f).exp(&f);
    let t = Vector3::new(0.25, -4.0, 1.5);
    let expected = Affine3 {
        xx: (1.0 - 2.0 * (r.zx * r.zx + r.xy * r.xy)) * scale.x,
        xy: (2.0 * (r.yz * r.zx + r._1 * r.xy)) * scale.x,
        xz: (2.0 * (r.yz * r.xy - r._1 * r.zx)) * scale.x,
        yx: (2.0 * (r.yz * r.zx - r._1 * r.xy)) * scale.y,
        yy: (1.0 - 2.0 * (r.yz * r.yz + r.xy * r.xy)) * scale.y,
        yz: (2.0 * (r.zx * r.xy + r._1 * r.yz)) * scale.y,
        zx: (2.0 * (r.yz * r.xy + r._1 * r.zx)) * scale.z,
        zy: (2.0 * (r.zx * r.xy - r._1 * r.yz)) * scale.z,
        zz: (1.0 - 2.0 * (r.yz * r.yz + r.zx * r.zx)) * scale.z,
        _x: t.x,
        _y: t.y,
        _z: t.z,
    };
    assert_eq!(Affine3::from(scale, r, t, &f), expected);
}

#[test]
fn exp_divides_by_the_magnitude_and_multiplies_by_its_sine() {
    let f = floats();
    let b: BiVector3<f32> = BiVector3::new(0.3, -0.4, 0.2);
    let norm: f32 = (b.xy * b.xy + b.yz * b.yz + b.zx * b.zx).sqrt();
    let expected = Rotor {
        _1: norm.cos(),
        xy: (b.xy / norm) * norm.sin(),
        yz: (b.yz / norm) * norm.sin(),
        zx: (b.zx / norm) * norm.sin(),
    };
    assert_eq!(b.exp(&f), expected);
}

#[test]
fn apply_and_compose_follow_their_formulas_on_floats() {
    let f = floats();
    let a = affine([0.5, -1.25, 2.0, 0.1, 3.5, 0.75, -0.3, 4.0, 1.1, 0.2, -2.5, 0.9]);
    let b = affine([1.5, 0.25, -0.7, 2.2, 0.4, -1.6, 0.8, 0.3, -0.9, 1.3, 0.6, -4.1]);
    let v = Vector3::new(0.3, -1.7, 2.9);
    let applied = Vector3 {
        x: v.x * a.xx + v.y * a.yx + v.z * a.zx + a._x,
        y: v.x * a.xy + v.y * a.yy + v.z * a.zy + a._y,
        z: v.x * a.xz + v.y * a.yz + v.z * a.zz + a._z,
    };
    assert_eq!(v.apply(&a, &f), applied);
    let composed = a.compose(&b, &f);
    assert_eq!(composed.xx, a.xx * b.xx + a.xy * b.yx + a.xz * b.zx);
    assert_eq!(composed.zy, a.zx * b.xy + a.zy * b.yy + a.zz * b.zy);
    assert_eq!(composed._z, a._x * b.xz + a._y * b.yz + a._z * b.zz + b._z);
}

#[test]
fn rotation_by_the_opposite_angle_undoes_a_rotation() {
    let w = wholes();
    for plane in [BiVector3::new(1, 0, 0), BiVector3::new(0, 1, 0), BiVector3::new(0, 0, 1)] {
        for angle in [1, 2, 3] {
            let mut a = Affine3::identity(&w);
            a.rotate(angle, &plane, &w).rotate(-angle, &plane, &w);
            assert_eq!(a, Affine3::identity(&w));
        }
    }
    let s = floats();
    let plane = unit_plane(1.0, -2.0, 0.5);
    let mut turn = Affine3::identity(&s);
    turn.rotate(0.7, &plane, &s);
    let mut both = turn;
    both.rotate(-0.7, &plane, &s);
    assert!(!close(&turn, &Affine3::identity(&s)));
    assert!(close(&both, &Affine3::identity(&s)));
}
