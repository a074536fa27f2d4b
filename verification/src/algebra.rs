//! The laws of the kernel under exact arithmetic.
//!
//! The laws are stated for scalars that are whole numbers and a model that
//! computes with them exactly. They are identities between polynomials, so
//! they hold in the same way for any numbers whose arithmetic is exact, and
//! up to rounding for those of a machine.

use vstd::prelude::*;
use crate::math::{Affine3, BiVector3, Rotor, Scale3, Vector3};
use crate::scalar::{is_exact, Model};

verus! {

/// A row times the linear part of a map times a column, bracketed either
/// way.
proof fn lemma_row_matrix_column(
    a1: int,
    a2: int,
    a3: int,
    b: Affine3<int>,
    c1: int,
    c2: int,
    c3: int,
)
    ensures
        (a1 * b.xx + a2 * b.yx + a3 * b.zx) * c1 + (a1 * b.xy + a2 * b.yy + a3 * b.zy) * c2 + (a1
            * b.xz + a2 * b.yz + a3 * b.zz) * c3 == a1 * (b.xx * c1 + b.xy * c2 + b.xz * c3) + a2
            * (b.yx * c1 + b.yy * c2 + b.yz * c3) + a3 * (b.zx * c1 + b.zy * c2 + b.zz * c3),
{
    lemma_term(a1, b.xx, a2, b.yx, a3, b.zx, c1);
    lemma_term(a1, b.xy, a2, b.yy, a3, b.zy, c2);
    lemma_term(a1, b.xz, a2, b.yz, a3, b.zz, c3);
    lemma_factor(a1, b.xx, c1, b.xy, c2, b.xz, c3);
    lemma_factor(a2, b.yx, c1, b.yy, c2, b.yz, c3);
    lemma_factor(a3, b.zx, c1, b.zy, c2, b.zz, c3);
}

/// A sum of three products times a factor, multiplied out.
proof fn lemma_term(a1: int, b1: int, a2: int, b2: int, a3: int, b3: int, c: int)
    ensures
        (a1 * b1 + a2 * b2 + a3 * b3) * c == a1 * (b1 * c) + a2 * (b2 * c) + a3 * (b3 * c),
{
    assert((a1 * b1 + a2 * b2 + a3 * b3) * c == (a1 * b1) * c + (a2 * b2) * c + (a3 * b3) * c)
        by (nonlinear_arith);
    assert((a1 * b1) * c == a1 * (b1 * c)) by (nonlinear_arith);
    assert((a2 * b2) * c == a2 * (b2 * c)) by (nonlinear_arith);
    assert((a3 * b3) * c == a3 * (b3 * c)) by (nonlinear_arith);
}

/// A factor times a sum of three products, multiplied out.
proof fn lemma_factor(a: int, b1: int, c1: int, b2: int, c2: int, b3: int, c3: int)
    ensures
        a * (b1 * c1 + b2 * c2 + b3 * c3) == a * (b1 * c1) + a * (b2 * c2) + a * (b3 * c3),
{
    assert(a * (b1 * c1 + b2 * c2 + b3 * c3) == a * (b1 * c1) + a * (b2 * c2) + a * (b3 * c3))
        by (nonlinear_arith);
}

/// Composing with the identity, before or after, changes nothing.
pub proof fn lemma_compose_identity(a: Affine3<int>, m: Model<int>)
    requires
        is_exact(m),
    ensures
        Affine3::identity_of(m).compose_of(a, m) == a,
        a.compose_of(Affine3::identity_of(m), m) == a,
{
}

/// Composition is associative.
pub proof fn lemma_compose_associative(
    a: Affine3<int>,
    b: Affine3<int>,
    c: Affine3<int>,
    m: Model<int>,
)
    requires
        is_exact(m),
    ensures
        a.compose_of(b, m).compose_of(c, m) == a.compose_of(b.compose_of(c, m), m),
{
    lemma_row_matrix_column(a.xx, a.xy, a.xz, b, c.xx, c.yx, c.zx);
    lemma_row_matrix_column(a.xx, a.xy, a.xz, b, c.xy, c.yy, c.zy);
    lemma_row_matrix_column(a.xx, a.xy, a.xz, b, c.xz, c.yz, c.zz);
    lemma_row_matrix_column(a.yx, a.yy, a.yz, b, c.xx, c.yx, c.zx);
    lemma_row_matrix_column(a.yx, a.yy, a.yz, b, c.xy, c.yy, c.zy);
    lemma_row_matrix_column(a.yx, a.yy, a.yz, b, c.xz, c.yz, c.zz);
    lemma_row_matrix_column(a.zx, a.zy, a.zz, b, c.xx, c.yx, c.zx);
    lemma_row_matrix_column(a.zx, a.zy, a.zz, b, c.xy, c.yy, c.zy);
    lemma_row_matrix_column(a.zx, a.zy, a.zz, b, c.xz, c.yz, c.zz);
    lemma_row_matrix_column(a._x, a._y, a._z, b, c.xx, c.yx, c.zx);
    lemma_row_matrix_column(a._x, a._y, a._z, b, c.xy, c.yy, c.zy);
    lemma_row_matrix_column(a._x, a._y, a._z, b, c.xz, c.yz, c.zz);
    let ab = a.compose_of(b, m);
    let bc = b.compose_of(c, m);
    assert((ab._x - b._x + b._x) * c.xx == (ab._x - b._x) * c.xx + b._x * c.xx)
        by (nonlinear_arith);
    assert((ab._y - b._y + b._y) * c.yx == (ab._y - b._y) * c.yx + b._y * c.yx)
        by (nonlinear_arith);
    assert((ab._z - b._z + b._z) * c.zx == (ab._z - b._z) * c.zx + b._z * c.zx)
        by (nonlinear_arith);
    assert((ab._x - b._x + b._x) * c.xy == (ab._x - b._x) * c.xy + b._x * c.xy)
        by (nonlinear_arith);
    assert((ab._y - b._y + b._y) * c.yy == (ab._y - b._y) * c.yy + b._y * c.yy)
        by (nonlinear_arith);
    assert((ab._z - b._z + b._z) * c.zy == (ab._z - b._z) * c.zy + b._z * c.zy)
        by (nonlinear_arith);
    assert((ab._x - b._x + b._x) * c.xz == (ab._x - b._x) * c.xz + b._x * c.xz)
        by (nonlinear_arith);
    assert((ab._y - b._y + b._y) * c.yz == (ab._y - b._y) * c.yz + b._y * c.yz)
        by (nonlinear_arith);
    assert((ab._z - b._z + b._z) * c.zz == (ab._z - b._z) * c.zz + b._z * c.zz)
        by (nonlinear_arith);
}

/// The composition of two maps is the map that applies the first and then
/// the second.
pub proof fn lemma_compose_applies_in_turn(
    v: Vector3<int>,
    a: Affine3<int>,
    b: Affine3<int>,
    m: Model<int>,
)
    requires
        is_exact(m),
    ensures
        v.apply_of(a.compose_of(b, m), m) == v.apply_of(a, m).apply_of(b, m),
{
    lemma_row_matrix_column(v.x, v.y, v.z, a, b.xx, b.yx, b.zx);
    lemma_row_matrix_column(v.x, v.y, v.z, a, b.xy, b.yy, b.zy);
    lemma_row_matrix_column(v.x, v.y, v.z, a, b.xz, b.yz, b.zz);
    let va = v.apply_of(a, m);
    assert((va.x - a._x + a._x) * b.xx == (va.x - a._x) * b.xx + a._x * b.xx)
        by (nonlinear_arith);
    assert((va.y - a._y + a._y) * b.yx == (va.y - a._y) * b.yx + a._y * b.yx)
        by (nonlinear_arith);
    assert((va.z - a._z + a._z) * b.zx == (va.z - a._z) * b.zx + a._z * b.zx)
        by (nonlinear_arith);
    assert((va.x - a._x + a._x) * b.xy == (va.x - a._x) * b.xy + a._x * b.xy)
        by (nonlinear_arith);
    assert((va.y - a._y + a._y) * b.yy == (va.y - a._y) * b.yy + a._y * b.yy)
        by (nonlinear_arith);
    assert((va.z - a._z + a._z) * b.zy == (va.z - a._z) * b.zy + a._z * b.zy)
        by (nonlinear_arith);
    assert((va.x - a._x + a._x) * b.xz == (va.x - a._x) * b.xz + a._x * b.xz)
        by (nonlinear_arith);
    assert((va.y - a._y + a._y) * b.yz == (va.y - a._y) * b.yz + a._y * b.yz)
        by (nonlinear_arith);
    assert((va.z - a._z + a._z) * b.zz == (va.z - a._z) * b.zz + a._z * b.zz)
        by (nonlinear_arith);
}

/// The map that only scales by `scale`.
pub open spec fn scaling_of(scale: Scale3<int>, m: Model<int>) -> Affine3<int> {
    Affine3::identity_of(m).scale_of(scale, m)
}

/// The map that only moves by `v`.
pub open spec fn translation_of(v: Vector3<int>, m: Model<int>) -> Affine3<int> {
    Affine3::identity_of(m).translate_of(v, m)
}

/// Scaling, moving and rotating a map is composing it with the map that
/// only scales, only moves or only rotates: each step is applied after the
/// steps before it.
pub proof fn lemma_steps_compose(
    a: Affine3<int>,
    scale: Scale3<int>,
    v: Vector3<int>,
    norm: int,
    plane: BiVector3<int>,
    m: Model<int>,
)
    requires
        is_exact(m),
    ensures
        a.scale_of(scale, m) == a.compose_of(scaling_of(scale, m), m),
        a.translate_of(v, m) == a.compose_of(translation_of(v, m), m),
        a.rotate_of(norm, plane, m) == a.compose_of(Affine3::turn_of(norm, plane, m), m),
{
    let scaling = scaling_of(scale, m);
    lemma_unit_and_zero(scale.x);
    lemma_unit_and_zero(scale.y);
    lemma_unit_and_zero(scale.z);
    assert(scaling == (Affine3 {
        xx: scale.x,
        yx: 0int,
        zx: 0int,
        _x: 0int,
        xy: 0int,
        yy: scale.y,
        zy: 0int,
        _y: 0int,
        xz: 0int,
        yz: 0int,
        zz: scale.z,
        _z: 0int,
    }));
    lemma_unit_and_zero(a.xx);
    lemma_unit_and_zero(a.xy);
    lemma_unit_and_zero(a.xz);
    lemma_unit_and_zero(a.yx);
    lemma_unit_and_zero(a.yy);
    lemma_unit_and_zero(a.yz);
    lemma_unit_and_zero(a.zx);
    lemma_unit_and_zero(a.zy);
    lemma_unit_and_zero(a.zz);
    lemma_unit_and_zero(a._x);
    lemma_unit_and_zero(a._y);
    lemma_unit_and_zero(a._z);
}

/// One is the unit of multiplication, and zero times anything is zero.
proof fn lemma_unit_and_zero(x: int)
    ensures
        1 * x == x,
        x * 1 == x,
        0 * x == 0,
        x * 0 == 0,
{
}

/// The map built from a scale, a rotor and a translation is the identity
/// scaled, then turned by the rotor, then moved: the three steps in this
/// order and no other.
pub proof fn lemma_from_is_scale_rotate_translate(
    scale: Scale3<int>,
    rotation: Rotor<int>,
    translation: Vector3<int>,
    m: Model<int>,
)
    requires
        is_exact(m),
    ensures
        Affine3::from_of(scale, rotation, translation, m) == Affine3::identity_of(m).scale_of(
            scale,
            m,
        ).compose_of(
            Affine3::from_of(Scale3::identity_of(m), rotation, Vector3::identity_of(m), m),
            m,
        ).translate_of(translation, m),
{
    let turn = Affine3::from_of(Scale3::identity_of(m), rotation, Vector3::identity_of(m), m);
    let whole = Affine3::from_of(scale, rotation, translation, m);
    assert(whole.xx == scale.x * turn.xx) by (nonlinear_arith)
        requires
            whole.xx == turn.xx * scale.x,
    ;
    assert(whole.xy == scale.x * turn.xy) by (nonlinear_arith)
        requires
            whole.xy == turn.xy * scale.x,
    ;
    assert(whole.xz == scale.x * turn.xz) by (nonlinear_arith)
        requires
            whole.xz == turn.xz * scale.x,
    ;
    assert(whole.yx == scale.y * turn.yx) by (nonlinear_arith)
        requires
            whole.yx == turn.yx * scale.y,
    ;
    assert(whole.yy == scale.y * turn.yy) by (nonlinear_arith)
        requires
            whole.yy == turn.yy * scale.y,
    ;
    assert(whole.yz == scale.y * turn.yz) by (nonlinear_arith)
        requires
            whole.yz == turn.yz * scale.y,
    ;
    assert(whole.zx == scale.z * turn.zx) by (nonlinear_arith)
        requires
            whole.zx == turn.zx * scale.z,
    ;
    assert(whole.zy == scale.z * turn.zy) by (nonlinear_arith)
        requires
            whole.zy == turn.zy * scale.z,
    ;
    assert(whole.zz == scale.z * turn.zz) by (nonlinear_arith)
        requires
            whole.zz == turn.zz * scale.z,
    ;
}

/// The rotor of the zero bivector is the identity.
pub proof fn lemma_exp_of_zero(m: Model<int>)
    requires
        is_exact(m),
    ensures
        (BiVector3 { xy: 0int, yz: 0int, zx: 0int }).exp_of(m) == Rotor::identity_of(m),
{
}

/// The rotor of half an angle in the unit plane `plane`.
pub open spec fn half_angle_rotor(half: int, plane: BiVector3<int>, m: Model<int>) -> Rotor<int> {
    Rotor {
        _1: m.cos(half),
        xy: m.sin(half) * plane.xy,
        yz: m.sin(half) * plane.yz,
        zx: m.sin(half) * plane.zx,
    }
}

/// The cosine and the sine of `angle` are those of twice the angle `half`.
pub open spec fn is_double_angle(angle: int, half: int, m: Model<int>) -> bool {
    &&& m.cos(angle) == 1 - 2 * (m.sin(half) * m.sin(half))
    &&& m.sin(angle) == 2 * (m.cos(half) * m.sin(half))
}

/// `plane` has unit magnitude.
pub open spec fn is_unit_plane(plane: BiVector3<int>) -> bool {
    plane.xy * plane.xy + plane.yz * plane.yz + plane.zx * plane.zx == 1
}

/// The entries of a rotation in terms of the half angle.
proof fn lemma_half_angle_entries(c: int, s: int, x: int, y: int, z: int)
    requires
        x * x + y * y + z * z == 1,
    ensures
        1 - 2 * ((s * z) * (s * z) + (s * x) * (s * x)) == (1 - y * y) * (1 - 2 * (s * s)) + y * y,
        2 * ((s * y) * (s * z) + c * (s * x)) == (z * y) * (1 - (1 - 2 * (s * s))) + x * (2 * (c
            * s)),
        2 * ((s * y) * (s * z) - c * (s * x)) == (z * y) * (1 - (1 - 2 * (s * s))) - x * (2 * (c
            * s)),
{
    let ss = s * s;
    assert((s * z) * (s * z) == ss * (z * z)) by (nonlinear_arith)
        requires
            ss == s * s,
    ;
    assert((s * x) * (s * x) == ss * (x * x)) by (nonlinear_arith)
        requires
            ss == s * s,
    ;
    assert((s * y) * (s * z) == ss * (z * y)) by (nonlinear_arith)
        requires
            ss == s * s,
    ;
    assert(c * (s * x) == x * (c * s)) by (nonlinear_arith);
    assert(ss * (z * z) + ss * (x * x) == ss * (1 - y * y)) by (nonlinear_arith)
        requires
            x * x + y * y + z * z == 1,
    ;
    assert((1 - y * y) * (1 - 2 * ss) + y * y == 1 - 2 * (ss * (1 - y * y))) by (nonlinear_arith);
    assert((z * y) * (1 - (1 - 2 * ss)) == 2 * (ss * (z * y))) by (nonlinear_arith);
    assert(x * (2 * (c * s)) == 2 * (x * (c * s))) by (nonlinear_arith);
}

/// The rotor of half an angle turns by the angle: the map built from it is
/// the rotation by the angle in its plane.
pub proof fn lemma_rotor_turns_by_twice_its_angle(
    angle: int,
    half: int,
    plane: BiVector3<int>,
    m: Model<int>,
)
    requires
        is_exact(m),
        is_unit_plane(plane),
        is_double_angle(angle, half, m),
    ensures
        Affine3::from_of(
            Scale3::identity_of(m),
            half_angle_rotor(half, plane, m),
            Vector3::identity_of(m),
            m,
        ) == Affine3::turn_of(angle, plane, m),
        Affine3::identity_of(m).rotate_of(angle, plane, m) == Affine3::turn_of(angle, plane, m),
{
    let c = m.cos(half);
    let s = m.sin(half);
    let built = Affine3::from_of(
        Scale3::identity_of(m),
        half_angle_rotor(half, plane, m),
        Vector3::identity_of(m),
        m,
    );
    let turn = Affine3::turn_of(angle, plane, m);
    lemma_half_angle_entries(c, s, plane.xy, plane.yz, plane.zx);
    lemma_half_angle_entries(c, s, plane.yz, plane.zx, plane.xy);
    lemma_half_angle_entries(c, s, plane.zx, plane.xy, plane.yz);
    lemma_unit_and_zero(turn.xx);
    lemma_unit_and_zero(turn.xy);
    lemma_unit_and_zero(turn.xz);
    lemma_unit_and_zero(turn.yx);
    lemma_unit_and_zero(turn.yy);
    lemma_unit_and_zero(turn.yz);
    lemma_unit_and_zero(turn.zx);
    lemma_unit_and_zero(turn.zy);
    lemma_unit_and_zero(turn.zz);
    assert(built.xx == turn.xx);
    assert(built.xy == turn.xy);
    assert(built.xz == turn.xz);
    assert(built.yx == turn.yx);
    assert(built.yy == turn.yy);
    assert(built.yz == turn.yz);
    assert(built.zx == turn.zx);
    assert(built.zy == turn.zy);
    assert(built.zz == turn.zz);
}

/// `m` takes the root of the square of `angle` to be `angle`, and its
/// quotients undo its products.
pub open spec fn divides_exactly(angle: int, m: Model<int>) -> bool {
    &&& angle > 0
    &&& m.sqrt(angle * angle) == angle
    &&& forall|x: int| #[trigger] m.div(x * angle, angle) == x
}

/// The rotor of an angle times a unit plane is the cosine of the angle and
/// the sine of the angle times the plane.
pub proof fn lemma_exp_of_angle_in_plane(angle: int, plane: BiVector3<int>, m: Model<int>)
    requires
        is_exact(m),
        is_unit_plane(plane),
        divides_exactly(angle, m),
    ensures
        plane.scaled_of(angle, m).exp_of(m) == half_angle_rotor(angle, plane, m),
{
    let scaled = plane.scaled_of(angle, m);
    let square = angle * angle;
    assert((plane.xy * angle) * (plane.xy * angle) == (plane.xy * plane.xy) * square)
        by (nonlinear_arith)
        requires
            square == angle * angle,
    ;
    assert((plane.yz * angle) * (plane.yz * angle) == (plane.yz * plane.yz) * square)
        by (nonlinear_arith)
        requires
            square == angle * angle,
    ;
    assert((plane.zx * angle) * (plane.zx * angle) == (plane.zx * plane.zx) * square)
        by (nonlinear_arith)
        requires
            square == angle * angle,
    ;
    assert((plane.xy * plane.xy) * square + (plane.yz * plane.yz) * square + (plane.zx * plane.zx)
        * square == square) by (nonlinear_arith)
        requires
            plane.xy * plane.xy + plane.yz * plane.yz + plane.zx * plane.zx == 1,
    ;
    assert(square > 0) by (nonlinear_arith)
        requires
            square == angle * angle,
            angle > 0,
    ;
    assert(scaled.norm_sqr_of(m) == square);
    assert(m.div(plane.xy * angle, angle) == plane.xy);
    assert(m.div(plane.yz * angle, angle) == plane.yz);
    assert(m.div(plane.zx * angle, angle) == plane.zx);
    let sin = m.sin(angle);
    assert(plane.xy * sin == sin * plane.xy) by (nonlinear_arith);
    assert(plane.yz * sin == sin * plane.yz) by (nonlinear_arith);
    assert(plane.zx * sin == sin * plane.zx) by (nonlinear_arith);
}

/// The rotor of a full turn and the rotation by a full turn are the same
/// map, the identity. For any other angle they differ: the rotor of an
/// angle turns by twice the angle.
pub proof fn lemma_full_turn(angle: int, plane: BiVector3<int>, m: Model<int>)
    requires
        is_exact(m),
        is_unit_plane(plane),
        divides_exactly(angle, m),
        m.cos(angle) == 1,
        m.sin(angle) == 0,
    ensures
        Affine3::from_of(
            Scale3::identity_of(m),
            plane.scaled_of(angle, m).exp_of(m),
            Vector3::identity_of(m),
            m,
        ) == Affine3::identity_of(m).rotate_of(angle, plane, m),
        Affine3::identity_of(m).rotate_of(angle, plane, m) == Affine3::identity_of(m),
{
    lemma_exp_of_angle_in_plane(angle, plane, m);
    lemma_rotor_turns_by_twice_its_angle(angle, angle, plane, m);
    lemma_unit_and_zero(plane.xy);
    lemma_unit_and_zero(plane.yz);
    lemma_unit_and_zero(plane.zx);
    lemma_unit_and_zero(plane.zx * plane.yz);
    lemma_unit_and_zero(plane.yz * plane.xy);
    lemma_unit_and_zero(plane.xy * plane.zx);
    lemma_unit_and_zero(1 - plane.yz * plane.yz);
    lemma_unit_and_zero(1 - plane.zx * plane.zx);
    lemma_unit_and_zero(1 - plane.xy * plane.xy);
}

/// The product of four factors in two groupings.
proof fn lemma_regroup(a: int, b: int, c: int)
    ensures
        (a * b) * c == a * (b * c),
{
    assert((a * b) * c == a * (b * c)) by (nonlinear_arith);
}

/// A sum of four terms times a factor, and a factor times such a sum.
proof fn lemma_four_terms(p: int, q: int, r: int, t: int, c: int)
    ensures
        (p + q + r + t) * c == p * c + q * c + r * c + t * c,
        c * (p + q + r + t) == c * p + c * q + c * r + c * t,
{
    assert((p + q + r + t) * c == p * c + q * c + r * c + t * c) by (nonlinear_arith);
    assert(c * (p + q + r + t) == c * p + c * q + c * r + c * t) by (nonlinear_arith);
}

/// The sixteen products of the parts of two rotors with a part of a third,
/// grouped from the left as they are grouped from the right.
proof fn lemma_regroup_all(a: Rotor<int>, b: Rotor<int>, c: int)
    ensures
        (a._1 * b._1) * c == a._1 * (b._1 * c),
        (a._1 * b.xy) * c == a._1 * (b.xy * c),
        (a._1 * b.yz) * c == a._1 * (b.yz * c),
        (a._1 * b.zx) * c == a._1 * (b.zx * c),
        (a.xy * b._1) * c == a.xy * (b._1 * c),
        (a.xy * b.xy) * c == a.xy * (b.xy * c),
        (a.xy * b.yz) * c == a.xy * (b.yz * c),
        (a.xy * b.zx) * c == a.xy * (b.zx * c),
        (a.yz * b._1) * c == a.yz * (b._1 * c),
        (a.yz * b.xy) * c == a.yz * (b.xy * c),
        (a.yz * b.yz) * c == a.yz * (b.yz * c),
        (a.yz * b.zx) * c == a.yz * (b.zx * c),
        (a.zx * b._1) * c == a.zx * (b._1 * c),
        (a.zx * b.xy) * c == a.zx * (b.xy * c),
        (a.zx * b.yz) * c == a.zx * (b.yz * c),
        (a.zx * b.zx) * c == a.zx * (b.zx * c),
{
    lemma_regroup(a._1, b._1, c);
    lemma_regroup(a._1, b.xy, c);
    lemma_regroup(a._1, b.yz, c);
    lemma_regroup(a._1, b.zx, c);
    lemma_regroup(a.xy, b._1, c);
    lemma_regroup(a.xy, b.xy, c);
    lemma_regroup(a.xy, b.yz, c);
    lemma_regroup(a.xy, b.zx, c);
    lemma_regroup(a.yz, b._1, c);
    lemma_regroup(a.yz, b.xy, c);
    lemma_regroup(a.yz, b.yz, c);
    lemma_regroup(a.yz, b.zx, c);
    lemma_regroup(a.zx, b._1, c);
    lemma_regroup(a.zx, b.xy, c);
    lemma_regroup(a.zx, b.yz, c);
    lemma_regroup(a.zx, b.zx, c);
}

/// The product of rotors is associative.
pub proof fn lemma_rotor_product_associative(
    a: Rotor<int>,
    b: Rotor<int>,
    c: Rotor<int>,
    m: Model<int>,
)
    requires
        is_exact(m),
    ensures
        a.times_of(b, m).times_of(c, m) == a.times_of(b.times_of(c, m), m),
{
    lemma_regroup_all(a, b, c._1);
    lemma_regroup_all(a, b, c.xy);
    lemma_regroup_all(a, b, c.yz);
    lemma_regroup_all(a, b, c.zx);
    let ab = a.times_of(b, m);
    let bc = b.times_of(c, m);
    lemma_four_terms(a._1 * b._1, -(a.xy * b.xy), -(a.yz * b.yz), -(a.zx * b.zx), c._1);
    lemma_four_terms(a._1 * b._1, -(a.xy * b.xy), -(a.yz * b.yz), -(a.zx * b.zx), c.xy);
    lemma_four_terms(a._1 * b._1, -(a.xy * b.xy), -(a.yz * b.yz), -(a.zx * b.zx), c.yz);
    lemma_four_terms(a._1 * b._1, -(a.xy * b.xy), -(a.yz * b.yz), -(a.zx * b.zx), c.zx);
    lemma_four_terms(a._1 * b.xy, a.xy * b._1, -(a.yz * b.zx), a.zx * b.yz, c._1);
    lemma_four_terms(a._1 * b.xy, a.xy * b._1, -(a.yz * b.zx), a.zx * b.yz, c.xy);
    lemma_four_terms(a._1 * b.xy, a.xy * b._1, -(a.yz * b.zx), a.zx * b.yz, c.yz);
    lemma_four_terms(a._1 * b.xy, a.xy * b._1, -(a.yz * b.zx), a.zx * b.yz, c.zx);
    lemma_four_terms(a._1 * b.yz, a.xy * b.zx, a.yz * b._1, -(a.zx * b.xy), c._1);
    lemma_four_terms(a._1 * b.yz, a.xy * b.zx, a.yz * b._1, -(a.zx * b.xy), c.xy);
    lemma_four_terms(a._1 * b.yz, a.xy * b.zx, a.yz * b._1, -(a.zx * b.xy), c.yz);
    lemma_four_terms(a._1 * b.yz, a.xy * b.zx, a.yz * b._1, -(a.zx * b.xy), c.zx);
    lemma_four_terms(a._1 * b.zx, a.yz * b.xy, -(a.xy * b.yz), a.zx * b._1, c._1);
    lemma_four_terms(a._1 * b.zx, a.yz * b.xy, -(a.xy * b.yz), a.zx * b._1, c.xy);
    lemma_four_terms(a._1 * b.zx, a.yz * b.xy, -(a.xy * b.yz), a.zx * b._1, c.yz);
    lemma_four_terms(a._1 * b.zx, a.yz * b.xy, -(a.xy * b.yz), a.zx * b._1, c.zx);
    lemma_four_terms(b._1 * c._1, -(b.xy * c.xy), -(b.yz * c.yz), -(b.zx * c.zx), a._1);
    lemma_four_terms(b._1 * c._1, -(b.xy * c.xy), -(b.yz * c.yz), -(b.zx * c.zx), a.xy);
    lemma_four_terms(b._1 * c._1, -(b.xy * c.xy), -(b.yz * c.yz), -(b.zx * c.zx), a.yz);
    lemma_four_terms(b._1 * c._1, -(b.xy * c.xy), -(b.yz * c.yz), -(b.zx * c.zx), a.zx);
    lemma_four_terms(b._1 * c.xy, b.xy * c._1, -(b.yz * c.zx), b.zx * c.yz, a._1);
    lemma_four_terms(b._1 * c.xy, b.xy * c._1, -(b.yz * c.zx), b.zx * c.yz, a.xy);
    lemma_four_terms(b._1 * c.xy, b.xy * c._1, -(b.yz * c.zx), b.zx * c.yz, a.yz);
    lemma_four_terms(b._1 * c.xy, b.xy * c._1, -(b.yz * c.zx), b.zx * c.yz, a.zx);
    lemma_four_terms(b._1 * c.yz, b.xy * c.zx, b.yz * c._1, -(b.zx * c.xy), a._1);
    lemma_four_terms(b._1 * c.yz, b.xy * c.zx, b.yz * c._1, -(b.zx * c.xy), a.xy);
    lemma_four_terms(b._1 * c.yz, b.xy * c.zx, b.yz * c._1, -(b.zx * c.xy), a.yz);
    lemma_four_terms(b._1 * c.yz, b.xy * c.zx, b.yz * c._1, -(b.zx * c.xy), a.zx);
    lemma_four_terms(b._1 * c.zx, b.yz * c.xy, -(b.xy * c.yz), b.zx * c._1, a._1);
    lemma_four_terms(b._1 * c.zx, b.yz * c.xy, -(b.xy * c.yz), b.zx * c._1, a.xy);
    lemma_four_terms(b._1 * c.zx, b.yz * c.xy, -(b.xy * c.yz), b.zx * c._1, a.yz);
    lemma_four_terms(b._1 * c.zx, b.yz * c.xy, -(b.xy * c.yz), b.zx * c._1, a.zx);
    lemma_negations();
}

/// A product with a negated factor is the negated product.
proof fn lemma_negated_factor(x: int, y: int)
    ensures
        (-x) * y == -(x * y),
        y * (-x) == -(y * x),
{
    assert((-x) * y == -(x * y)) by (nonlinear_arith);
    assert(y * (-x) == -(y * x)) by (nonlinear_arith);
}

/// Every product with a negated factor is the negated product.
proof fn lemma_negations()
    ensures
        forall|x: int, y: int| #[trigger] ((-x) * y) == -(x * y),
        forall|x: int, y: int| #[trigger] (y * (-x)) == -(y * x),
{
    assert forall|x: int, y: int| #[trigger] ((-x) * y) == -(x * y) by {
        lemma_negated_factor(x, y);
    }
    assert forall|x: int, y: int| #[trigger] (y * (-x)) == -(y * x) by {
        lemma_negated_factor(x, y);
    }
}

/// A rotor times the identity, from either side, is the rotor.
pub proof fn lemma_rotor_product_identity(a: Rotor<int>, m: Model<int>)
    requires
        is_exact(m),
    ensures
        Rotor::identity_of(m).times_of(a, m) == a,
        a.times_of(Rotor::identity_of(m), m) == a,
{
    lemma_unit_and_zero(a._1);
    lemma_unit_and_zero(a.xy);
    lemma_unit_and_zero(a.yz);
    lemma_unit_and_zero(a.zx);
}

/// The rotor that turns the other way: `rotor` with its plane negated.
pub open spec fn reverse_of(rotor: Rotor<int>) -> Rotor<int> {
    Rotor { _1: rotor._1, xy: -rotor.xy, yz: -rotor.yz, zx: -rotor.zx }
}

/// The rotor that only scales by `k`.
pub open spec fn scalar_rotor(k: int) -> Rotor<int> {
    Rotor { _1: k, xy: 0, yz: 0, zx: 0 }
}

/// Products of two numbers do not depend on the order of their factors.
proof fn lemma_commutes(x: int, y: int)
    ensures
        x * y == y * x,
{
    assert(x * y == y * x) by (nonlinear_arith);
}

/// A rotor times its reverse is its norm, and so is the reverse times the
/// rotor.
pub proof fn lemma_rotor_times_reverse(a: Rotor<int>, m: Model<int>)
    requires
        is_exact(m),
    ensures
        a.times_of(reverse_of(a), m) == scalar_rotor(a.norm_sqr_of(m)),
        reverse_of(a).times_of(a, m) == scalar_rotor(a.norm_sqr_of(m)),
{
    lemma_negations();
    lemma_commutes(a._1, a.xy);
    lemma_commutes(a._1, a.yz);
    lemma_commutes(a._1, a.zx);
    lemma_commutes(a.xy, a.yz);
    lemma_commutes(a.xy, a.zx);
    lemma_commutes(a.yz, a.zx);
}

/// The reverse of a product is the product of the reverses in reverse
/// order.
pub proof fn lemma_reverse_of_product(a: Rotor<int>, b: Rotor<int>, m: Model<int>)
    requires
        is_exact(m),
    ensures
        reverse_of(a.times_of(b, m)) == reverse_of(b).times_of(reverse_of(a), m),
{
    lemma_negations();
    lemma_commutes(a._1, b._1);
    lemma_commutes(a._1, b.xy);
    lemma_commutes(a._1, b.yz);
    lemma_commutes(a._1, b.zx);
    lemma_commutes(a.xy, b._1);
    lemma_commutes(a.xy, b.xy);
    lemma_commutes(a.xy, b.yz);
    lemma_commutes(a.xy, b.zx);
    lemma_commutes(a.yz, b._1);
    lemma_commutes(a.yz, b.xy);
    lemma_commutes(a.yz, b.yz);
    lemma_commutes(a.yz, b.zx);
    lemma_commutes(a.zx, b._1);
    lemma_commutes(a.zx, b.xy);
    lemma_commutes(a.zx, b.yz);
    lemma_commutes(a.zx, b.zx);
}

/// A rotor that only scales reduces the product to the multiplication by
/// its scalar, from either side.
pub proof fn lemma_scalar_rotor_scales(a: Rotor<int>, k: int, m: Model<int>)
    requires
        is_exact(m),
    ensures
        a.times_of(scalar_rotor(k), m) == (Rotor {
            _1: a._1 * k,
            xy: a.xy * k,
            yz: a.yz * k,
            zx: a.zx * k,
        }),
        scalar_rotor(k).times_of(a, m) == a.times_of(scalar_rotor(k), m),
{
    lemma_unit_and_zero(a._1);
    lemma_unit_and_zero(a.xy);
    lemma_unit_and_zero(a.yz);
    lemma_unit_and_zero(a.zx);
    lemma_commutes(a._1, k);
    lemma_commutes(a.xy, k);
    lemma_commutes(a.yz, k);
    lemma_commutes(a.zx, k);
}

/// The norm of a product of rotors is the product of their norms, so the
/// product of two rotations is a rotation.
pub proof fn lemma_rotor_product_norm(a: Rotor<int>, b: Rotor<int>, m: Model<int>)
    requires
        is_exact(m),
    ensures
        a.times_of(b, m).norm_sqr_of(m) == a.norm_sqr_of(m) * b.norm_sqr_of(m),
{
    let ab = a.times_of(b, m);
    let norm_a = a.norm_sqr_of(m);
    let norm_b = b.norm_sqr_of(m);
    // (a b) ~(a b) = a (b ~b) ~a = (a ~a) |b| = |a| |b|
    lemma_rotor_times_reverse(ab, m);
    lemma_reverse_of_product(a, b, m);
    lemma_rotor_product_associative(a, b, reverse_of(b).times_of(reverse_of(a), m), m);
    lemma_rotor_product_associative(b, reverse_of(b), reverse_of(a), m);
    lemma_rotor_times_reverse(b, m);
    lemma_scalar_rotor_scales(reverse_of(a), norm_b, m);
    let scaled = Rotor {
        _1: a._1 * norm_b,
        xy: -a.xy * norm_b,
        yz: -a.yz * norm_b,
        zx: -a.zx * norm_b,
    };
    assert(scalar_rotor(norm_b).times_of(reverse_of(a), m) == scaled);
    assert(ab.times_of(reverse_of(ab), m) == a.times_of(scaled, m));
    assert(a.times_of(scaled, m)._1 == norm_a * norm_b) by {
        lemma_negations();
        lemma_regroup(a._1, a._1, norm_b);
        lemma_regroup(a.xy, a.xy, norm_b);
        lemma_regroup(a.yz, a.yz, norm_b);
        lemma_regroup(a.zx, a.zx, norm_b);
        lemma_four_terms(a._1 * a._1, a.xy * a.xy, a.yz * a.yz, a.zx * a.zx, norm_b);
    }
}

/// The wedge of two parallel vectors is the zero bivector, and the wedge of
/// two vectors changes its sign when they are swapped.
pub proof fn lemma_wedge(v: Vector3<int>, w: Vector3<int>, k: int, m: Model<int>)
    requires
        is_exact(m),
    ensures
        v.wedge_of(v.scaled_of(k, m), m) == (BiVector3 { xy: 0int, yz: 0int, zx: 0int }),
        w.wedge_of(v, m) == (BiVector3 {
            xy: -v.wedge_of(w, m).xy,
            yz: -v.wedge_of(w, m).yz,
            zx: -v.wedge_of(w, m).zx,
        }),
{
    lemma_pairs_swap(v.x, v.y, k);
    lemma_pairs_swap(v.y, v.z, k);
    lemma_pairs_swap(v.z, v.x, k);
    lemma_commutes(v.x, w.y);
    lemma_commutes(v.y, w.x);
    lemma_commutes(v.y, w.z);
    lemma_commutes(v.z, w.y);
    lemma_commutes(v.z, w.x);
    lemma_commutes(v.x, w.z);
}

/// Two products of the same three factors.
proof fn lemma_pairs_swap(x: int, y: int, k: int)
    ensures
        x * (y * k) == y * (x * k),
{
    assert(x * (y * k) == y * (x * k)) by (nonlinear_arith);
}

/// The cosine and the sine of `angle` lie on the unit circle.
pub open spec fn is_angle(angle: int, m: Model<int>) -> bool {
    m.cos(angle) * m.cos(angle) + m.sin(angle) * m.sin(angle) == 1
}

/// `back` is the angle `angle` taken the other way round.
pub open spec fn is_opposite_angle(angle: int, back: int, m: Model<int>) -> bool {
    &&& m.cos(back) == m.cos(angle)
    &&& m.sin(back) == -m.sin(angle)
}

/// The first row of a rotation has unit length.
proof fn lemma_turn_row_is_unit(c: int, s: int, p: int, q: int, r: int)
    requires
        c * c + s * s == 1,
        p * p + q * q + r * r == 1,
    ensures
        ({
            let u = 1 - c;
            let x1 = (1 - q * q) * c + q * q;
            let x2 = (r * q) * u + p * s;
            let x3 = (q * p) * u - r * s;
            x1 * x1 + x2 * x2 + x3 * x3 == 1
        }),
{
    let u = 1 - c;
    let qq = q * q;
    let a = r * q;
    let b = q * p;
    let x1 = (1 - qq) * c + qq;
    let x2 = a * u + p * s;
    let x3 = b * u - r * s;
    let quu = qq * (u * u);
    assert(x1 == c + qq * u) by (nonlinear_arith)
        requires
            x1 == (1 - qq) * c + qq,
            u == 1 - c,
    ;
    assert(x1 * x1 == c * c + 2 * (c * (qq * u)) + (qq * u) * (qq * u)) by (nonlinear_arith)
        requires
            x1 == c + qq * u,
    ;
    assert(x2 * x2 == (a * u) * (a * u) + 2 * ((a * u) * (p * s)) + (p * s) * (p * s))
        by (nonlinear_arith)
        requires
            x2 == a * u + p * s,
    ;
    assert(x3 * x3 == (b * u) * (b * u) - 2 * ((b * u) * (r * s)) + (r * s) * (r * s))
        by (nonlinear_arith)
        requires
            x3 == b * u - r * s,
    ;
    assert((qq * u) * (qq * u) == (qq * qq) * (u * u)) by (nonlinear_arith);
    assert((a * u) * (a * u) == (qq * (r * r)) * (u * u)) by (nonlinear_arith)
        requires
            a == r * q,
            qq == q * q,
    ;
    assert((b * u) * (b * u) == (qq * (p * p)) * (u * u)) by (nonlinear_arith)
        requires
            b == q * p,
            qq == q * q,
    ;
    assert((a * u) * (p * s) == (b * u) * (r * s)) by (nonlinear_arith)
        requires
            a == r * q,
            b == q * p,
    ;
    assert((p * s) * (p * s) == (p * p) * (s * s)) by (nonlinear_arith);
    assert((r * s) * (r * s) == (r * r) * (s * s)) by (nonlinear_arith);
    assert((qq * qq) * (u * u) + (qq * (r * r)) * (u * u) + (qq * (p * p)) * (u * u) == quu)
        by (nonlinear_arith)
        requires
            p * p + q * q + r * r == 1,
            qq == q * q,
            quu == qq * (u * u),
    ;
    assert((p * p) * (s * s) + (r * r) * (s * s) == (1 - qq) * (s * s)) by (nonlinear_arith)
        requires
            p * p + q * q + r * r == 1,
            qq == q * q,
    ;
    // c^2 + 2 c q^2 u + q^2 u^2 + (1 - q^2) s^2 = c^2 + s^2 + q^2 (2 c u + u^2 - s^2)
    assert(c * c + 2 * (c * (qq * u)) + quu + (1 - qq) * (s * s) == 1) by (nonlinear_arith)
        requires
            c * c + s * s == 1,
            u == 1 - c,
            quu == qq * (u * u),
    ;
}

/// Two rows of a rotation are at right angles.
proof fn lemma_turn_rows_are_square(c: int, s: int, p: int, q: int, r: int)
    requires
        c * c + s * s == 1,
        p * p + q * q + r * r == 1,
    ensures
        ({
            let u = 1 - c;
            let x1 = (1 - q * q) * c + q * q;
            let x2 = (r * q) * u + p * s;
            let x3 = (q * p) * u - r * s;
            let y1 = (r * q) * u - p * s;
            let y2 = (1 - r * r) * c + r * r;
            let y3 = (p * r) * u + q * s;
            &&& x1 * y1 + x2 * y2 + x3 * y3 == 0
            &&& y1 * x1 + y2 * x2 + y3 * x3 == 0
        }),
{
    let u = 1 - c;
    let qq = q * q;
    let rr = r * r;
    let pp = p * p;
    let a = r * q;
    let b = p * s;
    let x1 = (1 - qq) * c + qq;
    let x2 = a * u + b;
    let x3 = (q * p) * u - r * s;
    let y1 = a * u - b;
    let y2 = (1 - rr) * c + rr;
    let y3 = (p * r) * u + q * s;
    assert(x1 == c + qq * u) by (nonlinear_arith)
        requires
            x1 == (1 - qq) * c + qq,
            u == 1 - c,
    ;
    assert(y2 == c + rr * u) by (nonlinear_arith)
        requires
            y2 == (1 - rr) * c + rr,
            u == 1 - c,
    ;
    let au = a * u;
    assert(x1 * y1 == c * au - c * b + (qq * u) * au - (qq * u) * b) by (nonlinear_arith)
        requires
            x1 == c + qq * u,
            y1 == au - b,
    ;
    assert(x2 * y2 == au * c + au * (rr * u) + b * c + b * (rr * u)) by (nonlinear_arith)
        requires
            x2 == au + b,
            y2 == c + rr * u,
    ;
    assert(x3 * y3 == ((q * p) * u) * ((p * r) * u) + ((q * p) * u) * (q * s) - (r * s) * ((p * r)
        * u) - (r * s) * (q * s)) by (nonlinear_arith)
        requires
            x3 == (q * p) * u - r * s,
            y3 == (p * r) * u + q * s,
    ;
    let auu = a * (u * u);
    let bu = b * u;
    assert((qq * u) * au == qq * auu) by (nonlinear_arith)
        requires
            au == a * u,
            auu == a * (u * u),
    ;
    assert(au * (rr * u) == rr * auu) by (nonlinear_arith)
        requires
            au == a * u,
            auu == a * (u * u),
    ;
    assert(((q * p) * u) * ((p * r) * u) == pp * auu) by (nonlinear_arith)
        requires
            a == r * q,
            pp == p * p,
            auu == a * (u * u),
    ;
    assert((qq * u) * b == qq * bu) by (nonlinear_arith)
        requires
            bu == b * u,
    ;
    assert(b * (rr * u) == rr * bu) by (nonlinear_arith)
        requires
            bu == b * u,
    ;
    assert(((q * p) * u) * (q * s) == qq * bu) by (nonlinear_arith)
        requires
            b == p * s,
            qq == q * q,
            bu == b * u,
    ;
    assert((r * s) * ((p * r) * u) == rr * bu) by (nonlinear_arith)
        requires
            b == p * s,
            rr == r * r,
            bu == b * u,
    ;
    assert((r * s) * (q * s) == a * (s * s)) by (nonlinear_arith)
        requires
            a == r * q,
    ;
    assert(c * au == au * c) by (nonlinear_arith);
    assert(c * b == b * c) by (nonlinear_arith);
    assert(qq * auu + rr * auu + pp * auu == auu) by (nonlinear_arith)
        requires
            pp + qq + rr == 1,
    ;
    // 2 c a u + a u^2 - a s^2 = a (2 c u + u^2 - s^2) = 0
    assert(2 * (au * c) + auu - a * (s * s) == 0) by (nonlinear_arith)
        requires
            c * c + s * s == 1,
            u == 1 - c,
            au == a * u,
            auu == a * (u * u),
    ;
    assert(y1 * x1 == x1 * y1 && y2 * x2 == x2 * y2 && y3 * x3 == x3 * y3) by (nonlinear_arith);
}

/// A rotation and then the rotation by the opposite angle in the same unit
/// plane is the identity, and so is the one after the other: negating the
/// angle undoes a rotation.
pub proof fn lemma_turn_and_turn_back(angle: int, back: int, plane: BiVector3<int>, m: Model<int>)
    requires
        is_exact(m),
        is_unit_plane(plane),
        is_angle(angle, m),
        is_opposite_angle(angle, back, m),
    ensures
        Affine3::turn_of(angle, plane, m).compose_of(Affine3::turn_of(back, plane, m), m)
            == Affine3::identity_of(m),
        Affine3::turn_of(back, plane, m).compose_of(Affine3::turn_of(angle, plane, m), m)
            == Affine3::identity_of(m),
{
    let c = m.cos(angle);
    let s = m.sin(angle);
    let p = plane.xy;
    let q = plane.yz;
    let r = plane.zx;
    assert(p * (-s) == -(p * s) && q * (-s) == -(q * s) && r * (-s) == -(r * s))
        by (nonlinear_arith);
    assert((-s) * (-s) == s * s) by (nonlinear_arith);
    lemma_turn_row_is_unit(c, s, p, q, r);
    lemma_turn_row_is_unit(c, s, q, r, p);
    lemma_turn_row_is_unit(c, s, r, p, q);
    lemma_turn_rows_are_square(c, s, p, q, r);
    lemma_turn_rows_are_square(c, s, q, r, p);
    lemma_turn_rows_are_square(c, s, r, p, q);
    lemma_turn_row_is_unit(c, -s, p, q, r);
    lemma_turn_row_is_unit(c, -s, q, r, p);
    lemma_turn_row_is_unit(c, -s, r, p, q);
    lemma_turn_rows_are_square(c, -s, p, q, r);
    lemma_turn_rows_are_square(c, -s, q, r, p);
    lemma_turn_rows_are_square(c, -s, r, p, q);
}

} // verus!
