//! Vectors, bivectors, rotors and affine maps of three-dimensional
//! geometric algebra, over any scalars.
//!
//! Every function takes the scalars' operations as its last argument and
//! states its result under every model that they answer by; the function
//! with `_of` at the end of its name is that result.

use vstd::prelude::*;
use crate::scalar::{Fun, Model, Op, Rel, Scalars};

verus! {

/// A point or a free vector.
#[derive(Clone, Copy, Debug, PartialEq)]
pub struct Vector3<T> {
    pub x: T,
    pub y: T,
    pub z: T,
}

/// An oriented plane element, the generator of a rotation.
#[derive(Clone, Copy, Debug, PartialEq)]
pub struct BiVector3<T> {
    pub xy: T,
    pub yz: T,
    pub zx: T,
}

/// One scale factor for each axis.
#[derive(Clone, Copy, Debug, PartialEq)]
pub struct Scale3<T> {
    pub x: T,
    pub y: T,
    pub z: T,
}

/// An element of the even subalgebra: a scalar part and a bivector part.
/// With unit norm it is a rotation.
#[derive(Clone, Copy, Debug, PartialEq)]
pub struct Rotor<T> {
    pub _1: T,
    pub xy: T,
    pub yz: T,
    pub zx: T,
}

/// An affine map `v -> v * L + t` on row vectors. The field `ab` is the
/// contribution of input axis `a` to output axis `b`; `_b` is the
/// translation along `b`.
#[derive(Clone, Copy, Debug, PartialEq)]
pub struct Affine3<T> {
    pub xx: T,
    pub yx: T,
    pub zx: T,
    pub _x: T,
    pub xy: T,
    pub yy: T,
    pub zy: T,
    pub _y: T,
    pub xz: T,
    pub yz: T,
    pub zz: T,
    pub _z: T,
}

/// A point or a free vector of the plane.
#[derive(Clone, Copy, Debug, PartialEq)]
pub struct Vector2<T> {
    pub x: T,
    pub y: T,
}

/// The signed area spanned by two vectors of the plane.
#[derive(Clone, Copy, Debug, PartialEq)]
pub struct BiVector2<T> {
    pub xy: T,
}

/// One scale factor for each axis of the plane.
#[derive(Clone, Copy, Debug, PartialEq)]
pub struct Scale2<T> {
    pub x: T,
    pub y: T,
}

impl<T: Copy> Scale3<T> {
    /// The scale with the given parts.
    pub fn new(x: T, y: T, z: T) -> (scale: Self)
        ensures
            scale == (Scale3 { x, y, z }),
    {
        Scale3 { x, y, z }
    }

    /// The scale that leaves every axis as it is.
    pub open spec fn identity_of(m: Model<T>) -> Self {
        Scale3 { x: m.one, y: m.one, z: m.one }
    }

    /// The scale that leaves every axis as it is.
    pub fn identity<A, U, C>(s: &Scalars<T, A, U, C>) -> (scale: Self) where
        A: Fn(Op, T, T) -> T,
        U: Fn(Fun, T) -> T,
        C: Fn(Rel, T, T) -> bool,

        ensures
            forall|m: Model<T>| #[trigger] s.answer_by(m) ==> scale == Self::identity_of(m),
    {
        Scale3 { x: s.one, y: s.one, z: s.one }
    }

    /// Every factor of `self` times `rhs`.
    pub open spec fn scaled_of(self, rhs: T, m: Model<T>) -> Self {
        Scale3 { x: m.mul(self.x, rhs), y: m.mul(self.y, rhs), z: m.mul(self.z, rhs) }
    }

    /// Every factor of `self` times `rhs`.
    pub fn scaled<A, U, C>(self, rhs: T, s: &Scalars<T, A, U, C>) -> (scale: Self) where
        A: Fn(Op, T, T) -> T,
        U: Fn(Fun, T) -> T,
        C: Fn(Rel, T, T) -> bool,

        requires
            s.askable(),
        ensures
            forall|m: Model<T>| #[trigger] s.answer_by(m) ==> scale == self.scaled_of(rhs, m),
    {
        Scale3 { x: s.product(self.x, rhs), y: s.product(self.y, rhs), z: s.product(self.z, rhs) }
    }

    /// The scale that applies `self` and then `rhs`.
    pub open spec fn times_of(self, rhs: Self, m: Model<T>) -> Self {
        Scale3 { x: m.mul(self.x, rhs.x), y: m.mul(self.y, rhs.y), z: m.mul(self.z, rhs.z) }
    }

    /// The scale that applies `self` and then `rhs`.
    pub fn times<A, U, C>(self, rhs: Self, s: &Scalars<T, A, U, C>) -> (scale: Self) where
        A: Fn(Op, T, T) -> T,
        U: Fn(Fun, T) -> T,
        C: Fn(Rel, T, T) -> bool,

        requires
            s.askable(),
        ensures
            forall|m: Model<T>| #[trigger] s.answer_by(m) ==> scale == self.times_of(rhs, m),
    {
        Scale3 {
            x: s.product(self.x, rhs.x),
            y: s.product(self.y, rhs.y),
            z: s.product(self.z, rhs.z),
        }
    }
}

impl<T: Copy> Scale2<T> {
    /// The scale with the given parts.
    pub fn new(x: T, y: T) -> (scale: Self)
        ensures
            scale == (Scale2 { x, y }),
    {
        Scale2 { x, y }
    }
}

impl<T: Copy> Vector2<T> {
    /// The vector with the given parts.
    pub fn new(x: T, y: T) -> (v: Self)
        ensures
            v == (Vector2 { x, y }),
    {
        Vector2 { x, y }
    }

    /// The vector of no length.
    pub open spec fn identity_of(m: Model<T>) -> Self {
        Vector2 { x: m.zero, y: m.zero }
    }

    /// The vector of no length.
    pub fn identity<A, U, C>(s: &Scalars<T, A, U, C>) -> (v: Self) where
        A: Fn(Op, T, T) -> T,
        U: Fn(Fun, T) -> T,
        C: Fn(Rel, T, T) -> bool,

        ensures
            forall|m: Model<T>| #[trigger] s.answer_by(m) ==> v == Self::identity_of(m),
    {
        Vector2 { x: s.zero, y: s.zero }
    }

    /// The area that `self` and `rhs` span, positive where `rhs` is to the
    /// left of `self`.
    pub open spec fn wedge_of(self, rhs: Self, m: Model<T>) -> BiVector2<T> {
        BiVector2 { xy: m.sub(m.mul(self.x, rhs.y), m.mul(self.y, rhs.x)) }
    }

    /// The area that `self` and `rhs` span, positive where `rhs` is to the
    /// left of `self`.
    pub fn wedge<A, U, C>(self, rhs: Vector2<T>, s: &Scalars<T, A, U, C>) -> (area: BiVector2<
        T,
    >) where A: Fn(Op, T, T) -> T, U: Fn(Fun, T) -> T, C: Fn(Rel, T, T) -> bool
        requires
            s.askable(),
        ensures
            forall|m: Model<T>| #[trigger] s.answer_by(m) ==> area == self.wedge_of(rhs, m),
    {
        BiVector2 { xy: s.difference(s.product(self.x, rhs.y), s.product(self.y, rhs.x)) }
    }

    /// `self` times the scalar `rhs`.
    pub open spec fn scaled_of(self, rhs: T, m: Model<T>) -> Self {
        Vector2 { x: m.mul(self.x, rhs), y: m.mul(self.y, rhs) }
    }

    /// `self` times the scalar `rhs`.
    pub fn scaled<A, U, C>(self, rhs: T, s: &Scalars<T, A, U, C>) -> (v: Self) where
        A: Fn(Op, T, T) -> T,
        U: Fn(Fun, T) -> T,
        C: Fn(Rel, T, T) -> bool,

        requires
            s.askable(),
        ensures
            forall|m: Model<T>| #[trigger] s.answer_by(m) ==> v == self.scaled_of(rhs, m),
    {
        Vector2 { x: s.product(self.x, rhs), y: s.product(self.y, rhs) }
    }

    /// `self` and `rhs` added.
    pub open spec fn plus_of(self, rhs: Self, m: Model<T>) -> Self {
        Vector2 { x: m.add(self.x, rhs.x), y: m.add(self.y, rhs.y) }
    }

    /// `self` and `rhs` added.
    pub fn plus<A, U, C>(self, rhs: Self, s: &Scalars<T, A, U, C>) -> (v: Self) where
        A: Fn(Op, T, T) -> T,
        U: Fn(Fun, T) -> T,
        C: Fn(Rel, T, T) -> bool,

        requires
            s.askable(),
        ensures
            forall|m: Model<T>| #[trigger] s.answer_by(m) ==> v == self.plus_of(rhs, m),
    {
        Vector2 { x: s.sum(self.x, rhs.x), y: s.sum(self.y, rhs.y) }
    }

    /// `rhs` taken from `self`.
    pub open spec fn minus_of(self, rhs: Self, m: Model<T>) -> Self {
        Vector2 { x: m.sub(self.x, rhs.x), y: m.sub(self.y, rhs.y) }
    }

    /// `rhs` taken from `self`.
    pub fn minus<A, U, C>(self, rhs: Self, s: &Scalars<T, A, U, C>) -> (v: Self) where
        A: Fn(Op, T, T) -> T,
        U: Fn(Fun, T) -> T,
        C: Fn(Rel, T, T) -> bool,

        requires
            s.askable(),
        ensures
            forall|m: Model<T>| #[trigger] s.answer_by(m) ==> v == self.minus_of(rhs, m),
    {
        Vector2 { x: s.difference(self.x, rhs.x), y: s.difference(self.y, rhs.y) }
    }

    /// `self` turned round.
    pub open spec fn negated_of(self, m: Model<T>) -> Self {
        Vector2 { x: m.neg(self.x), y: m.neg(self.y) }
    }

    /// `self` turned round.
    pub fn negated<A, U, C>(self, s: &Scalars<T, A, U, C>) -> (v: Self) where
        A: Fn(Op, T, T) -> T,
        U: Fn(Fun, T) -> T,
        C: Fn(Rel, T, T) -> bool,

        requires
            s.askable(),
        ensures
            forall|m: Model<T>| #[trigger] s.answer_by(m) ==> v == self.negated_of(m),
    {
        Vector2 { x: s.negated(self.x), y: s.negated(self.y) }
    }
}

impl<T: Copy> Vector3<T> {
    /// The vector with the given parts.
    pub fn new(x: T, y: T, z: T) -> (v: Self)
        ensures
            v == (Vector3 { x, y, z }),
    {
        Vector3 { x, y, z }
    }

    /// The vector of no length.
    pub open spec fn identity_of(m: Model<T>) -> Self {
        Vector3 { x: m.zero, y: m.zero, z: m.zero }
    }

    /// The square of the length of `self`.
    pub open spec fn norm_sqr_of(self, m: Model<T>) -> T {
        m.dot3(self.x, self.x, self.y, self.y, self.z, self.z)
    }

    /// The plane that `self` and `rhs` span; zero where they are parallel.
    pub open spec fn wedge_of(self, rhs: Self, m: Model<T>) -> BiVector3<T> {
        BiVector3 {
            xy: m.sub(m.mul(self.x, rhs.y), m.mul(self.y, rhs.x)),
            yz: m.sub(m.mul(self.y, rhs.z), m.mul(self.z, rhs.y)),
            zx: m.sub(m.mul(self.z, rhs.x), m.mul(self.x, rhs.z)),
        }
    }

    /// The inner product of `self` and `rhs`.
    pub open spec fn dot_of(self, rhs: Self, m: Model<T>) -> T {
        m.dot3(self.x, rhs.x, self.y, rhs.y, self.z, rhs.z)
    }

    /// The image of `self` under `a`: `self` times the linear part of `a`,
    /// moved by its translation.
    pub open spec fn apply_of(self, a: Affine3<T>, m: Model<T>) -> Self {
        Vector3 {
            x: m.add(m.dot3(self.x, a.xx, self.y, a.yx, self.z, a.zx), a._x),
            y: m.add(m.dot3(self.x, a.xy, self.y, a.yy, self.z, a.zy), a._y),
            z: m.add(m.dot3(self.x, a.xz, self.y, a.yz, self.z, a.zz), a._z),
        }
    }

    /// `rhs` taken from `self`.
    pub open spec fn minus_of(self, rhs: Self, m: Model<T>) -> Self {
        Vector3 { x: m.sub(self.x, rhs.x), y: m.sub(self.y, rhs.y), z: m.sub(self.z, rhs.z) }
    }

    /// `self` and `rhs` added.
    pub open spec fn plus_of(self, rhs: Self, m: Model<T>) -> Self {
        Vector3 { x: m.add(self.x, rhs.x), y: m.add(self.y, rhs.y), z: m.add(self.z, rhs.z) }
    }

    /// `self` divided by the scalar `rhs`.
    pub open spec fn divided_of(self, rhs: T, m: Model<T>) -> Self {
        Vector3 { x: m.div(self.x, rhs), y: m.div(self.y, rhs), z: m.div(self.z, rhs) }
    }

    /// `self` times the scalar `rhs`.
    pub open spec fn scaled_of(self, rhs: T, m: Model<T>) -> Self {
        Vector3 { x: m.mul(self.x, rhs), y: m.mul(self.y, rhs), z: m.mul(self.z, rhs) }
    }

    /// `self` turned round.
    pub open spec fn negated_of(self, m: Model<T>) -> Self {
        Vector3 { x: m.neg(self.x), y: m.neg(self.y), z: m.neg(self.z) }
    }

    /// The vector of no length.
    pub fn identity<A, U, C>(s: &Scalars<T, A, U, C>) -> (v: Self) where
        A: Fn(Op, T, T) -> T,
        U: Fn(Fun, T) -> T,
        C: Fn(Rel, T, T) -> bool,

        ensures
            forall|m: Model<T>| #[trigger] s.answer_by(m) ==> v == Self::identity_of(m),
    {
        Vector3 { x: s.zero, y: s.zero, z: s.zero }
    }
    
    /// The square of the length of `self`.
    pub fn norm_sqr<A, U, C>(&self, s: &Scalars<T, A, U, C>) -> (norm_sqr: T) where
        A: Fn(Op, T, T) -> T,
        U: Fn(Fun, T) -> T,
        C: Fn(Rel, T, T) -> bool,

        requires
            s.askable(),
        ensures
            forall|m: Model<T>| #[trigger] s.answer_by(m) ==> norm_sqr == self.norm_sqr_of(m),
    {
        s.dot3(self.x, self.x, self.y, self.y, self.z, self.z)
    }
    
    /// The plane that `self` and `rhs` span; zero where they are parallel.
    pub fn wedge<A, U, C>(
        &self,
        rhs: &Vector3<T>,
        s: &Scalars<T, A, U, C>,
    ) -> (plane: BiVector3<T>) where
        A: Fn(Op, T, T) -> T,
        U: Fn(Fun, T) -> T,
        C: Fn(Rel, T, T) -> bool,

        requires
            s.askable(),
        ensures
            forall|m: Model<T>| #[trigger] s.answer_by(m) ==> plane == self.wedge_of(*rhs, m),
    {
        BiVector3 {
            xy: s.difference(s.product(self.x, rhs.y), s.product(self.y, rhs.x)),
            yz: s.difference(s.product(self.y, rhs.z), s.product(self.z, rhs.y)),
            zx: s.difference(s.product(self.z, rhs.x), s.product(self.x, rhs.z)),
        }
    }
    
    /// The inner product of `self` and `rhs`.
    pub fn dot<A, U, C>(&self, rhs: &Vector3<T>, s: &Scalars<T, A, U, C>) -> (dot: T) where
        A: Fn(Op, T, T) -> T,
        U: Fn(Fun, T) -> T,
        C: Fn(Rel, T, T) -> bool,

        requires
            s.askable(),
        ensures
            forall|m: Model<T>| #[trigger] s.answer_by(m) ==> dot == self.dot_of(*rhs, m),
    {
        s.dot3(self.x, rhs.x, self.y, rhs.y, self.z, rhs.z)
    }
    
    /// The image of `self` under `a`.
    pub fn apply<A, U, C>(&self, a: &Affine3<T>, s: &Scalars<T, A, U, C>) -> (image: Self) where
        A: Fn(Op, T, T) -> T,
        U: Fn(Fun, T) -> T,
        C: Fn(Rel, T, T) -> bool,

        requires
            s.askable(),
        ensures
            forall|m: Model<T>| #[trigger] s.answer_by(m) ==> image == self.apply_of(*a, m),
    {
        Vector3 {
            x: s.sum(s.dot3(self.x, a.xx, self.y, a.yx, self.z, a.zx), a._x),
            y: s.sum(s.dot3(self.x, a.xy, self.y, a.yy, self.z, a.zy), a._y),
            z: s.sum(s.dot3(self.x, a.xz, self.y, a.yz, self.z, a.zz), a._z),
        }
    }
    /// `rhs` taken from `self`.
    pub fn minus<A, U, C>(self, rhs: Self, s: &Scalars<T, A, U, C>) -> (v: Self) where
        A: Fn(Op, T, T) -> T,
        U: Fn(Fun, T) -> T,
        C: Fn(Rel, T, T) -> bool,

        requires
            s.askable(),
        ensures
            forall|m: Model<T>| #[trigger] s.answer_by(m) ==> v == self.minus_of(rhs, m),
    {
        Vector3 {
            x: s.difference(self.x, rhs.x),
            y: s.difference(self.y, rhs.y),
            z: s.difference(self.z, rhs.z),
        }
    }
    /// `self` and `rhs` added.
    pub fn plus<A, U, C>(self, rhs: Self, s: &Scalars<T, A, U, C>) -> (v: Self) where
        A: Fn(Op, T, T) -> T,
        U: Fn(Fun, T) -> T,
        C: Fn(Rel, T, T) -> bool,

        requires
            s.askable(),
        ensures
            forall|m: Model<T>| #[trigger] s.answer_by(m) ==> v == self.plus_of(rhs, m),
    {
        Vector3 { x: s.sum(self.x, rhs.x), y: s.sum(self.y, rhs.y), z: s.sum(self.z, rhs.z) }
    }
    /// `self` divided by the scalar `rhs`.
    pub fn divided<A, U, C>(self, rhs: T, s: &Scalars<T, A, U, C>) -> (v: Self) where
        A: Fn(Op, T, T) -> T,
        U: Fn(Fun, T) -> T,
        C: Fn(Rel, T, T) -> bool,

        requires
            s.askable(),
        ensures
            forall|m: Model<T>| #[trigger] s.answer_by(m) ==> v == self.divided_of(rhs, m),
    {
        Vector3 {
            x: s.quotient(self.x, rhs),
            y: s.quotient(self.y, rhs),
            z: s.quotient(self.z, rhs),
        }
    }
    /// `self` times the scalar `rhs`.
    pub fn scaled<A, U, C>(self, rhs: T, s: &Scalars<T, A, U, C>) -> (v: Self) where
        A: Fn(Op, T, T) -> T,
        U: Fn(Fun, T) -> T,
        C: Fn(Rel, T, T) -> bool,

        requires
            s.askable(),
        ensures
            forall|m: Model<T>| #[trigger] s.answer_by(m) ==> v == self.scaled_of(rhs, m),
    {
        Vector3 {
            x: s.product(self.x, rhs),
            y: s.product(self.y, rhs),
            z: s.product(self.z, rhs),
        }
    }
    /// `self` turned round.
    pub fn negated<A, U, C>(self, s: &Scalars<T, A, U, C>) -> (v: Self) where
        A: Fn(Op, T, T) -> T,
        U: Fn(Fun, T) -> T,
        C: Fn(Rel, T, T) -> bool,

        requires
            s.askable(),
        ensures
            forall|m: Model<T>| #[trigger] s.answer_by(m) ==> v == self.negated_of(m),
    {
        Vector3 { x: s.negated(self.x), y: s.negated(self.y), z: s.negated(self.z) }
    }
}

impl<T: Copy> BiVector3<T> {
    /// The bivector with the given parts.
    pub fn new(xy: T, yz: T, zx: T) -> (b: Self)
        ensures
            b == (BiVector3 { xy, yz, zx }),
    {
        BiVector3 { xy, yz, zx }
    }

    /// The commutator product of `self` and `other`.
    pub open spec fn commute_of(self, other: Self, m: Model<T>) -> Self {
        BiVector3 {
            xy: m.sub(m.mul(self.yz, other.zx), m.mul(other.yz, self.zx)),
            yz: m.sub(m.mul(self.zx, other.xy), m.mul(other.zx, self.xy)),
            zx: m.sub(m.mul(self.xy, other.yz), m.mul(other.xy, self.yz)),
        }
    }

    /// The square of the magnitude of `self`.
    pub open spec fn norm_sqr_of(self, m: Model<T>) -> T {
        m.dot3(self.xy, self.xy, self.yz, self.yz, self.zx, self.zx)
    }

    /// `self` and `rhs` added.
    pub open spec fn plus_of(self, rhs: Self, m: Model<T>) -> Self {
        BiVector3 {
            xy: m.add(self.xy, rhs.xy),
            yz: m.add(self.yz, rhs.yz),
            zx: m.add(self.zx, rhs.zx),
        }
    }

    /// `self` times the scalar `rhs`.
    pub open spec fn scaled_of(self, rhs: T, m: Model<T>) -> Self {
        BiVector3 { xy: m.mul(self.xy, rhs), yz: m.mul(self.yz, rhs), zx: m.mul(self.zx, rhs) }
    }

    /// `self` divided by the scalar `rhs`.
    pub open spec fn divided_of(self, rhs: T, m: Model<T>) -> Self {
        BiVector3 { xy: m.div(self.xy, rhs), yz: m.div(self.yz, rhs), zx: m.div(self.zx, rhs) }
    }

    /// The rotor of the bivector `self`, which stands for an angle times a
    /// unit plane: the cosine of the angle and the sine of the angle times
    /// the plane. The zero bivector has the identity for its rotor.
    pub open spec fn exp_of(self, m: Model<T>) -> Rotor<T> {
        let norm_sqr = self.norm_sqr_of(m);
        if m.equal(norm_sqr, m.zero) {
            Rotor::identity_of(m)
        } else {
            let norm = m.sqrt(norm_sqr);
            let turned = self.divided_of(norm, m).scaled_of(m.sin(norm), m);
            Rotor { _1: m.cos(norm), xy: turned.xy, yz: turned.yz, zx: turned.zx }
        }
    }

    /// The geometric product of the bivector `self` and the rotor `rhs`.
    pub open spec fn times_rotor_of(self, rhs: Rotor<T>, m: Model<T>) -> Rotor<T> {
        Rotor {
            _1: m.sub(
                m.sub(m.mul(m.neg(self.xy), rhs.xy), m.mul(self.yz, rhs.yz)),
                m.mul(self.zx, rhs.zx),
            ),
            xy: m.add(
                m.sub(m.mul(self.xy, rhs._1), m.mul(self.yz, rhs.zx)),
                m.mul(self.zx, rhs.yz),
            ),
            yz: m.sub(
                m.add(m.mul(self.xy, rhs.zx), m.mul(self.yz, rhs._1)),
                m.mul(self.zx, rhs.xy),
            ),
            zx: m.add(
                m.sub(m.mul(self.yz, rhs.xy), m.mul(self.xy, rhs.yz)),
                m.mul(self.zx, rhs._1),
            ),
        }
    }
    
    /// The commutator product of `self` and `other`.
    pub fn commute<A, U, C>(
        &self,
        other: &BiVector3<T>,
        s: &Scalars<T, A, U, C>,
    ) -> (b: BiVector3<T>) where
        A: Fn(Op, T, T) -> T,
        U: Fn(Fun, T) -> T,
        C: Fn(Rel, T, T) -> bool,

        requires
            s.askable(),
        ensures
            forall|m: Model<T>| #[trigger] s.answer_by(m) ==> b == self.commute_of(*other, m),
    {
        BiVector3 {
            xy: s.difference(s.product(self.yz, other.zx), s.product(other.yz, self.zx)),
            yz: s.difference(s.product(self.zx, other.xy), s.product(other.zx, self.xy)),
            zx: s.difference(s.product(self.xy, other.yz), s.product(other.xy, self.yz)),
        }
    }
    
    /// The square of the magnitude of `self`.
    pub fn norm_sqr<A, U, C>(&self, s: &Scalars<T, A, U, C>) -> (norm_sqr: T) where
        A: Fn(Op, T, T) -> T,
        U: Fn(Fun, T) -> T,
        C: Fn(Rel, T, T) -> bool,

        requires
            s.askable(),
        ensures
            forall|m: Model<T>| #[trigger] s.answer_by(m) ==> norm_sqr == self.norm_sqr_of(m),
    {
        s.dot3(self.xy, self.xy, self.yz, self.yz, self.zx, self.zx)
    }
    /// `self` and `rhs` added.
    pub fn plus<A, U, C>(self, rhs: Self, s: &Scalars<T, A, U, C>) -> (b: Self) where
        A: Fn(Op, T, T) -> T,
        U: Fn(Fun, T) -> T,
        C: Fn(Rel, T, T) -> bool,

        requires
            s.askable(),
        ensures
            forall|m: Model<T>| #[trigger] s.answer_by(m) ==> b == self.plus_of(rhs, m),
    {
        BiVector3 {
            xy: s.sum(self.xy, rhs.xy),
            yz: s.sum(self.yz, rhs.yz),
            zx: s.sum(self.zx, rhs.zx),
        }
    }
    /// `self` times the scalar `rhs`.
    pub fn scaled<A, U, C>(self, rhs: T, s: &Scalars<T, A, U, C>) -> (b: Self) where
        A: Fn(Op, T, T) -> T,
        U: Fn(Fun, T) -> T,
        C: Fn(Rel, T, T) -> bool,

        requires
            s.askable(),
        ensures
            forall|m: Model<T>| #[trigger] s.answer_by(m) ==> b == self.scaled_of(rhs, m),
    {
        BiVector3 {
            xy: s.product(self.xy, rhs),
            yz: s.product(self.yz, rhs),
            zx: s.product(self.zx, rhs),
        }
    }
    /// `self` divided by the scalar `rhs`.
    pub fn divided<A, U, C>(self, rhs: T, s: &Scalars<T, A, U, C>) -> (b: Self) where
        A: Fn(Op, T, T) -> T,
        U: Fn(Fun, T) -> T,
        C: Fn(Rel, T, T) -> bool,

        requires
            s.askable(),
        ensures
            forall|m: Model<T>| #[trigger] s.answer_by(m) ==> b == self.divided_of(rhs, m),
    {
        BiVector3 {
            xy: s.quotient(self.xy, rhs),
            yz: s.quotient(self.yz, rhs),
            zx: s.quotient(self.zx, rhs),
        }
    }
    
    /// The rotor of the bivector `self`: for an angle times a unit plane, the
    /// cosine of the angle and the sine of the angle times the plane; for the
    /// zero bivector, the identity.
    pub fn exp<A, U, C>(self, s: &Scalars<T, A, U, C>) -> (rotor: Rotor<T>) where
        A: Fn(Op, T, T) -> T,
        U: Fn(Fun, T) -> T,
        C: Fn(Rel, T, T) -> bool,

        requires
            s.askable(),
        ensures
            forall|m: Model<T>| #[trigger] s.answer_by(m) ==> rotor == self.exp_of(m),
    {
        let norm_sqr = self.norm_sqr(s);
        if s.is_equal(norm_sqr, s.zero) {
            return Rotor::identity(s);
        }
        let norm = s.sqrt(norm_sqr);
        let cos = s.cos(norm);
        let turned = self.divided(norm, s).scaled(s.sin(norm), s);
        Rotor { _1: cos, xy: turned.xy, yz: turned.yz, zx: turned.zx }
    }
    
    /// The geometric product of the bivector `self` and the rotor `rhs`.
    pub fn times_rotor<A, U, C>(
        self,
        rhs: Rotor<T>,
        s: &Scalars<T, A, U, C>,
    ) -> (rotor: Rotor<T>) where
        A: Fn(Op, T, T) -> T,
        U: Fn(Fun, T) -> T,
        C: Fn(Rel, T, T) -> bool,

        requires
            s.askable(),
        ensures
            forall|m: Model<T>| #[trigger] s.answer_by(m) ==> rotor == self.times_rotor_of(rhs, m),
    {
        Rotor {
            _1: s.difference(
                s.difference(s.product(s.negated(self.xy), rhs.xy), s.product(self.yz, rhs.yz)),
                s.product(self.zx, rhs.zx),
            ),
            xy: s.sum(
                s.difference(s.product(self.xy, rhs._1), s.product(self.yz, rhs.zx)),
                s.product(self.zx, rhs.yz),
            ),
            yz: s.difference(
                s.sum(s.product(self.xy, rhs.zx), s.product(self.yz, rhs._1)),
                s.product(self.zx, rhs.xy),
            ),
            zx: s.sum(
                s.difference(s.product(self.yz, rhs.xy), s.product(self.xy, rhs.yz)),
                s.product(self.zx, rhs._1),
            ),
        }
    }
}

impl<T: Copy> Rotor<T> {
    /// The rotor that turns nothing.
    pub open spec fn identity_of(m: Model<T>) -> Self {
        Rotor { _1: m.one, xy: m.zero, yz: m.zero, zx: m.zero }
    }

    /// The square of the norm of `self`; one for a rotation.
    pub open spec fn norm_sqr_of(self, m: Model<T>) -> T {
        m.add(
            m.add(m.add(m.mul(self._1, self._1), m.mul(self.xy, self.xy)), m.mul(self.yz, self.yz)),
            m.mul(self.zx, self.zx),
        )
    }

    /// The geometric product of `self` and `rhs`, with `xy * yz = -zx`,
    /// `yz * zx = -xy` and `zx * xy = -yz`: the rotor that turns as `self`
    /// does and then as `rhs` does.
    pub open spec fn times_of(self, rhs: Self, m: Model<T>) -> Self {
        Rotor {
            _1: m.sub(
                m.sub(
                    m.sub(m.mul(self._1, rhs._1), m.mul(self.xy, rhs.xy)),
                    m.mul(self.yz, rhs.yz),
                ),
                m.mul(self.zx, rhs.zx),
            ),
            xy: m.add(
                m.sub(
                    m.add(m.mul(self._1, rhs.xy), m.mul(self.xy, rhs._1)),
                    m.mul(self.yz, rhs.zx),
                ),
                m.mul(self.zx, rhs.yz),
            ),
            yz: m.sub(
                m.add(
                    m.add(m.mul(self._1, rhs.yz), m.mul(self.xy, rhs.zx)),
                    m.mul(self.yz, rhs._1),
                ),
                m.mul(self.zx, rhs.xy),
            ),
            zx: m.add(
                m.sub(
                    m.add(m.mul(self._1, rhs.zx), m.mul(self.yz, rhs.xy)),
                    m.mul(self.xy, rhs.yz),
                ),
                m.mul(self.zx, rhs._1),
            ),
        }
    }

    /// `self` divided by the scalar `rhs`.
    pub open spec fn divided_of(self, rhs: T, m: Model<T>) -> Self {
        Rotor {
            _1: m.div(self._1, rhs),
            xy: m.div(self.xy, rhs),
            yz: m.div(self.yz, rhs),
            zx: m.div(self.zx, rhs),
        }
    }
    
    /// The rotor that turns nothing.
    pub fn identity<A, U, C>(s: &Scalars<T, A, U, C>) -> (rotor: Self) where
        A: Fn(Op, T, T) -> T,
        U: Fn(Fun, T) -> T,
        C: Fn(Rel, T, T) -> bool,

        ensures
            forall|m: Model<T>| #[trigger] s.answer_by(m) ==> rotor == Self::identity_of(m),
    {
        Rotor { _1: s.one, xy: s.zero, yz: s.zero, zx: s.zero }
    }
    
    /// The square of the norm of `self`; one for a rotation.
    pub fn norm_sqr<A, U, C>(&self, s: &Scalars<T, A, U, C>) -> (norm_sqr: T) where
        A: Fn(Op, T, T) -> T,
        U: Fn(Fun, T) -> T,
        C: Fn(Rel, T, T) -> bool,

        requires
            s.askable(),
        ensures
            forall|m: Model<T>| #[trigger] s.answer_by(m) ==> norm_sqr == self.norm_sqr_of(m),
    {
        s.sum(
            s.sum(
                s.sum(s.product(self._1, self._1), s.product(self.xy, self.xy)),
                s.product(self.yz, self.yz),
            ),
            s.product(self.zx, self.zx),
        )
    }
    
    /// The geometric product of `self` and `rhs`: the rotor that turns as
    /// `self` does and then as `rhs` does.
    pub fn times<A, U, C>(self, rhs: Self, s: &Scalars<T, A, U, C>) -> (rotor: Self) where
        A: Fn(Op, T, T) -> T,
        U: Fn(Fun, T) -> T,
        C: Fn(Rel, T, T) -> bool,

        requires
            s.askable(),
        ensures
            forall|m: Model<T>| #[trigger] s.answer_by(m) ==> rotor == self.times_of(rhs, m),
    {
        Rotor {
            _1: s.difference(
                s.difference(
                    s.difference(s.product(self._1, rhs._1), s.product(self.xy, rhs.xy)),
                    s.product(self.yz, rhs.yz),
                ),
                s.product(self.zx, rhs.zx),
            ),
            xy: s.sum(
                s.difference(
                    s.sum(s.product(self._1, rhs.xy), s.product(self.xy, rhs._1)),
                    s.product(self.yz, rhs.zx),
                ),
                s.product(self.zx, rhs.yz),
            ),
            yz: s.difference(
                s.sum(
                    s.sum(s.product(self._1, rhs.yz), s.product(self.xy, rhs.zx)),
                    s.product(self.yz, rhs._1),
                ),
                s.product(self.zx, rhs.xy),
            ),
            zx: s.sum(
                s.difference(
                    s.sum(s.product(self._1, rhs.zx), s.product(self.yz, rhs.xy)),
                    s.product(self.xy, rhs.yz),
                ),
                s.product(self.zx, rhs._1),
            ),
        }
    }
    /// `self` divided by the scalar `rhs`, which brings a rotor of norm `rhs`
    /// back to unit norm.
    pub fn divided<A, U, C>(self, rhs: T, s: &Scalars<T, A, U, C>) -> (rotor: Self) where
        A: Fn(Op, T, T) -> T,
        U: Fn(Fun, T) -> T,
        C: Fn(Rel, T, T) -> bool,

        requires
            s.askable(),
        ensures
            forall|m: Model<T>| #[trigger] s.answer_by(m) ==> rotor == self.divided_of(rhs, m),
    {
        Rotor {
            _1: s.quotient(self._1, rhs),
            xy: s.quotient(self.xy, rhs),
            yz: s.quotient(self.yz, rhs),
            zx: s.quotient(self.zx, rhs),
        }
    }
}

impl<T: Copy> Affine3<T> {
    /// The map that leaves every point where it is.
    pub open spec fn identity_of(m: Model<T>) -> Self {
        Affine3 {
            xx: m.one,
            yx: m.zero,
            zx: m.zero,
            _x: m.zero,
            xy: m.zero,
            yy: m.one,
            zy: m.zero,
            _y: m.zero,
            xz: m.zero,
            yz: m.zero,
            zz: m.one,
            _z: m.zero,
        }
    }

    /// The map that leaves every point where it is.
    pub fn identity<A, U, C>(s: &Scalars<T, A, U, C>) -> (a: Self) where
        A: Fn(Op, T, T) -> T,
        U: Fn(Fun, T) -> T,
        C: Fn(Rel, T, T) -> bool,

        ensures
            forall|m: Model<T>| #[trigger] s.answer_by(m) ==> a == Self::identity_of(m),
    {
        Affine3 {
            xx: s.one,
            yx: s.zero,
            zx: s.zero,
            _x: s.zero,
            xy: s.zero,
            yy: s.one,
            zy: s.zero,
            _y: s.zero,
            xz: s.zero,
            yz: s.zero,
            zz: s.one,
            _z: s.zero,
        }
    }

    /// The map that applies `self` and then `other`:
    /// `(A, a) * (B, b) = (A * B, a * B + b)`.
    pub open spec fn compose_of(self, other: Self, m: Model<T>) -> Self {
        Affine3 {
            xx: m.dot3(self.xx, other.xx, self.xy, other.yx, self.xz, other.zx),
            yx: m.dot3(self.yx, other.xx, self.yy, other.yx, self.yz, other.zx),
            zx: m.dot3(self.zx, other.xx, self.zy, other.yx, self.zz, other.zx),
            _x: m.add(m.dot3(self._x, other.xx, self._y, other.yx, self._z, other.zx), other._x),
            xy: m.dot3(self.xx, other.xy, self.xy, other.yy, self.xz, other.zy),
            yy: m.dot3(self.yx, other.xy, self.yy, other.yy, self.yz, other.zy),
            zy: m.dot3(self.zx, other.xy, self.zy, other.yy, self.zz, other.zy),
            _y: m.add(m.dot3(self._x, other.xy, self._y, other.yy, self._z, other.zy), other._y),
            xz: m.dot3(self.xx, other.xz, self.xy, other.yz, self.xz, other.zz),
            yz: m.dot3(self.yx, other.xz, self.yy, other.yz, self.yz, other.zz),
            zz: m.dot3(self.zx, other.xz, self.zy, other.yz, self.zz, other.zz),
            _z: m.add(m.dot3(self._x, other.xz, self._y, other.yz, self._z, other.zz), other._z),
        }
    }

    /// The map that applies `self` and then `other`.
    pub fn compose<A, U, C>(
        &self,
        other: &Affine3<T>,
        s: &Scalars<T, A, U, C>,
    ) -> (composed: Self) where
        A: Fn(Op, T, T) -> T,
        U: Fn(Fun, T) -> T,
        C: Fn(Rel, T, T) -> bool,

        requires
            s.askable(),
        ensures
            forall|m: Model<T>| #[trigger]
                s.answer_by(m) ==> composed == self.compose_of(*other, m),
    {
        Affine3 {
            xx: s.dot3(self.xx, other.xx, self.xy, other.yx, self.xz, other.zx),
            yx: s.dot3(self.yx, other.xx, self.yy, other.yx, self.yz, other.zx),
            zx: s.dot3(self.zx, other.xx, self.zy, other.yx, self.zz, other.zx),
            _x: s.sum(s.dot3(self._x, other.xx, self._y, other.yx, self._z, other.zx), other._x),
            xy: s.dot3(self.xx, other.xy, self.xy, other.yy, self.xz, other.zy),
            yy: s.dot3(self.yx, other.xy, self.yy, other.yy, self.yz, other.zy),
            zy: s.dot3(self.zx, other.xy, self.zy, other.yy, self.zz, other.zy),
            _y: s.sum(s.dot3(self._x, other.xy, self._y, other.yy, self._z, other.zy), other._y),
            xz: s.dot3(self.xx, other.xz, self.xy, other.yz, self.xz, other.zz),
            yz: s.dot3(self.yx, other.xz, self.yy, other.yz, self.yz, other.zz),
            zz: s.dot3(self.zx, other.xz, self.zy, other.yz, self.zz, other.zz),
            _z: s.sum(s.dot3(self._x, other.xz, self._y, other.yz, self._z, other.zz), other._z),
        }
    }

    /// `self` with its output axes scaled by `scale`.
    pub open spec fn scale_of(self, scale: Scale3<T>, m: Model<T>) -> Self {
        Affine3 {
            xx: m.mul(self.xx, scale.x),
            yx: m.mul(self.yx, scale.x),
            zx: m.mul(self.zx, scale.x),
            _x: m.mul(self._x, scale.x),
            xy: m.mul(self.xy, scale.y),
            yy: m.mul(self.yy, scale.y),
            zy: m.mul(self.zy, scale.y),
            _y: m.mul(self._y, scale.y),
            xz: m.mul(self.xz, scale.z),
            yz: m.mul(self.yz, scale.z),
            zz: m.mul(self.zz, scale.z),
            _z: m.mul(self._z, scale.z),
        }
    }

    /// Scales the output axes by `scale`; returns `self` for the next step.
    pub fn scale<A, U, C>(
        &mut self,
        scale: &Scale3<T>,
        s: &Scalars<T, A, U, C>,
    ) -> (scaled: &mut Self) where
        A: Fn(Op, T, T) -> T,
        U: Fn(Fun, T) -> T,
        C: Fn(Rel, T, T) -> bool,

        requires
            s.askable(),
        ensures
            forall|m: Model<T>| #[trigger]
                s.answer_by(m) ==> *scaled == old(self).scale_of(*scale, m),
            *final(self) == *final(scaled),
    {
        self.xx = s.product(self.xx, scale.x);
        self.yx = s.product(self.yx, scale.x);
        self.zx = s.product(self.zx, scale.x);
        self._x = s.product(self._x, scale.x);

        self.xy = s.product(self.xy, scale.y);
        self.yy = s.product(self.yy, scale.y);
        self.zy = s.product(self.zy, scale.y);
        self._y = s.product(self._y, scale.y);

        self.xz = s.product(self.xz, scale.z);
        self.yz = s.product(self.yz, scale.z);
        self.zz = s.product(self.zz, scale.z);
        self._z = s.product(self._z, scale.z);
        self
    }

    /// `self` with its output moved by `v`.
    pub open spec fn translate_of(self, v: Vector3<T>, m: Model<T>) -> Self {
        Affine3 {
            _x: m.add(self._x, v.x),
            _y: m.add(self._y, v.y),
            _z: m.add(self._z, v.z),
            ..self
        }
    }

    /// Moves the output by `v`; returns `self` for the next step.
    pub fn translate<A, U, C>(
        &mut self,
        v: &Vector3<T>,
        s: &Scalars<T, A, U, C>,
    ) -> (moved: &mut Self) where
        A: Fn(Op, T, T) -> T,
        U: Fn(Fun, T) -> T,
        C: Fn(Rel, T, T) -> bool,

        requires
            s.askable(),
        ensures
            forall|m: Model<T>| #[trigger]
                s.answer_by(m) ==> *moved == old(self).translate_of(*v, m),
            *final(self) == *final(moved),
    {
        self._x = s.sum(self._x, v.x);
        self._y = s.sum(self._y, v.y);
        self._z = s.sum(self._z, v.z);
        self
    }

    /// The rotation by the angle `norm` in the unit plane `b`, as a map
    /// without translation.
    pub open spec fn turn_of(norm: T, b: BiVector3<T>, m: Model<T>) -> Self {
        let zx_yz = m.mul(b.zx, b.yz);
        let yz_xy = m.mul(b.yz, b.xy);
        let xy_zx = m.mul(b.xy, b.zx);
        let yz_yz = m.mul(b.yz, b.yz);
        let zx_zx = m.mul(b.zx, b.zx);
        let xy_xy = m.mul(b.xy, b.xy);
        let cos = m.cos(norm);
        let sin = m.sin(norm);
        let one_sub_cos = m.sub(m.one, cos);
        let yz_sin = m.mul(b.yz, sin);
        let zx_sin = m.mul(b.zx, sin);
        let xy_sin = m.mul(b.xy, sin);
        let zx_yz_one_sub_cos = m.mul(zx_yz, one_sub_cos);
        let yz_xy_one_sub_cos = m.mul(yz_xy, one_sub_cos);
        let xy_zx_one_sub_cos = m.mul(xy_zx, one_sub_cos);
        Affine3 {
            xx: m.add(m.mul(m.sub(m.one, yz_yz), cos), yz_yz),
            xy: m.add(zx_yz_one_sub_cos, xy_sin),
            xz: m.sub(yz_xy_one_sub_cos, zx_sin),
            yx: m.sub(zx_yz_one_sub_cos, xy_sin),
            yy: m.add(m.mul(m.sub(m.one, zx_zx), cos), zx_zx),
            yz: m.add(xy_zx_one_sub_cos, yz_sin),
            zx: m.add(yz_xy_one_sub_cos, zx_sin),
            zy: m.sub(xy_zx_one_sub_cos, yz_sin),
            zz: m.add(m.mul(m.sub(m.one, xy_xy), cos), xy_xy),
            _x: m.zero,
            _y: m.zero,
            _z: m.zero,
        }
    }

    /// `self` with its output rotated by the angle `norm` in the plane `b`,
    /// which must be a unit bivector; any other plane shears.
    pub open spec fn rotate_of(self, norm: T, b: BiVector3<T>, m: Model<T>) -> Self {
        let turn = Self::turn_of(norm, b, m);
        Affine3 {
            xx: m.dot3(self.xx, turn.xx, self.xy, turn.yx, self.xz, turn.zx),
            yx: m.dot3(self.yx, turn.xx, self.yy, turn.yx, self.yz, turn.zx),
            zx: m.dot3(self.zx, turn.xx, self.zy, turn.yx, self.zz, turn.zx),
            _x: m.dot3(self._x, turn.xx, self._y, turn.yx, self._z, turn.zx),
            xy: m.dot3(self.xx, turn.xy, self.xy, turn.yy, self.xz, turn.zy),
            yy: m.dot3(self.yx, turn.xy, self.yy, turn.yy, self.yz, turn.zy),
            zy: m.dot3(self.zx, turn.xy, self.zy, turn.yy, self.zz, turn.zy),
            _y: m.dot3(self._x, turn.xy, self._y, turn.yy, self._z, turn.zy),
            xz: m.dot3(self.xx, turn.xz, self.xy, turn.yz, self.xz, turn.zz),
            yz: m.dot3(self.yx, turn.xz, self.yy, turn.yz, self.yz, turn.zz),
            zz: m.dot3(self.zx, turn.xz, self.zy, turn.yz, self.zz, turn.zz),
            _z: m.dot3(self._x, turn.xz, self._y, turn.yz, self._z, turn.zz),
        }
    }

    /// Rotates the output by the angle `norm` in the unit plane `b`;
    /// returns `self` for the next step.
    pub fn rotate<A, U, C>(
        &mut self,
        norm: T,
        b: &BiVector3<T>,
        s: &Scalars<T, A, U, C>,
    ) -> (rotated: &mut Self) where
        A: Fn(Op, T, T) -> T,
        U: Fn(Fun, T) -> T,
        C: Fn(Rel, T, T) -> bool,

        requires
            s.askable(),
        ensures
            forall|m: Model<T>| #[trigger]
                s.answer_by(m) ==> *rotated == old(self).rotate_of(norm, *b, m),
            *final(self) == *final(rotated),
    {
        let zx_yz = s.product(b.zx, b.yz);
        let yz_xy = s.product(b.yz, b.xy);
        let xy_zx = s.product(b.xy, b.zx);

        let yz_yz = s.product(b.yz, b.yz);
        let zx_zx = s.product(b.zx, b.zx);
        let xy_xy = s.product(b.xy, b.xy);

        let cos = s.cos(norm);
        let sin = s.sin(norm);
        let one_sub_cos = s.difference(s.one, cos);

        let yz_sin = s.product(b.yz, sin);
        let zx_sin = s.product(b.zx, sin);
        let xy_sin = s.product(b.xy, sin);

        let zx_yz_one_sub_cos = s.product(zx_yz, one_sub_cos);
        let yz_xy_one_sub_cos = s.product(yz_xy, one_sub_cos);
        let xy_zx_one_sub_cos = s.product(xy_zx, one_sub_cos);

        let xx = s.sum(s.product(s.difference(s.one, yz_yz), cos), yz_yz);
        let xy = s.sum(zx_yz_one_sub_cos, xy_sin);
        let xz = s.difference(yz_xy_one_sub_cos, zx_sin);

        let yx = s.difference(zx_yz_one_sub_cos, xy_sin);
        let yy = s.sum(s.product(s.difference(s.one, zx_zx), cos), zx_zx);
        let yz = s.sum(xy_zx_one_sub_cos, yz_sin);

        let zx = s.sum(yz_xy_one_sub_cos, zx_sin);
        let zy = s.difference(xy_zx_one_sub_cos, yz_sin);
        let zz = s.sum(s.product(s.difference(s.one, xy_xy), cos), xy_xy);

        *self = Affine3 {
            xx: s.dot3(self.xx, xx, self.xy, yx, self.xz, zx),
            yx: s.dot3(self.yx, xx, self.yy, yx, self.yz, zx),
            zx: s.dot3(self.zx, xx, self.zy, yx, self.zz, zx),
            _x: s.dot3(self._x, xx, self._y, yx, self._z, zx),
            xy: s.dot3(self.xx, xy, self.xy, yy, self.xz, zy),
            yy: s.dot3(self.yx, xy, self.yy, yy, self.yz, zy),
            zy: s.dot3(self.zx, xy, self.zy, yy, self.zz, zy),
            _y: s.dot3(self._x, xy, self._y, yy, self._z, zy),
            xz: s.dot3(self.xx, xz, self.xy, yz, self.xz, zz),
            yz: s.dot3(self.yx, xz, self.yy, yz, self.yz, zz),
            zz: s.dot3(self.zx, xz, self.zy, yz, self.zz, zz),
            _z: s.dot3(self._x, xz, self._y, yz, self._z, zz),
        };

        self
    }

    /// The map that scales by `scale`, then rotates by `rotation`, then
    /// moves by `translation`. A rotor `R` takes a vector `V` to
    /// `~R * V * R`, so the rotor of half an angle turns by the angle.
    pub open spec fn from_of(
        scale: Scale3<T>,
        rotation: Rotor<T>,
        translation: Vector3<T>,
        m: Model<T>,
    ) -> Self {
        let _1zx = m.mul(rotation._1, rotation.zx);
        let _1xy = m.mul(rotation._1, rotation.xy);
        let _1yz = m.mul(rotation._1, rotation.yz);
        let zxzx = m.mul(rotation.zx, rotation.zx);
        let zxxy = m.mul(rotation.zx, rotation.xy);
        let xyxy = m.mul(rotation.xy, rotation.xy);
        let zxyz = m.mul(rotation.yz, rotation.zx);
        let yzxy = m.mul(rotation.yz, rotation.xy);
        let yzyz = m.mul(rotation.yz, rotation.yz);
        let two = m.two();
        Affine3 {
            xx: m.mul(m.sub(m.one, m.mul(two, m.add(zxzx, xyxy))), scale.x),
            xy: m.mul(m.mul(two, m.add(zxyz, _1xy)), scale.x),
            xz: m.mul(m.mul(two, m.sub(yzxy, _1zx)), scale.x),
            yx: m.mul(m.mul(two, m.sub(zxyz, _1xy)), scale.y),
            yy: m.mul(m.sub(m.one, m.mul(two, m.add(yzyz, xyxy))), scale.y),
            yz: m.mul(m.mul(two, m.add(zxxy, _1yz)), scale.y),
            zx: m.mul(m.mul(two, m.add(yzxy, _1zx)), scale.z),
            zy: m.mul(m.mul(two, m.sub(zxxy, _1yz)), scale.z),
            zz: m.mul(m.sub(m.one, m.mul(two, m.add(yzyz, zxzx))), scale.z),
            _x: translation.x,
            _y: translation.y,
            _z: translation.z,
        }
    }

    /// The map that scales by `scale`, then rotates by `rotation`, then moves
    /// by `translation`.
    pub fn from<A, U, C>(
        scale: Scale3<T>,
        rotation: Rotor<T>,
        translation: Vector3<T>,
        s: &Scalars<T, A, U, C>,
    ) -> (a: Self) where
        A: Fn(Op, T, T) -> T,
        U: Fn(Fun, T) -> T,
        C: Fn(Rel, T, T) -> bool,

        requires
            s.askable(),
        ensures
            forall|m: Model<T>| #[trigger]
                s.answer_by(m) ==> a == Self::from_of(scale, rotation, translation, m),
    {
        let _1zx = s.product(rotation._1, rotation.zx);
        let _1xy = s.product(rotation._1, rotation.xy);
        let _1yz = s.product(rotation._1, rotation.yz);

        let zxzx = s.product(rotation.zx, rotation.zx);
        let zxxy = s.product(rotation.zx, rotation.xy);
        let xyxy = s.product(rotation.xy, rotation.xy);

        let zxyz = s.product(rotation.yz, rotation.zx);
        let yzxy = s.product(rotation.yz, rotation.xy);
        let yzyz = s.product(rotation.yz, rotation.yz);

        let two = s.two();

        Affine3 {
            xx: s.product(s.difference(s.one, s.product(two, s.sum(zxzx, xyxy))), scale.x),
            xy: s.product(s.product(two, s.sum(zxyz, _1xy)), scale.x),
            xz: s.product(s.product(two, s.difference(yzxy, _1zx)), scale.x),
            yx: s.product(s.product(two, s.difference(zxyz, _1xy)), scale.y),
            yy: s.product(s.difference(s.one, s.product(two, s.sum(yzyz, xyxy))), scale.y),
            yz: s.product(s.product(two, s.sum(zxxy, _1yz)), scale.y),
            zx: s.product(s.product(two, s.sum(yzxy, _1zx)), scale.z),
            zy: s.product(s.product(two, s.difference(zxxy, _1yz)), scale.z),
            zz: s.product(s.difference(s.one, s.product(two, s.sum(yzyz, zxzx))), scale.z),
            _x: translation.x,
            _y: translation.y,
            _z: translation.z,
        }
    }
}

} // verus!
