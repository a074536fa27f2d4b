//! Axis-aligned rectangles over any scalars: the bounds of a set of points
//! and the overlap of two rectangles.

use vstd::prelude::*;
use crate::math::Vector2;
use crate::scalar::{is_exact, Fun, Model, Op, Rel, Scalars};

verus! {

/// An axis-aligned rectangle, from its corner `min` to its corner `max`.
#[derive(Clone, Copy, Debug, PartialEq)]
pub struct Rect<T> {
    pub max: Vector2<T>,
    pub min: Vector2<T>,
}

impl<T: Copy> Rect<T> {
    /// `self` widened to hold `point`. A point beyond `max` moves `max`;
    /// only a point that is not beyond `max` can move `min`.
    pub open spec fn widen_of(self, point: Vector2<T>, m: Model<T>) -> Self {
        Rect {
            max: Vector2 {
                x: if m.less(self.max.x, point.x) {
                    point.x
                } else {
                    self.max.x
                },
                y: if m.less(self.max.y, point.y) {
                    point.y
                } else {
                    self.max.y
                },
            },
            min: Vector2 {
                x: if !m.less(self.max.x, point.x) && m.less(point.x, self.min.x) {
                    point.x
                } else {
                    self.min.x
                },
                y: if !m.less(self.max.y, point.y) && m.less(point.y, self.min.y) {
                    point.y
                } else {
                    self.min.y
                },
            },
        }
    }

    /// The first point as a rectangle, widened by the first `upto` points
    /// in their order.
    pub open spec fn bounds_of(points: Seq<Vector2<T>>, upto: nat, m: Model<T>) -> Self
        decreases upto,
    {
        if upto == 0 {
            Rect { max: points[0], min: points[0] }
        } else {
            Self::bounds_of(points, (upto - 1) as nat, m).widen_of(points[upto - 1], m)
        }
    }

    /// The bounding rectangle of `points`.
    pub open spec fn from_points_of(points: Seq<Vector2<T>>, m: Model<T>) -> Self {
        Self::bounds_of(points, points.len(), m)
    }

    /// The bounding rectangle of `points`, of which there must be one at
    /// least.
    pub fn from_points<A, U, C>(
        points: &[Vector2<T>],
        s: &Scalars<T, A, U, C>,
    ) -> (rect: Self) where
        A: Fn(Op, T, T) -> T,
        U: Fn(Fun, T) -> T,
        C: Fn(Rel, T, T) -> bool,

        requires
            s.askable(),
            points@.len() >= 1,
        ensures
            forall|m: Model<T>| #[trigger]
                s.answer_by(m) ==> rect == Self::from_points_of(points@, m),
    {
        let mut rect = Rect { max: points[0], min: points[0] };
        let mut i: usize = 0;
        while i < points.len()
            invariant
                s.askable(),
                i <= points@.len(),
                forall|m: Model<T>| #[trigger]
                    s.answer_by(m) ==> rect == Self::bounds_of(points@, i as nat, m),
            decreases points@.len() - i,
        {
            let point = points[i];
            if s.is_less(rect.max.x, point.x) {
                rect.max.x = point.x;
            } else if s.is_less(point.x, rect.min.x) {
                rect.min.x = point.x;
            }
            if s.is_less(rect.max.y, point.y) {
                rect.max.y = point.y;
            } else if s.is_less(point.y, rect.min.y) {
                rect.min.y = point.y;
            }
            i += 1;
        }
        rect
    }

    /// `self` and `other` lie apart or only touch.
    pub open spec fn misses_of(self, other: Self, m: Model<T>) -> bool {
        ||| m.at_most(self.max.x, other.min.x)
        ||| m.at_most(self.max.y, other.min.y)
        ||| m.at_most(other.max.x, self.min.x)
        ||| m.at_most(other.max.y, self.min.y)
    }

    /// The rectangle that `self` and `other` share; `None` where they only
    /// touch or lie apart.
    pub open spec fn intersect_of(self, other: Self, m: Model<T>) -> Option<Self> {
        if self.misses_of(other, m) {
            None
        } else {
            Some(
                Rect {
                    max: Vector2 {
                        x: m.min(self.max.x, other.max.x),
                        y: m.min(self.max.y, other.max.y),
                    },
                    min: Vector2 {
                        x: m.max(self.min.x, other.min.x),
                        y: m.max(self.min.y, other.min.y),
                    },
                },
            )
        }
    }

    /// The rectangle that `self` and `other` share; `None` where they only
    /// touch or lie apart.
    pub fn intersect<A, U, C>(&self, other: &Rect<T>, s: &Scalars<T, A, U, C>) -> (shared: Option<
        Self,
    >) where A: Fn(Op, T, T) -> T, U: Fn(Fun, T) -> T, C: Fn(Rel, T, T) -> bool
        requires
            s.askable(),
        ensures
            forall|m: Model<T>| #[trigger]
                s.answer_by(m) ==> shared == self.intersect_of(*other, m),
    {
        if s.is_at_most(self.max.x, other.min.x) || s.is_at_most(self.max.y, other.min.y)
            || s.is_at_most(other.max.x, self.min.x) || s.is_at_most(other.max.y, self.min.y) {
            None
        } else {
            Some(
                Rect {
                    max: Vector2::new(
                        s.lesser(self.max.x, other.max.x),
                        s.lesser(self.max.y, other.max.y),
                    ),
                    min: Vector2::new(
                        s.greater(self.min.x, other.min.x),
                        s.greater(self.min.y, other.min.y),
                    ),
                },
            )
        }
    }

    /// The extent of `self` along `x`.
    pub open spec fn width_of(self, m: Model<T>) -> T {
        m.sub(self.max.x, self.min.x)
    }

    /// The extent of `self` along `x`.
    pub fn width<A, U, C>(&self, s: &Scalars<T, A, U, C>) -> (width: T) where
        A: Fn(Op, T, T) -> T,
        U: Fn(Fun, T) -> T,
        C: Fn(Rel, T, T) -> bool,

        requires
            s.askable(),
        ensures
            forall|m: Model<T>| #[trigger] s.answer_by(m) ==> width == self.width_of(m),
    {
        s.difference(self.max.x, self.min.x)
    }

    /// The extent of `self` along `y`.
    pub open spec fn height_of(self, m: Model<T>) -> T {
        m.sub(self.max.y, self.min.y)
    }

    /// The extent of `self` along `y`.
    pub fn height<A, U, C>(&self, s: &Scalars<T, A, U, C>) -> (height: T) where
        A: Fn(Op, T, T) -> T,
        U: Fn(Fun, T) -> T,
        C: Fn(Rel, T, T) -> bool,

        requires
            s.askable(),
        ensures
            forall|m: Model<T>| #[trigger] s.answer_by(m) ==> height == self.height_of(m),
    {
        s.difference(self.max.y, self.min.y)
    }
}

/// `point` lies in `rect`, its border included.
pub open spec fn holds(rect: Rect<int>, point: Vector2<int>) -> bool {
    rect.min.x <= point.x <= rect.max.x && rect.min.y <= point.y <= rect.max.y
}

/// `rect` reaches no further than `points` do: each of its four bounds is
/// a coordinate of one of them.
pub open spec fn reaches(points: Seq<Vector2<int>>, rect: Rect<int>) -> bool {
    &&& exists|i: int| 0 <= i < points.len() && (#[trigger] points[i]).x == rect.min.x
    &&& exists|i: int| 0 <= i < points.len() && (#[trigger] points[i]).x == rect.max.x
    &&& exists|i: int| 0 <= i < points.len() && (#[trigger] points[i]).y == rect.min.y
    &&& exists|i: int| 0 <= i < points.len() && (#[trigger] points[i]).y == rect.max.y
}

/// The bounds of the first points reach no further than the points do, and
/// `min` is not beyond `max`.
pub proof fn lemma_bounds_reach(points: Seq<Vector2<int>>, upto: nat, m: Model<int>)
    requires
        is_exact(m),
        points.len() >= 1,
        upto <= points.len(),
    ensures
        reaches(points, Rect::bounds_of(points, upto, m)),
        Rect::bounds_of(points, upto, m).min.x <= Rect::bounds_of(points, upto, m).max.x,
        Rect::bounds_of(points, upto, m).min.y <= Rect::bounds_of(points, upto, m).max.y,
    decreases upto,
{
    let rect = Rect::bounds_of(points, upto, m);
    if upto > 0 {
        let before = Rect::bounds_of(points, (upto - 1) as nat, m);
        lemma_bounds_reach(points, (upto - 1) as nat, m);
        let last = upto - 1;
        let min_x = if rect.min.x == before.min.x {
            choose|i: int| 0 <= i < points.len() && (#[trigger] points[i]).x == before.min.x
        } else {
            last
        };
        assert(points[min_x].x == rect.min.x);
        let max_x = if rect.max.x == before.max.x {
            choose|i: int| 0 <= i < points.len() && (#[trigger] points[i]).x == before.max.x
        } else {
            last
        };
        assert(points[max_x].x == rect.max.x);
        let min_y = if rect.min.y == before.min.y {
            choose|i: int| 0 <= i < points.len() && (#[trigger] points[i]).y == before.min.y
        } else {
            last
        };
        assert(points[min_y].y == rect.min.y);
        let max_y = if rect.max.y == before.max.y {
            choose|i: int| 0 <= i < points.len() && (#[trigger] points[i]).y == before.max.y
        } else {
            last
        };
        assert(points[max_y].y == rect.max.y);
    } else {
        assert(points[0].x == rect.min.x && points[0].y == rect.max.y);
    }
}

/// The bounds of the first points hold each of them.
pub proof fn lemma_bounds_hold(points: Seq<Vector2<int>>, upto: nat, m: Model<int>, k: int)
    requires
        is_exact(m),
        points.len() >= 1,
        upto <= points.len(),
        0 <= k < upto,
    ensures
        holds(Rect::bounds_of(points, upto, m), points[k]),
    decreases upto,
{
    lemma_bounds_reach(points, (upto - 1) as nat, m);
    if k < upto - 1 {
        lemma_bounds_hold(points, (upto - 1) as nat, m, k);
    }
}

/// The overlap of two rectangles does not depend on their order.
pub proof fn lemma_intersect_commutes(a: Rect<int>, b: Rect<int>, m: Model<int>)
    requires
        is_exact(m),
    ensures
        a.intersect_of(b, m) == b.intersect_of(a, m),
{
}

/// Rectangles that share no more than a border have no overlap.
pub proof fn lemma_touching_rectangles_miss(a: Rect<int>, b: Rect<int>, m: Model<int>)
    requires
        is_exact(m),
        a.max.x == b.min.x || a.max.y == b.min.y || b.max.x == a.min.x || b.max.y == a.min.y,
    ensures
        a.intersect_of(b, m) is None,
{
}

/// The overlap of two rectangles that have a width and a height holds the
/// points that both of them hold, and it has a width and a height. Where
/// there is no overlap, no point lies strictly inside both.
pub proof fn lemma_intersect_is_overlap(
    a: Rect<int>,
    b: Rect<int>,
    m: Model<int>,
    point: Vector2<int>,
)
    requires
        is_exact(m),
        a.min.x < a.max.x && a.min.y < a.max.y,
        b.min.x < b.max.x && b.min.y < b.max.y,
    ensures
        match a.intersect_of(b, m) {
            Some(shared) => {
                &&& holds(shared, point) <==> holds(a, point) && holds(b, point)
                &&& shared.width_of(m) > 0
                &&& shared.height_of(m) > 0
            },
            None => !(a.min.x < point.x < a.max.x && a.min.y < point.y < a.max.y && b.min.x
                < point.x < b.max.x && b.min.y < point.y < b.max.y),
        },
{
}

} // verus!
