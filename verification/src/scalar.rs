//! The numbers that the geometry computes with, taken from the caller.
//!
//! The kernel is written once for any type `T` of scalars. What it needs of
//! them it asks of a `Scalars` value: the numbers zero and one and three
//! oracles, one for the arithmetic of two scalars, one for the functions
//! of one scalar and one for the comparison of two. The kernel decides
//! which operations are applied to what, in which order; a `Model` says
//! what the operations yield, and each function of the kernel states its
//! result under every model that the oracles answer by.

use vstd::prelude::*;

verus! {

/// An operation on two scalars.
#[derive(Clone, Copy, Debug, PartialEq, Eq)]
pub enum Op {
    Add,
    Sub,
    Mul,
    Div,
    /// The lesser of two scalars.
    Min,
    /// The greater of two scalars.
    Max,
}

/// A function of one scalar.
#[derive(Clone, Copy, Debug, PartialEq, Eq)]
pub enum Fun {
    Neg,
    Sqrt,
    Sin,
    Cos,
}

/// A comparison of two scalars.
#[derive(Clone, Copy, Debug, PartialEq, Eq)]
pub enum Rel {
    /// Strictly less.
    Less,
    /// Less or equal.
    AtMost,
    Equal,
    /// Strictly before in the total order of the scalars. Where the
    /// scalars have a negative and a positive zero, this order tells them
    /// apart, which the comparison by `Less` does not.
    Before,
}

/// The scalars' two constants and three oracles.
pub struct Scalars<T, A, U, C> {
    pub zero: T,
    pub one: T,
    /// Applies an operation to two scalars.
    pub arith: A,
    /// Applies a function to a scalar.
    pub fun: U,
    /// Compares two scalars.
    pub rel: C,
}

/// What the operations on scalars yield.
#[verifier::reject_recursive_types(T)]
pub struct Model<T> {
    pub zero: T,
    pub one: T,
    pub arith: spec_fn(Op, T, T) -> T,
    pub fun: spec_fn(Fun, T) -> T,
    pub rel: spec_fn(Rel, T, T) -> bool,
}

impl<T> Model<T> {
    /// The sum of `x` and `y`.
    pub open spec fn add(self, x: T, y: T) -> T {
        (self.arith)(Op::Add, x, y)
    }

    /// The difference of `x` and `y`.
    pub open spec fn sub(self, x: T, y: T) -> T {
        (self.arith)(Op::Sub, x, y)
    }

    /// The product of `x` and `y`.
    pub open spec fn mul(self, x: T, y: T) -> T {
        (self.arith)(Op::Mul, x, y)
    }

    /// The quotient of `x` by `y`.
    pub open spec fn div(self, x: T, y: T) -> T {
        (self.arith)(Op::Div, x, y)
    }

    /// The lesser of `x` and `y`.
    pub open spec fn min(self, x: T, y: T) -> T {
        (self.arith)(Op::Min, x, y)
    }

    /// The greater of `x` and `y`.
    pub open spec fn max(self, x: T, y: T) -> T {
        (self.arith)(Op::Max, x, y)
    }

    /// `x` negated.
    pub open spec fn neg(self, x: T) -> T {
        (self.fun)(Fun::Neg, x)
    }

    /// The square root of `x`.
    pub open spec fn sqrt(self, x: T) -> T {
        (self.fun)(Fun::Sqrt, x)
    }

    /// The sine of the angle `x`.
    pub open spec fn sin(self, x: T) -> T {
        (self.fun)(Fun::Sin, x)
    }

    /// The cosine of the angle `x`.
    pub open spec fn cos(self, x: T) -> T {
        (self.fun)(Fun::Cos, x)
    }

    /// Whether `x` is strictly less than `y`.
    pub open spec fn less(self, x: T, y: T) -> bool {
        (self.rel)(Rel::Less, x, y)
    }

    /// Whether `x` is less than `y` or equal to it.
    pub open spec fn at_most(self, x: T, y: T) -> bool {
        (self.rel)(Rel::AtMost, x, y)
    }

    /// Whether `x` and `y` are equal.
    pub open spec fn equal(self, x: T, y: T) -> bool {
        (self.rel)(Rel::Equal, x, y)
    }

    /// Whether `x` comes strictly before `y` in the total order.
    pub open spec fn before(self, x: T, y: T) -> bool {
        (self.rel)(Rel::Before, x, y)
    }

    /// One and one.
    pub open spec fn two(self) -> T {
        self.add(self.one, self.one)
    }

    /// `a1 * b1 + a2 * b2 + a3 * b3`, summed from the left.
    pub open spec fn dot3(self, a1: T, b1: T, a2: T, b2: T, a3: T, b3: T) -> T {
        self.add(self.add(self.mul(a1, b1), self.mul(a2, b2)), self.mul(a3, b3))
    }
}

impl<T: Copy, A, U, C> Scalars<T, A, U, C> where
    A: Fn(Op, T, T) -> T,
    U: Fn(Fun, T) -> T,
    C: Fn(Rel, T, T) -> bool,
 {
    /// The oracles may be asked about all scalars.
    pub open spec fn askable(&self) -> bool {
        &&& forall|op: Op, x: T, y: T| call_requires(self.arith, (op, x, y))
        &&& forall|f: Fun, x: T| call_requires(self.fun, (f, x))
        &&& forall|r: Rel, x: T, y: T| call_requires(self.rel, (r, x, y))
    }

    /// The constants are those of `model` and the oracles answer by it.
    pub open spec fn answer_by(&self, model: Model<T>) -> bool {
        &&& self.zero == model.zero
        &&& self.one == model.one
        &&& forall|op: Op, x: T, y: T, out: T| #[trigger]
            call_ensures(self.arith, (op, x, y), out) ==> out == (model.arith)(op, x, y)
        &&& forall|f: Fun, x: T, out: T| #[trigger]
            call_ensures(self.fun, (f, x), out) ==> out == (model.fun)(f, x)
        &&& forall|r: Rel, x: T, y: T, out: bool| #[trigger]
            call_ensures(self.rel, (r, x, y), out) ==> out == (model.rel)(r, x, y)
    }

    /// The sum of `x` and `y`, as the oracle answers.
    pub fn sum(&self, x: T, y: T) -> (out: T)
        requires
            self.askable(),
        ensures
            call_ensures(self.arith, (Op::Add, x, y), out),
    {
        (self.arith)(Op::Add, x, y)
    }

    /// The difference of `x` and `y`, as the oracle answers.
    pub fn difference(&self, x: T, y: T) -> (out: T)
        requires
            self.askable(),
        ensures
            call_ensures(self.arith, (Op::Sub, x, y), out),
    {
        (self.arith)(Op::Sub, x, y)
    }

    /// The product of `x` and `y`, as the oracle answers.
    pub fn product(&self, x: T, y: T) -> (out: T)
        requires
            self.askable(),
        ensures
            call_ensures(self.arith, (Op::Mul, x, y), out),
    {
        (self.arith)(Op::Mul, x, y)
    }

    /// The quotient of `x` by `y`, as the oracle answers.
    pub fn quotient(&self, x: T, y: T) -> (out: T)
        requires
            self.askable(),
        ensures
            call_ensures(self.arith, (Op::Div, x, y), out),
    {
        (self.arith)(Op::Div, x, y)
    }

    /// The lesser of `x` and `y`, as the oracle answers.
    pub fn lesser(&self, x: T, y: T) -> (out: T)
        requires
            self.askable(),
        ensures
            call_ensures(self.arith, (Op::Min, x, y), out),
    {
        (self.arith)(Op::Min, x, y)
    }

    /// The greater of `x` and `y`, as the oracle answers.
    pub fn greater(&self, x: T, y: T) -> (out: T)
        requires
            self.askable(),
        ensures
            call_ensures(self.arith, (Op::Max, x, y), out),
    {
        (self.arith)(Op::Max, x, y)
    }

    /// `x` negated, as the oracle answers.
    pub fn negated(&self, x: T) -> (out: T)
        requires
            self.askable(),
        ensures
            call_ensures(self.fun, (Fun::Neg, x), out),
    {
        (self.fun)(Fun::Neg, x)
    }

    /// The square root of `x`, as the oracle answers.
    pub fn sqrt(&self, x: T) -> (out: T)
        requires
            self.askable(),
        ensures
            call_ensures(self.fun, (Fun::Sqrt, x), out),
    {
        (self.fun)(Fun::Sqrt, x)
    }

    /// The sine of the angle `x`, as the oracle answers.
    pub fn sin(&self, x: T) -> (out: T)
        requires
            self.askable(),
        ensures
            call_ensures(self.fun, (Fun::Sin, x), out),
    {
        (self.fun)(Fun::Sin, x)
    }

    /// The cosine of the angle `x`, as the oracle answers.
    pub fn cos(&self, x: T) -> (out: T)
        requires
            self.askable(),
        ensures
            call_ensures(self.fun, (Fun::Cos, x), out),
    {
        (self.fun)(Fun::Cos, x)
    }

    /// Whether `x` is strictly less than `y`, as the oracle answers.
    pub fn is_less(&self, x: T, y: T) -> (out: bool)
        requires
            self.askable(),
        ensures
            call_ensures(self.rel, (Rel::Less, x, y), out),
    {
        (self.rel)(Rel::Less, x, y)
    }

    /// Whether `x` is less than `y` or equal to it, as the oracle answers.
    pub fn is_at_most(&self, x: T, y: T) -> (out: bool)
        requires
            self.askable(),
        ensures
            call_ensures(self.rel, (Rel::AtMost, x, y), out),
    {
        (self.rel)(Rel::AtMost, x, y)
    }

    /// Whether `x` and `y` are equal, as the oracle answers.
    pub fn is_equal(&self, x: T, y: T) -> (out: bool)
        requires
            self.askable(),
        ensures
            call_ensures(self.rel, (Rel::Equal, x, y), out),
    {
        (self.rel)(Rel::Equal, x, y)
    }

    /// Whether `x` comes strictly before `y` in the total order, as the oracle answers.
    pub fn is_before(&self, x: T, y: T) -> (out: bool)
        requires
            self.askable(),
        ensures
            call_ensures(self.rel, (Rel::Before, x, y), out),
    {
        (self.rel)(Rel::Before, x, y)
    }

    /// One and one.
    pub fn two(&self) -> (out: T)
        requires
            self.askable(),
        ensures
            call_ensures(self.arith, (Op::Add, self.one, self.one), out),
            forall|m: Model<T>| #[trigger] self.answer_by(m) ==> out == m.two(),
    {
        self.sum(self.one, self.one)
    }

    /// `a1 * b1 + a2 * b2 + a3 * b3`, summed from the left.
    pub fn dot3(&self, a1: T, b1: T, a2: T, b2: T, a3: T, b3: T) -> (out: T)
        requires
            self.askable(),
        ensures
            forall|m: Model<T>| #[trigger]
                self.answer_by(m) ==> out == m.dot3(a1, b1, a2, b2, a3, b3),
    {
        let first = self.product(a1, b1);
        let second = self.product(a2, b2);
        let third = self.product(a3, b3);
        self.sum(self.sum(first, second), third)
    }
}

/// `model` computes with whole numbers exactly: its sums, differences and
/// products are those of the integers.
pub open spec fn is_exact(model: Model<int>) -> bool {
    &&& model.zero == 0
    &&& model.one == 1
    &&& forall|x: int, y: int| #[trigger] model.add(x, y) == x + y
    &&& forall|x: int, y: int| #[trigger] model.sub(x, y) == x - y
    &&& forall|x: int, y: int| #[trigger] model.mul(x, y) == x * y
    &&& forall|x: int| #[trigger] model.neg(x) == -x
    &&& forall|x: int, y: int| #[trigger] model.min(x, y) == if x <= y { x } else { y }
    &&& forall|x: int, y: int| #[trigger] model.max(x, y) == if x >= y { x } else { y }
    &&& forall|x: int, y: int| #[trigger] model.less(x, y) == (x < y)
    &&& forall|x: int, y: int| #[trigger] model.at_most(x, y) == (x <= y)
    &&& forall|x: int, y: int| #[trigger] model.equal(x, y) == (x == y)
    &&& forall|x: int, y: int| #[trigger] model.before(x, y) == (x < y)
}

/// The exact model of the whole numbers. Where a quotient is not whole it
/// is rounded down, and roots, sines and cosines are not modelled.
pub open spec fn exact() -> Model<int> {
    Model {
        zero: 0,
        one: 1,
        arith: |op: Op, x: int, y: int|
            match op {
                Op::Add => x + y,
                Op::Sub => x - y,
                Op::Mul => x * y,
                Op::Div => x / y,
                Op::Min => if x <= y {
                    x
                } else {
                    y
                },
                Op::Max => if x >= y {
                    x
                } else {
                    y
                },
            },
        fun: |f: Fun, x: int|
            match f {
                Fun::Neg => -x,
                _ => 0,
            },
        rel: |r: Rel, x: int, y: int|
            match r {
                Rel::Less => x < y,
                Rel::AtMost => x <= y,
                Rel::Equal => x == y,
                Rel::Before => x < y,
            },
    }
}

/// The exact model is exact.
pub proof fn lemma_exact_is_exact()
    ensures
        is_exact(exact()),
{
}

} // verus!
