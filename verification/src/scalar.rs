//! The numbers that coordinates and zoom levels are made of.
//!
//! The geometry of the magnifier is the same for every kind of number, so the library is
//! written once over [`Scalar`] and a compositor picks the representation it draws with;
//! [`Double`](crate::double::Double) is one.
//! [`Arith`] gives the meaning of each operation and is what contracts speak of. The
//! mathematical reals have that meaning too, so a formula of a contract can be read over
//! them and reasoned about exactly.
use vstd::prelude::*;

verus! {

/// What the arithmetic operations of a kind of number mean.
///
/// Contracts apply these functions and verified code never calls them. Where the trait is
/// implemented outside of verified code, they are ordinary functions that compute what they
/// say, and the operations of [`Scalar`] can return their results.
pub trait Arith: Sized {
    /// The number that stands for an integer.
    spec fn whole(value: i64) -> Self;

    /// `self + other`.
    spec fn plus(self, other: Self) -> Self;

    /// `self - other`.
    spec fn minus(self, other: Self) -> Self;

    /// `self * other`.
    spec fn times(self, other: Self) -> Self;

    /// `self / other`.
    spec fn over(self, other: Self) -> Self;

    /// `-self`.
    spec fn negated(self) -> Self;

    /// `self < other`.
    spec fn below(self, other: Self) -> bool;

    /// `self <= other`.
    spec fn at_most(self, other: Self) -> bool;

    /// `self == other`.
    spec fn same(self, other: Self) -> bool;

    /// The smaller of the two numbers.
    spec fn lesser(self, other: Self) -> Self;

    /// The value on the way from `from` to `to` once `elapsed` of `duration` milliseconds
    /// have passed, at constant speed and held at either end.
    spec fn eased(from: Self, to: Self, elapsed: u64, duration: u64) -> Self;
}

/// A kind of number that the magnifier can compute with.
///
/// Every operation is a function of its arguments: it returns what [`Arith`], or the
/// spec function next to it, says.
pub trait Scalar: Arith + Copy {
    /// The nearest whole number, halves away from zero.
    spec fn nearest(self) -> Self;

    /// The integer part, held within the range of `i32`.
    spec fn integer(self) -> i32;

    /// The integer part, held within the range of `u32`.
    spec fn natural(self) -> u32;

    /// [`whole`](Arith::whole).
    fn from_int(value: i64) -> (result: Self)
        ensures
            result == Self::whole(value),
    ;

    /// [`plus`](Arith::plus).
    fn add(self, other: Self) -> (result: Self)
        ensures
            result == self.plus(other),
    ;

    /// [`minus`](Arith::minus).
    fn sub(self, other: Self) -> (result: Self)
        ensures
            result == self.minus(other),
    ;

    /// [`times`](Arith::times).
    fn mul(self, other: Self) -> (result: Self)
        ensures
            result == self.times(other),
    ;

    /// [`over`](Arith::over).
    fn div(self, other: Self) -> (result: Self)
        ensures
            result == self.over(other),
    ;

    /// [`negated`](Arith::negated).
    fn neg(self) -> (result: Self)
        ensures
            result == self.negated(),
    ;

    /// [`below`](Arith::below).
    fn lt(self, other: Self) -> (result: bool)
        ensures
            result == self.below(other),
    ;

    /// [`at_most`](Arith::at_most).
    fn le(self, other: Self) -> (result: bool)
        ensures
            result == self.at_most(other),
    ;

    /// [`same`](Arith::same).
    fn eq(self, other: Self) -> (result: bool)
        ensures
            result == self.same(other),
    ;

    /// [`lesser`](Arith::lesser).
    fn min(self, other: Self) -> (result: Self)
        ensures
            result == self.lesser(other),
    ;

    /// [`eased`](Arith::eased).
    fn ease(from: Self, to: Self, elapsed: u64, duration: u64) -> (result: Self)
        ensures
            result == Self::eased(from, to, elapsed, duration),
    ;

    /// [`nearest`](Scalar::nearest).
    fn round(self) -> (result: Self)
        ensures
            result == self.nearest(),
    ;

    /// [`integer`](Scalar::integer).
    fn to_i32(self) -> (result: i32)
        ensures
            result == self.integer(),
    ;

    /// [`natural`](Scalar::natural).
    fn to_u32(self) -> (result: u32)
        ensures
            result == self.natural(),
    ;
}

impl Arith for real {
    open spec fn whole(value: i64) -> Self {
        value as int as real
    }

    open spec fn plus(self, other: Self) -> Self {
        self + other
    }

    open spec fn minus(self, other: Self) -> Self {
        self - other
    }

    open spec fn times(self, other: Self) -> Self {
        self * other
    }

    open spec fn over(self, other: Self) -> Self {
        self / other
    }

    open spec fn negated(self) -> Self {
        0real - self
    }

    open spec fn below(self, other: Self) -> bool {
        self < other
    }

    open spec fn at_most(self, other: Self) -> bool {
        self <= other
    }

    open spec fn same(self, other: Self) -> bool {
        self == other
    }

    open spec fn lesser(self, other: Self) -> Self {
        if self < other {
            self
        } else {
            other
        }
    }

    open spec fn eased(from: Self, to: Self, elapsed: u64, duration: u64) -> Self {
        if elapsed >= duration {
            to
        } else {
            from + (to - from) * (elapsed as int as real / (duration as int as real))
        }
    }
}

/// `value` held between `low` and `high`.
pub open spec fn clamped<A: Arith>(value: A, low: A, high: A) -> A {
    if value.below(low) {
        low
    } else if high.below(value) {
        high
    } else {
        value
    }
}

/// Holds `value` between `low` and `high`, which must be in order.
pub fn clamp<S: Scalar>(value: S, low: S, high: S) -> (result: S)
    requires
        low.at_most(high),
    ensures
        result == clamped(value, low, high),
{
    if value.lt(low) {
        low
    } else if high.lt(value) {
        high
    } else {
        value
    }
}

} // verus!
