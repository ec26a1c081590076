//! The arithmetic that the rest of the library is written in.
//!
//! Prices, rates and returns are values of some type `S`. What an operation on
//! `S` gives is named by [`Quantity`]; [`Number`] and [`Analytic`] promise that
//! the executable operations give just that. Every formula of the library is
//! therefore verified operation by operation, whatever rounding `S` has, and the
//! same formulas can be read over the real numbers (see `exact`).

use vstd::prelude::*;

verus! {

/// Holds of every value.
pub open spec fn anything<A, R>(args: A, r: R) -> bool {
    true
}

/// A value that is fixed by `args` and of which nothing else is known.
pub open spec fn unknown<A, R>(args: A) -> R {
    choose|r: R| anything(args, r)
}

/// What the operations on a kind of number give.
///
/// A type that leaves a function at its default says nothing about it beyond
/// that it is a function of its arguments.
pub trait Quantity: Sized {
    /// The sum.
    open spec fn spec_add(self, other: Self) -> Self {
        unknown((0int, self, other))
    }

    /// The difference.
    open spec fn spec_sub(self, other: Self) -> Self {
        unknown((1int, self, other))
    }

    /// The product.
    open spec fn spec_mul(self, other: Self) -> Self {
        unknown((2int, self, other))
    }

    /// The quotient.
    open spec fn spec_euclidean_or_real_div(self, other: Self) -> Self {
        unknown((3int, self, other))
    }

    /// The value with its sign turned.
    open spec fn spec_neg(self) -> Self {
        unknown((4int, self))
    }

    /// Whether `self` is smaller. Never so where either side is not a number.
    open spec fn spec_lt(self, other: Self) -> bool {
        unknown((5int, self, other))
    }

    /// Whether `self` is smaller or equal. Never so where either side is not a number.
    open spec fn spec_le(self, other: Self) -> bool {
        unknown((6int, self, other))
    }

    /// The absolute value.
    open spec fn spec_abs(self) -> Self {
        unknown((7int, self))
    }

    /// The larger of the two; the other one where one side is not a number.
    open spec fn spec_max(self, other: Self) -> Self {
        unknown((8int, self, other))
    }

    /// The smaller of the two; the other one where one side is not a number.
    open spec fn spec_min(self, other: Self) -> Self {
        unknown((9int, self, other))
    }

    /// Whether the value is not a number.
    open spec fn spec_is_nan(self) -> bool {
        unknown((10int, self))
    }

    /// Whether the value is a number and not infinite.
    open spec fn spec_is_finite(self) -> bool {
        unknown((11int, self))
    }

    /// The value that is not a number.
    open spec fn spec_nan() -> Self {
        unknown(12int)
    }

    /// The number nearest to `mantissa` divided by ten to the power `places`.
    open spec fn spec_decimal(mantissa: int, places: nat) -> Self {
        unknown((13int, mantissa, places))
    }

    /// The nearest integer, halves away from zero, held to the range of `u64`.
    open spec fn spec_round_u64(self) -> u64 {
        unknown((14int, self))
    }

    /// The nearest integer, halves away from zero, held to the range of `i64`.
    open spec fn spec_round_i64(self) -> i64 {
        unknown((15int, self))
    }

    /// The integer part, held to the range of `u64`.
    open spec fn spec_trunc_u64(self) -> u64 {
        unknown((16int, self))
    }

    /// The decimal text with `places` digits after the point.
    open spec fn spec_text(self, places: nat) -> Seq<char> {
        unknown((17int, self, places))
    }

    /// The number that a decimal text writes, if it writes one.
    open spec fn spec_parse(text: Seq<char>) -> Option<Self> {
        unknown((18int, text))
    }

    /// The exponential.
    open spec fn spec_exp(self) -> Self {
        unknown((19int, self))
    }

    /// The natural logarithm.
    open spec fn spec_ln(self) -> Self {
        unknown((20int, self))
    }

    /// The square root.
    open spec fn spec_sqrt(self) -> Self {
        unknown((21int, self))
    }

    /// One with the sign of the value; not a number where the value is not.
    open spec fn spec_signum(self) -> Self {
        unknown((22int, self))
    }
}

/// The number that `mantissa` times ten to the power `-places` is written as.
pub open spec fn dec<S: Quantity>(mantissa: int, places: nat) -> S {
    S::spec_decimal(mantissa, places)
}

/// The number nothing.
pub open spec fn zero<S: Quantity>() -> S {
    S::spec_decimal(0, 0)
}

/// The number one.
pub open spec fn one<S: Quantity>() -> S {
    S::spec_decimal(1, 0)
}

/// Executable arithmetic: each operation gives what [`Quantity`] names.
pub trait Number: Quantity + Copy {
    fn plus(self, other: Self) -> (r: Self)
        ensures
            r == self + other,
    ;

    fn minus(self, other: Self) -> (r: Self)
        ensures
            r == self - other,
    ;

    fn times(self, other: Self) -> (r: Self)
        ensures
            r == self * other,
    ;

    fn over(self, other: Self) -> (r: Self)
        ensures
            r == self / other,
    ;

    fn negated(self) -> (r: Self)
        ensures
            r == -self,
    ;

    fn lt(self, other: Self) -> (r: bool)
        ensures
            r == (self < other),
    ;

    fn le(self, other: Self) -> (r: bool)
        ensures
            r == (self <= other),
    ;

    fn abs(self) -> (r: Self)
        ensures
            r == self.spec_abs(),
    ;

    fn signum(self) -> (r: Self)
        ensures
            r == self.spec_signum(),
    ;

    fn max(self, other: Self) -> (r: Self)
        ensures
            r == self.spec_max(other),
    ;

    fn min(self, other: Self) -> (r: Self)
        ensures
            r == self.spec_min(other),
    ;

    fn is_nan(self) -> (r: bool)
        ensures
            r == self.spec_is_nan(),
    ;

    fn is_finite(self) -> (r: bool)
        ensures
            r == self.spec_is_finite(),
    ;

    fn nan() -> (r: Self)
        ensures
            r == Self::spec_nan(),
    ;

    fn decimal(mantissa: i128, places: u32) -> (r: Self)
        ensures
            r == Self::spec_decimal(mantissa as int, places as nat),
    ;

    fn round_u64(self) -> (r: u64)
        ensures
            r == self.spec_round_u64(),
    ;

    fn round_i64(self) -> (r: i64)
        ensures
            r == self.spec_round_i64(),
    ;

    fn trunc_u64(self) -> (r: u64)
        ensures
            r == self.spec_trunc_u64(),
    ;

    fn text(self, places: u32) -> (r: String)
        ensures
            r@ == self.spec_text(places as nat),
    ;

    fn parse(text: &str) -> (r: Option<Self>)
        ensures
            r == Self::spec_parse(text@),
    ;
}

/// Arithmetic with the functions that the pricing formulas use.
pub trait Analytic: Number {
    fn exp(self) -> (r: Self)
        ensures
            r == self.spec_exp(),
    ;

    fn ln(self) -> (r: Self)
        ensures
            r == self.spec_ln(),
    ;

    fn sqrt(self) -> (r: Self)
        ensures
            r == self.spec_sqrt(),
    ;
}

/// `<` is a strict order: nothing is below itself, and what is below something
/// is below all that lies above it.
pub open spec fn strictly_ordered<S: Quantity>() -> bool {
    &&& forall|a: S| !(#[trigger] a.spec_lt(a))
    &&& forall|a: S, b: S, c: S| #[trigger] a.spec_lt(b) && #[trigger] b.spec_lt(c) ==> a.spec_lt(c)
}

} // verus!
