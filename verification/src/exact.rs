//! The real numbers as a [`Quantity`](crate::number::Quantity): the formulas of
//! the library read without rounding, and numbers whose arithmetic is that of the
//! reals. The laws that need exact arithmetic are stated over one or the other.

use vstd::prelude::*;
use crate::number::{dec, strictly_ordered};

verus! {

/// Ten to the power `n`.
pub open spec fn pow10(n: nat) -> int
    decreases n,
{
    if n == 0 {
        1
    } else {
        10 * pow10((n - 1) as nat)
    }
}

pub open spec fn real_add(a: real, b: real) -> real {
    a + b
}

pub open spec fn real_sub(a: real, b: real) -> real {
    a - b
}

pub open spec fn real_mul(a: real, b: real) -> real {
    a * b
}

pub open spec fn real_div(a: real, b: real) -> real {
    a / b
}

pub open spec fn real_neg(a: real) -> real {
    -a
}

pub open spec fn real_lt(a: real, b: real) -> bool {
    a < b
}

pub open spec fn real_le(a: real, b: real) -> bool {
    a <= b
}

pub open spec fn real_abs(a: real) -> real {
    if a < 0real {
        -a
    } else {
        a
    }
}

pub open spec fn real_signum(a: real) -> real {
    if a < 0real {
        -1real
    } else {
        1real
    }
}

pub open spec fn real_max(a: real, b: real) -> real {
    if a < b {
        b
    } else {
        a
    }
}

pub open spec fn real_min(a: real, b: real) -> real {
    if b < a {
        b
    } else {
        a
    }
}

pub open spec fn real_decimal(mantissa: int, places: nat) -> real {
    (mantissa as real) / (pow10(places) as real)
}

impl crate::number::Quantity for real {
    open spec fn spec_add(self, other: Self) -> Self {
        real_add(self, other)
    }

    open spec fn spec_sub(self, other: Self) -> Self {
        real_sub(self, other)
    }

    open spec fn spec_mul(self, other: Self) -> Self {
        real_mul(self, other)
    }

    open spec fn spec_euclidean_or_real_div(self, other: Self) -> Self {
        real_div(self, other)
    }

    open spec fn spec_neg(self) -> Self {
        real_neg(self)
    }

    open spec fn spec_lt(self, other: Self) -> bool {
        real_lt(self, other)
    }

    open spec fn spec_le(self, other: Self) -> bool {
        real_le(self, other)
    }

    open spec fn spec_abs(self) -> Self {
        real_abs(self)
    }

    open spec fn spec_signum(self) -> Self {
        real_signum(self)
    }

    open spec fn spec_max(self, other: Self) -> Self {
        real_max(self, other)
    }

    open spec fn spec_min(self, other: Self) -> Self {
        real_min(self, other)
    }

    open spec fn spec_is_nan(self) -> bool {
        false
    }

    open spec fn spec_is_finite(self) -> bool {
        true
    }

    open spec fn spec_decimal(mantissa: int, places: nat) -> Self {
        real_decimal(mantissa, places)
    }
}

/// The real numbers are strictly ordered.
pub proof fn law_reals_strictly_ordered()
    ensures
        strictly_ordered::<real>(),
{
}

// ---- Exact arithmetic ----

/// The arithmetic of a type of numbers is exact: each of them has a real value, and the
/// operations give what the same operations on the values give.
pub open spec fn exact<S: crate::number::Quantity>(value: spec_fn(S) -> real) -> bool {
    &&& forall|a: S, b: S| #[trigger] value(a + b) == value(a) + value(b)
    &&& forall|a: S, b: S| #[trigger] value(a - b) == value(a) - value(b)
    &&& forall|a: S, b: S| #[trigger] value(a * b) == value(a) * value(b)
    &&& forall|a: S, b: S| value(b) != 0real ==> #[trigger] value(a / b) == value(a) / value(b)
    &&& forall|a: S| #[trigger] value(-a) == -value(a)
    &&& forall|a: S, b: S| #[trigger] a.spec_lt(b) == (value(a) < value(b))
    &&& forall|a: S, b: S| #[trigger] a.spec_le(b) == (value(a) <= value(b))
    &&& forall|a: S| #[trigger] value(a.spec_abs()) == real_abs(value(a))
    &&& forall|a: S, b: S| #[trigger] value(a.spec_max(b)) == real_max(value(a), value(b))
    &&& forall|a: S, b: S| #[trigger] value(a.spec_min(b)) == real_min(value(a), value(b))
    &&& forall|m: int, places: nat| #[trigger]
        value(dec::<S>(m, places)) == real_decimal(m, places)
}

/// The exponential goes by the value: what has the same value has an exponential of the same
/// value.
pub open spec fn exp_by_value<S: crate::number::Quantity>(value: spec_fn(S) -> real) -> bool {
    forall|a: S, b: S|
        #![trigger a.spec_exp(), b.spec_exp()]
        value(a) == value(b) ==> value(a.spec_exp()) == value(b.spec_exp())
}

/// The exponential is that of the reals as far as the bounds on prices need it: positive, and
/// one at nothing.
pub open spec fn exp_positive<S: crate::number::Quantity>(value: spec_fn(S) -> real) -> bool {
    &&& forall|a: S| 0real < #[trigger] value(a.spec_exp())
    &&& forall|a: S| value(a) == 0real ==> #[trigger] value(a.spec_exp()) == 1real
}

/// The arithmetic of the real numbers is exact.
pub proof fn law_reals_are_exact()
    ensures
        exact::<real>(|a: real| a),
{
}

/// The value of a whole number.
pub proof fn lemma_whole_value<S: crate::number::Quantity>(value: spec_fn(S) -> real, m: int)
    requires
        exact(value),
    ensures
        value(dec::<S>(m, 0)) == m as real,
{
    lemma_whole(m);
}

// ---- Algebra ----

pub proof fn lemma_whole(m: int)
    ensures
        dec::<real>(m, 0) == m as real,
{
    assert(pow10(0) == 1);
    assert(real_decimal(m, 0) == (m as real) / (1int as real));
}

pub proof fn lemma_left(a: real, b: real, c: real)
    by (nonlinear_arith)
    ensures
        a * (b + c) == a * b + a * c,
{
}

pub proof fn lemma_right(a: real, b: real, c: real)
    by (nonlinear_arith)
    ensures
        (a + b) * c == a * c + b * c,
{
}

pub proof fn lemma_right3(a: real, b: real, c: real, d: real)
    by (nonlinear_arith)
    ensures
        (a + b + c) * d == a * d + b * d + c * d,
{
}

pub proof fn lemma_minus(a: real, b: real)
    by (nonlinear_arith)
    ensures
        (-a) * b == -(a * b),
{
}

pub proof fn lemma_swap(a: real, b: real, c: real)
    by (nonlinear_arith)
    ensures
        a * b * c == a * c * b,
{
}

pub proof fn lemma_group(a: real, b: real, c: real)
    by (nonlinear_arith)
    ensures
        a * b * c == a * (b * c),
{
}

pub proof fn lemma_square(c: real, k: real, h: real)
    by (nonlinear_arith)
    ensures
        c * (k + h) * (k + h) == c * k * k + 2real * c * k * h + c * h * h,
{
}

} // verus!
