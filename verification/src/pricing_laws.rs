//! What holds of option prices and implied volatilities in exact arithmetic.

use vstd::prelude::*;
use crate::calibration::discount;
use crate::exact::{
    exact, exp_by_value, exp_positive, lemma_left, lemma_whole_value, pow10, real_abs, real_decimal,
};
use crate::number::dec;
use crate::pricing::{
    bisect, d1_of, d2_of, implied_vol, intrinsic_value, spec_bs_price, spec_cdf, tail, PriceTarget,
};

verus! {

// ---- Parity ----

proof fn lemma_even_square(a: real, x: real)
    by (nonlinear_arith)
    ensures
        a * (-x) * (-x) == a * x * x,
{
}

proof fn lemma_tail_even<S: crate::number::Quantity>(value: spec_fn(S) -> real, x: S)
    requires
        exact(value),
        exp_by_value(value),
    ensures
        value(tail(-x)) == value(tail(x)),
{
    let half = dec::<S>(-5, 1);
    lemma_even_square(value(half), value(x));
    assert(value(half * x * x) == value(half * (-x) * (-x)));
    let (e, f) = ((half * x * x).spec_exp(), (half * (-x) * (-x)).spec_exp());
    assert(value(e) == value(f));
    let one = dec::<S>(1, 0);
    lemma_whole_value(value, 1);
    let (g, h) = (
        one + dec::<S>(2_316_419, 7) * x.spec_abs(),
        one + dec::<S>(2_316_419, 7) * (-x).spec_abs(),
    );
    assert(value(g) == value(h));
    lemma_small_constants();
    lemma_positive_times(real_decimal(2_316_419, 7), real_abs(value(x)));
    assert(value(g) != 0real);
    assert(value(one / g) == value(one / h));
}

proof fn lemma_positive_times(a: real, b: real)
    by (nonlinear_arith)
    requires
        0real <= a,
        0real <= b,
    ensures
        0real <= a * b,
{
}

proof fn lemma_small_constants()
    ensures
        real_decimal(2_316_419, 7) > 0real,
        real_decimal(1, 4) == 1real / 10_000real,
        real_decimal(5, 1) == 1real / 2real,
{
    reveal_with_fuel(pow10, 8);
    assert(pow10(7) == 10_000_000);
    assert(pow10(4) == 10_000);
    assert(pow10(1) == 10);
    assert(real_decimal(2_316_419, 7) == (2_316_419int as real) / (10_000_000int as real));
    assert(real_decimal(5, 1) == (5int as real) / (10int as real));
}

/// The distribution function is symmetric: what lies below `-x` lies above `x`. At
/// nothing itself the approximation is not exactly a half.
pub proof fn law_cdf_symmetric<S: crate::number::Quantity>(value: spec_fn(S) -> real, x: S)
    requires
        exact(value),
        exp_by_value(value),
        value(x) != 0real,
    ensures
        value(spec_cdf(x)) + value(spec_cdf(-x)) == 1real,
{
    lemma_whole_value(value, 0);
    lemma_whole_value(value, 1);
    lemma_tail_even(value, x);
}

proof fn lemma_tail_constants()
    ensures
        real_decimal(3_989_422_804_014_327, 16) == 3_989_422_804_014_327real
            / 10_000_000_000_000_000real,
        real_decimal(319_381_530, 9) == 319_381_530real / 1_000_000_000real,
        real_decimal(-356_563_782, 9) == -356_563_782real / 1_000_000_000real,
        real_decimal(1_781_477_937, 9) == 1_781_477_937real / 1_000_000_000real,
        real_decimal(-1_821_255_978, 9) == -1_821_255_978real / 1_000_000_000real,
        real_decimal(1_330_274_429, 9) == 1_330_274_429real / 1_000_000_000real,
{
    reveal_with_fuel(pow10, 17);
    assert(pow10(9) == 1_000_000_000);
    assert(pow10(16) == 10_000_000_000_000_000);
}

proof fn lemma_times_one(a: real)
    ensures
        a * 1real == a,
        1real * a == a,
        a * 0real == 0real,
        a / 1real == a,
{
}

/// At nothing the upper tail is a half, to nine places.
proof fn lemma_tail_at_nothing<S: crate::number::Quantity>(value: spec_fn(S) -> real, x: S)
    requires
        exact(value),
        exp_positive(value),
        value(x) == 0real,
    ensures
        -1real / 100_000_000real <= 1real - 2real * value(tail(x)) <= 1real / 100_000_000real,
{
    lemma_whole_value(value, 1);
    lemma_tail_constants();
    let half = dec::<S>(-5, 1);
    assert(value(half * x * x) == 0real);
    let e = (half * x * x).spec_exp();
    assert(value(e) == 1real);
    let one = dec::<S>(1, 0);
    let g = one + dec::<S>(2_316_419, 7) * x.spec_abs();
    assert(value(dec::<S>(2_316_419, 7) * x.spec_abs()) == 0real) by {
        lemma_times_one(value(dec::<S>(2_316_419, 7)));
    }
    assert(value(g) == 1real);
    let t = one / g;
    assert(value(t) == 1real);
    let c5 = dec::<S>(1_330_274_429, 9);
    let p4 = dec::<S>(-1_821_255_978, 9) + t * c5;
    assert(value(p4) == real_decimal(-1_821_255_978, 9) + real_decimal(1_330_274_429, 9)) by {
        lemma_times_one(value(c5));
    }
    let p3 = dec::<S>(1_781_477_937, 9) + t * p4;
    assert(value(p3) == real_decimal(1_781_477_937, 9) + value(p4)) by {
        lemma_times_one(value(p4));
    }
    let p2 = dec::<S>(-356_563_782, 9) + t * p3;
    assert(value(p2) == real_decimal(-356_563_782, 9) + value(p3)) by {
        lemma_times_one(value(p3));
    }
    let p1 = dec::<S>(319_381_530, 9) + t * p2;
    assert(value(p1) == real_decimal(319_381_530, 9) + value(p2)) by {
        lemma_times_one(value(p2));
    }
    let d = dec::<S>(3_989_422_804_014_327, 16);
    assert(value(d * e * t) == value(d)) by {
        lemma_times_one(value(d));
    }
    assert(tail(x) == d * e * t * p1);
    assert(value(p1) == 1_253_314_136real / 1_000_000_000real);
    assert(value(tail(x)) == value(d) * value(p1));
    assert(value(tail(x)) == (3_989_422_804_014_327real / 10_000_000_000_000_000real) * (
    1_253_314_136real / 1_000_000_000real));
}

/// The distribution function is symmetric everywhere to eight places.
pub proof fn law_cdf_nearly_symmetric<S: crate::number::Quantity>(value: spec_fn(S) -> real, x: S)
    requires
        exact(value),
        exp_by_value(value),
        exp_positive(value),
    ensures
        -1real / 100_000_000real <= value(spec_cdf(x)) + value(spec_cdf(-x)) - 1real <= 1real
            / 100_000_000real,
{
    if value(x) == 0real {
        lemma_whole_value(value, 0);
        lemma_whole_value(value, 1);
        lemma_tail_at_nothing(value, x);
        lemma_tail_even(value, x);
    } else {
        law_cdf_symmetric(value, x);
    }
}

/// Parity of prices: a call less the put of the same strike, maturity and volatility
/// is the spot price less the discounted strike.
pub proof fn law_bs_put_call_parity<S: crate::number::Quantity>(
    value: spec_fn(S) -> real,
    s_t: S,
    strike: S,
    tau: S,
    r: S,
    vol: S,
)
    requires
        exact(value),
        exp_by_value(value),
        0real < value(tau),
        0real < value(vol),
        value(d1_of(s_t, strike, tau, r, vol)) != 0real,
        value(d2_of(s_t, strike, tau, r, vol)) != 0real,
    ensures
        value(spec_bs_price(s_t, strike, tau, r, vol, 'C')) - value(
            spec_bs_price(s_t, strike, tau, r, vol, 'P'),
        ) == value(s_t) - value(strike) * value(discount(r, tau)),
{
    lemma_whole_value(value, 0);
    let d1 = d1_of(s_t, strike, tau, r, vol);
    let d2 = d2_of(s_t, strike, tau, r, vol);
    law_cdf_symmetric(value, d1);
    law_cdf_symmetric(value, d2);
    lemma_left(value(s_t), value(spec_cdf(d1)), value(spec_cdf(-d1)));
    lemma_left(
        value(strike) * value(discount(r, tau)),
        value(spec_cdf(d2)),
        value(spec_cdf(-d2)),
    );
}

proof fn lemma_scaled(a: real, e: real, b: real)
    by (nonlinear_arith)
    requires
        0real <= a,
        -b <= e <= b,
    ensures
        -(a * b) <= a * e <= a * b,
{
}

proof fn lemma_three(a: real, p: real, q: real)
    by (nonlinear_arith)
    ensures
        a * (p + q - 1real) == a * p + a * q - a,
{
}

/// Parity of prices holds at every volatility and maturity to eight places of the spot price
/// and the discounted strike together.
pub proof fn law_bs_put_call_parity_bounded<S: crate::number::Quantity>(
    value: spec_fn(S) -> real,
    s_t: S,
    strike: S,
    tau: S,
    r: S,
    vol: S,
)
    requires
        exact(value),
        exp_by_value(value),
        exp_positive(value),
        0real < value(s_t),
        0real < value(strike),
        0real < value(tau),
        0real < value(vol),
    ensures
        ({
            let paid = value(strike) * value(discount(r, tau));
            let off = value(spec_bs_price(s_t, strike, tau, r, vol, 'C')) - value(
                spec_bs_price(s_t, strike, tau, r, vol, 'P'),
            ) - (value(s_t) - paid);
            let most = value(s_t) * (1real / 100_000_000real) + paid * (1real / 100_000_000real);
            -most <= off <= most
        }),
{
    lemma_whole_value(value, 0);
    let d1 = d1_of(s_t, strike, tau, r, vol);
    let d2 = d2_of(s_t, strike, tau, r, vol);
    law_cdf_nearly_symmetric(value, d1);
    law_cdf_nearly_symmetric(value, d2);
    let spot = value(s_t);
    let paid = value(strike) * value(discount(r, tau));
    let (p1, q1) = (value(spec_cdf(d1)), value(spec_cdf(-d1)));
    let (p2, q2) = (value(spec_cdf(d2)), value(spec_cdf(-d2)));
    lemma_positive_times(value(strike), value(discount(r, tau)));
    lemma_scaled(spot, p1 + q1 - 1real, 1real / 100_000_000real);
    lemma_scaled(paid, p2 + q2 - 1real, 1real / 100_000_000real);
    lemma_three(spot, p1, q1);
    lemma_three(paid, p2, q2);
}

// ---- Implied volatility ----

/// Two to the power `n`.
pub open spec fn doubled(n: nat) -> int
    decreases n,
{
    if n == 0 {
        1
    } else {
        2 * doubled((n - 1) as nat)
    }
}

/// The price of the option at a volatility.
pub open spec fn price_at<S: crate::number::Quantity>(target: PriceTarget<S>, vol: S) -> S {
    spec_bs_price(target.s_t, target.strike, target.tau, target.r, vol, target.option_type)
}

/// The price rises with the volatility, from a ten thousandth to five.
pub open spec fn price_rises<S: crate::number::Quantity>(
    value: spec_fn(S) -> real,
    target: PriceTarget<S>,
) -> bool {
    forall|a: S, b: S|
        1real / 10_000real <= value(a) && value(a) < value(b) && value(b) <= 5real ==> value(
            #[trigger] price_at(target, a),
        ) < value(#[trigger] price_at(target, b))
}

proof fn lemma_bisect<S: crate::number::Quantity>(
    value: spec_fn(S) -> real,
    target: PriceTarget<S>,
    v: S,
    low: S,
    high: S,
    vol: S,
    n: nat,
)
    requires
        exact(value),
        price_rises(value, target),
        target.price == price_at(target, v),
        1real / 10_000real <= value(low) <= value(v) <= value(high) <= 5real,
        value(high) - value(low) < (doubled(n) as real) / 10_000real,
        n > 0,
    ensures
        -1real / 10_000real <= value(bisect(target, low, high, vol, n)) - value(v) <= 1real
            / 10_000real,
    decreases n,
{
    lemma_small_constants();
    let mid = dec::<S>(5, 1) * (low + high);
    assert(value(mid) == (1real / 2real) * (value(low) + value(high)));
    let p = price_at(target, mid);
    if value(mid) < value(v) {
        assert(value(price_at(target, mid)) < value(price_at(target, v)));
    } else if value(v) < value(mid) {
        assert(value(price_at(target, v)) < value(price_at(target, mid)));
    }
    let (next_low, next_high) = if p < target.price {
        (mid, high)
    } else {
        (low, mid)
    };
    assert(value(next_low) <= value(v) <= value(next_high));
    let width = next_high - next_low;
    assert(value(width) == (value(high) - value(low)) / 2real);
    assert(doubled(n) == 2 * doubled((n - 1) as nat));
    if width.spec_abs() < dec::<S>(1, 4) {
    } else {
        if n == 1 {
            assert(doubled(0) == 1);
        } else {
            lemma_bisect(value, target, v, next_low, next_high, mid, (n - 1) as nat);
        }
    }
}

/// The implied volatility undoes the price: that of the price at a volatility is this
/// volatility, to a ten thousandth, wherever the price rises with the volatility.
pub proof fn law_implied_vol_inverts_price<S: crate::number::Quantity>(
    value: spec_fn(S) -> real,
    target: PriceTarget<S>,
    v: S,
)
    requires
        exact(value),
        price_rises(value, target),
        0real < value(target.tau),
        1real / 10_000real <= value(v) <= 5real,
        target.price == price_at(target, v),
        value(intrinsic_value(target.s_t, target.strike, target.option_type)) < value(
            target.price,
        ),
    ensures
        -1real / 10_000real <= value(implied_vol(target)) - value(v) <= 1real / 10_000real,
{
    lemma_small_constants();
    lemma_whole_value(value, 0);
    lemma_whole_value(value, 5);
    reveal_with_fuel(doubled, 31);
    assert(doubled(30) == 1_073_741_824);
    lemma_bisect(value, target, v, dec::<S>(1, 4), dec::<S>(5, 0), dec::<S>(20, 2), 30);
}

} // verus!
