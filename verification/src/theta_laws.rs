//! What options lose with time, and how that balances with their price and the other greeks, in
//! exact arithmetic.

use vstd::prelude::*;
use crate::calibration::discount;
use crate::exact::{exact, exp_by_value, lemma_whole_value};
use crate::greeks_laws::{lemma_decay, sqrt_exact};
use crate::number::dec;
use crate::pricing::{d1_of, d2_of, greeks_at, spec_bs_price, spec_cdf, spec_pdf};
use crate::pricing_laws::law_cdf_symmetric;

verus! {

#[verifier::opaque]
spec fn exactly<S: crate::number::Quantity>(value: spec_fn(S) -> real) -> bool {
    exact(value) && sqrt_exact(value)
}

/// The decay that a call and a put share, from the density.
spec fn decay_of<S: crate::number::Quantity>(s_t: S, density: S, vol: S, tau: S) -> S {
    -(s_t * density * vol) / (dec::<S>(2, 0) * tau.spec_sqrt())
}

proof fn lemma_decay_fact<S: crate::number::Quantity>(
    value: spec_fn(S) -> real,
    s_t: S,
    density: S,
    vol: S,
    tau: S,
)
    requires
        exactly(value),
        0real < value(tau),
    ensures
        value(decay_of(s_t, density, vol, tau)) * (2real * value(tau)) == -(value(
            s_t * tau.spec_sqrt() * density,
        ) * value(vol)),
{
    reveal(exactly);
    lemma_decay(value, s_t, density, vol, tau);
}

proof fn lemma_positive(a: real, b: real)
    by (nonlinear_arith)
    requires
        0real < a,
        0real < b,
    ensures
        0real < a * b,
{
}

proof fn lemma_negative_factor(a: real, b: real)
    by (nonlinear_arith)
    requires
        a * b < 0real,
        0real < b,
    ensures
        a < 0real,
{
}

proof fn lemma_decay_is_loss<S: crate::number::Quantity>(
    value: spec_fn(S) -> real,
    s_t: S,
    density: S,
    vol: S,
    tau: S,
)
    requires
        exactly(value),
        0real < value(tau),
        0real < value(vol),
        0real < value(s_t * tau.spec_sqrt() * density),
    ensures
        value(decay_of(s_t, density, vol, tau)) < 0real,
{
    lemma_decay_fact(value, s_t, density, vol, tau);
    lemma_positive(value(s_t * tau.spec_sqrt() * density), value(vol));
    lemma_negative_factor(value(decay_of(s_t, density, vol, tau)), 2real * value(tau));
}

proof fn lemma_nothing(k: real, d: real, p: real)
    by (nonlinear_arith)
    ensures
        0real * k * d * p == 0real,
{
}

proof fn lemma_no_interest<S: crate::number::Quantity>(
    value: spec_fn(S) -> real,
    decay: S,
    r: S,
    strike: S,
    disc: S,
    p: S,
)
    requires
        exactly(value),
        value(r) == 0real,
    ensures
        value(decay - r * strike * disc * p) == value(decay),
        value(decay + r * strike * disc * p) == value(decay),
{
    reveal(exactly);
    lemma_nothing(value(strike), value(disc), value(p));
}

proof fn lemma_alive<S: crate::number::Quantity>(value: spec_fn(S) -> real, tau: S, vol: S)
    requires
        exactly(value),
        0real < value(tau),
        0real < value(vol),
    ensures
        !tau.spec_le(dec::<S>(0, 0)),
        !vol.spec_le(dec::<S>(0, 0)),
{
    reveal(exactly);
    lemma_whole_value(value, 0);
}

proof fn lemma_theta<S: crate::number::Quantity>(
    value: spec_fn(S) -> real,
    s_t: S,
    strike: S,
    tau: S,
    r: S,
    vol: S,
    option_type: char,
)
    requires
        exactly(value),
        0real < value(tau),
        0real < value(vol),
        value(r) == 0real,
        0real < value(greeks_at(s_t, strike, tau, r, option_type, vol).vega),
    ensures
        value(greeks_at(s_t, strike, tau, r, option_type, vol).theta) == value(
            decay_of(s_t, spec_pdf(d1_of(s_t, strike, tau, r, vol)), vol, tau),
        ),
        value(greeks_at(s_t, strike, tau, r, option_type, vol).theta) < 0real,
{
    lemma_alive(value, tau, vol);
    let d2 = d2_of(s_t, strike, tau, r, vol);
    let density = spec_pdf(d1_of(s_t, strike, tau, r, vol));
    let decay = decay_of(s_t, density, vol, tau);
    lemma_no_interest(value, decay, r, strike, discount(r, tau), spec_cdf(d2));
    lemma_no_interest(value, decay, r, strike, discount(r, tau), spec_cdf(-d2));
    lemma_decay_is_loss(value, s_t, density, vol, tau);
}

/// At no interest every option whose price answers to the volatility loses with time.
pub proof fn law_options_lose_with_time<S: crate::number::Quantity>(
    value: spec_fn(S) -> real,
    s_t: S,
    strike: S,
    tau: S,
    r: S,
    vol: S,
    option_type: char,
)
    requires
        exact(value),
        sqrt_exact(value),
        0real < value(tau),
        0real < value(vol),
        value(r) == 0real,
        0real < value(greeks_at(s_t, strike, tau, r, option_type, vol).vega),
    ensures
        value(greeks_at(s_t, strike, tau, r, option_type, vol).theta) < 0real,
{
    assert(exactly(value)) by {
        reveal(exactly);
    }
    lemma_theta(value, s_t, strike, tau, r, vol, option_type);
}

// ---- The equation of Black and Scholes ----

proof fn lemma_call_interest(i: real, s: real, x: real, p1: real)
    by (nonlinear_arith)
    ensures
        i * (s * p1 - x) - i * (s * p1) == -(i * x),
{
}

proof fn lemma_put_interest(i: real, s: real, x: real, p1: real, q1: real)
    by (nonlinear_arith)
    requires
        p1 - 1real == -q1,
    ensures
        i * (x - s * q1) - i * (s * (p1 - 1real)) == i * x,
{
}

proof fn lemma_grouped(i: real, k: real, d: real, p: real)
    by (nonlinear_arith)
    ensures
        i * k * d * p == i * (k * d * p),
{
}

/// What the interest on the price of a call leaves when that on its delta and its theta are taken
/// off.
proof fn lemma_call_balance<S: crate::number::Quantity>(
    value: spec_fn(S) -> real,
    decay: S,
    s_t: S,
    strike: S,
    r: S,
    disc: S,
    p1: S,
    p2: S,
)
    requires
        exactly(value),
    ensures
        value(r) * value(s_t * p1 - strike * disc * p2) - value(r) * (value(s_t) * value(p1))
            - value(decay - r * strike * disc * p2) == -value(decay),
{
    reveal(exactly);
    let x = value(strike) * value(disc) * value(p2);
    lemma_grouped(value(r), value(strike), value(disc), value(p2));
    lemma_call_interest(value(r), value(s_t), x, value(p1));
}

/// The same of a put.
proof fn lemma_put_balance<S: crate::number::Quantity>(
    value: spec_fn(S) -> real,
    decay: S,
    s_t: S,
    strike: S,
    r: S,
    disc: S,
    p1: S,
    q1: S,
    q2: S,
)
    requires
        exactly(value),
        value(p1) + value(q1) == 1real,
    ensures
        value(r) * value(strike * disc * q2 - s_t * q1) - value(r) * (value(s_t) * value(
            p1 - dec::<S>(1, 0),
        )) - value(decay + r * strike * disc * q2) == -value(decay),
{
    reveal(exactly);
    lemma_whole_value(value, 1);
    let x = value(strike) * value(disc) * value(q2);
    lemma_grouped(value(r), value(strike), value(disc), value(q2));
    lemma_put_interest(value(r), value(s_t), x, value(p1), value(q1));
}

proof fn lemma_turned(a: real, e: real, b: real, c: real)
    by (nonlinear_arith)
    requires
        a * b == -c,
        e == -a,
    ensures
        e * b == c,
{
}

proof fn lemma_equation<S: crate::number::Quantity>(
    value: spec_fn(S) -> real,
    s_t: S,
    strike: S,
    tau: S,
    r: S,
    vol: S,
    option_type: char,
)
    requires
        exactly(value),
        0real < value(tau),
        0real < value(vol),
        option_type == 'C' || value(spec_cdf(d1_of(s_t, strike, tau, r, vol))) + value(
            spec_cdf(-d1_of(s_t, strike, tau, r, vol)),
        ) == 1real,
    ensures
        ({
            let g = greeks_at(s_t, strike, tau, r, option_type, vol);
            let price = spec_bs_price(s_t, strike, tau, r, vol, option_type);
            let earned = value(r) * value(price) - value(r) * (value(s_t) * value(g.delta)) - value(
                g.theta,
            );
            earned * (2real * value(tau)) == value(g.vega) * value(vol)
        }),
{
    lemma_alive(value, tau, vol);
    let d1 = d1_of(s_t, strike, tau, r, vol);
    let d2 = d2_of(s_t, strike, tau, r, vol);
    let density = spec_pdf(d1);
    let decay = decay_of(s_t, density, vol, tau);
    let disc = discount(r, tau);
    let g = greeks_at(s_t, strike, tau, r, option_type, vol);
    let price = spec_bs_price(s_t, strike, tau, r, vol, option_type);
    let earned = value(r) * value(price) - value(r) * (value(s_t) * value(g.delta)) - value(
        g.theta,
    );
    lemma_decay_fact(value, s_t, density, vol, tau);
    if option_type == 'C' {
        lemma_call_balance(value, decay, s_t, strike, r, disc, spec_cdf(d1), spec_cdf(d2));
        assert(earned == -value(decay));
    } else {
        lemma_put_balance(
            value,
            decay,
            s_t,
            strike,
            r,
            disc,
            spec_cdf(d1),
            spec_cdf(-d1),
            spec_cdf(-d2),
        );
        assert(earned == -value(decay));
    }
    lemma_turned(value(decay), earned, 2real * value(tau), value(g.vega) * value(vol));
}

/// The price and the greeks satisfy the equation of Black and Scholes: the interest on the price,
/// less that on the delta in the underlying and less what is lost with time, is what the
/// curvature earns, the vega times the volatility over twice the time to maturity.
pub proof fn law_black_scholes_equation<S: crate::number::Quantity>(
    value: spec_fn(S) -> real,
    s_t: S,
    strike: S,
    tau: S,
    r: S,
    vol: S,
    option_type: char,
)
    requires
        exact(value),
        exp_by_value(value),
        sqrt_exact(value),
        0real < value(tau),
        0real < value(vol),
        option_type == 'C' || value(d1_of(s_t, strike, tau, r, vol)) != 0real,
    ensures
        ({
            let g = greeks_at(s_t, strike, tau, r, option_type, vol);
            let price = spec_bs_price(s_t, strike, tau, r, vol, option_type);
            let earned = value(r) * value(price) - value(r) * (value(s_t) * value(g.delta)) - value(
                g.theta,
            );
            earned * (2real * value(tau)) == value(g.vega) * value(vol)
        }),
{
    assert(exactly(value)) by {
        reveal(exactly);
    }
    if option_type != 'C' {
        law_cdf_symmetric(value, d1_of(s_t, strike, tau, r, vol));
    }
    lemma_equation(value, s_t, strike, tau, r, vol, option_type);
}

// ---- Discounting ----

/// The exponential grows with its argument.
pub open spec fn exp_grows<S: crate::number::Quantity>(value: spec_fn(S) -> real) -> bool {
    forall|a: S, b: S|
        #![trigger a.spec_exp(), b.spec_exp()]
        value(a) < value(b) ==> value(a.spec_exp()) < value(b.spec_exp())
}

proof fn lemma_slower(i: real, n: real, f: real)
    by (nonlinear_arith)
    requires
        n < f,
    ensures
        0real < i ==> (-i) * f < (-i) * n,
        i < 0real ==> (-i) * n < (-i) * f,
{
}

/// A payment later is worth less at a positive rate and more at a negative one.
pub proof fn law_discount_shrinks<S: crate::number::Quantity>(
    value: spec_fn(S) -> real,
    r: S,
    near: S,
    far: S,
)
    requires
        exact(value),
        exp_grows(value),
        value(near) < value(far),
    ensures
        0real < value(r) ==> value(discount(r, far)) < value(discount(r, near)),
        value(r) < 0real ==> value(discount(r, near)) < value(discount(r, far)),
{
    let (a, b) = (-r * near, -r * far);
    assert(value(a) == (-value(r)) * value(near));
    assert(value(b) == (-value(r)) * value(far));
    lemma_slower(value(r), value(near), value(far));
    assert(discount(r, near) == a.spec_exp());
    assert(discount(r, far) == b.spec_exp());
}

} // verus!
