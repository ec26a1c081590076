//! What holds of the greeks in exact arithmetic, between calls and puts and at expiry.

use vstd::prelude::*;
use crate::calibration::discount;
use crate::exact::{exact, exp_by_value, lemma_left, lemma_whole_value};
use crate::number::dec;
use crate::pricing::{d2_of, greeks_at, spec_cdf};
use crate::pricing_laws::law_cdf_symmetric;

verus! {

/// The square root is that of the reals.
pub open spec fn sqrt_exact<S: crate::number::Quantity>(value: spec_fn(S) -> real) -> bool {
    forall|a: S|
        0real < value(a) ==> 0real < #[trigger] value(a.spec_sqrt()) && value(a.spec_sqrt())
            * value(a.spec_sqrt()) == value(a)
}

/// Between a call and a put of the same strike, maturity and volatility: the deltas differ by
/// one, the vegas are the same, and the thetas differ by the interest on the discounted strike.
pub proof fn law_greeks_of_call_and_put<S: crate::number::Quantity>(
    value: spec_fn(S) -> real,
    s_t: S,
    strike: S,
    tau: S,
    r: S,
    vol: S,
)
    requires
        exact(value),
        exp_by_value(value),
        0real < value(tau),
        0real < value(vol),
        value(d2_of(s_t, strike, tau, r, vol)) != 0real,
    ensures
        ({
            let call = greeks_at(s_t, strike, tau, r, 'C', vol);
            let put = greeks_at(s_t, strike, tau, r, 'P', vol);
            &&& value(call.delta) - value(put.delta) == 1real
            &&& value(call.vega) == value(put.vega)
            &&& value(put.theta) - value(call.theta) == value(r) * value(strike) * value(
                discount(r, tau),
            )
        }),
{
    lemma_whole_value(value, 0);
    lemma_whole_value(value, 1);
    let d2 = d2_of(s_t, strike, tau, r, vol);
    law_cdf_symmetric(value, d2);
    lemma_left(
        value(r) * value(strike) * value(discount(r, tau)),
        value(spec_cdf(d2)),
        value(spec_cdf(-d2)),
    );
}

/// Where no time is left there is nothing to lose with it, the volatility matters no more, and
/// the delta is that of the underlying or of nothing, with the sign of the option.
pub proof fn law_greeks_at_expiry<S: crate::number::Quantity>(
    value: spec_fn(S) -> real,
    s_t: S,
    strike: S,
    tau: S,
    r: S,
    vol: S,
)
    requires
        exact(value),
        value(tau) <= 0real || value(vol) <= 0real,
    ensures
        ({
            let call = greeks_at(s_t, strike, tau, r, 'C', vol);
            let put = greeks_at(s_t, strike, tau, r, 'P', vol);
            &&& value(call.vega) == 0real && value(put.vega) == 0real
            &&& value(call.theta) == 0real && value(put.theta) == 0real
            &&& value(call.delta) - value(put.delta) == 1real
            &&& value(strike) <= value(s_t) ==> value(call.delta) == 1real
            &&& value(s_t) < value(strike) ==> value(call.delta) == 0real
        }),
{
    lemma_whole_value(value, 0);
    lemma_whole_value(value, 1);
    lemma_whole_value(value, -1);
}

proof fn lemma_over<S: crate::number::Quantity>(value: spec_fn(S) -> real, a: S, b: S)
    requires
        exact(value),
        value(b) != 0real,
    ensures
        value(a / b) * value(b) == value(a),
{
    lemma_quotient(value(a), value(b));
}

proof fn lemma_quotient(a: real, b: real)
    by (nonlinear_arith)
    requires
        b != 0real,
    ensures
        (a / b) * b == a,
{
}

proof fn lemma_by_root(d: real, w: real, n: real, t: real)
    by (nonlinear_arith)
    requires
        d * (2real * w) == -n,
        w * w == t,
    ensures
        d * (2real * t) == -(n * w),
{
}

proof fn lemma_regroup(s: real, p: real, v: real, w: real)
    by (nonlinear_arith)
    ensures
        (s * p * v) * w == (s * w * p) * v,
{
}

/// The decay that a call and a put share is the vega times the volatility over twice the time.
pub proof fn lemma_decay<S: crate::number::Quantity>(
    value: spec_fn(S) -> real,
    s_t: S,
    density: S,
    vol: S,
    tau: S,
)
    requires
        exact(value),
        sqrt_exact(value),
        0real < value(tau),
    ensures
        value(-(s_t * density * vol) / (dec::<S>(2, 0) * tau.spec_sqrt())) * (2real * value(tau))
            == -(value(s_t * tau.spec_sqrt() * density) * value(vol)),
{
    lemma_whole_value(value, 2);
    let root = tau.spec_sqrt();
    let w = value(root);
    let (above, below) = (-(s_t * density * vol), dec::<S>(2, 0) * root);
    assert(value(below) == 2real * w);
    lemma_over(value, above, below);
    lemma_by_root(value(above / below), w, value(s_t * density * vol), value(tau));
    lemma_regroup(value(s_t), value(density), value(vol), w);
}

} // verus!
