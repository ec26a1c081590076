//! Option prices after Black and Scholes, implied volatility and greeks.

use vstd::prelude::*;
use crate::calibration::discount;
use crate::number::{dec, one, zero, Analytic, Quantity};

verus! {

/// How the price of an option answers to the spot price, the volatility and time.
#[derive(Debug, Clone, Copy)]
pub struct OptionGreeks<S> {
    pub delta: S,
    pub vega: S,
    pub theta: S,
}

/// The density of the standard normal distribution.
pub open spec fn spec_pdf<S: Quantity>(x: S) -> S {
    (dec::<S>(-5, 1) * x * x).spec_exp() / (dec::<S>(2, 0) * dec::<S>(
        3_141_592_653_589_793,
        15,
    )).spec_sqrt()
}

/// The upper tail of the standard normal distribution beyond the absolute value of
/// `x`, by a polynomial of fifth degree.
pub open spec fn tail<S: Quantity>(x: S) -> S {
    let t = one::<S>() / (one::<S>() + dec::<S>(2_316_419, 7) * x.spec_abs());
    dec::<S>(3_989_422_804_014_327, 16) * (dec::<S>(-5, 1) * x * x).spec_exp() * t * (dec::<S>(
        319_381_530,
        9,
    ) + t * (dec::<S>(-356_563_782, 9) + t * (dec::<S>(1_781_477_937, 9) + t * (dec::<S>(
        -1_821_255_978,
        9,
    ) + t * dec::<S>(1_330_274_429, 9)))))
}

/// The distribution function of the standard normal distribution.
pub open spec fn spec_cdf<S: Quantity>(x: S) -> S {
    if zero::<S>() <= x {
        one::<S>() - tail(x)
    } else {
        tail(x)
    }
}

/// Computes the density of the standard normal distribution.
pub fn pdf<S: Analytic>(x: S) -> (r: S)
    ensures
        r == spec_pdf(x),
{
    let pi = S::decimal(3_141_592_653_589_793, 15);
    S::decimal(-5, 1).times(x).times(x).exp().over(S::decimal(2, 0).times(pi).sqrt())
}

/// Computes an approximation of the distribution function of the standard normal
/// distribution.
pub fn cdf<S: Analytic>(x: S) -> (r: S)
    ensures
        r == spec_cdf(x),
{
    let unit = S::decimal(1, 0);
    let t = unit.over(unit.plus(S::decimal(2_316_419, 7).times(x.abs())));
    let d = S::decimal(3_989_422_804_014_327, 16);
    let inner = S::decimal(-1_821_255_978, 9).plus(t.times(S::decimal(1_330_274_429, 9)));
    let middle = S::decimal(1_781_477_937, 9).plus(t.times(inner));
    let outer = S::decimal(-356_563_782, 9).plus(t.times(middle));
    let poly = S::decimal(319_381_530, 9).plus(t.times(outer));
    let probs = d.times(S::decimal(-5, 1).times(x).times(x).exp()).times(t).times(poly);
    if S::decimal(0, 0).le(x) {
        unit.minus(probs)
    } else {
        probs
    }
}

/// What an option pays at expiry.
pub open spec fn intrinsic_value<S: Quantity>(s_t: S, strike: S, option_type: char) -> S {
    if option_type == 'C' {
        (s_t - strike).spec_max(zero::<S>())
    } else {
        (strike - s_t).spec_max(zero::<S>())
    }
}

/// The first argument of the distribution function in the price of an option.
pub open spec fn d1_of<S: Quantity>(s_t: S, strike: S, tau: S, r: S, vol: S) -> S {
    ((s_t / strike).spec_ln() + (r + dec::<S>(5, 1) * vol * vol) * tau) / (vol * tau.spec_sqrt())
}

/// The second argument.
pub open spec fn d2_of<S: Quantity>(s_t: S, strike: S, tau: S, r: S, vol: S) -> S {
    d1_of(s_t, strike, tau, r, vol) - vol * tau.spec_sqrt()
}

/// The price of an option: what it pays where no time or no volatility is left, and
/// the formula of Black and Scholes otherwise.
pub open spec fn spec_bs_price<S: Quantity>(
    s_t: S,
    strike: S,
    tau: S,
    r: S,
    vol: S,
    option_type: char,
) -> S {
    if tau <= zero::<S>() || vol <= zero::<S>() {
        intrinsic_value(s_t, strike, option_type)
    } else {
        let d1 = d1_of(s_t, strike, tau, r, vol);
        let d2 = d2_of(s_t, strike, tau, r, vol);
        if option_type == 'C' {
            s_t * spec_cdf(d1) - strike * discount(r, tau) * spec_cdf(d2)
        } else {
            strike * discount(r, tau) * spec_cdf(-d2) - s_t * spec_cdf(-d1)
        }
    }
}

fn intrinsic<S: Analytic>(s_t: S, strike: S, option_type: char) -> (r: S)
    ensures
        r == intrinsic_value(s_t, strike, option_type),
{
    if option_type == 'C' {
        s_t.minus(strike).max(S::decimal(0, 0))
    } else {
        strike.minus(s_t).max(S::decimal(0, 0))
    }
}

fn d1_and_d2<S: Analytic>(s_t: S, strike: S, tau: S, r: S, vol: S) -> (d: (S, S))
    ensures
        d == (d1_of(s_t, strike, tau, r, vol), d2_of(s_t, strike, tau, r, vol)),
{
    let width = vol.times(tau.sqrt());
    let drift = r.plus(S::decimal(5, 1).times(vol).times(vol)).times(tau);
    let d1 = s_t.over(strike).ln().plus(drift).over(width);
    (d1, d1.minus(width))
}

/// Computes the price of an option.
pub fn bs_price<S: Analytic>(s_t: S, strike: S, tau: S, r: S, vol: S, option_type: char) -> (p: S)
    ensures
        p == spec_bs_price(s_t, strike, tau, r, vol, option_type),
{
    let nothing = S::decimal(0, 0);
    if tau.le(nothing) || vol.le(nothing) {
        return intrinsic(s_t, strike, option_type);
    }
    let (d1, d2) = d1_and_d2(s_t, strike, tau, r, vol);
    let disc = r.negated().times(tau).exp();
    if option_type == 'C' {
        s_t.times(cdf(d1)).minus(strike.times(disc).times(cdf(d2)))
    } else {
        strike.times(disc).times(cdf(d2.negated())).minus(s_t.times(cdf(d1.negated())))
    }
}

/// An option and the price that its volatility is to explain.
pub ghost struct PriceTarget<S> {
    pub s_t: S,
    pub strike: S,
    pub tau: S,
    pub r: S,
    pub option_type: char,
    pub price: S,
}

/// Bisection: the last midpoint after at most `n` more halvings of the range, which
/// stop once the range is narrow. `vol` is the answer where none is made.
pub open spec fn bisect<S: Quantity>(target: PriceTarget<S>, low: S, high: S, vol: S, n: nat) -> S
    decreases n,
{
    if n == 0 {
        vol
    } else {
        let mid = dec::<S>(5, 1) * (low + high);
        let p = spec_bs_price(
            target.s_t,
            target.strike,
            target.tau,
            target.r,
            mid,
            target.option_type,
        );
        let (next_low, next_high) = if p < target.price {
            (mid, high)
        } else {
            (low, mid)
        };
        if (next_high - next_low).spec_abs() < dec::<S>(1, 4) {
            mid
        } else {
            bisect(target, next_low, next_high, mid, (n - 1) as nat)
        }
    }
}

/// The implied volatility: a fifth where no time is left, a twentieth where the
/// price is no more than the option would pay now, else by at most thirty
/// halvings of the range from a ten thousandth to five.
pub open spec fn implied_vol<S: Quantity>(target: PriceTarget<S>) -> S {
    if target.tau <= zero::<S>() {
        dec::<S>(20, 2)
    } else if target.price <= intrinsic_value(target.s_t, target.strike, target.option_type) {
        dec::<S>(5, 2)
    } else {
        bisect(target, dec::<S>(1, 4), dec::<S>(5, 0), dec::<S>(20, 2), 30)
    }
}

/// Computes the volatility that a price implies, by bisection.
pub fn compute_implied_vol<S: Analytic>(
    s_t: S,
    strike: S,
    tau: S,
    r: S,
    option_type: char,
    target_price: S,
) -> (v: S)
    ensures
        v == implied_vol(
            (PriceTarget { s_t, strike, tau, r, option_type, price: target_price }),
        ),
{
    if tau.le(S::decimal(0, 0)) {
        return S::decimal(20, 2);
    }
    if target_price.le(intrinsic(s_t, strike, option_type)) {
        return S::decimal(5, 2);
    }
    let ghost target = PriceTarget { s_t, strike, tau, r, option_type, price: target_price };
    let mut low = S::decimal(1, 4);
    let mut high = S::decimal(5, 0);
    let mut vol = S::decimal(20, 2);
    let mut left: u32 = 30;
    while left > 0
        invariant
            left <= 30,
            target == (PriceTarget { s_t, strike, tau, r, option_type, price: target_price }),
            implied_vol(target) == bisect(target, low, high, vol, left as nat),
        decreases left,
    {
        let mid_vol = S::decimal(5, 1).times(low.plus(high));
        let p = bs_price(s_t, strike, tau, r, mid_vol, option_type);
        if p.lt(target_price) {
            low = mid_vol;
        } else {
            high = mid_vol;
        }
        vol = mid_vol;
        if high.minus(low).abs().lt(S::decimal(1, 4)) {
            return vol;
        }
        left = left - 1;
    }
    vol
}

/// The greeks of an option at a volatility.
pub open spec fn greeks_at<S: Quantity>(
    s_t: S,
    strike: S,
    tau: S,
    r: S,
    option_type: char,
    vol: S,
) -> OptionGreeks<S> {
    if tau <= zero::<S>() || vol <= zero::<S>() {
        OptionGreeks {
            delta: if option_type == 'C' {
                if strike <= s_t {
                    one::<S>()
                } else {
                    zero::<S>()
                }
            } else if s_t < strike {
                dec::<S>(-1, 0)
            } else {
                zero::<S>()
            },
            vega: zero::<S>(),
            theta: zero::<S>(),
        }
    } else {
        let d1 = d1_of(s_t, strike, tau, r, vol);
        let d2 = d2_of(s_t, strike, tau, r, vol);
        let decay = -(s_t * spec_pdf(d1) * vol) / (dec::<S>(2, 0) * tau.spec_sqrt());
        OptionGreeks {
            delta: if option_type == 'C' {
                spec_cdf(d1)
            } else {
                spec_cdf(d1) - one::<S>()
            },
            vega: s_t * tau.spec_sqrt() * spec_pdf(d1),
            theta: if option_type == 'C' {
                decay - r * strike * discount(r, tau) * spec_cdf(d2)
            } else {
                decay + r * strike * discount(r, tau) * spec_cdf(-d2)
            },
        }
    }
}

/// The greeks of an option at the volatility that its price implies.
pub open spec fn greeks_of<S: Quantity>(
    s_t: S,
    strike: S,
    tau: S,
    r: S,
    option_type: char,
    price: S,
) -> OptionGreeks<S> {
    greeks_at(
        s_t,
        strike,
        tau,
        r,
        option_type,
        implied_vol(PriceTarget { s_t, strike, tau, r, option_type, price }),
    )
}

/// Calculates the greeks of an option at the volatility that its calibrated price
/// implies.
pub fn calculate_greeks<S: Analytic>(
    s_t: S,
    strike: S,
    tau: S,
    r: S,
    option_type: char,
    calibrated_price: S,
) -> (g: OptionGreeks<S>)
    ensures
        g == greeks_of(s_t, strike, tau, r, option_type, calibrated_price),
{
    let vol = compute_implied_vol(s_t, strike, tau, r, option_type, calibrated_price);
    let nothing = S::decimal(0, 0);
    if tau.le(nothing) || vol.le(nothing) {
        let delta = if option_type == 'C' {
            if strike.le(s_t) {
                S::decimal(1, 0)
            } else {
                nothing
            }
        } else if s_t.lt(strike) {
            S::decimal(-1, 0)
        } else {
            nothing
        };
        return OptionGreeks { delta, vega: nothing, theta: nothing };
    }
    let (d1, d2) = d1_and_d2(s_t, strike, tau, r, vol);
    let delta = if option_type == 'C' {
        cdf(d1)
    } else {
        cdf(d1).minus(S::decimal(1, 0))
    };
    let vega = s_t.times(tau.sqrt()).times(pdf(d1));
    let decay = s_t.times(pdf(d1)).times(vol).negated().over(S::decimal(2, 0).times(tau.sqrt()));
    let disc = r.negated().times(tau).exp();
    let theta = if option_type == 'C' {
        decay.minus(r.times(strike).times(disc).times(cdf(d2)))
    } else {
        decay.plus(r.times(strike).times(disc).times(cdf(d2.negated())))
    };
    OptionGreeks { delta, vega, theta }
}

} // verus!
