//! What holds of the fitted surface and of the activation score in exact arithmetic.

use vstd::prelude::*;
use crate::activation::{
    bends_of, curve, execution_gap, is_candidate, run_end, shape_violations, slope, steps_of,
    with_curve, with_runs, with_wrong_bends, with_wrong_steps,
};
use crate::calibration::{
    all_quote_rows, all_size_rows, calendar_terms, curvature_terms, discount, fit_program,
    quote_rows, quotes_of, slope_terms, surface_of, usable, value_terms, CalibrationSurface, Quote,
};
use crate::exact::{
    exact, lemma_group, lemma_left, lemma_right, lemma_right3, lemma_square, lemma_swap, lemma_whole,
    lemma_whole_value,
};
use crate::ingestion::OptionTick;
use crate::lp::{feasible, meets, weighed};
use crate::number::dec;

verus! {

// ---- The surface ----

/// The surface as a polynomial in strike and time, from the spot price and the values of its
/// coefficients.
spec fn price(c: Seq<real>, s_t: real, k: real, t: real) -> real {
    s_t + c[0] * k + c[1] * k * t + c[2] * k * t * t + c[3] * k * k + c[4] * k * k * t + c[5] * k
        * k * t * t
}

/// Its slope in strike.
spec fn strike_slope(c: Seq<real>, k: real, t: real) -> real {
    c[0] + c[1] * t + c[2] * t * t + 2real * c[3] * k + 2real * c[4] * k * t + 2real * c[5] * k * t
        * t
}

/// Its curvature in strike.
spec fn strike_curvature(c: Seq<real>, t: real) -> real {
    2real * c[3] + 2real * c[4] * t + 2real * c[5] * t * t
}

/// Its slope in time.
spec fn time_slope(c: Seq<real>, k: real, t: real) -> real {
    c[1] * k + 2real * c[2] * k * t + c[4] * k * k + 2real * c[5] * k * k * t
}

/// The values of the coefficients of a surface.
spec fn values_of<S>(value: spec_fn(S) -> real, surface: CalibrationSurface<S>) -> Seq<real> {
    surface.theta@.map_values(value)
}

proof fn lemma_surface_values<S: crate::number::Quantity>(
    value: spec_fn(S) -> real,
    surface: CalibrationSurface<S>,
    k: S,
    t: S,
)
    requires
        exact(value),
    ensures
        value(surface.spec_evaluate(k, t)) == price(
            values_of(value, surface),
            value(surface.s_t),
            value(k),
            value(t),
        ),
        value(surface.spec_d_k(k, t)) == strike_slope(
            values_of(value, surface),
            value(k),
            value(t),
        ),
        value(surface.spec_d_kk(t)) == strike_curvature(values_of(value, surface), value(t)),
        value(surface.spec_d_t(k, t)) == time_slope(values_of(value, surface), value(k), value(t)),
{
    lemma_whole_value(value, 2);
}

/// The surface gives the spot price at strike nothing.
pub proof fn law_surface_starts_at_spot<S: crate::number::Quantity>(
    value: spec_fn(S) -> real,
    surface: CalibrationSurface<S>,
    k: S,
    t: S,
)
    requires
        exact(value),
        value(k) == 0real,
    ensures
        value(surface.spec_evaluate(k, t)) == value(surface.s_t),
{
    lemma_surface_values(value, surface, k, t);
    let c = values_of(value, surface);
    assert(c[0] * 0real == 0real && c[1] * 0real == 0real && c[2] * 0real == 0real);
    assert(c[3] * 0real == 0real && c[4] * 0real == 0real && c[5] * 0real == 0real);
    assert(0real * value(t) == 0real && 0real * 0real == 0real);
}

proof fn lemma_step_times(a: real, b: real, k: real, h: real, t: real)
    ensures
        a * (k + h) * t == a * k * t + a * t * h,
        b * (k + h) * (k + h) * t == b * k * k * t + 2real * b * k * t * h + b * t * h * h,
{
    lemma_left(a, k, h);
    lemma_right(a * k, a * h, t);
    lemma_swap(a, h, t);
    lemma_square(b, k, h);
    lemma_right3(b * k * k, 2real * b * k * h, b * h * h, t);
    lemma_swap(2real * b * k, h, t);
    lemma_swap(b * h, h, t);
    lemma_swap(b, h, t);
}

proof fn lemma_strike_step(c: Seq<real>, s_t: real, k: real, t: real, h: real)
    ensures
        price(c, s_t, k + h, t) == price(c, s_t, k, t) + strike_slope(c, k, t) * h
            + strike_curvature(c, t) * h * h / 2real,
{
    let (c0, c1, c2, c3, c4, c5) = (c[0], c[1], c[2], c[3], c[4], c[5]);
    // Strike alone.
    lemma_left(c0, k, h);
    lemma_square(c3, k, h);
    // Strike and time.
    lemma_step_times(c1, c4, k, h, t);
    // Strike and time squared.
    lemma_step_times(c2, c5, k, h, t);
    lemma_right(c2 * k * t, c2 * t * h, t);
    lemma_swap(c2 * t, h, t);
    lemma_right3(c5 * k * k * t, 2real * c5 * k * t * h, c5 * t * h * h, t);
    lemma_swap(2real * c5 * k * t, h, t);
    lemma_swap(c5 * t * h, h, t);
    lemma_swap(c5 * t, h, t);
    // The slope.
    let (s3, s4, s5) = (2real * c3 * k, 2real * c4 * k * t, 2real * c5 * k * t * t);
    lemma_right3(c0 + c1 * t + c2 * t * t, s3, s4, h);
    lemma_right3(c0, c1 * t, c2 * t * t, h);
    lemma_right(c0 + c1 * t + c2 * t * t + s3 + s4, s5, h);
    // The curvature.
    let (q3, q4, q5) = (2real * c3, 2real * c4 * t, 2real * c5 * t * t);
    lemma_right3(q3, q4, q5, h);
    lemma_right3(q3 * h, q4 * h, q5 * h, h);
    lemma_group(2real, c3, h);
    lemma_group(2real, c3 * h, h);
    lemma_group(2real, c4, t);
    lemma_group(2real, c4 * t, h);
    lemma_group(2real, c4 * t * h, h);
    lemma_group(2real, c5, t);
    lemma_group(2real, c5 * t, t);
    lemma_group(2real, c5 * t * t, h);
    lemma_group(2real, c5 * t * t * h, h);
}

proof fn lemma_slope_step(c: Seq<real>, k: real, t: real, h: real)
    ensures
        strike_slope(c, k + h, t) - strike_slope(c, k, t) == h * strike_curvature(c, t),
{
    let (a, b, d) = (2real * c[3], 2real * c[4], 2real * c[5]);
    lemma_left(a, k, h);
    lemma_step_times(b, 0real, k, h, t);
    lemma_step_times(d, 0real, k, h, t);
    lemma_right(d * k * t, d * t * h, t);
    lemma_swap(d * t, h, t);
    lemma_right3(a, b * t, d * t * t, h);
    lemma_turned(a + b * t + d * t * t, h);
}

proof fn lemma_turned(a: real, b: real)
    by (nonlinear_arith)
    ensures
        a * b == b * a,
        a * (-b) == -(a * b),
        a * (-b) * (-b) == a * b * b,
{
}

/// `d_k` and `d_kk` are the derivatives in strike: a step in strike changes the
/// price by the slope times the step and half the curvature times its square,
/// with nothing left over, and the slope by the curvature times the step.
pub proof fn law_surface_strike_derivatives<S: crate::number::Quantity>(
    value: spec_fn(S) -> real,
    surface: CalibrationSurface<S>,
    k: S,
    t: S,
    h: S,
)
    requires
        exact(value),
    ensures
        value(surface.spec_evaluate(k + h, t)) == value(surface.spec_evaluate(k, t)) + value(
            surface.spec_d_k(k, t),
        ) * value(h) + value(surface.spec_d_kk(t)) * value(h) * value(h) / 2real,
        value(surface.spec_evaluate(k + h, t)) - value(surface.spec_evaluate(k - h, t)) == 2real * (
        value(h) * value(surface.spec_d_k(k, t))),
        value(surface.spec_d_k(k + h, t)) - value(surface.spec_d_k(k, t)) == value(h) * value(
            surface.spec_d_kk(t),
        ),
{
    lemma_surface_values(value, surface, k, t);
    lemma_surface_values(value, surface, k + h, t);
    lemma_surface_values(value, surface, k - h, t);
    let c = values_of(value, surface);
    let (s_t, x, y, d) = (value(surface.s_t), value(k), value(t), value(h));
    lemma_strike_step(c, s_t, x, y, d);
    lemma_strike_step(c, s_t, x, y, -d);
    lemma_slope_step(c, x, y, d);
    lemma_turned(strike_slope(c, x, y), d);
    lemma_turned(strike_curvature(c, y), d);
    assert(x + (-d) == x - d);
}

/// `d_t` is the derivative in time: a step in time changes the price by the slope
/// times the step and a term in the square of the step.
pub proof fn law_surface_time_derivative<S: crate::number::Quantity>(
    value: spec_fn(S) -> real,
    surface: CalibrationSurface<S>,
    k: S,
    t: S,
    h: S,
)
    requires
        exact(value),
    ensures
        value(surface.spec_evaluate(k, t + h)) == value(surface.spec_evaluate(k, t)) + value(
            surface.spec_d_t(k, t),
        ) * value(h) + value(surface.theta@[2] * k + surface.theta@[5] * k * k) * value(h) * value(
            h,
        ),
{
    lemma_surface_values(value, surface, k, t);
    lemma_surface_values(value, surface, k, t + h);
    let c = values_of(value, surface);
    lemma_time_step(c, value(surface.s_t), value(k), value(t), value(h));
}

proof fn lemma_time_step(c: Seq<real>, s_t: real, k: real, t: real, h: real)
    ensures
        price(c, s_t, k, t + h) == price(c, s_t, k, t) + time_slope(c, k, t) * h + (c[2] * k + c[5]
            * k * k) * h * h,
{
    let (c1, c2, c4, c5) = (c[1] * k, c[2] * k, c[4] * k * k, c[5] * k * k);
    lemma_left(c1, t, h);
    lemma_square(c2, t, h);
    lemma_left(c4, t, h);
    lemma_square(c5, t, h);
    lemma_group(2real, c[2], k);
    lemma_group(2real, c[5], k);
    lemma_group(2real, c[5] * k, k);
    lemma_right3(c1, 2real * c2 * t, c4, h);
    lemma_right(c1 + 2real * c2 * t + c4, 2real * c5 * t, h);
    lemma_right(c2, c5, h);
    lemma_right(c2 * h, c5 * h, h);
}

pub proof fn lemma_weighed_push<S: crate::number::Quantity>(
    value: spec_fn(S) -> real,
    terms: Seq<(usize, S)>,
    v: usize,
    a: S,
    x: Seq<S>,
)
    requires
        exact(value),
    ensures
        value(weighed(terms.push((v, a)), x)) == value(weighed(terms, x)) + value(a) * value(
            x[v as int],
        ),
{
    assert(terms.push((v, a)).drop_last() =~= terms);
}

pub proof fn lemma_weighed_none<S: crate::number::Quantity>(value: spec_fn(S) -> real, x: Seq<S>)
    requires
        exact(value),
    ensures
        value(weighed(Seq::<(usize, S)>::empty(), x)) == 0real,
{
    lemma_whole_value(value, 0);
}

/// The sums of the constraints are the value, the slopes and the curvature of the
/// surface that they hold.
pub proof fn lemma_terms_are_surface<S: crate::number::Quantity>(
    value: spec_fn(S) -> real,
    surface: CalibrationSurface<S>,
    x: Seq<S>,
    k: S,
    t: S,
)
    requires
        exact(value),
        x.len() >= 6,
        surface.theta@ == x.take(6),
    ensures
        value(surface.s_t) + value(weighed(value_terms(k, t), x)) == value(
            surface.spec_evaluate(k, t),
        ),
        value(weighed(slope_terms(k, t), x)) == value(surface.spec_d_k(k, t)),
        value(weighed(curvature_terms(t), x)) == value(surface.spec_d_kk(t)),
        value(weighed(calendar_terms(k, t), x)) * value(k) == value(surface.spec_d_t(k, t)),
{
    lemma_surface_values(value, surface, k, t);
    lemma_value_sum(value, surface, x, k, t);
    lemma_slope_sum(value, surface, x, k, t);
    lemma_curvature_sum(value, surface, x, t);
    lemma_calendar_sum(value, surface, x, k, t);
}

proof fn lemma_value_sum<S: crate::number::Quantity>(
    value: spec_fn(S) -> real,
    surface: CalibrationSurface<S>,
    x: Seq<S>,
    k: S,
    t: S,
)
    requires
        exact(value),
        x.len() >= 6,
        surface.theta@ == x.take(6),
    ensures
        value(surface.s_t) + value(weighed(value_terms(k, t), x)) == price(
            values_of(value, surface),
            value(surface.s_t),
            value(k),
            value(t),
        ),
{
    let c = values_of(value, surface);
    let (c0, c1, c2, c3, c4, c5) = (c[0], c[1], c[2], c[3], c[4], c[5]);
    lemma_first_six(value, surface, x);
    let (p, q) = (value(k), value(t));
    let none = Seq::<(usize, S)>::empty();
    lemma_weighed_none(value, x);
    assert(value(weighed(value_terms(k, t), x)) == p * c0 + (p * q) * c1 + (p * q * q) * c2 + (p * p)
        * c3 + (p * p * q) * c4 + (p * p * q * q) * c5) by {
        let v0 = none.push((0usize, k));
        let v1 = v0.push((1usize, k * t));
        let v2 = v1.push((2usize, k * t * t));
        let v3 = v2.push((3usize, k * k));
        let v4 = v3.push((4usize, k * k * t));
        lemma_weighed_push(value, none, 0, k, x);
        lemma_weighed_push(value, v0, 1, k * t, x);
        lemma_weighed_push(value, v1, 2, k * t * t, x);
        lemma_weighed_push(value, v2, 3, k * k, x);
        lemma_weighed_push(value, v3, 4, k * k * t, x);
        lemma_weighed_push(value, v4, 5, k * k * t * t, x);
        assert(value_terms(k, t) =~= v4.push((5usize, k * k * t * t)));
    }
    lemma_group(c1, p, q);
    lemma_group(c2, p, q);
    lemma_group(c2, p * q, q);
    lemma_group(c3, p, p);
    lemma_group(c4, p, p);
    lemma_group(c4, p * p, q);
    lemma_group(c5, p, p);
    lemma_group(c5, p * p, q);
    lemma_group(c5, p * p * q, q);
}

/// The first six values of an answer are those of the coefficients.
proof fn lemma_first_six<S>(
    value: spec_fn(S) -> real,
    surface: CalibrationSurface<S>,
    x: Seq<S>,
)
    requires
        x.len() >= 6,
        surface.theta@ == x.take(6),
    ensures
        values_of(value, surface).len() == 6,
        forall|m: int| 0 <= m < 6 ==> #[trigger] values_of(value, surface)[m] == value(x[m]),
{
    assert forall|m: int| 0 <= m < 6 implies #[trigger] values_of(value, surface)[m] == value(
        x[m],
    ) by {
        assert(surface.theta@[m] == x.take(6)[m]);
    }
}

proof fn lemma_slope_sum<S: crate::number::Quantity>(
    value: spec_fn(S) -> real,
    surface: CalibrationSurface<S>,
    x: Seq<S>,
    k: S,
    t: S,
)
    requires
        exact(value),
        x.len() >= 6,
        surface.theta@ == x.take(6),
    ensures
        value(weighed(slope_terms(k, t), x)) == strike_slope(
            values_of(value, surface),
            value(k),
            value(t),
        ),
{
    lemma_whole_value(value, 1);
    lemma_whole_value(value, 2);
    let c = values_of(value, surface);
    let (c0, c1, c2, c3, c4, c5) = (c[0], c[1], c[2], c[3], c[4], c[5]);
    lemma_first_six(value, surface, x);
    let (p, q) = (value(k), value(t));
    let none = Seq::<(usize, S)>::empty();
    lemma_weighed_none(value, x);
    let two = dec::<S>(2, 0);
    assert(value(weighed(slope_terms(k, t), x)) == 1real * c0 + q * c1 + (q * q) * c2 + (2real * p)
        * c3 + (2real * p * q) * c4 + (2real * p * q * q) * c5) by {
        let v0 = none.push((0usize, dec::<S>(1, 0)));
        let v1 = v0.push((1usize, t));
        let v2 = v1.push((2usize, t * t));
        let v3 = v2.push((3usize, two * k));
        let v4 = v3.push((4usize, two * k * t));
        lemma_weighed_push(value, none, 0, dec::<S>(1, 0), x);
        lemma_weighed_push(value, v0, 1, t, x);
        lemma_weighed_push(value, v1, 2, t * t, x);
        lemma_weighed_push(value, v2, 3, two * k, x);
        lemma_weighed_push(value, v3, 4, two * k * t, x);
        lemma_weighed_push(value, v4, 5, two * k * t * t, x);
        assert(slope_terms(k, t) =~= v4.push((5usize, two * k * t * t)));
    }
    lemma_group(c2, q, q);
    lemma_swap(2real, p, c3);
    lemma_swap(2real * p, q, c4);
    lemma_swap(2real, p, c4);
    lemma_swap(2real * p * q, q, c5);
    lemma_swap(2real * p, q, c5);
    lemma_swap(2real, p, c5);
}

proof fn lemma_curvature_sum<S: crate::number::Quantity>(
    value: spec_fn(S) -> real,
    surface: CalibrationSurface<S>,
    x: Seq<S>,
    t: S,
)
    requires
        exact(value),
        x.len() >= 6,
        surface.theta@ == x.take(6),
    ensures
        value(weighed(curvature_terms(t), x)) == strike_curvature(
            values_of(value, surface),
            value(t),
        ),
{
    lemma_whole_value(value, 2);
    let c = values_of(value, surface);
    let (c3, c4, c5) = (c[3], c[4], c[5]);
    lemma_first_six(value, surface, x);
    let q = value(t);
    let none = Seq::<(usize, S)>::empty();
    lemma_weighed_none(value, x);
    let two = dec::<S>(2, 0);
    assert(value(weighed(curvature_terms(t), x)) == 2real * c3 + (2real * q) * c4 + (2real * q * q)
        * c5) by {
        let v0 = none.push((3usize, two));
        let v1 = v0.push((4usize, two * t));
        lemma_weighed_push(value, none, 3, two, x);
        lemma_weighed_push(value, v0, 4, two * t, x);
        lemma_weighed_push(value, v1, 5, two * t * t, x);
        assert(curvature_terms(t) =~= v1.push((5usize, two * t * t)));
    }
    lemma_swap(2real, q, c4);
    lemma_swap(2real * q, q, c5);
    lemma_swap(2real, q, c5);
}

proof fn lemma_calendar_sum<S: crate::number::Quantity>(
    value: spec_fn(S) -> real,
    surface: CalibrationSurface<S>,
    x: Seq<S>,
    k: S,
    t: S,
)
    requires
        exact(value),
        x.len() >= 6,
        surface.theta@ == x.take(6),
    ensures
        value(weighed(calendar_terms(k, t), x)) * value(k) == time_slope(
            values_of(value, surface),
            value(k),
            value(t),
        ),
{
    lemma_whole_value(value, 1);
    lemma_whole_value(value, 2);
    let c = values_of(value, surface);
    let (c1, c2, c4, c5) = (c[1], c[2], c[4], c[5]);
    lemma_first_six(value, surface, x);
    let (p, q) = (value(k), value(t));
    let none = Seq::<(usize, S)>::empty();
    lemma_weighed_none(value, x);
    let two = dec::<S>(2, 0);
    assert(value(weighed(calendar_terms(k, t), x)) == 1real * c1 + (2real * q) * c2 + p * c4 + (2real
        * p * q) * c5) by {
        let v0 = none.push((1usize, dec::<S>(1, 0)));
        let v1 = v0.push((2usize, two * t));
        let v2 = v1.push((4usize, k));
        lemma_weighed_push(value, none, 1, dec::<S>(1, 0), x);
        lemma_weighed_push(value, v0, 2, two * t, x);
        lemma_weighed_push(value, v1, 4, k, x);
        lemma_weighed_push(value, v2, 5, two * k * t, x);
        assert(calendar_terms(k, t) =~= v2.push((5usize, two * k * t)));
    }
    lemma_swap(2real * p, q, c5);
    lemma_swap(2real, p, c5);
    lemma_right3(c1, (2real * q) * c2, p * c4, p);
    lemma_right(c1 + (2real * q) * c2 + p * c4, (2real * p * q) * c5, p);
    lemma_swap(2real, q, c2);
    lemma_swap(2real * c2, q, p);
    lemma_swap(2real * c5 * p, q, p);
}

/// An answer that keeps to the program of a fit gives a surface without arbitrage at
/// every quote: the call price lies between nothing and the spot price, falls in
/// strike, is convex in strike, and rises with time to maturity.
pub proof fn law_fitted_surface_has_no_arbitrage<S: crate::number::Quantity>(
    value: spec_fn(S) -> real,
    quotes: Seq<Quote<S>>,
    s_t: S,
    r: S,
    lambda: S,
    x: Seq<S>,
    surface: CalibrationSurface<S>,
    i: int,
)
    requires
        exact(value),
        feasible(fit_program(quotes, s_t, lambda), x),
        surface_of(s_t, r, x, surface),
        0 <= i < quotes.len(),
        0real < value(quotes[i].strike),
    ensures
        0real <= value(surface.spec_evaluate(quotes[i].strike, quotes[i].tau)) <= value(s_t),
        value(surface.spec_d_k(quotes[i].strike, quotes[i].tau)) <= 0real,
        0real <= value(surface.spec_d_kk(quotes[i].tau)),
        0real <= value(surface.spec_d_t(quotes[i].strike, quotes[i].tau)),
{
    lemma_whole_value(value, 0);
    let (k, t) = (quotes[i].strike, quotes[i].tau);
    let n = quotes.len();
    lemma_quote_rows_at(quotes, s_t, n, i);
    let program = fit_program(quotes, s_t, lambda);
    let sizes = all_size_rows::<S>(n as int, 6).len() as int;
    let rows = quote_rows(quotes[i], s_t, i);
    assert forall|j: int| 0 <= j < 7 implies meets(#[trigger] rows[j], x) by {
        let at = sizes + 7 * i + j;
        assert(all_quote_rows(quotes, s_t, n)[7 * i + j] == rows[j]);
        assert(program.constraints[at] == rows[j]);
        assert(meets(program.constraints[at], x));
    }
    lemma_terms_are_surface(value, surface, x, k, t);
    assert(meets(rows[2], x) && meets(rows[3], x) && meets(rows[4], x) && meets(rows[5], x)
        && meets(rows[6], x));
    lemma_not_negative(value(weighed(calendar_terms(k, t), x)), value(k));
}

proof fn lemma_not_negative(a: real, b: real)
    by (nonlinear_arith)
    requires
        0real <= a,
        0real < b,
    ensures
        0real <= a * b,
{
}

/// The place of the constraints of a quote.
pub proof fn lemma_quote_rows_at<S: crate::number::Quantity>(
    quotes: Seq<Quote<S>>,
    s_t: S,
    n: nat,
    i: int,
)
    requires
        0 <= i < n <= quotes.len(),
    ensures
        all_quote_rows(quotes, s_t, n).len() == 7 * n,
        forall|j: int|
            0 <= j < 7 ==> #[trigger] all_quote_rows(quotes, s_t, n)[7 * i + j] == quote_rows(
                quotes[i],
                s_t,
                i,
            )[j],
    decreases n,
{
    let rest = all_quote_rows(quotes, s_t, (n - 1) as nat);
    if n == 1 {
        assert(rest =~= Seq::empty());
    } else {
        lemma_quote_rows_at(
            quotes,
            s_t,
            (n - 1) as nat,
            if i < n - 1 {
                i
            } else {
                0
            },
        );
    }
    assert(quote_rows(quotes[n - 1], s_t, n - 1).len() == 7);
    assert forall|j: int| 0 <= j < 7 implies #[trigger] all_quote_rows(quotes, s_t, n)[7 * i + j]
        == quote_rows(quotes[i], s_t, i)[j] by {
        if i < n - 1 {
            assert(rest[7 * i + j] == quote_rows(quotes[i], s_t, i)[j]);
        }
    }
}

/// Every usable contract of a grid is one of the quotes that the surface is fitted
/// to.
pub proof fn law_usable_contracts_are_fitted<S: crate::number::Quantity>(
    contracts: Seq<OptionTick<S>>,
    s_t: S,
    r: S,
    n: nat,
    c: int,
)
    requires
        0 <= c < n <= contracts.len(),
        usable(contracts[c]),
    ensures
        exists|i: int|
            0 <= i < quotes_of(contracts, s_t, r, n).len() && (#[trigger] quotes_of(
                contracts,
                s_t,
                r,
                n,
            )[i]).strike == contracts[c].strike && quotes_of(contracts, s_t, r, n)[i].tau
                == contracts[c].tau,
    decreases n,
{
    let all = quotes_of(contracts, s_t, r, n);
    let rest = quotes_of(contracts, s_t, r, (n - 1) as nat);
    if c == n - 1 {
        assert(all[all.len() - 1].strike == contracts[c].strike);
    } else {
        law_usable_contracts_are_fitted(contracts, s_t, r, (n - 1) as nat, c);
        let i = choose|i: int|
            0 <= i < rest.len() && (#[trigger] rest[i]).strike == contracts[c].strike && rest[i].tau
                == contracts[c].tau;
        assert(all[i] == rest[i]);
    }
}

/// The surface that a feasible answer gives has no arbitrage at any usable contract
/// of the grid.
pub proof fn law_surface_without_arbitrage_on_grid<S: crate::number::Quantity>(
    value: spec_fn(S) -> real,
    contracts: Seq<OptionTick<S>>,
    s_t: S,
    r: S,
    lambda: S,
    x: Seq<S>,
    surface: CalibrationSurface<S>,
    c: int,
)
    requires
        exact(value),
        feasible(fit_program(quotes_of(contracts, s_t, r, contracts.len()), s_t, lambda), x),
        surface_of(s_t, r, x, surface),
        0 <= c < contracts.len(),
        usable(contracts[c]),
    ensures
        0real <= value(surface.spec_evaluate(contracts[c].strike, contracts[c].tau)) <= value(s_t),
        value(surface.spec_d_k(contracts[c].strike, contracts[c].tau)) <= 0real,
        0real <= value(surface.spec_d_kk(contracts[c].tau)),
        0real <= value(surface.spec_d_t(contracts[c].strike, contracts[c].tau)),
{
    let quotes = quotes_of(contracts, s_t, r, contracts.len());
    law_usable_contracts_are_fitted(contracts, s_t, r, contracts.len(), c);
    let i = choose|i: int|
        0 <= i < quotes.len() && (#[trigger] quotes[i]).strike == contracts[c].strike
            && quotes[i].tau == contracts[c].tau;
    lemma_whole_value(value, 0);
    law_fitted_surface_has_no_arbitrage(value, quotes, s_t, r, lambda, x, surface, i);
}

/// Parity: a call is worth what the surface gives at its strike and maturity, and a call less
/// the put of the same strike and maturity is the spot price less the discounted strike.
pub proof fn law_put_call_parity<S: crate::number::Quantity>(
    value: spec_fn(S) -> real,
    surface: CalibrationSurface<S>,
    call: OptionTick<S>,
    put: OptionTick<S>,
)
    requires
        exact(value),
        call.option_type != 'P',
        put.option_type == 'P',
        call.strike == put.strike,
        call.tau == put.tau,
    ensures
        surface.spec_evaluate_contract(call) == surface.spec_evaluate(call.strike, call.tau),
        value(surface.spec_evaluate_contract(call)) - value(surface.spec_evaluate_contract(put))
            == value(surface.s_t) - value(put.strike) * value(discount(surface.r, put.tau)),
{
}

// ---- Activation ----

/// The first `n` steps of a curve go the right way: down for calls, up for puts.
pub open spec fn steps_right(points: Seq<(real, real)>, call: bool, n: nat) -> bool {
    forall|i: int|
        0 <= i < n ==> if call {
            points[i + 1].1 <= (#[trigger] points[i]).1
        } else {
            points[i].1 <= points[i + 1].1
        }
}

/// The slope does not fall at the first `n` inner points of a curve.
pub open spec fn bends_right(points: Seq<(real, real)>, n: nat) -> bool {
    forall|i: int|
        0 <= i < n && (#[trigger] points[i]).0 < points[i + 1].0 < points[i + 2].0 ==> slope(
            points[i],
            points[i + 1],
        ) <= slope(points[i + 1], points[i + 2])
}

/// A curve is monotone in the right way, and convex.
pub open spec fn curve_right(points: Seq<(real, real)>, call: bool) -> bool {
    steps_right(points, call, steps_of(points)) && bends_right(points, bends_of(points))
}

/// The curves of all expiries from `start` on are right.
pub open spec fn runs_right(contracts: Seq<OptionTick<real>>, start: int) -> bool
    decreases contracts.len() - start,
{
    let end = run_end(contracts, start, start + 1);
    if start < 0 || start >= contracts.len() || end <= start || end > contracts.len() {
        true
    } else {
        &&& curve_right(curve(contracts, true, start, end), true)
        &&& curve_right(curve(contracts, false, start, end), false)
        &&& runs_right(contracts, end)
    }
}

proof fn lemma_steps(total: real, points: Seq<(real, real)>, call: bool, n: nat)
    requires
        n < points.len() || n == 0,
    ensures
        total <= with_wrong_steps(total, points, call, n),
        total == with_wrong_steps(total, points, call, n) <==> steps_right(points, call, n),
    decreases n,
{
    if n > 0 {
        lemma_steps(total, points, call, (n - 1) as nat);
        let at = n - 1;
        assert(steps_right(points, call, n) == (steps_right(points, call, (n - 1) as nat) && if call {
            points[at + 1].1 <= points[at].1
        } else {
            points[at].1 <= points[at + 1].1
        }));
    }
}

proof fn lemma_bends(total: real, points: Seq<(real, real)>, n: nat)
    requires
        n + 1 < points.len() || n == 0,
    ensures
        total <= with_wrong_bends(total, points, n),
        total == with_wrong_bends(total, points, n) <==> bends_right(points, n),
    decreases n,
{
    if n > 0 {
        lemma_bends(total, points, (n - 1) as nat);
        let at = n - 1;
        assert(bends_right(points, n) == (bends_right(points, (n - 1) as nat) && (points[at].0
            < points[at + 1].0 < points[at + 2].0 ==> slope(points[at], points[at + 1]) <= slope(
            points[at + 1],
            points[at + 2],
        ))));
    }
}

proof fn lemma_curve(total: real, points: Seq<(real, real)>, call: bool)
    ensures
        total <= with_curve(total, points, call),
        total == with_curve(total, points, call) <==> curve_right(points, call),
{
    lemma_steps(total, points, call, steps_of(points));
    lemma_bends(
        with_wrong_steps(total, points, call, steps_of(points)),
        points,
        bends_of(points),
    );
}

proof fn lemma_runs(total: real, contracts: Seq<OptionTick<real>>, start: int)
    ensures
        total <= with_runs(total, contracts, start),
        total == with_runs(total, contracts, start) <==> runs_right(contracts, start),
    decreases contracts.len() - start,
{
    let end = run_end(contracts, start, start + 1);
    if start < 0 || start >= contracts.len() || end <= start || end > contracts.len() {
    } else {
        let calls = curve(contracts, true, start, end);
        let puts = curve(contracts, false, start, end);
        lemma_curve(total, calls, true);
        let first = with_curve(total, calls, true);
        lemma_curve(first, puts, false);
        lemma_runs(with_curve(first, puts, false), contracts, end);
    }
}

/// The shape violations of a grid are never negative, and they vanish just where
/// the liquid calls of every expiry fall in strike, the puts rise, and both are
/// convex.
pub proof fn law_no_violations_iff_shape_right(contracts: Seq<OptionTick<real>>)
    ensures
        0real <= shape_violations(contracts),
        shape_violations(contracts) == 0real <==> runs_right(contracts, 0),
{
    lemma_whole(0);
    lemma_runs(0real, contracts, 0);
}

/// Where the fair price lies within bid and ask there is no edge, and the contract
/// is no candidate at any threshold that is not negative.
pub proof fn law_no_edge_inside_spread(
    tick: OptionTick<real>,
    surface: CalibrationSurface<real>,
    lambda: real,
)
    requires
        tick.p_b <= surface.spec_evaluate_contract(tick) <= tick.p_a,
        0real <= lambda,
    ensures
        execution_gap(surface.spec_evaluate_contract(tick), tick.p_a, tick.p_b) == 0real,
        !is_candidate(tick, surface, lambda),
{
    lemma_whole(0);
}

} // verus!
