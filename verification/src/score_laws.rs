//! What the activation score, the ratio of a run and the pull on a particle amount to, in exact
//! arithmetic.

use vstd::prelude::*;
use crate::activation::{
    activation_score, edge_of, edge_sum, liquid_count, mean_of, residual_sum, shape_violations,
    spread_sum, ActivationConfig,
};
use crate::calendar::Moment;
use crate::calibration::CalibrationSurface;
use crate::exact::{exact, lemma_whole_value, pow10, real_abs, real_decimal};
use crate::greeks_laws::sqrt_exact;
use crate::ingestion::OptionTick;
use crate::number::dec;
use crate::performance::{performance_of, return_at, return_sum, square_sum};
use crate::swarm::{moved, next_velocity, ParticleModel};

verus! {

#[verifier::opaque]
spec fn exactly<S: crate::number::Quantity>(value: spec_fn(S) -> real) -> bool {
    exact(value)
}

proof fn lemma_quotient(a: real, b: real)
    by (nonlinear_arith)
    requires
        b != 0real,
    ensures
        (a / b) * b == a,
{
}

// ---- The activation score ----

/// How far the first `n` contracts together are from their prices on a surface, of the liquid
/// ones.
pub open spec fn total_residual<S: crate::number::Quantity>(
    value: spec_fn(S) -> real,
    contracts: Seq<OptionTick<S>>,
    surface: CalibrationSurface<S>,
    n: nat,
) -> real
    decreases n,
{
    if n == 0 {
        0real
    } else {
        let c = contracts[n - 1];
        total_residual(value, contracts, surface, (n - 1) as nat) + if c.is_liquid {
            real_abs(value(c.mid) - value(surface.spec_evaluate_contract(c)))
        } else {
            0real
        }
    }
}

proof fn lemma_distance<S: crate::number::Quantity>(
    value: spec_fn(S) -> real,
    rest: S,
    a: S,
    b: S,
)
    requires
        exactly(value),
    ensures
        value(rest + (a - b).spec_abs()) == value(rest) + real_abs(value(a) - value(b)),
{
    reveal(exactly);
}

proof fn lemma_zero<S: crate::number::Quantity>(value: spec_fn(S) -> real)
    requires
        exactly(value),
    ensures
        value(dec::<S>(0, 0)) == 0real,
{
    reveal(exactly);
    lemma_whole_value(value, 0);
}

proof fn lemma_residual<S: crate::number::Quantity>(
    value: spec_fn(S) -> real,
    contracts: Seq<OptionTick<S>>,
    surface: CalibrationSurface<S>,
    n: nat,
)
    requires
        exactly(value),
    ensures
        value(residual_sum(contracts, surface, n)) == total_residual(value, contracts, surface, n),
    decreases n,
{
    lemma_zero(value);
    if n > 0 {
        lemma_residual(value, contracts, surface, (n - 1) as nat);
        let c = contracts[n - 1];
        lemma_distance(
            value,
            residual_sum(contracts, surface, (n - 1) as nat),
            c.mid,
            surface.spec_evaluate_contract(c),
        );
    }
}

/// The residual of a surface is the sum of the distances of the liquid contracts from their
/// prices on it.
pub proof fn law_residual_of_surface<S: crate::number::Quantity>(
    value: spec_fn(S) -> real,
    contracts: Seq<OptionTick<S>>,
    surface: CalibrationSurface<S>,
    n: nat,
)
    requires
        exact(value),
    ensures
        value(residual_sum(contracts, surface, n)) == total_residual(value, contracts, surface, n),
{
    assert(exactly(value)) by {
        reveal(exactly);
    }
    lemma_residual(value, contracts, surface, n);
}

proof fn lemma_cost<S: crate::number::Quantity>(value: spec_fn(S) -> real, spread: S)
    requires
        exactly(value),
    ensures
        value(spread * dec::<S>(5, 1) + dec::<S>(2, 4)) == value(spread) / 2real + 2real / 10_000real,
{
    reveal(exactly);
    reveal_with_fuel(pow10, 5);
    assert(pow10(1) == 10);
    assert(pow10(4) == 10_000);
    assert(real_decimal(5, 1) == (5int as real) / (10int as real));
    assert(real_decimal(2, 4) == (2int as real) / (10_000int as real));
    assert(value(dec::<S>(5, 1)) == 1real / 2real);
    assert(value(dec::<S>(2, 4)) == 2real / 10_000real);
    lemma_halved(value(spread));
    assert(value(spread * dec::<S>(5, 1)) == value(spread) * (1real / 2real));
}

proof fn lemma_halved(a: real)
    by (nonlinear_arith)
    ensures
        a * (1real / 2real) == a / 2real,
{
}

proof fn lemma_excess<S: crate::number::Quantity>(value: spec_fn(S) -> real, raw: S, cost: S)
    requires
        exactly(value),
        0real < value(cost),
    ensures
        ({
            let edge = value(((raw - cost) / cost).spec_max(dec::<S>(0, 0)));
            &&& 0real <= edge
            &&& value(raw) <= value(cost) ==> edge == 0real
            &&& value(cost) < value(raw) ==> edge * value(cost) == value(raw) - value(cost)
        }),
{
    reveal(exactly);
    lemma_whole_value(value, 0);
    lemma_quotient(value(raw) - value(cost), value(cost));
    lemma_quotient_sign(value(raw) - value(cost), value(cost));
}

proof fn lemma_quotient_sign(a: real, b: real)
    by (nonlinear_arith)
    requires
        0real < b,
    ensures
        a <= 0real ==> a / b <= 0real,
        0real < a ==> 0real < a / b,
{
}

proof fn lemma_raw<S: crate::number::Quantity>(value: spec_fn(S) -> real, a: S, b: S)
    requires
        exactly(value),
    ensures
        value((a - b).spec_abs()) == real_abs(value(a) - value(b)),
{
    reveal(exactly);
}

proof fn lemma_edge<S: crate::number::Quantity>(
    value: spec_fn(S) -> real,
    c: OptionTick<S>,
    surface: CalibrationSurface<S>,
)
    requires
        exactly(value),
        0real <= value(c.spread),
    ensures
        ({
            let off = real_abs(value(c.mid) - value(surface.spec_evaluate_contract(c)));
            let cost = value(c.spread) / 2real + 2real / 10_000real;
            let edge = value(edge_of(c, surface));
            &&& 0real <= edge
            &&& off <= cost ==> edge == 0real
            &&& cost < off ==> edge * cost == off - cost
        }),
{
    let fair = surface.spec_evaluate_contract(c);
    let raw = (c.mid - fair).spec_abs();
    let cost = c.spread * dec::<S>(5, 1) + dec::<S>(2, 4);
    lemma_cost(value, c.spread);
    lemma_raw(value, c.mid, fair);
    lemma_excess(value, raw, cost);
}

/// The edge of a contract is what its distance from the surface exceeds the cost of trading it by,
/// in multiples of this cost, half its spread and two ten thousandths; nothing where it does not.
pub proof fn law_edge_of_contract<S: crate::number::Quantity>(
    value: spec_fn(S) -> real,
    c: OptionTick<S>,
    surface: CalibrationSurface<S>,
)
    requires
        exact(value),
        0real <= value(c.spread),
    ensures
        ({
            let off = real_abs(value(c.mid) - value(surface.spec_evaluate_contract(c)));
            let cost = value(c.spread) / 2real + 2real / 10_000real;
            let edge = value(edge_of(c, surface));
            &&& 0real <= edge
            &&& off <= cost ==> edge == 0real
            &&& cost < off ==> edge * cost == off - cost
        }),
{
    assert(exactly(value)) by {
        reveal(exactly);
    }
    lemma_edge(value, c, surface);
}

proof fn lemma_mean<S: crate::number::Quantity>(value: spec_fn(S) -> real, sum: S, count: nat)
    requires
        exactly(value),
    ensures
        value(mean_of(sum, count)) * (count as real) == if count > 0 {
            value(sum)
        } else {
            0real
        },
        count == 0 ==> value(mean_of(sum, count)) == 0real,
{
    reveal(exactly);
    lemma_whole_value(value, 0);
    lemma_whole_value(value, count as int);
    if count > 0 {
        lemma_quotient(value(sum), count as real);
    }
}

/// A mean times the number of values is their sum.
pub proof fn law_mean_of_values<S: crate::number::Quantity>(
    value: spec_fn(S) -> real,
    sum: S,
    count: nat,
)
    requires
        exact(value),
        count > 0,
    ensures
        value(mean_of(sum, count)) * (count as real) == value(sum),
{
    assert(exactly(value)) by {
        reveal(exactly);
    }
    lemma_mean(value, sum, count);
}

proof fn lemma_weighed<S: crate::number::Quantity>(
    value: spec_fn(S) -> real,
    config: ActivationConfig<S>,
    a: S,
    b: S,
    c: S,
    d: S,
)
    requires
        exactly(value),
    ensures
        value(config.w1 * a + config.w2 * b + config.w3 * c + config.w4 * d) == value(config.w1)
            * value(a) + value(config.w2) * value(b) + value(config.w3) * value(c) + value(config.w4)
            * value(d),
{
    reveal(exactly);
}

proof fn lemma_quality<S: crate::number::Quantity>(value: spec_fn(S) -> real, alpha: S, spread: S)
    requires
        exactly(value),
        1real + value(alpha) * value(spread) != 0real,
    ensures
        value(dec::<S>(1, 0) / (dec::<S>(1, 0) + alpha * spread)) * (1real + value(alpha) * value(
            spread,
        )) == 1real,
        value(dec::<S>(1, 0)) == 1real,
{
    reveal(exactly);
    lemma_whole_value(value, 1);
    lemma_quotient(1real, 1real + value(alpha) * value(spread));
}

/// The quality of the quotes of a grid: one over one and `alpha` times their mean spread.
spec fn quality_of<S: crate::number::Quantity>(
    contracts: Seq<OptionTick<S>>,
    config: ActivationConfig<S>,
) -> S {
    let n = contracts.len();
    let spread = mean_of(spread_sum(contracts, n), liquid_count(contracts, n));
    dec::<S>(1, 0) / (dec::<S>(1, 0) + config.alpha * spread)
}

proof fn lemma_activation<S: crate::number::Quantity>(
    value: spec_fn(S) -> real,
    contracts: Seq<OptionTick<S>>,
    surface: Option<CalibrationSurface<S>>,
    config: ActivationConfig<S>,
)
    requires
        exactly(value),
        1real + value(config.alpha) * value(
            mean_of(
                spread_sum(contracts, contracts.len()),
                liquid_count(contracts, contracts.len()),
            ),
        ) != 0real,
    ensures
        activation_weighs(value, contracts, surface, config),
{
    let n = contracts.len();
    let liquid = liquid_count(contracts, n);
    let spread = mean_of(spread_sum(contracts, n), liquid);
    let quality = quality_of(contracts, config);
    let shape = shape_violations(contracts);
    lemma_quality(value, config.alpha, spread);
    match surface {
        Some(s) => {
            let residual = mean_of(residual_sum(contracts, s, n), liquid);
            let edge = mean_of(edge_sum(contracts, s, n), liquid);
            lemma_weighed(value, config, residual, shape, quality, edge);
            assert(weighs(
                value,
                config,
                value(activation_score(contracts, surface, config)),
                value(residual),
                value(shape),
                value(quality),
                value(edge),
            ));
        },
        None => {
            let one = dec::<S>(1, 0);
            lemma_weighed(value, config, one, shape, quality, one);
            assert(weighs(
                value,
                config,
                value(activation_score(contracts, surface, config)),
                1real,
                value(shape),
                value(quality),
                1real,
            ));
        },
    }
}

/// Whether a score is the weighed sum of its four parts.
pub open spec fn weighs<S: crate::number::Quantity>(
    value: spec_fn(S) -> real,
    config: ActivationConfig<S>,
    score: real,
    residual: real,
    shape: real,
    quality: real,
    edge: real,
) -> bool {
    score == value(config.w1) * residual + value(config.w2) * shape + value(config.w3) * quality
        + value(config.w4) * edge
}

/// The score weighs the mean residual, the violations of shape, the quality of the quotes and the
/// mean edge; without a surface residual and edge count one. The quality times one and `alpha`
/// times the mean spread is one.
pub open spec fn activation_weighs<S: crate::number::Quantity>(
    value: spec_fn(S) -> real,
    contracts: Seq<OptionTick<S>>,
    surface: Option<CalibrationSurface<S>>,
    config: ActivationConfig<S>,
) -> bool {
    let n = contracts.len();
    let liquid = liquid_count(contracts, n);
    let spread = value(mean_of(spread_sum(contracts, n), liquid));
    let score = value(activation_score(contracts, surface, config));
    let shape = value(shape_violations(contracts));
    exists|residual: real, quality: real, edge: real|
        {
            &&& #[trigger] weighs(value, config, score, residual, shape, quality, edge)
            &&& quality * (1real + value(config.alpha) * spread) == 1real
            &&& match surface {
                Some(s) => {
                    &&& residual == value(mean_of(residual_sum(contracts, s, n), liquid))
                    &&& edge == value(mean_of(edge_sum(contracts, s, n), liquid))
                },
                None => residual == 1real && edge == 1real,
            }
        }
}

/// The activation score is the weighed sum of its parts.
pub proof fn law_activation_score_weighs<S: crate::number::Quantity>(
    value: spec_fn(S) -> real,
    contracts: Seq<OptionTick<S>>,
    surface: Option<CalibrationSurface<S>>,
    config: ActivationConfig<S>,
)
    requires
        exact(value),
        1real + value(config.alpha) * value(
            mean_of(
                spread_sum(contracts, contracts.len()),
                liquid_count(contracts, contracts.len()),
            ),
        ) != 0real,
    ensures
        activation_weighs(value, contracts, surface, config),
{
    assert(exactly(value)) by {
        reveal(exactly);
    }
    lemma_activation(value, contracts, surface, config);
}

proof fn lemma_one_more<S: crate::number::Quantity>(value: spec_fn(S) -> real, rest: S, more: S)
    requires
        exactly(value),
    ensures
        value(rest + more) == value(rest) + value(more),
{
    reveal(exactly);
}

/// One more contract adds its spread, its edge and itself to what is counted if it is liquid, and
/// nothing if it is not.
pub proof fn law_only_liquid_contracts_count<S: crate::number::Quantity>(
    value: spec_fn(S) -> real,
    contracts: Seq<OptionTick<S>>,
    surface: CalibrationSurface<S>,
    n: nat,
)
    requires
        exact(value),
        0 < n <= contracts.len(),
    ensures
        ({
            let c = contracts[n - 1];
            let m = (n - 1) as nat;
            let count = liquid_count(contracts, n) - liquid_count(contracts, m);
            let spread = value(spread_sum(contracts, n)) - value(spread_sum(contracts, m));
            let edge = value(edge_sum(contracts, surface, n)) - value(
                edge_sum(contracts, surface, m),
            );
            if c.is_liquid {
                count == 1 && spread == value(c.spread) && edge == value(edge_of(c, surface))
            } else {
                count == 0 && spread == 0real && edge == 0real
            }
        }),
{
    assert(exactly(value)) by {
        reveal(exactly);
    }
    let c = contracts[n - 1];
    lemma_one_more(value, spread_sum(contracts, (n - 1) as nat), c.spread);
    lemma_one_more(value, edge_sum(contracts, surface, (n - 1) as nat), edge_of(c, surface));
}

// ---- The ratio of a run ----

/// The return from one point of a curve to the next, times the first, is the difference; the sums
/// of returns and of squared distances grow by one of them at a time.
pub proof fn law_returns_of_curve<S: crate::number::Quantity>(
    value: spec_fn(S) -> real,
    curve: Seq<(Moment, S)>,
    mean: S,
    n: nat,
)
    requires
        exact(value),
        0 < n < curve.len(),
        value(curve[n - 1].1) != 0real,
    ensures
        ({
            let ret = value(return_at(curve, n as int));
            let m = (n - 1) as nat;
            let away = ret - value(mean);
            &&& ret * value(curve[n - 1].1) == value(curve[n as int].1) - value(curve[n - 1].1)
            &&& value(return_sum(curve, n)) - value(return_sum(curve, m)) == ret
            &&& value(square_sum(curve, mean, n)) - value(square_sum(curve, mean, m)) == away * away
        }),
{
    lemma_quotient(
        value(curve[n as int].1) - value(curve[n - 1].1),
        value(curve[n - 1].1),
    );
}

/// The ratio of a run, times the deviation, is the mean return times the root of the minutes of a
/// year; it is nothing without a deviation.
pub open spec fn is_ratio<S: crate::number::Quantity>(
    value: spec_fn(S) -> real,
    curve: Seq<(Moment, S)>,
    ratio: real,
    mean: S,
    deviation: S,
    root: real,
) -> bool {
    let n = curve.len() - 1;
    &&& value(mean) * (n as real) == value(return_sum(curve, n as nat))
    &&& 0real < value(square_sum(curve, mean, n as nat)) ==> 0real < value(deviation) && (value(
        deviation,
    ) * value(deviation)) * ((n - 1) as real) == value(square_sum(curve, mean, n as nat))
    &&& 0real < root && root * root == 60_480real
    &&& 0real < value(deviation) ==> ratio * value(deviation) == value(mean) * root
    &&& value(deviation) <= 0real ==> ratio == 0real
}

proof fn lemma_over<S: crate::number::Quantity>(value: spec_fn(S) -> real, sum: S, count: int)
    requires
        exactly(value),
        count > 0,
    ensures
        value(sum / dec::<S>(count, 0)) * (count as real) == value(sum),
        0real < value(sum) ==> 0real < value(sum / dec::<S>(count, 0)),
{
    reveal(exactly);
    lemma_whole_value(value, count);
    lemma_quotient(value(sum), count as real);
    lemma_quotient_sign(value(sum), count as real);
}

proof fn lemma_scaled_ratio(q: real, d: real, m: real, root: real)
    by (nonlinear_arith)
    requires
        q * d == m,
    ensures
        (q * root) * d == m * root,
{
}

proof fn lemma_ratio<S: crate::number::Quantity>(
    value: spec_fn(S) -> real,
    mean: S,
    deviation: S,
    year: S,
)
    requires
        exactly(value),
        0real < value(deviation),
    ensures
        value((mean / deviation) * year) * value(deviation) == value(mean) * value(year),
{
    reveal(exactly);
    lemma_quotient(value(mean), value(deviation));
    lemma_scaled_ratio(value(mean) / value(deviation), value(deviation), value(mean), value(year));
}

proof fn lemma_order<S: crate::number::Quantity>(value: spec_fn(S) -> real, a: S)
    requires
        exactly(value),
    ensures
        dec::<S>(0, 0).spec_lt(a) == (0real < value(a)),
        value(dec::<S>(0, 0)) == 0real,
        value(dec::<S>(252, 0) * dec::<S>(240, 0)) == 60_480real,
{
    reveal(exactly);
    lemma_whole_value(value, 0);
    lemma_whole_value(value, 252);
    lemma_whole_value(value, 240);
}

proof fn lemma_run<S: crate::number::Quantity>(
    value: spec_fn(S) -> real,
    curve: Seq<(Moment, S)>,
    initial: S,
)
    requires
        exactly(value),
        sqrt_exact(value),
        curve.len() >= 3,
    ensures
        exists|mean: S, deviation: S, root: real| #[trigger]
            is_ratio(
                value,
                curve,
                value(performance_of(curve, initial).sharpe_ratio),
                mean,
                deviation,
                root,
            ),
{
    let n = (curve.len() - 1) as nat;
    let mean = return_sum(curve, n) / dec::<S>(n as int, 0);
    let inner = square_sum(curve, mean, n) / dec::<S>(n - 1, 0);
    let deviation = inner.spec_sqrt();
    let year = (dec::<S>(252, 0) * dec::<S>(240, 0)).spec_sqrt();
    lemma_over(value, return_sum(curve, n), n as int);
    lemma_over(value, square_sum(curve, mean, n), n - 1);
    lemma_order(value, deviation);
    if 0real < value(deviation) {
        lemma_ratio(value, mean, deviation, year);
    }
    assert(0real < value(year) && value(year) * value(year) == 60_480real);
    let ratio = value(performance_of(curve, initial).sharpe_ratio);
    assert(is_ratio(value, curve, ratio, mean, deviation, value(year)));
}

/// The ratio of a run is that of its mean return to its deviation, for a year of 252 days of 240
/// minutes.
pub proof fn law_ratio_of_run<S: crate::number::Quantity>(
    value: spec_fn(S) -> real,
    curve: Seq<(Moment, S)>,
    initial: S,
)
    requires
        exact(value),
        sqrt_exact(value),
        curve.len() >= 3,
    ensures
        exists|mean: S, deviation: S, root: real| #[trigger]
            is_ratio(
                value,
                curve,
                value(performance_of(curve, initial).sharpe_ratio),
                mean,
                deviation,
                root,
            ),
{
    assert(exactly(value)) by {
        reveal(exactly);
    }
    lemma_run(value, curve, initial);
}

// ---- The swarm ----

proof fn lemma_pull<S: crate::number::Quantity>(
    value: spec_fn(S) -> real,
    v: S,
    x: S,
    own: S,
    all: S,
    r1: S,
    r2: S,
)
    requires
        exactly(value),
    ensures
        value(next_velocity(v, x, own, all, r1, r2)) == (1real / 2real) * value(v) + (3real / 2real)
            * value(r1) * (value(own) - value(x)) + (3real / 2real) * value(r2) * (value(all)
            - value(x)),
{
    reveal(exactly);
    reveal_with_fuel(pow10, 2);
    assert(pow10(1) == 10);
    assert(real_decimal(5, 1) == (5int as real) / (10int as real));
    assert(real_decimal(15, 1) == (15int as real) / (10int as real));
}

/// A particle keeps half of its velocity and is drawn to its own best place and to the best of
/// all, each by one and a half times its draw of the way there.
pub proof fn law_pull_on_particle<S: crate::number::Quantity>(
    value: spec_fn(S) -> real,
    p: ParticleModel<S>,
    score: S,
    all: Seq<S>,
    draws: Seq<(S, S)>,
    j: int,
)
    requires
        exact(value),
        0 <= j < 3,
    ensures
        ({
            let after = moved(p, score, all, draws);
            let own = if value(p.best_score) < value(score) {
                value(p.position[j])
            } else {
                value(p.best_position[j])
            };
            let x = value(p.position[j]);
            &&& value(after.velocity[j]) == (1real / 2real) * value(p.velocity[j]) + (3real / 2real)
                * value(draws[j].0) * (own - x) + (3real / 2real) * value(draws[j].1) * (value(
                all[j],
            ) - x)
            &&& value(after.best_position[j]) == own
        }),
{
    assert(exactly(value)) by {
        reveal(exactly);
    }
    let own = moved(p, score, all, draws).best_position;
    lemma_pull(value, p.velocity[j], p.position[j], own[j], all[j], draws[j].0, draws[j].1);
}

} // verus!
