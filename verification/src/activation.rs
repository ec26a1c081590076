//! When to fit the surface anew, and which contracts are worth scoring.

use vstd::prelude::*;
use crate::calibration::CalibrationSurface;
use crate::ingestion::{OptionGrid, OptionTick};
use crate::number::{dec, one, zero, Analytic, Number, Quantity};

verus! {

/// The weights of the activation score and the level at which it activates.
#[derive(Debug, Clone, Copy)]
pub struct ActivationConfig<S> {
    pub w1: S,
    pub w2: S,
    pub w3: S,
    pub w4: S,
    pub alpha: S,
    pub beta: S,
    pub tau_enter: S,
}

impl<S: Number> Default for ActivationConfig<S> {
    fn default() -> (r: Self)
        ensures
            r == (ActivationConfig {
                w1: dec::<S>(1, 0),
                w2: dec::<S>(2, 0),
                w3: dec::<S>(5, 1),
                w4: dec::<S>(15, 1),
                alpha: dec::<S>(10, 0),
                beta: dec::<S>(0, 0),
                tau_enter: dec::<S>(5, 1),
            }),
    {
        ActivationConfig {
            w1: S::decimal(1, 0),
            w2: S::decimal(2, 0),
            w3: S::decimal(5, 1),
            w4: S::decimal(15, 1),
            alpha: S::decimal(10, 0),
            beta: S::decimal(0, 0),
            tau_enter: S::decimal(5, 1),
        }
    }
}

// ---- Shape violations ----

/// The strikes and mid prices of the liquid calls, or of the other liquid
/// contracts, among the contracts from `start` up to `end`.
pub open spec fn curve<S>(
    contracts: Seq<OptionTick<S>>,
    call: bool,
    start: int,
    end: int,
) -> Seq<(S, S)>
    decreases end - start,
{
    if end <= start {
        Seq::empty()
    } else {
        let rest = curve(contracts, call, start, end - 1);
        let c = contracts[end - 1];
        if c.is_liquid && (c.option_type == 'C') == call {
            rest.push((c.strike, c.mid))
        } else {
            rest
        }
    }
}

/// `total` with the amounts by which the first `n` steps of a curve go the wrong
/// way: up for calls, down for puts.
pub open spec fn with_wrong_steps<S: Quantity>(
    total: S,
    points: Seq<(S, S)>,
    call: bool,
    n: nat,
) -> S
    decreases n,
{
    if n == 0 {
        total
    } else {
        let rest = with_wrong_steps(total, points, call, (n - 1) as nat);
        let (here, next) = (points[n - 1].1, points[n as int].1);
        if call {
            if here < next {
                rest + (next - here)
            } else {
                rest
            }
        } else {
            if next < here {
                rest + (here - next)
            } else {
                rest
            }
        }
    }
}

/// The slope between two points of a curve.
pub open spec fn slope<S: Quantity>(a: (S, S), b: (S, S)) -> S {
    (b.1 - a.1) / (b.0 - a.0)
}

/// `total` with the amounts by which the slope falls at the first `n` inner points
/// of a curve. Points whose strikes do not rise do not count.
pub open spec fn with_wrong_bends<S: Quantity>(total: S, points: Seq<(S, S)>, n: nat) -> S
    decreases n,
{
    if n == 0 {
        total
    } else {
        let rest = with_wrong_bends(total, points, (n - 1) as nat);
        let (l, m, r) = (points[n - 1], points[n as int], points[n as int + 1]);
        if l.0 < m.0 && m.0 < r.0 && slope(m, r) < slope(l, m) {
            rest + (slope(l, m) - slope(m, r))
        } else {
            rest
        }
    }
}

/// The number of steps of a curve.
pub open spec fn steps_of<S>(points: Seq<(S, S)>) -> nat {
    if points.len() >= 1 {
        (points.len() - 1) as nat
    } else {
        0
    }
}

/// The number of inner points of a curve.
pub open spec fn bends_of<S>(points: Seq<(S, S)>) -> nat {
    if points.len() >= 2 {
        (points.len() - 2) as nat
    } else {
        0
    }
}

/// `total` with the violations of a curve.
pub open spec fn with_curve<S: Quantity>(total: S, points: Seq<(S, S)>, call: bool) -> S {
    with_wrong_bends(
        with_wrong_steps(total, points, call, steps_of(points)),
        points,
        bends_of(points),
    )
}

/// The end of the run of contracts with the expiry of the one at `start`, looked
/// for from `end` on.
pub open spec fn run_end<S>(contracts: Seq<OptionTick<S>>, start: int, end: int) -> int
    decreases contracts.len() - end,
{
    if end < contracts.len() && contracts[end].expiry@ == contracts[start].expiry@ {
        run_end(contracts, start, end + 1)
    } else {
        end
    }
}

proof fn lemma_run_end<S>(contracts: Seq<OptionTick<S>>, start: int, end: int)
    requires
        0 <= start < end <= contracts.len(),
    ensures
        end <= run_end(contracts, start, end) <= contracts.len(),
    decreases contracts.len() - end,
{
    if end < contracts.len() && contracts[end].expiry@ == contracts[start].expiry@ {
        lemma_run_end(contracts, start, end + 1);
    }
}

/// `total` with the violations of the contracts from `start` on, run by run: of each
/// expiry the calls, then the puts.
pub open spec fn with_runs<S: Quantity>(
    total: S,
    contracts: Seq<OptionTick<S>>,
    start: int,
) -> S
    decreases contracts.len() - start,
{
    let end = run_end(contracts, start, start + 1);
    if start < 0 || start >= contracts.len() || end <= start || end > contracts.len() {
        total
    } else {
        with_runs(
            with_curve(
                with_curve(total, curve(contracts, true, start, end), true),
                curve(contracts, false, start, end),
                false,
            ),
            contracts,
            end,
        )
    }
}

/// The shape violations of a grid: where call prices rise or put prices fall in
/// strike, and where prices are not convex in strike.
pub open spec fn shape_violations<S: Quantity>(contracts: Seq<OptionTick<S>>) -> S {
    with_runs(zero::<S>(), contracts, 0)
}

fn add_curve<S: Number>(total: S, points: &Vec<(S, S)>, call: bool) -> (r: S)
    ensures
        r == with_curve(total, points@, call),
{
    let mut sum = total;
    let m = points.len();
    if m >= 2 {
        let mut i: usize = 0;
        while i < m - 1
            invariant
                i <= m - 1,
                m == points@.len(),
                m >= 2,
                sum == with_wrong_steps(total, points@, call, i as nat),
            decreases m - i,
        {
            let here = points[i].1;
            let next = points[i + 1].1;
            if call {
                if here.lt(next) {
                    sum = sum.plus(next.minus(here));
                }
            } else if next.lt(here) {
                sum = sum.plus(here.minus(next));
            }
            i = i + 1;
        }
        let ghost steps = sum;
        let mut b: usize = 1;
        while b < m - 1
            invariant
                1 <= b <= m - 1,
                m == points@.len(),
                m >= 2,
                steps == with_wrong_steps(total, points@, call, (m - 1) as nat),
                sum == with_wrong_bends(steps, points@, (b - 1) as nat),
            decreases m - b,
        {
            let (k_l, y_l) = points[b - 1];
            let (k_m, y_m) = points[b];
            let (k_r, y_r) = points[b + 1];
            if k_l.lt(k_m) && k_m.lt(k_r) {
                let slope_l = y_m.minus(y_l).over(k_m.minus(k_l));
                let slope_r = y_r.minus(y_m).over(k_r.minus(k_m));
                if slope_r.lt(slope_l) {
                    sum = sum.plus(slope_l.minus(slope_r));
                }
            }
            b = b + 1;
        }
    }
    sum
}

/// Calculates the shape violations of a grid on the mid prices of its liquid
/// contracts. The contracts of one expiry stand together, in order of strike.
pub fn compute_shape_violations<S: Number>(grid: &OptionGrid<S>) -> (r: S)
    ensures
        r == shape_violations(grid.contracts@),
{
    let contracts = &grid.contracts;
    let n = contracts.len();
    let mut total = S::decimal(0, 0);
    let mut start: usize = 0;
    while start < n
        invariant
            start <= n,
            n == contracts@.len(),
            with_runs(total, contracts@, start as int) == shape_violations(contracts@),
        decreases n - start,
    {
        let mut calls: Vec<(S, S)> = Vec::with_capacity(32);
        let mut puts: Vec<(S, S)> = Vec::with_capacity(32);
        let mut end: usize = start;
        let expiry = &contracts[start].expiry;
        proof {
            lemma_run_end(contracts@, start as int, start + 1);
        }
        while end < n && (end == start || contracts[end].expiry == *expiry)
            invariant
                start <= end <= n,
                start < n,
                n == contracts@.len(),
                expiry@ == contracts@[start as int].expiry@,
                calls@ == curve(contracts@, true, start as int, end as int),
                puts@ == curve(contracts@, false, start as int, end as int),
                run_end(contracts@, start as int, start + 1) == run_end(
                    contracts@,
                    start as int,
                    if end == start {
                        start + 1
                    } else {
                        end as int
                    },
                ),
            decreases n - end,
        {
            let c = &contracts[end];
            if c.is_liquid {
                if c.option_type == 'C' {
                    calls.push((c.strike, c.mid));
                } else {
                    puts.push((c.strike, c.mid));
                }
            }
            end = end + 1;
        }
        assert(end > start);
        assert(end == run_end(contracts@, start as int, start + 1));
        let ghost before = total;
        total = add_curve(total, &calls, true);
        total = add_curve(total, &puts, false);
        assert(with_runs(before, contracts@, start as int) == with_runs(
            total,
            contracts@,
            end as int,
        ));
        start = end;
    }
    total
}

// ---- The activation score ----

/// The number of liquid contracts among the first `n`.
pub open spec fn liquid_count<S>(contracts: Seq<OptionTick<S>>, n: nat) -> nat
    decreases n,
{
    if n == 0 {
        0
    } else {
        liquid_count(contracts, (n - 1) as nat) + if contracts[n - 1].is_liquid {
            1nat
        } else {
            0
        }
    }
}

/// Sum of the distances of the liquid mid prices from the surface.
pub open spec fn residual_sum<S: Quantity>(
    contracts: Seq<OptionTick<S>>,
    surface: CalibrationSurface<S>,
    n: nat,
) -> S
    decreases n,
{
    if n == 0 {
        zero::<S>()
    } else {
        let rest = residual_sum(contracts, surface, (n - 1) as nat);
        let c = contracts[n - 1];
        if c.is_liquid {
            rest + (c.mid - surface.spec_evaluate_contract(c)).spec_abs()
        } else {
            rest
        }
    }
}

/// Sum of the liquid spreads.
pub open spec fn spread_sum<S: Quantity>(contracts: Seq<OptionTick<S>>, n: nat) -> S
    decreases n,
{
    if n == 0 {
        zero::<S>()
    } else {
        let rest = spread_sum(contracts, (n - 1) as nat);
        if contracts[n - 1].is_liquid {
            rest + contracts[n - 1].spread
        } else {
            rest
        }
    }
}

/// The edge of a contract: what its distance from the surface is over the cost of a
/// trade, in units of that cost.
pub open spec fn edge_of<S: Quantity>(c: OptionTick<S>, surface: CalibrationSurface<S>) -> S {
    let raw = (c.mid - surface.spec_evaluate_contract(c)).spec_abs();
    let cost = c.spread * dec::<S>(5, 1) + dec::<S>(2, 4);
    ((raw - cost) / cost).spec_max(zero::<S>())
}

/// Sum of the edges of the liquid contracts.
pub open spec fn edge_sum<S: Quantity>(
    contracts: Seq<OptionTick<S>>,
    surface: CalibrationSurface<S>,
    n: nat,
) -> S
    decreases n,
{
    if n == 0 {
        zero::<S>()
    } else {
        let rest = edge_sum(contracts, surface, (n - 1) as nat);
        if contracts[n - 1].is_liquid {
            rest + edge_of(contracts[n - 1], surface)
        } else {
            rest
        }
    }
}

/// The mean of `count` values with the given sum, nothing where there are none.
pub open spec fn mean_of<S: Quantity>(sum: S, count: nat) -> S {
    if count > 0 {
        sum / dec::<S>(count as int, 0)
    } else {
        zero::<S>()
    }
}

/// The activation score: residuals, shape violations, quality of execution and
/// expected edge, each with its weight. Without a surface the first and the last
/// count as one.
pub open spec fn activation_score<S: Quantity>(
    contracts: Seq<OptionTick<S>>,
    surface: Option<CalibrationSurface<S>>,
    config: ActivationConfig<S>,
) -> S {
    let n = contracts.len();
    let liquid = liquid_count(contracts, n);
    let residual = match surface {
        Some(s) => mean_of(residual_sum(contracts, s, n), liquid),
        None => one::<S>(),
    };
    let edge = match surface {
        Some(s) => mean_of(edge_sum(contracts, s, n), liquid),
        None => one::<S>(),
    };
    let spread = mean_of(spread_sum(contracts, n), liquid);
    let quality = one::<S>() / (one::<S>() + config.alpha * spread);
    config.w1 * residual + config.w2 * shape_violations(contracts) + config.w3 * quality + config.w4
        * edge
}

fn mean<S: Number>(sum: S, count: usize) -> (r: S)
    ensures
        r == mean_of(sum, count as nat),
{
    if count > 0 {
        sum.over(S::decimal(count as i128, 0))
    } else {
        S::decimal(0, 0)
    }
}

/// Calculates the activation score of a grid against the last surface, if there is
/// one.
pub fn compute_activation_score<S: Analytic>(
    grid: &OptionGrid<S>,
    prev_surface: &Option<CalibrationSurface<S>>,
    config: &ActivationConfig<S>,
) -> (r: S)
    ensures
        r == activation_score(grid.contracts@, *prev_surface, *config),
{
    let contracts = &grid.contracts;
    let n = contracts.len();
    let nothing = S::decimal(0, 0);
    let mut spreads = nothing;
    let mut count: usize = 0;
    let mut i: usize = 0;
    while i < n
        invariant
            i <= n,
            n == contracts@.len(),
            count <= i,
            count == liquid_count(contracts@, i as nat),
            spreads == spread_sum(contracts@, i as nat),
        decreases n - i,
    {
        let c = &contracts[i];
        if c.is_liquid {
            spreads = spreads.plus(c.spread);
            count = count + 1;
        }
        i = i + 1;
    }
    let (residual, edge) = match prev_surface {
        Some(surface) => {
            let mut residuals = nothing;
            let mut edges = nothing;
            let mut j: usize = 0;
            while j < n
                invariant
                    j <= n,
                    n == contracts@.len(),
                    nothing == zero::<S>(),
                    residuals == residual_sum(contracts@, *surface, j as nat),
                    edges == edge_sum(contracts@, *surface, j as nat),
                decreases n - j,
            {
                let c = &contracts[j];
                if c.is_liquid {
                    let raw_diff = c.mid.minus(surface.evaluate_contract(c)).abs();
                    let cost = c.spread.times(S::decimal(5, 1)).plus(S::decimal(2, 4));
                    residuals = residuals.plus(raw_diff);
                    edges = edges.plus(raw_diff.minus(cost).over(cost).max(nothing));
                }
                j = j + 1;
            }
            (mean(residuals, count), mean(edges, count))
        },
        None => (S::decimal(1, 0), S::decimal(1, 0)),
    };
    let shape = compute_shape_violations(grid);
    let unit = S::decimal(1, 0);
    let quality = unit.over(unit.plus(config.alpha.times(mean(spreads, count))));
    config.w1.times(residual).plus(config.w2.times(shape)).plus(config.w3.times(quality)).plus(
        config.w4.times(edge),
    )
}

/// Whether to fit the surface anew: there is none yet, or the score is above the
/// level at which it activates.
pub fn should_calibrate<S: Analytic>(
    grid: &OptionGrid<S>,
    current_surface: &Option<CalibrationSurface<S>>,
    config: &ActivationConfig<S>,
) -> (r: bool)
    ensures
        r == (*current_surface is None || config.tau_enter < activation_score(
            grid.contracts@,
            *current_surface,
            *config,
        )),
{
    let score = compute_activation_score(grid, current_surface, config);
    current_surface.is_none() || config.tau_enter.lt(score)
}

// ---- Candidate features ----

/// What the scoring model is given of a contract.
#[derive(Debug, Clone)]
pub struct FeatureVector<S> {
    pub immediate_execution_gap: S,
    pub spot: S,
    pub moneyness: S,
    pub tau: S,
    pub is_put: S,
    pub spread: S,
    pub raw_features: Vec<S>,
}

/// How far the fair price lies outside the bid and the ask.
pub open spec fn execution_gap<S: Quantity>(fair: S, p_a: S, p_b: S) -> S {
    if p_a < fair {
        fair - p_a
    } else if fair < p_b {
        p_b - fair
    } else {
        zero::<S>()
    }
}

/// One for a put, nothing for a call.
pub open spec fn put_indicator<S: Quantity>(option_type: char) -> S {
    if option_type == 'P' {
        one::<S>()
    } else {
        zero::<S>()
    }
}

/// A contract is scored if it is liquid and its gap is above the threshold.
pub open spec fn is_candidate<S: Quantity>(
    tick: OptionTick<S>,
    surface: CalibrationSurface<S>,
    lambda: S,
) -> bool {
    tick.is_liquid && !(execution_gap(
        surface.spec_evaluate_contract(tick),
        tick.p_a,
        tick.p_b,
    ) <= lambda)
}

/// Whether a feature vector is that of a contract. Its raw features are the gap, the
/// spot price, the moneyness, the time to maturity, the put indicator and the
/// spread.
pub open spec fn features_of<S: Quantity>(
    tick: OptionTick<S>,
    surface: CalibrationSurface<S>,
    f: FeatureVector<S>,
) -> bool {
    let gap = execution_gap(surface.spec_evaluate_contract(tick), tick.p_a, tick.p_b);
    let moneyness = tick.strike - tick.s_t;
    let is_put = put_indicator::<S>(tick.option_type);
    &&& f.immediate_execution_gap == gap
    &&& f.spot == tick.s_t
    &&& f.moneyness == moneyness
    &&& f.tau == tick.tau
    &&& f.is_put == is_put
    &&& f.spread == tick.spread
    &&& f.raw_features@ == seq![gap, tick.s_t, moneyness, tick.tau, is_put, tick.spread]
}

/// How far the fair price lies outside the bid and the ask: above the ask the
/// contract is cheap, below the bid it is dear.
pub fn immediate_execution_gap<S: Number>(fair_price: S, p_a: S, p_b: S) -> (r: S)
    ensures
        r == execution_gap(fair_price, p_a, p_b),
{
    if p_a.lt(fair_price) {
        fair_price.minus(p_a)
    } else if fair_price.lt(p_b) {
        p_b.minus(fair_price)
    } else {
        S::decimal(0, 0)
    }
}

/// Extracts the features of a contract that passes the liquidity gate.
pub fn extract_candidate_features<S: Analytic>(
    tick: &OptionTick<S>,
    surface: &CalibrationSurface<S>,
    lambda: S,
) -> (r: Option<FeatureVector<S>>)
    ensures
        r is Some == is_candidate(*tick, *surface, lambda),
        r matches Some(f) ==> features_of(*tick, *surface, f),
{
    if !tick.is_liquid {
        return None;
    }
    let gap = immediate_execution_gap(surface.evaluate_contract(tick), tick.p_a, tick.p_b);
    if gap.le(lambda) {
        return None;
    }
    let is_put = if tick.option_type == 'P' {
        S::decimal(1, 0)
    } else {
        S::decimal(0, 0)
    };
    let moneyness = tick.strike.minus(tick.s_t);
    let raw_features: Vec<S> = vec![
        gap,
        tick.s_t,
        moneyness,
        tick.tau,
        is_put,
        tick.spread,
    ];
    assert(raw_features@ =~= seq![gap, tick.s_t, moneyness, tick.tau, is_put, tick.spread]);
    Some(
        FeatureVector {
            immediate_execution_gap: gap,
            spot: tick.s_t,
            moneyness,
            tau: tick.tau,
            is_put,
            spread: tick.spread,
            raw_features,
        },
    )
}

} // verus!
