//! The equity curve of a run and what it amounts to.

use vstd::prelude::*;
use crate::activation::{execution_gap, extract_candidate_features, is_candidate};
use crate::calendar::Moment;
use crate::calibration::CalibrationSurface;
use crate::execution::EQUITY_INTERVAL;
use crate::ingestion::{OptionGrid, OptionTick};
use crate::number::{dec, zero, Analytic, Number, Quantity};
use crate::pricing::{calculate_greeks, greeks_of};

verus! {

/// The equity curve with its peak and its largest fall from a peak.
#[derive(Debug)]
pub struct EquityTrack<S> {
    pub curve: Vec<(Moment, S)>,
    pub max_equity: S,
    pub max_drawdown: S,
}

/// What an [`EquityTrack`] holds.
pub ghost struct TrackModel<S> {
    pub curve: Seq<(Moment, S)>,
    pub max_equity: S,
    pub max_drawdown: S,
}

impl<S> View for EquityTrack<S> {
    type V = TrackModel<S>;

    open spec fn view(&self) -> TrackModel<S> {
        TrackModel {
            curve: self.curve@,
            max_equity: self.max_equity,
            max_drawdown: self.max_drawdown,
        }
    }
}

/// A track with one more point: the peak rises with it, and the fall from the peak, as a
/// share of it, counts if it is the largest.
pub open spec fn with_point<S: Quantity>(t: TrackModel<S>, time: Moment, value: S) -> TrackModel<
    S,
> {
    let peak = if t.max_equity < value {
        value
    } else {
        t.max_equity
    };
    let fall = (peak - value) / peak;
    TrackModel {
        curve: t.curve.push((time, value)),
        max_equity: peak,
        max_drawdown: if t.max_drawdown < fall {
            fall
        } else {
            t.max_drawdown
        },
    }
}

impl<S: Number> EquityTrack<S> {
    /// An empty curve whose peak is the cash at the start.
    pub fn new(initial_cash: S) -> (r: Self)
        ensures
            r@ == (TrackModel {
                curve: Seq::empty(),
                max_equity: initial_cash,
                max_drawdown: zero::<S>(),
            }),
    {
        EquityTrack {
            curve: Vec::new(),
            max_equity: initial_cash,
            max_drawdown: S::decimal(0, 0),
        }
    }

    /// Takes the value after grid number `k`, if it is one of those that are kept: one in a
    /// thousand.
    pub fn record(&mut self, k: usize, time: Moment, value: S)
        ensures
            final(self)@ == if k % 1000 == 0 {
                with_point(old(self)@, time, value)
            } else {
                old(self)@
            },
    {
        if k % EQUITY_INTERVAL == 0 {
            self.curve.push((time, value));
            if self.max_equity.lt(value) {
                self.max_equity = value;
            }
            let fall = self.max_equity.minus(value).over(self.max_equity);
            if self.max_drawdown.lt(fall) {
                self.max_drawdown = fall;
            }
        }
    }
}

/// What a run amounts to.
#[derive(Debug, Clone, Copy)]
pub struct Performance<S> {
    pub final_equity: S,
    pub net_profit: S,
    /// In percent of the cash at the start.
    pub total_return: S,
    pub sharpe_ratio: S,
}

/// The return from one point of a curve to the next.
pub open spec fn return_at<S: Quantity>(curve: Seq<(Moment, S)>, i: int) -> S {
    (curve[i].1 - curve[i - 1].1) / curve[i - 1].1
}

/// Sum of the first `n` returns.
pub open spec fn return_sum<S: Quantity>(curve: Seq<(Moment, S)>, n: nat) -> S
    decreases n,
{
    if n == 0 {
        zero::<S>()
    } else {
        return_sum(curve, (n - 1) as nat) + return_at(curve, n as int)
    }
}

/// Sum of the squared distances of the first `n` returns from their mean.
pub open spec fn square_sum<S: Quantity>(curve: Seq<(Moment, S)>, mean: S, n: nat) -> S
    decreases n,
{
    if n == 0 {
        zero::<S>()
    } else {
        let away = return_at(curve, n as int) - mean;
        square_sum(curve, mean, (n - 1) as nat) + away * away
    }
}

/// What a curve of at least two points amounts to. The ratio of the mean return to its
/// deviation is for 252 days of 240 minutes; it is nothing where there is no deviation.
pub open spec fn performance_of<S: Quantity>(curve: Seq<(Moment, S)>, initial: S) -> Performance<
    S,
> {
    let n = (curve.len() - 1) as nat;
    let last = curve.last().1;
    let mean = return_sum(curve, n) / dec::<S>(n as int, 0);
    let deviation = (square_sum(curve, mean, n) / dec::<S>(n - 1, 0)).spec_sqrt();
    Performance {
        final_equity: last,
        net_profit: last - initial,
        total_return: ((last - initial) / initial) * dec::<S>(100, 0),
        sharpe_ratio: if zero::<S>() < deviation {
            (mean / deviation) * (dec::<S>(252, 0) * dec::<S>(240, 0)).spec_sqrt()
        } else {
            zero::<S>()
        },
    }
}

/// Works out what a curve of at least two points amounts to.
pub fn performance<S: Analytic>(curve: &Vec<(Moment, S)>, initial_cash: S) -> (r: Performance<S>)
    requires
        curve@.len() >= 2,
    ensures
        r == performance_of(curve@, initial_cash),
{
    let n = curve.len() - 1;
    let mut sum = S::decimal(0, 0);
    let mut i: usize = 0;
    while i < n
        invariant
            i <= n,
            n + 1 == curve@.len(),
            sum == return_sum(curve@, i as nat),
        decreases n - i,
    {
        let prev = curve[i].1;
        i = i + 1;
        sum = sum.plus(curve[i].1.minus(prev).over(prev));
    }
    let mean = sum.over(S::decimal(n as i128, 0));
    let mut squares = S::decimal(0, 0);
    let mut j: usize = 0;
    while j < n
        invariant
            j <= n,
            n + 1 == curve@.len(),
            squares == square_sum(curve@, mean, j as nat),
        decreases n - j,
    {
        let prev = curve[j].1;
        j = j + 1;
        let away = curve[j].1.minus(prev).over(prev).minus(mean);
        squares = squares.plus(away.times(away));
    }
    let deviation = squares.over(S::decimal((n - 1) as i128, 0)).sqrt();
    let last = curve[n].1;
    let net_profit = last.minus(initial_cash);
    let sharpe_ratio = if S::decimal(0, 0).lt(deviation) {
        mean.over(deviation).times(S::decimal(252, 0).times(S::decimal(240, 0)).sqrt())
    } else {
        S::decimal(0, 0)
    };
    Performance {
        final_equity: last,
        net_profit,
        total_return: net_profit.over(initial_cash).times(S::decimal(100, 0)),
        sharpe_ratio,
    }
}

// ---- Scores by gap and delta ----

/// The score of a candidate by its gap and its delta, nothing for another contract.
pub open spec fn gap_delta_score<S: Quantity>(
    c: OptionTick<S>,
    s_t: S,
    surface: CalibrationSurface<S>,
    r: S,
    lambda: S,
) -> S {
    if is_candidate(c, surface, lambda) {
        let fair = surface.spec_evaluate_contract(c);
        let delta = greeks_of(s_t, c.strike, c.tau, r, c.option_type, fair).delta;
        dec::<S>(8, 1) * execution_gap(fair, c.p_a, c.p_b) + dec::<S>(2, 1) * delta.spec_abs()
            * dec::<S>(1, 2)
    } else {
        zero::<S>()
    }
}

/// Scores the contracts of a grid by gap and delta, and says whether any is a candidate.
pub fn score_by_gap_and_delta<S: Analytic>(
    grid: &OptionGrid<S>,
    surface: &CalibrationSurface<S>,
    rate: S,
    lambda: S,
) -> (r: (Vec<S>, bool))
    ensures
        r.0@ == grid.contracts@.map_values(
            |c: OptionTick<S>| gap_delta_score(c, grid.s_t, *surface, rate, lambda),
        ),
        r.1 == exists|i: int|
            0 <= i < grid.contracts@.len() && is_candidate(
                #[trigger] grid.contracts@[i],
                *surface,
                lambda,
            ),
{
    let n = grid.contracts.len();
    let ghost all = grid.contracts@.map_values(
        |c: OptionTick<S>| gap_delta_score(c, grid.s_t, *surface, rate, lambda),
    );
    let mut scores: Vec<S> = Vec::with_capacity(n);
    let mut any = false;
    let mut i: usize = 0;
    while i < n
        invariant
            i <= n,
            n == grid.contracts@.len(),
            all == grid.contracts@.map_values(
                |c: OptionTick<S>| gap_delta_score(c, grid.s_t, *surface, rate, lambda),
            ),
            scores@ == all.take(i as int),
            any == exists|k: int|
                0 <= k < i && is_candidate(#[trigger] grid.contracts@[k], *surface, lambda),
        decreases n - i,
    {
        let c = &grid.contracts[i];
        match extract_candidate_features(c, surface, lambda) {
            Some(feat) => {
                let fair = surface.evaluate_contract(c);
                let gk = calculate_greeks(
                    grid.s_t,
                    c.strike,
                    c.tau,
                    rate,
                    c.option_type,
                    fair,
                );
                scores.push(
                    S::decimal(8, 1).times(feat.immediate_execution_gap).plus(
                        S::decimal(2, 1).times(gk.delta.abs()).times(S::decimal(1, 2)),
                    ),
                );
                any = true;
            },
            None => scores.push(S::decimal(0, 0)),
        }
        i = i + 1;
        assert(scores@ =~= all.take(i as int));
    }
    assert(scores@ =~= all);
    (scores, any)
}

/// The delta of a contract at its fair price.
pub fn deltas_helper<S: Analytic>(contract: &OptionTick<S>, surface: &CalibrationSurface<S>) -> (r:
    S)
    ensures
        r == greeks_of(
            contract.s_t,
            contract.strike,
            contract.tau,
            surface.r,
            contract.option_type,
            surface.spec_evaluate_contract(*contract),
        ).delta,
{
    let fair = surface.evaluate_contract(contract);
    calculate_greeks(
        contract.s_t,
        contract.strike,
        contract.tau,
        surface.r,
        contract.option_type,
        fair,
    ).delta
}

} // verus!
