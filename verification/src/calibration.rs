//! The arbitrage-free pricing surface and the linear program that fits it.

use vstd::prelude::*;
use crate::ingestion::{OptionGrid, OptionTick};
use crate::lp::{
    add_constraint, at_least, at_most, constraint_models, ConstraintModel, Direction,
    LinearConstraint, LinearProgram, ProgramModel, Sense, VariableBounds,
};
use crate::number::{dec, one, zero, Analytic, Number, Quantity};

verus! {

/// A call price surface that is quadratic in strike and in time to maturity, and
/// gives the spot price at strike nothing.
#[derive(Debug, Clone, Copy)]
pub struct CalibrationSurface<S> {
    pub s_t: S,
    pub r: S,
    pub theta: [S; 6],
}

/// What a payment at maturity is worth now.
pub open spec fn discount<S: Quantity>(r: S, tau: S) -> S {
    (-r * tau).spec_exp()
}

impl<S: Quantity> CalibrationSurface<S> {
    /// The call price at a strike and a time to maturity.
    pub open spec fn spec_evaluate(self, k: S, t: S) -> S {
        self.s_t + self.theta@[0] * k + self.theta@[1] * k * t + self.theta@[2] * k * t * t
            + self.theta@[3] * k * k + self.theta@[4] * k * k * t + self.theta@[5] * k * k * t * t
    }

    /// The slope of the call price in strike.
    pub open spec fn spec_d_k(self, k: S, t: S) -> S {
        self.theta@[0] + self.theta@[1] * t + self.theta@[2] * t * t + dec::<S>(2, 0)
            * self.theta@[3] * k + dec::<S>(2, 0) * self.theta@[4] * k * t + dec::<S>(2, 0)
            * self.theta@[5] * k * t * t
    }

    /// The curvature of the call price in strike.
    pub open spec fn spec_d_kk(self, t: S) -> S {
        dec::<S>(2, 0) * self.theta@[3] + dec::<S>(2, 0) * self.theta@[4] * t + dec::<S>(2, 0)
            * self.theta@[5] * t * t
    }

    /// The slope of the call price in time to maturity.
    pub open spec fn spec_d_t(self, k: S, t: S) -> S {
        self.theta@[1] * k + dec::<S>(2, 0) * self.theta@[2] * k * t + self.theta@[4] * k * k
            + dec::<S>(2, 0) * self.theta@[5] * k * k * t
    }

    /// The price of a contract: that of the call, or of the put by parity.
    pub open spec fn spec_evaluate_contract(self, tick: OptionTick<S>) -> S {
        let call_fair = self.spec_evaluate(tick.strike, tick.tau);
        if tick.option_type == 'P' {
            call_fair - self.s_t + tick.strike * discount(self.r, tick.tau)
        } else {
            call_fair
        }
    }
}

impl<S: Number> CalibrationSurface<S> {
    /// Evaluates the call price at a strike and a time to maturity.
    pub fn evaluate(&self, strike: S, tau: S) -> (r: S)
        ensures
            r == self.spec_evaluate(strike, tau),
    {
        let k = strike;
        let t = tau;
        self.s_t.plus(self.theta[0].times(k)).plus(self.theta[1].times(k).times(t)).plus(
            self.theta[2].times(k).times(t).times(t),
        ).plus(self.theta[3].times(k).times(k)).plus(
            self.theta[4].times(k).times(k).times(t),
        ).plus(self.theta[5].times(k).times(k).times(t).times(t))
    }

    /// The first derivative of the call price in strike.
    pub fn d_k(&self, strike: S, tau: S) -> (r: S)
        ensures
            r == self.spec_d_k(strike, tau),
    {
        let k = strike;
        let t = tau;
        let two = S::decimal(2, 0);
        self.theta[0].plus(self.theta[1].times(t)).plus(self.theta[2].times(t).times(t)).plus(
            two.times(self.theta[3]).times(k),
        ).plus(two.times(self.theta[4]).times(k).times(t)).plus(
            two.times(self.theta[5]).times(k).times(t).times(t),
        )
    }

    /// The second derivative of the call price in strike. Where it is negative a
    /// butterfly is an arbitrage.
    pub fn d_kk(&self, _strike: S, tau: S) -> (r: S)
        ensures
            r == self.spec_d_kk(tau),
    {
        let t = tau;
        let two = S::decimal(2, 0);
        two.times(self.theta[3]).plus(two.times(self.theta[4]).times(t)).plus(
            two.times(self.theta[5]).times(t).times(t),
        )
    }

    /// The first derivative of the call price in time to maturity. Where it is
    /// negative a calendar spread is an arbitrage.
    pub fn d_t(&self, strike: S, tau: S) -> (r: S)
        ensures
            r == self.spec_d_t(strike, tau),
    {
        let k = strike;
        let t = tau;
        let two = S::decimal(2, 0);
        self.theta[1].times(k).plus(two.times(self.theta[2]).times(k).times(t)).plus(
            self.theta[4].times(k).times(k),
        ).plus(two.times(self.theta[5]).times(k).times(k).times(t))
    }
}

impl<S: Analytic> CalibrationSurface<S> {
    /// Evaluates the fair price of a contract: a put is priced from the call by
    /// parity.
    pub fn evaluate_contract(&self, tick: &OptionTick<S>) -> (r: S)
        ensures
            r == self.spec_evaluate_contract(*tick),
    {
        let call_fair = self.evaluate(tick.strike, tick.tau);
        if tick.option_type == 'P' {
            let disc = self.r.negated().times(tick.tau).exp();
            call_fair.minus(self.s_t).plus(tick.strike.times(disc))
        } else {
            call_fair
        }
    }
}

// ---- The linear program ----

/// Why a surface could not be fitted.
#[derive(Debug)]
pub enum CalibrationError<S> {
    /// The spot price is not positive.
    InvalidSpot(S),
    /// No contract can be fitted to.
    NoLiquidContracts,
    /// The solver gave no answer, for the reason it states.
    SolverFailed(String),
}

/// A contract that the surface is fitted to.
pub open spec fn usable<S: Quantity>(c: OptionTick<S>) -> bool {
    c.is_liquid && zero::<S>() < c.tau && zero::<S>() < c.strike
}

/// What the fit reads of a contract.
pub struct Quote<S> {
    pub strike: S,
    pub tau: S,
    /// The mid price of the call, from that of the put by parity where the contract
    /// is a put.
    pub call_mid: S,
}

/// The mid price of the call that a contract stands for.
pub open spec fn call_mid_of<S: Quantity>(c: OptionTick<S>, s_t: S, r: S) -> S {
    if c.option_type == 'P' {
        c.mid + s_t - c.strike * discount(r, c.tau)
    } else {
        c.mid
    }
}

/// What the fit reads of the usable ones among the first `n` contracts.
pub open spec fn quotes_of<S: Quantity>(
    contracts: Seq<OptionTick<S>>,
    s_t: S,
    r: S,
    n: nat,
) -> Seq<Quote<S>>
    decreases n,
{
    if n == 0 {
        Seq::empty()
    } else {
        let rest = quotes_of(contracts, s_t, r, (n - 1) as nat);
        let c = contracts[n - 1];
        if usable(c) {
            rest.push(
                Quote { strike: c.strike, tau: c.tau, call_mid: call_mid_of(c, s_t, r) },
            )
        } else {
            rest
        }
    }
}

/// The place of the deviation of quote `i` among the variables.
pub open spec fn deviation_var(i: int) -> int {
    6 + i
}

/// The place of the size of coefficient `m` among the variables, with `n` quotes.
pub open spec fn size_var(n: int, m: int) -> int {
    6 + n + m
}

/// The coefficients of the surface value, less the spot price, at a quote.
pub open spec fn value_terms<S: Quantity>(k: S, t: S) -> Seq<(usize, S)> {
    seq![
        (0usize, k),
        (1usize, k * t),
        (2usize, k * t * t),
        (3usize, k * k),
        (4usize, k * k * t),
        (5usize, k * k * t * t),
    ]
}

/// The same coefficients with their signs turned.
pub open spec fn negated_value_terms<S: Quantity>(k: S, t: S) -> Seq<(usize, S)> {
    seq![
        (0usize, -k),
        (1usize, -(k * t)),
        (2usize, -(k * t * t)),
        (3usize, -(k * k)),
        (4usize, -(k * k * t)),
        (5usize, -(k * k * t * t)),
    ]
}

/// The coefficients of the slope in strike at a quote.
pub open spec fn slope_terms<S: Quantity>(k: S, t: S) -> Seq<(usize, S)> {
    let two = dec::<S>(2, 0);
    seq![
        (0usize, one::<S>()),
        (1usize, t),
        (2usize, t * t),
        (3usize, two * k),
        (4usize, two * k * t),
        (5usize, two * k * t * t),
    ]
}

/// The coefficients of the curvature in strike at a quote.
pub open spec fn curvature_terms<S: Quantity>(t: S) -> Seq<(usize, S)> {
    let two = dec::<S>(2, 0);
    seq![(3usize, two), (4usize, two * t), (5usize, two * t * t)]
}

/// The coefficients of the slope in time, divided by the strike, at a quote.
pub open spec fn calendar_terms<S: Quantity>(k: S, t: S) -> Seq<(usize, S)> {
    let two = dec::<S>(2, 0);
    seq![(1usize, one::<S>()), (2usize, two * t), (4usize, k), (5usize, two * k * t)]
}

/// The two constraints that hold a coefficient of the surface to its size.
pub open spec fn size_rows<S: Quantity>(n: int, m: int) -> Seq<ConstraintModel<S>> {
    let size = size_var(n, m) as usize;
    let minus_one = dec::<S>(-1, 0);
    seq![
        ConstraintModel {
            terms: seq![(m as usize, one::<S>()), (size, minus_one)],
            sense: Sense::AtMost,
            bound: zero::<S>(),
        },
        ConstraintModel {
            terms: seq![(m as usize, minus_one), (size, minus_one)],
            sense: Sense::AtMost,
            bound: zero::<S>(),
        },
    ]
}

/// The constraints of the first `m` coefficients.
pub open spec fn all_size_rows<S: Quantity>(n: int, m: nat) -> Seq<ConstraintModel<S>>
    decreases m,
{
    if m == 0 {
        Seq::empty()
    } else {
        all_size_rows::<S>(n, (m - 1) as nat) + size_rows::<S>(n, m - 1)
    }
}

/// The constraints of quote `i`: its deviation, the bounds of the value, the slope
/// and the curvature in strike, and the slope in time.
pub open spec fn quote_rows<S: Quantity>(q: Quote<S>, s_t: S, i: int) -> Seq<ConstraintModel<S>> {
    let k = q.strike;
    let t = q.tau;
    let deviation = (deviation_var(i) as usize, dec::<S>(-1, 0));
    seq![
        ConstraintModel {
            terms: value_terms(k, t).push(deviation),
            sense: Sense::AtMost,
            bound: q.call_mid - s_t,
        },
        ConstraintModel {
            terms: negated_value_terms(k, t).push(deviation),
            sense: Sense::AtMost,
            bound: s_t - q.call_mid,
        },
        ConstraintModel { terms: value_terms(k, t), sense: Sense::AtLeast, bound: -s_t },
        ConstraintModel { terms: value_terms(k, t), sense: Sense::AtMost, bound: zero::<S>() },
        ConstraintModel { terms: slope_terms(k, t), sense: Sense::AtMost, bound: zero::<S>() },
        ConstraintModel { terms: curvature_terms(t), sense: Sense::AtLeast, bound: zero::<S>() },
        ConstraintModel { terms: calendar_terms(k, t), sense: Sense::AtLeast, bound: zero::<S>() },
    ]
}

/// The constraints of the first `n` quotes.
pub open spec fn all_quote_rows<S: Quantity>(quotes: Seq<Quote<S>>, s_t: S, n: nat) -> Seq<
    ConstraintModel<S>,
>
    decreases n,
{
    if n == 0 {
        Seq::empty()
    } else {
        all_quote_rows(quotes, s_t, (n - 1) as nat) + quote_rows(quotes[n - 1], s_t, n - 1)
    }
}

/// The bounds of the variables for `n` quotes: the coefficients are free, the
/// deviations and sizes are not negative.
pub open spec fn fit_variables<S: Quantity>(n: nat) -> Seq<VariableBounds<S>> {
    Seq::new(
        6 + n + 6,
        |v: int|
            if v < 6 {
                VariableBounds { lower: None, upper: None }
            } else {
                VariableBounds { lower: Some(zero::<S>()), upper: None }
            },
    )
}

/// The objective for `n` quotes: the sum of the deviations, and `lambda` times that
/// of the sizes.
pub open spec fn fit_objective<S: Quantity>(n: nat, lambda: S) -> Seq<(usize, S)> {
    Seq::new(
        n + 6,
        |v: int|
            (
                (6 + v) as usize,
                if v < n {
                    one::<S>()
                } else {
                    lambda
                },
            ),
    )
}

/// The linear program that fits the surface to quotes.
pub open spec fn fit_program<S: Quantity>(quotes: Seq<Quote<S>>, s_t: S, lambda: S) -> ProgramModel<
    S,
> {
    let n = quotes.len();
    ProgramModel {
        variables: fit_variables::<S>(n),
        direction: Direction::Minimise,
        objective: fit_objective(n, lambda),
        constraints: all_size_rows::<S>(n as int, 6) + all_quote_rows(quotes, s_t, n),
    }
}

fn collect_quotes<S: Analytic>(contracts: &Vec<OptionTick<S>>, s_t: S, r: S) -> (q: Vec<Quote<S>>)
    ensures
        q@ == quotes_of(contracts@, s_t, r, contracts@.len()),
        q@.len() <= contracts@.len(),
{
    let n = contracts.len();
    let nothing = S::decimal(0, 0);
    let mut quotes: Vec<Quote<S>> = Vec::new();
    let mut i: usize = 0;
    while i < n
        invariant
            i <= n,
            n == contracts@.len(),
            nothing == zero::<S>(),
            quotes@ == quotes_of(contracts@, s_t, r, i as nat),
            quotes@.len() <= i,
        decreases n - i,
    {
        let c = &contracts[i];
        if c.is_liquid && nothing.lt(c.tau) && nothing.lt(c.strike) {
            let call_mid = if c.option_type == 'P' {
                let disc = r.negated().times(c.tau).exp();
                c.mid.plus(s_t).minus(c.strike.times(disc))
            } else {
                c.mid
            };
            quotes.push(Quote { strike: c.strike, tau: c.tau, call_mid });
        }
        i = i + 1;
    }
    quotes
}

fn make_value_terms<S: Number>(k: S, t: S) -> (r: Vec<(usize, S)>)
    ensures
        r@ == value_terms(k, t),
{
    let r: Vec<(usize, S)> = vec![
        (0, k),
        (1, k.times(t)),
        (2, k.times(t).times(t)),
        (3, k.times(k)),
        (4, k.times(k).times(t)),
        (5, k.times(k).times(t).times(t)),
    ];
    assert(r@ =~= value_terms(k, t));
    r
}

fn make_negated_value_terms<S: Number>(k: S, t: S) -> (r: Vec<(usize, S)>)
    ensures
        r@ == negated_value_terms(k, t),
{
    let r: Vec<(usize, S)> = vec![
        (0, k.negated()),
        (1, k.times(t).negated()),
        (2, k.times(t).times(t).negated()),
        (3, k.times(k).negated()),
        (4, k.times(k).times(t).negated()),
        (5, k.times(k).times(t).times(t).negated()),
    ];
    assert(r@ =~= negated_value_terms(k, t));
    r
}

fn make_slope_terms<S: Number>(k: S, t: S) -> (r: Vec<(usize, S)>)
    ensures
        r@ == slope_terms(k, t),
{
    let two = S::decimal(2, 0);
    let r: Vec<(usize, S)> = vec![
        (0, S::decimal(1, 0)),
        (1, t),
        (2, t.times(t)),
        (3, two.times(k)),
        (4, two.times(k).times(t)),
        (5, two.times(k).times(t).times(t)),
    ];
    assert(r@ =~= slope_terms(k, t));
    r
}

fn make_curvature_terms<S: Number>(t: S) -> (r: Vec<(usize, S)>)
    ensures
        r@ == curvature_terms(t),
{
    let two = S::decimal(2, 0);
    let r: Vec<(usize, S)> = vec![(3, two), (4, two.times(t)), (5, two.times(t).times(t))];
    assert(r@ =~= curvature_terms(t));
    r
}

fn make_calendar_terms<S: Number>(k: S, t: S) -> (r: Vec<(usize, S)>)
    ensures
        r@ == calendar_terms(k, t),
{
    let two = S::decimal(2, 0);
    let r: Vec<(usize, S)> = vec![
        (1, S::decimal(1, 0)),
        (2, two.times(t)),
        (4, k),
        (5, two.times(k).times(t)),
    ];
    assert(r@ =~= calendar_terms(k, t));
    r
}

fn add_size_rows<S: Number>(rows: &mut Vec<LinearConstraint<S>>, n: usize)
    requires
        n <= usize::MAX - 12,
    ensures
        constraint_models(final(rows)@) == constraint_models(old(rows)@) + all_size_rows::<S>(
            n as int,
            6,
        ),
{
    let ghost start = constraint_models(rows@);
    let mut m: usize = 0;
    assert(start =~= start + all_size_rows::<S>(n as int, 0));
    while m < 6
        invariant
            m <= 6,
            n <= usize::MAX - 12,
            constraint_models(rows@) == start + all_size_rows::<S>(n as int, m as nat),
        decreases 6 - m,
    {
        let size = 6 + n + m;
        let minus_one = S::decimal(-1, 0);
        let upper: Vec<(usize, S)> = vec![(m, S::decimal(1, 0)), (size, minus_one)];
        let lower: Vec<(usize, S)> = vec![(m, minus_one), (size, minus_one)];
        assert(upper@ =~= size_rows::<S>(n as int, m as int)[0].terms);
        assert(lower@ =~= size_rows::<S>(n as int, m as int)[1].terms);
        add_constraint(rows, at_most(upper, S::decimal(0, 0)));
        add_constraint(rows, at_most(lower, S::decimal(0, 0)));
        m = m + 1;
        assert(constraint_models(rows@) =~= start + all_size_rows::<S>(n as int, m as nat));
    }
}

fn add_quote_rows<S: Number>(rows: &mut Vec<LinearConstraint<S>>, q: &Quote<S>, s_t: S, i: usize)
    requires
        i <= usize::MAX - 6,
    ensures
        constraint_models(final(rows)@) == constraint_models(old(rows)@) + quote_rows(
            *q,
            s_t,
            i as int,
        ),
{
    let ghost start = constraint_models(rows@);
    let k = q.strike;
    let t = q.tau;
    let nothing = S::decimal(0, 0);
    let minus_one = S::decimal(-1, 0);
    let mut above = make_value_terms(k, t);
    above.push((6 + i, minus_one));
    let mut below = make_negated_value_terms(k, t);
    below.push((6 + i, minus_one));
    add_constraint(rows, at_most(above, q.call_mid.minus(s_t)));
    add_constraint(rows, at_most(below, s_t.minus(q.call_mid)));
    add_constraint(rows, at_least(make_value_terms(k, t), s_t.negated()));
    add_constraint(rows, at_most(make_value_terms(k, t), nothing));
    add_constraint(rows, at_most(make_slope_terms(k, t), nothing));
    add_constraint(rows, at_least(make_curvature_terms(t), nothing));
    add_constraint(rows, at_least(make_calendar_terms(k, t), nothing));
    assert(constraint_models(rows@) =~= start + quote_rows(*q, s_t, i as int));
}

fn make_fit_variables<S: Number>(n: usize) -> (r: Vec<VariableBounds<S>>)
    requires
        n <= usize::MAX - 12,
    ensures
        r@ == fit_variables::<S>(n as nat),
{
    let total = 6 + n + 6;
    let mut list: Vec<VariableBounds<S>> = Vec::with_capacity(total);
    let mut v: usize = 0;
    while v < total
        invariant
            v <= total,
            total == 12 + n,
            n <= usize::MAX - 12,
            list@ == fit_variables::<S>(n as nat).take(v as int),
        decreases total - v,
    {
        let bounds = if v < 6 {
            VariableBounds { lower: None, upper: None }
        } else {
            VariableBounds { lower: Some(S::decimal(0, 0)), upper: None }
        };
        list.push(bounds);
        v = v + 1;
        assert(list@ =~= fit_variables::<S>(n as nat).take(v as int));
    }
    assert(list@ =~= fit_variables::<S>(n as nat));
    list
}

fn make_fit_objective<S: Number>(n: usize, lambda: S) -> (r: Vec<(usize, S)>)
    requires
        n <= usize::MAX - 12,
    ensures
        r@ == fit_objective(n as nat, lambda),
{
    let total = n + 6;
    let mut list: Vec<(usize, S)> = Vec::with_capacity(total);
    let mut v: usize = 0;
    while v < total
        invariant
            v <= total,
            total == n + 6,
            n <= usize::MAX - 12,
            list@ == fit_objective(n as nat, lambda).take(v as int),
        decreases total - v,
    {
        list.push(
            (
                6 + v,
                if v < n {
                    S::decimal(1, 0)
                } else {
                    lambda
                },
            ),
        );
        v = v + 1;
        assert(list@ =~= fit_objective(n as nat, lambda).take(v as int));
    }
    assert(list@ =~= fit_objective(n as nat, lambda));
    list
}

/// The linear program that fits the surface to the usable contracts of a grid: the
/// least sum of absolute deviations from the mid prices, with `lambda` times the
/// sum of the absolute coefficients, under the bounds that leave no arbitrage at
/// any of the contracts.
pub fn calibration_problem<S: Analytic>(grid: &OptionGrid<S>, r: S, lambda: S) -> (p: Result<
    LinearProgram<S>,
    CalibrationError<S>,
>)
    requires
        grid.contracts@.len() <= usize::MAX - 12,
    ensures
        ({
            let quotes = quotes_of(grid.contracts@, grid.s_t, r, grid.contracts@.len());
            match p {
                Ok(program) => {
                    &&& !(grid.s_t <= zero::<S>())
                    &&& quotes.len() > 0
                    &&& program@ == fit_program(quotes, grid.s_t, lambda)
                },
                Err(CalibrationError::InvalidSpot(s_t)) => s_t == grid.s_t && grid.s_t <= zero::<
                    S,
                >(),
                Err(CalibrationError::NoLiquidContracts) => !(grid.s_t <= zero::<S>())
                    && quotes.len() == 0,
                Err(CalibrationError::SolverFailed(_)) => false,
            }
        }),
{
    let s_t = grid.s_t;
    if s_t.le(S::decimal(0, 0)) {
        return Err(CalibrationError::InvalidSpot(s_t));
    }
    let quotes = collect_quotes(&grid.contracts, s_t, r);
    let n = quotes.len();
    if n == 0 {
        return Err(CalibrationError::NoLiquidContracts);
    }
    let mut rows: Vec<LinearConstraint<S>> = Vec::new();
    assert(constraint_models(rows@) =~= Seq::empty());
    add_size_rows(&mut rows, n);
    let ghost sizes = all_size_rows::<S>(n as int, 6);
    assert(constraint_models(rows@) =~= sizes + all_quote_rows(quotes@, s_t, 0));
    let mut i: usize = 0;
    while i < n
        invariant
            i <= n,
            n == quotes@.len(),
            n <= usize::MAX - 12,
            constraint_models(rows@) == sizes + all_quote_rows(quotes@, s_t, i as nat),
        decreases n - i,
    {
        add_quote_rows(&mut rows, &quotes[i], s_t, i);
        i = i + 1;
        assert(constraint_models(rows@) =~= sizes + all_quote_rows(quotes@, s_t, i as nat));
    }
    Ok(
        LinearProgram {
            variables: make_fit_variables(n),
            direction: Direction::Minimise,
            objective: make_fit_objective(n, lambda),
            constraints: rows,
        },
    )
}

/// The surface whose coefficients are the first six values of an answer.
pub open spec fn surface_of<S>(s_t: S, r: S, x: Seq<S>, surface: CalibrationSurface<S>) -> bool {
    &&& surface.s_t == s_t
    &&& surface.r == r
    &&& surface.theta@ == x.take(6)
}

/// The fitted surface, from what a solver answers to [`calibration_problem`]. A
/// grid that has no problem gives the error that it has there.
pub fn calibrate_surface<S: Analytic>(
    grid: &OptionGrid<S>,
    r: S,
    solution: Result<Vec<S>, String>,
) -> (c: Result<CalibrationSurface<S>, CalibrationError<S>>)
    requires
        solution matches Ok(x) ==> x@.len() >= 6,
    ensures
        ({
            let quotes = quotes_of(grid.contracts@, grid.s_t, r, grid.contracts@.len());
            if grid.s_t <= zero::<S>() {
                c == Err::<CalibrationSurface<S>, _>(CalibrationError::InvalidSpot(grid.s_t))
            } else if quotes.len() == 0 {
                c matches Err(CalibrationError::NoLiquidContracts)
            } else {
                match solution {
                    Ok(x) => c matches Ok(s) && surface_of(grid.s_t, r, x@, s),
                    Err(reason) => c matches Err(CalibrationError::SolverFailed(e)) && e == reason,
                }
            }
        }),
{
    let s_t = grid.s_t;
    if s_t.le(S::decimal(0, 0)) {
        return Err(CalibrationError::InvalidSpot(s_t));
    }
    let quotes = collect_quotes(&grid.contracts, s_t, r);
    if quotes.len() == 0 {
        return Err(CalibrationError::NoLiquidContracts);
    }
    match solution {
        Ok(x) => {
            let theta = [x[0], x[1], x[2], x[3], x[4], x[5]];
            assert(theta@ =~= x@.take(6));
            Ok(CalibrationSurface { s_t, r, theta })
        },
        Err(reason) => Err(CalibrationError::SolverFailed(reason)),
    }
}

} // verus!
