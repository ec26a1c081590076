//! Allocations under limits on greeks and capital, as linear programs.

use vstd::prelude::*;
use crate::calibration::CalibrationSurface;
use crate::ingestion::{OptionGrid, OptionTick};
use crate::lp::{
    add_constraint, at_least, at_most, constraint_models, ConstraintModel, Direction,
    LinearConstraint, LinearProgram, ProgramModel, Sense, VariableBounds,
};
use crate::number::{dec, zero, Analytic, Number, Quantity};
use crate::pricing::{calculate_greeks, greeks_of};
use crate::structures::{
    fee_premium, leg_alpha, legs_scored, structure_alpha, structure_models, ActiveStructure,
    StructureModel,
};

verus! {

/// The limits of a portfolio.
#[derive(Debug, Clone, Copy)]
pub struct PortfolioConfig<S> {
    /// The largest delta, either way.
    pub epsilon_delta: S,
    /// The largest vega, either way.
    pub epsilon_vega: S,
    /// The largest loss of value with time.
    pub epsilon_theta: S,
    /// The capital there is.
    pub c_max: S,
    /// The largest position, either way.
    pub theta_max: S,
    /// The margin on a short position, as a share of the spot price.
    pub margin_ratio: S,
}

impl<S: Number> Default for PortfolioConfig<S> {
    fn default() -> (r: Self)
        ensures
            r == (PortfolioConfig {
                epsilon_delta: dec::<S>(5, 1),
                epsilon_vega: dec::<S>(2, 0),
                epsilon_theta: dec::<S>(10, 0),
                c_max: dec::<S>(50_000, 0),
                theta_max: dec::<S>(50, 0),
                margin_ratio: dec::<S>(15, 2),
            }),
    {
        PortfolioConfig {
            epsilon_delta: S::decimal(5, 1),
            epsilon_vega: S::decimal(2, 0),
            epsilon_theta: S::decimal(10, 0),
            c_max: S::decimal(50_000, 0),
            theta_max: S::decimal(50, 0),
            margin_ratio: S::decimal(15, 2),
        }
    }
}

/// Why there is no allocation.
#[derive(Debug)]
pub enum PortfolioError {
    /// There is not one score for each contract.
    SizeMismatch,
    /// The solver gave no answer, for the reason it states.
    SolverFailed(String),
}

// ---- Risk and capital of a contract ----

/// What one unit of each contract of a grid adds to the limits.
pub ghost struct RiskModel<S> {
    pub delta: Seq<S>,
    pub vega: Seq<S>,
    pub theta: Seq<S>,
    /// The capital that a bought unit ties up: its price.
    pub long: Seq<S>,
    /// The capital that a sold unit ties up: its premium and the margin.
    pub short: Seq<S>,
}

/// The risk and the capital of the contracts of a grid at the fair prices of a
/// surface.
pub open spec fn risk_of<S: Quantity>(
    contracts: Seq<OptionTick<S>>,
    s_t: S,
    surface: CalibrationSurface<S>,
    config: PortfolioConfig<S>,
) -> RiskModel<S> {
    let greeks = |i: int|
        greeks_of(
            s_t,
            contracts[i].strike,
            contracts[i].tau,
            surface.r,
            contracts[i].option_type,
            surface.spec_evaluate_contract(contracts[i]),
        );
    RiskModel {
        delta: Seq::new(contracts.len(), |i: int| greeks(i).delta),
        vega: Seq::new(contracts.len(), |i: int| greeks(i).vega),
        theta: Seq::new(contracts.len(), |i: int| greeks(i).theta),
        long: Seq::new(contracts.len(), |i: int| contracts[i].p_a.spec_max(dec::<S>(1, 4))),
        short: Seq::new(contracts.len(), |i: int| contracts[i].p_b + config.margin_ratio * s_t),
    }
}

struct Risk<S> {
    delta: Vec<S>,
    vega: Vec<S>,
    theta: Vec<S>,
    long: Vec<S>,
    short: Vec<S>,
}

impl<S> Risk<S> {
    spec fn model(self) -> RiskModel<S> {
        RiskModel {
            delta: self.delta@,
            vega: self.vega@,
            theta: self.theta@,
            long: self.long@,
            short: self.short@,
        }
    }
}

fn contract_risk<S: Analytic>(
    grid: &OptionGrid<S>,
    surface: &CalibrationSurface<S>,
    config: &PortfolioConfig<S>,
) -> (risk: Risk<S>)
    ensures
        risk.model() == risk_of(grid.contracts@, grid.s_t, *surface, *config),
{
    let n = grid.contracts.len();
    let mut risk = Risk {
        delta: Vec::with_capacity(n),
        vega: Vec::with_capacity(n),
        theta: Vec::with_capacity(n),
        long: Vec::with_capacity(n),
        short: Vec::with_capacity(n),
    };
    let ghost model = risk_of(grid.contracts@, grid.s_t, *surface, *config);
    let mut i: usize = 0;
    while i < n
        invariant
            i <= n,
            n == grid.contracts@.len(),
            model == risk_of(grid.contracts@, grid.s_t, *surface, *config),
            risk.delta@ == model.delta.take(i as int),
            risk.vega@ == model.vega.take(i as int),
            risk.theta@ == model.theta.take(i as int),
            risk.long@ == model.long.take(i as int),
            risk.short@ == model.short.take(i as int),
        decreases n - i,
    {
        let c = &grid.contracts[i];
        let fair_price = surface.evaluate_contract(c);
        let gk = calculate_greeks(
            grid.s_t,
            c.strike,
            c.tau,
            surface.r,
            c.option_type,
            fair_price,
        );
        risk.delta.push(gk.delta);
        risk.vega.push(gk.vega);
        risk.theta.push(gk.theta);
        risk.long.push(c.p_a.max(S::decimal(1, 4)));
        risk.short.push(c.p_b.plus(config.margin_ratio.times(grid.s_t)));
        i = i + 1;
        assert(risk.delta@ =~= model.delta.take(i as int));
        assert(risk.vega@ =~= model.vega.take(i as int));
        assert(risk.theta@ =~= model.theta.take(i as int));
        assert(risk.long@ =~= model.long.take(i as int));
        assert(risk.short@ =~= model.short.take(i as int));
    }
    assert(risk.delta@ =~= model.delta);
    assert(risk.vega@ =~= model.vega);
    assert(risk.theta@ =~= model.theta);
    assert(risk.long@ =~= model.long);
    assert(risk.short@ =~= model.short);
    risk
}

// ---- The program ----

/// The coefficients of a sum over positions that are split into a bought and a sold
/// part.
pub ghost struct SidesModel<S> {
    pub plus: Seq<S>,
    pub minus: Seq<S>,
}

/// The terms of such a sum: the bought parts come first among the variables, then
/// the sold parts.
pub open spec fn side_terms<S>(s: SidesModel<S>) -> Seq<(usize, S)> {
    let n = s.plus.len();
    Seq::new(
        n + s.minus.len(),
        |v: int|
            (
                v as usize,
                if v < n {
                    s.plus[v]
                } else {
                    s.minus[v - n]
                },
            ),
    )
}

/// The coefficients of all sums of a portfolio program.
pub ghost struct ExposureModel<S> {
    pub gain: SidesModel<S>,
    pub delta: SidesModel<S>,
    pub vega: SidesModel<S>,
    pub theta: SidesModel<S>,
    pub capital: SidesModel<S>,
}

/// The program that makes the gain of `count` positions large within the limits.
pub open spec fn allocation_program<S: Quantity>(
    count: nat,
    e: ExposureModel<S>,
    config: PortfolioConfig<S>,
) -> ProgramModel<S> {
    ProgramModel {
        variables: Seq::new(
            count + count,
            |v: int|
                VariableBounds { lower: Some(zero::<S>()), upper: Some(config.theta_max) },
        ),
        direction: Direction::Maximise,
        objective: side_terms(e.gain),
        constraints: seq![
            ConstraintModel {
                terms: side_terms(e.delta),
                sense: Sense::AtLeast,
                bound: -config.epsilon_delta,
            },
            ConstraintModel {
                terms: side_terms(e.delta),
                sense: Sense::AtMost,
                bound: config.epsilon_delta,
            },
            ConstraintModel {
                terms: side_terms(e.vega),
                sense: Sense::AtLeast,
                bound: -config.epsilon_vega,
            },
            ConstraintModel {
                terms: side_terms(e.vega),
                sense: Sense::AtMost,
                bound: config.epsilon_vega,
            },
            ConstraintModel {
                terms: side_terms(e.theta),
                sense: Sense::AtLeast,
                bound: -config.epsilon_theta,
            },
            ConstraintModel {
                terms: side_terms(e.capital),
                sense: Sense::AtMost,
                bound: config.c_max,
            },
        ],
    }
}

struct Sides<S> {
    plus: Vec<S>,
    minus: Vec<S>,
}

impl<S> Sides<S> {
    spec fn model(self) -> SidesModel<S> {
        SidesModel { plus: self.plus@, minus: self.minus@ }
    }
}

struct Exposure<S> {
    gain: Sides<S>,
    delta: Sides<S>,
    vega: Sides<S>,
    theta: Sides<S>,
    capital: Sides<S>,
}

impl<S> Exposure<S> {
    spec fn model(self) -> ExposureModel<S> {
        ExposureModel {
            gain: self.gain.model(),
            delta: self.delta.model(),
            vega: self.vega.model(),
            theta: self.theta.model(),
            capital: self.capital.model(),
        }
    }
}

fn make_side_terms<S: Number>(s: &Sides<S>) -> (r: Vec<(usize, S)>)
    requires
        s.plus@.len() + s.minus@.len() <= usize::MAX,
    ensures
        r@ == side_terms(s.model()),
{
    let n = s.plus.len();
    let total = n + s.minus.len();
    let mut list: Vec<(usize, S)> = Vec::with_capacity(total);
    let mut v: usize = 0;
    while v < total
        invariant
            v <= total,
            n == s.plus@.len(),
            total == n + s.minus@.len(),
            list@ == side_terms(s.model()).take(v as int),
        decreases total - v,
    {
        list.push(
            (
                v,
                if v < n {
                    s.plus[v]
                } else {
                    s.minus[v - n]
                },
            ),
        );
        v = v + 1;
        assert(list@ =~= side_terms(s.model()).take(v as int));
    }
    assert(list@ =~= side_terms(s.model()));
    list
}

fn make_program<S: Number>(count: usize, e: &Exposure<S>, config: &PortfolioConfig<S>) -> (p:
    LinearProgram<S>)
    requires
        count + count <= usize::MAX,
        e.gain.plus@.len() == count && e.gain.minus@.len() == count,
        e.delta.plus@.len() == count && e.delta.minus@.len() == count,
        e.vega.plus@.len() == count && e.vega.minus@.len() == count,
        e.theta.plus@.len() == count && e.theta.minus@.len() == count,
        e.capital.plus@.len() == count && e.capital.minus@.len() == count,
    ensures
        p@ == allocation_program(count as nat, e.model(), *config),
{
    let ghost model = allocation_program(count as nat, e.model(), *config);
    let mut variables: Vec<VariableBounds<S>> = Vec::with_capacity(count + count);
    let mut v: usize = 0;
    while v < count + count
        invariant
            v <= count + count <= usize::MAX,
            model == allocation_program(count as nat, e.model(), *config),
            variables@ == model.variables.take(v as int),
        decreases count + count - v,
    {
        variables.push(
            VariableBounds { lower: Some(S::decimal(0, 0)), upper: Some(config.theta_max) },
        );
        v = v + 1;
        assert(variables@ =~= model.variables.take(v as int));
    }
    assert(variables@ =~= model.variables);
    let mut constraints: Vec<LinearConstraint<S>> = Vec::new();
    add_constraint(
        &mut constraints,
        at_least(make_side_terms(&e.delta), config.epsilon_delta.negated()),
    );
    add_constraint(&mut constraints, at_most(make_side_terms(&e.delta), config.epsilon_delta));
    add_constraint(
        &mut constraints,
        at_least(make_side_terms(&e.vega), config.epsilon_vega.negated()),
    );
    add_constraint(&mut constraints, at_most(make_side_terms(&e.vega), config.epsilon_vega));
    add_constraint(
        &mut constraints,
        at_least(make_side_terms(&e.theta), config.epsilon_theta.negated()),
    );
    add_constraint(&mut constraints, at_most(make_side_terms(&e.capital), config.c_max));
    assert(constraint_models(constraints@) =~= model.constraints);
    LinearProgram {
        variables,
        direction: Direction::Maximise,
        objective: make_side_terms(&e.gain),
        constraints,
    }
}

/// The positions of an answer: of each, the bought part less the sold part.
pub open spec fn net_positions<S: Quantity>(x: Seq<S>, count: nat) -> Seq<S> {
    Seq::new(count, |p: int| x[p] - x[count + p])
}

fn take_net_positions<S: Number>(x: &Vec<S>, count: usize) -> (r: Vec<S>)
    requires
        x@.len() == count + count,
    ensures
        r@ == net_positions(x@, count as nat),
{
    let mut list: Vec<S> = Vec::with_capacity(count);
    let mut p: usize = 0;
    while p < count
        invariant
            p <= count,
            x@.len() == count + count,
            list@ == net_positions(x@, count as nat).take(p as int),
        decreases count - p,
    {
        assert(x.len() == x@.len());
        list.push(x[p].minus(x[count + p]));
        p = p + 1;
        assert(list@ =~= net_positions(x@, count as nat).take(p as int));
    }
    assert(list@ =~= net_positions(x@, count as nat));
    list
}

// ---- Single contracts ----

/// The values with their signs turned.
pub open spec fn negated_all<S: Quantity>(list: Seq<S>) -> Seq<S> {
    Seq::new(list.len(), |i: int| -list[i])
}

/// The same value bought as sold, with the sign turned.
pub open spec fn symmetric<S: Quantity>(list: Seq<S>) -> SidesModel<S> {
    SidesModel { plus: list, minus: negated_all(list) }
}

/// The coefficients of a portfolio of single contracts.
pub open spec fn contract_exposure<S: Quantity>(risk: RiskModel<S>, scores: Seq<S>) -> ExposureModel<
    S,
> {
    ExposureModel {
        gain: symmetric(scores),
        delta: symmetric(risk.delta),
        vega: symmetric(risk.vega),
        theta: symmetric(risk.theta),
        capital: SidesModel { plus: risk.long, minus: risk.short },
    }
}

/// The program of a portfolio of single contracts.
pub open spec fn portfolio_program<S: Quantity>(
    contracts: Seq<OptionTick<S>>,
    s_t: S,
    surface: CalibrationSurface<S>,
    scores: Seq<S>,
    config: PortfolioConfig<S>,
) -> ProgramModel<S> {
    allocation_program(
        contracts.len(),
        contract_exposure(risk_of(contracts, s_t, surface, config), scores),
        config,
    )
}

fn mirrored<S: Number>(list: Vec<S>) -> (r: Sides<S>)
    ensures
        r.model() == symmetric(list@),
{
    let n = list.len();
    let mut minus: Vec<S> = Vec::with_capacity(n);
    let mut i: usize = 0;
    while i < n
        invariant
            i <= n,
            n == list@.len(),
            minus@ == negated_all(list@).take(i as int),
        decreases n - i,
    {
        minus.push(list[i].negated());
        i = i + 1;
        assert(minus@ =~= negated_all(list@).take(i as int));
    }
    assert(minus@ =~= negated_all(list@));
    Sides { plus: list, minus }
}

fn copied<S: Number>(list: &[S]) -> (r: Vec<S>)
    ensures
        r@ == list@,
{
    let n = list.len();
    let mut copy: Vec<S> = Vec::with_capacity(n);
    let mut i: usize = 0;
    while i < n
        invariant
            i <= n,
            n == list@.len(),
            copy@ == list@.take(i as int),
        decreases n - i,
    {
        copy.push(list[i]);
        i = i + 1;
        assert(copy@ =~= list@.take(i as int));
    }
    assert(copy@ =~= list@);
    copy
}

/// The program that allocates capital to the contracts of a grid by their scores, if
/// there is anything to allocate to.
pub fn portfolio_problem<S: Analytic>(
    grid: &OptionGrid<S>,
    surface: &CalibrationSurface<S>,
    alpha_scores: &[S],
    config: &PortfolioConfig<S>,
) -> (r: Result<Option<LinearProgram<S>>, PortfolioError>)
    requires
        grid.contracts@.len() + grid.contracts@.len() <= usize::MAX,
    ensures
        if grid.contracts@.len() == 0 {
            r matches Ok(None)
        } else if grid.contracts@.len() != alpha_scores@.len() {
            r matches Err(PortfolioError::SizeMismatch)
        } else {
            r matches Ok(Some(program)) && program@ == portfolio_program(
                grid.contracts@,
                grid.s_t,
                *surface,
                alpha_scores@,
                *config,
            )
        },
{
    let n = grid.contracts.len();
    if n == 0 {
        return Ok(None);
    }
    if n != alpha_scores.len() {
        return Err(PortfolioError::SizeMismatch);
    }
    let risk = contract_risk(grid, surface, config);
    let ghost model = risk.model();
    let e = Exposure {
        gain: mirrored(copied(alpha_scores)),
        delta: mirrored(risk.delta),
        vega: mirrored(risk.vega),
        theta: mirrored(risk.theta),
        capital: Sides { plus: risk.long, minus: risk.short },
    };
    assert(e.model() == contract_exposure(model, alpha_scores@));
    assert(e.gain.model().plus.len() == n && e.gain.model().minus.len() == n);
    assert(e.delta.model().plus.len() == n && e.delta.model().minus.len() == n);
    assert(e.vega.model().plus.len() == n && e.vega.model().minus.len() == n);
    assert(e.theta.model().plus.len() == n && e.theta.model().minus.len() == n);
    Ok(Some(make_program(n, &e, config)))
}

/// The position in each contract of a grid, from what a solver answers to
/// [`portfolio_problem`].
pub fn optimize_portfolio<S: Number>(
    grid: &OptionGrid<S>,
    alpha_scores: &[S],
    solution: Result<Vec<S>, String>,
) -> (r: Result<Vec<S>, PortfolioError>)
    requires
        solution matches Ok(x) ==> x@.len() == grid.contracts@.len() + grid.contracts@.len(),
    ensures
        if grid.contracts@.len() == 0 {
            r matches Ok(positions) && positions@.len() == 0
        } else if grid.contracts@.len() != alpha_scores@.len() {
            r matches Err(PortfolioError::SizeMismatch)
        } else {
            match solution {
                Ok(x) => r matches Ok(positions) && positions@ == net_positions(
                    x@,
                    grid.contracts@.len(),
                ),
                Err(reason) => r matches Err(PortfolioError::SolverFailed(e)) && e == reason,
            }
        },
{
    let n = grid.contracts.len();
    if n == 0 {
        return Ok(Vec::new());
    }
    if n != alpha_scores.len() {
        return Err(PortfolioError::SizeMismatch);
    }
    match solution {
        Ok(x) => Ok(take_net_positions(&x, n)),
        Err(reason) => Err(PortfolioError::SolverFailed(reason)),
    }
}

// ---- Structures ----

/// Whether one of the first `n` legs buys contract `i`.
pub open spec fn buys<S: Quantity>(legs: Seq<(usize, S)>, i: int, n: nat) -> bool
    decreases n,
{
    n > 0 && ((legs[n - 1].0 == i && zero::<S>() < legs[n - 1].1) || buys(
        legs,
        i,
        (n - 1) as nat,
    ))
}

/// Whether one of the first `n` legs sells contract `i`.
pub open spec fn sells<S: Quantity>(legs: Seq<(usize, S)>, i: int, n: nat) -> bool
    decreases n,
{
    n > 0 && ((legs[n - 1].0 == i && legs[n - 1].1 < zero::<S>()) || sells(
        legs,
        i,
        (n - 1) as nat,
    ))
}

/// How many of contract `i` the first `n` legs buy.
pub open spec fn bought<S: Quantity>(legs: Seq<(usize, S)>, i: int, n: nat) -> S
    decreases n,
{
    if n == 0 {
        zero::<S>()
    } else {
        let rest = bought(legs, i, (n - 1) as nat);
        if legs[n - 1].0 == i && zero::<S>() < legs[n - 1].1 {
            rest + legs[n - 1].1
        } else {
            rest
        }
    }
}

/// How many of contract `i` the first `n` legs sell.
pub open spec fn sold<S: Quantity>(legs: Seq<(usize, S)>, i: int, n: nat) -> S
    decreases n,
{
    if n == 0 {
        zero::<S>()
    } else {
        let rest = sold(legs, i, (n - 1) as nat);
        if legs[n - 1].0 == i && legs[n - 1].1 < zero::<S>() {
            rest + -legs[n - 1].1
        } else {
            rest
        }
    }
}

/// What the first `n` contracts add to an exposure through a structure that is
/// bought, or sold.
pub open spec fn structure_exposure<S: Quantity>(
    legs: Seq<(usize, S)>,
    unit: Seq<S>,
    long: bool,
    n: nat,
) -> S
    decreases n,
{
    if n == 0 {
        zero::<S>()
    } else {
        let rest = structure_exposure(legs, unit, long, (n - 1) as nat);
        let all = legs.len();
        let (b, s) = (bought(legs, n - 1, all), sold(legs, n - 1, all));
        if buys(legs, n - 1, all) || sells(legs, n - 1, all) {
            rest + (if long {
                b - s
            } else {
                s - b
            }) * unit[n - 1]
        } else {
            rest
        }
    }
}

/// What holding `b` bought and `s` sold units ties up.
pub open spec fn tied_up<S: Quantity>(has_b: bool, b: S, has_s: bool, s: S, long: S, short: S) -> S {
    if has_b && has_s {
        b * long + s * short
    } else if has_b {
        b * long
    } else {
        s * short
    }
}

/// What the first `n` contracts tie up through a structure that is bought, or sold.
pub open spec fn structure_capital<S: Quantity>(
    legs: Seq<(usize, S)>,
    risk: RiskModel<S>,
    long: bool,
    n: nat,
) -> S
    decreases n,
{
    if n == 0 {
        zero::<S>()
    } else {
        let rest = structure_capital(legs, risk, long, (n - 1) as nat);
        let all = legs.len();
        let (has_b, has_s) = (buys(legs, n - 1, all), sells(legs, n - 1, all));
        let (b, s) = (bought(legs, n - 1, all), sold(legs, n - 1, all));
        let (l, h) = (risk.long[n - 1], risk.short[n - 1]);
        if has_b || has_s {
            rest + (if long {
                tied_up(has_b, b, has_s, s, l, h)
            } else {
                tied_up(has_s, s, has_b, b, l, h)
            })
        } else {
            rest
        }
    }
}

/// An exposure of each structure, bought and sold.
pub open spec fn exposure_sides<S: Quantity>(
    list: Seq<StructureModel<S>>,
    unit: Seq<S>,
) -> SidesModel<S> {
    SidesModel {
        plus: Seq::new(
            list.len(),
            |p: int| structure_exposure(list[p].legs, unit, true, unit.len()),
        ),
        minus: Seq::new(
            list.len(),
            |p: int| structure_exposure(list[p].legs, unit, false, unit.len()),
        ),
    }
}

/// The coefficients of a portfolio of structures. A bought structure gains its score
/// less its fee; a sold one costs its score and its fee.
pub open spec fn structured_exposure<S: Quantity>(
    list: Seq<StructureModel<S>>,
    risk: RiskModel<S>,
    scores: Seq<S>,
) -> ExposureModel<S> {
    ExposureModel {
        gain: SidesModel {
            plus: Seq::new(
                list.len(),
                |p: int|
                    leg_alpha(list[p].legs, scores, list[p].legs.len()) - fee_premium(
                        list[p].expected_fee,
                    ),
            ),
            minus: Seq::new(
                list.len(),
                |p: int|
                    -(leg_alpha(list[p].legs, scores, list[p].legs.len()) + fee_premium(
                        list[p].expected_fee,
                    )),
            ),
        },
        delta: exposure_sides(list, risk.delta),
        vega: exposure_sides(list, risk.vega),
        theta: exposure_sides(list, risk.theta),
        capital: SidesModel {
            plus: Seq::new(
                list.len(),
                |p: int| structure_capital(list[p].legs, risk, true, risk.long.len()),
            ),
            minus: Seq::new(
                list.len(),
                |p: int| structure_capital(list[p].legs, risk, false, risk.long.len()),
            ),
        },
    }
}

/// The program of a portfolio of structures.
pub open spec fn structured_program<S: Quantity>(
    contracts: Seq<OptionTick<S>>,
    s_t: S,
    surface: CalibrationSurface<S>,
    scores: Seq<S>,
    list: Seq<StructureModel<S>>,
    config: PortfolioConfig<S>,
) -> ProgramModel<S> {
    allocation_program(
        list.len(),
        structured_exposure(list, risk_of(contracts, s_t, surface, config), scores),
        config,
    )
}

/// What the legs of a structure buy and sell of one contract.
fn held_of<S: Number>(legs: &Vec<(usize, S)>, i: usize) -> (r: (bool, S, bool, S))
    ensures
        r == (
            buys(legs@, i as int, legs@.len()),
            bought(legs@, i as int, legs@.len()),
            sells(legs@, i as int, legs@.len()),
            sold(legs@, i as int, legs@.len()),
        ),
{
    let n = legs.len();
    let nothing = S::decimal(0, 0);
    let mut has_b = false;
    let mut b = nothing;
    let mut has_s = false;
    let mut s = nothing;
    let mut q: usize = 0;
    while q < n
        invariant
            q <= n,
            n == legs@.len(),
            nothing == zero::<S>(),
            has_b == buys(legs@, i as int, q as nat),
            b == bought(legs@, i as int, q as nat),
            has_s == sells(legs@, i as int, q as nat),
            s == sold(legs@, i as int, q as nat),
        decreases n - q,
    {
        let (idx, w) = legs[q];
        if idx == i {
            if nothing.lt(w) {
                has_b = true;
                b = b.plus(w);
            }
            if w.lt(nothing) {
                has_s = true;
                s = s.plus(w.negated());
            }
        }
        q = q + 1;
    }
    (has_b, b, has_s, s)
}

fn tie_up<S: Number>(has_b: bool, b: S, has_s: bool, s: S, long: S, short: S) -> (r: S)
    ensures
        r == tied_up(has_b, b, has_s, s, long, short),
{
    if has_b && has_s {
        b.times(long).plus(s.times(short))
    } else if has_b {
        b.times(long)
    } else {
        s.times(short)
    }
}

/// The exposures and the capital of a structure, bought and sold.
fn measure<S: Number>(legs: &Vec<(usize, S)>, risk: &Risk<S>, long: bool) -> (r: (S, S, S, S))
    requires
        risk.vega@.len() == risk.delta@.len(),
        risk.theta@.len() == risk.delta@.len(),
        risk.long@.len() == risk.delta@.len(),
        risk.short@.len() == risk.delta@.len(),
    ensures
        r == (
            structure_exposure(legs@, risk.delta@, long, risk.delta@.len()),
            structure_exposure(legs@, risk.vega@, long, risk.delta@.len()),
            structure_exposure(legs@, risk.theta@, long, risk.delta@.len()),
            structure_capital(legs@, risk.model(), long, risk.delta@.len()),
        ),
{
    let n = risk.delta.len();
    let nothing = S::decimal(0, 0);
    let (mut delta, mut vega, mut theta, mut capital) = (nothing, nothing, nothing, nothing);
    let mut i: usize = 0;
    while i < n
        invariant
            i <= n,
            n == risk.delta@.len(),
            risk.vega@.len() == n,
            risk.theta@.len() == n,
            risk.long@.len() == n,
            risk.short@.len() == n,
            delta == structure_exposure(legs@, risk.delta@, long, i as nat),
            vega == structure_exposure(legs@, risk.vega@, long, i as nat),
            theta == structure_exposure(legs@, risk.theta@, long, i as nat),
            capital == structure_capital(legs@, risk.model(), long, i as nat),
        decreases n - i,
    {
        let (has_b, b, has_s, s) = held_of(legs, i);
        if has_b || has_s {
            let net = if long {
                b.minus(s)
            } else {
                s.minus(b)
            };
            delta = delta.plus(net.times(risk.delta[i]));
            vega = vega.plus(net.times(risk.vega[i]));
            theta = theta.plus(net.times(risk.theta[i]));
            capital = capital.plus(
                if long {
                    tie_up(has_b, b, has_s, s, risk.long[i], risk.short[i])
                } else {
                    tie_up(has_s, s, has_b, b, risk.long[i], risk.short[i])
                },
            );
        }
        i = i + 1;
    }
    (delta, vega, theta, capital)
}

fn structure_sides<S: Number>(
    list: &[ActiveStructure<S>],
    risk: &Risk<S>,
    alpha_scores: &[S],
) -> (e: Exposure<S>)
    requires
        legs_scored(list@, alpha_scores@.len()),
        risk.vega@.len() == risk.delta@.len(),
        risk.theta@.len() == risk.delta@.len(),
        risk.long@.len() == risk.delta@.len(),
        risk.short@.len() == risk.delta@.len(),
    ensures
        e.model() == structured_exposure(structure_models(list@), risk.model(), alpha_scores@),
{
    let m = list.len();
    let ghost models = structure_models(list@);
    let ghost whole = structured_exposure(models, risk.model(), alpha_scores@);
    let mut gain = Sides { plus: Vec::with_capacity(m), minus: Vec::with_capacity(m) };
    let mut delta = Sides { plus: Vec::with_capacity(m), minus: Vec::with_capacity(m) };
    let mut vega = Sides { plus: Vec::with_capacity(m), minus: Vec::with_capacity(m) };
    let mut theta = Sides { plus: Vec::with_capacity(m), minus: Vec::with_capacity(m) };
    let mut capital = Sides { plus: Vec::with_capacity(m), minus: Vec::with_capacity(m) };
    let mut p: usize = 0;
    while p < m
        invariant
            p <= m,
            m == list@.len(),
            models == structure_models(list@),
            whole == structured_exposure(models, risk.model(), alpha_scores@),
            legs_scored(list@, alpha_scores@.len()),
            risk.vega@.len() == risk.delta@.len(),
            risk.theta@.len() == risk.delta@.len(),
            risk.long@.len() == risk.delta@.len(),
            risk.short@.len() == risk.delta@.len(),
            gain.plus@ == whole.gain.plus.take(p as int),
            gain.minus@ == whole.gain.minus.take(p as int),
            delta.plus@ == whole.delta.plus.take(p as int),
            delta.minus@ == whole.delta.minus.take(p as int),
            vega.plus@ == whole.vega.plus.take(p as int),
            vega.minus@ == whole.vega.minus.take(p as int),
            theta.plus@ == whole.theta.plus.take(p as int),
            theta.minus@ == whole.theta.minus.take(p as int),
            capital.plus@ == whole.capital.plus.take(p as int),
            capital.minus@ == whole.capital.minus.take(p as int),
        decreases m - p,
    {
        let a = &list[p];
        assert(models[p as int] == a@);
        assert forall|q: int| 0 <= q < a.legs@.len() implies (#[trigger] a.legs@[q]).0
            < alpha_scores@.len() by {
            assert(list@[p as int].legs@[q].0 < alpha_scores@.len());
        }
        let alpha = structure_alpha(a, alpha_scores);
        let fee = a.expected_fee.over(S::decimal(100, 0));
        gain.plus.push(alpha.minus(fee));
        gain.minus.push(alpha.plus(fee).negated());
        let (d_plus, v_plus, t_plus, c_plus) = measure(&a.legs, risk, true);
        let (d_minus, v_minus, t_minus, c_minus) = measure(&a.legs, risk, false);
        delta.plus.push(d_plus);
        delta.minus.push(d_minus);
        vega.plus.push(v_plus);
        vega.minus.push(v_minus);
        theta.plus.push(t_plus);
        theta.minus.push(t_minus);
        capital.plus.push(c_plus);
        capital.minus.push(c_minus);
        p = p + 1;
        assert(gain.plus@ =~= whole.gain.plus.take(p as int));
        assert(gain.minus@ =~= whole.gain.minus.take(p as int));
        assert(delta.plus@ =~= whole.delta.plus.take(p as int));
        assert(delta.minus@ =~= whole.delta.minus.take(p as int));
        assert(vega.plus@ =~= whole.vega.plus.take(p as int));
        assert(vega.minus@ =~= whole.vega.minus.take(p as int));
        assert(theta.plus@ =~= whole.theta.plus.take(p as int));
        assert(theta.minus@ =~= whole.theta.minus.take(p as int));
        assert(capital.plus@ =~= whole.capital.plus.take(p as int));
        assert(capital.minus@ =~= whole.capital.minus.take(p as int));
    }
    assert(gain.plus@ =~= whole.gain.plus);
    assert(gain.minus@ =~= whole.gain.minus);
    assert(delta.plus@ =~= whole.delta.plus);
    assert(delta.minus@ =~= whole.delta.minus);
    assert(vega.plus@ =~= whole.vega.plus);
    assert(vega.minus@ =~= whole.vega.minus);
    assert(theta.plus@ =~= whole.theta.plus);
    assert(theta.minus@ =~= whole.theta.minus);
    assert(capital.plus@ =~= whole.capital.plus);
    assert(capital.minus@ =~= whole.capital.minus);
    Exposure { gain, delta, vega, theta, capital }
}

/// The program that allocates capital to structures by the scores of their legs, if
/// there is anything to allocate to.
pub fn structured_portfolio_problem<S: Analytic>(
    grid: &OptionGrid<S>,
    surface: &CalibrationSurface<S>,
    alpha_scores: &[S],
    active_structs: &[ActiveStructure<S>],
    config: &PortfolioConfig<S>,
) -> (r: Result<Option<LinearProgram<S>>, PortfolioError>)
    requires
        legs_scored(active_structs@, grid.contracts@.len()),
        active_structs@.len() + active_structs@.len() <= usize::MAX,
    ensures
        if active_structs@.len() == 0 || grid.contracts@.len() == 0 {
            r matches Ok(None)
        } else if grid.contracts@.len() != alpha_scores@.len() {
            r matches Err(PortfolioError::SizeMismatch)
        } else {
            r matches Ok(Some(program)) && program@ == structured_program(
                grid.contracts@,
                grid.s_t,
                *surface,
                alpha_scores@,
                structure_models(active_structs@),
                *config,
            )
        },
{
    let m = active_structs.len();
    let n = grid.contracts.len();
    if m == 0 || n == 0 {
        return Ok(None);
    }
    if n != alpha_scores.len() {
        return Err(PortfolioError::SizeMismatch);
    }
    let risk = contract_risk(grid, surface, config);
    assert(risk.model().delta.len() == n && risk.model().vega.len() == n
        && risk.model().theta.len() == n && risk.model().long.len() == n
        && risk.model().short.len() == n);
    let e = structure_sides(active_structs, &risk, alpha_scores);
    assert(e.model().gain.plus.len() == m && e.model().gain.minus.len() == m);
    assert(e.model().delta.plus.len() == m && e.model().delta.minus.len() == m);
    assert(e.model().vega.plus.len() == m && e.model().vega.minus.len() == m);
    assert(e.model().theta.plus.len() == m && e.model().theta.minus.len() == m);
    assert(e.model().capital.plus.len() == m && e.model().capital.minus.len() == m);
    Ok(Some(make_program(m, &e, config)))
}

/// The position in each structure, from what a solver answers to
/// [`structured_portfolio_problem`]. Without contracts all positions are nothing.
pub fn optimize_portfolio_structured<S: Number>(
    grid: &OptionGrid<S>,
    alpha_scores: &[S],
    active_structs: &[ActiveStructure<S>],
    solution: Result<Vec<S>, String>,
) -> (r: Result<Vec<S>, PortfolioError>)
    requires
        solution matches Ok(x) ==> x@.len() == active_structs@.len() + active_structs@.len(),
    ensures
        if active_structs@.len() == 0 || grid.contracts@.len() == 0 {
            r matches Ok(positions) && positions@ == Seq::new(
                active_structs@.len(),
                |p: int| zero::<S>(),
            )
        } else if grid.contracts@.len() != alpha_scores@.len() {
            r matches Err(PortfolioError::SizeMismatch)
        } else {
            match solution {
                Ok(x) => r matches Ok(positions) && positions@ == net_positions(
                    x@,
                    active_structs@.len(),
                ),
                Err(reason) => r matches Err(PortfolioError::SolverFailed(e)) && e == reason,
            }
        },
{
    let m = active_structs.len();
    let n = grid.contracts.len();
    if m == 0 || n == 0 {
        let mut zeros: Vec<S> = Vec::with_capacity(m);
        let ghost all = Seq::new(m as nat, |p: int| zero::<S>());
        let mut p: usize = 0;
        while p < m
            invariant
                p <= m,
                all == Seq::new(m as nat, |p: int| zero::<S>()),
                zeros@ == all.take(p as int),
            decreases m - p,
        {
            zeros.push(S::decimal(0, 0));
            p = p + 1;
            assert(zeros@ =~= all.take(p as int));
        }
        assert(zeros@ =~= all);
        return Ok(zeros);
    }
    if n != alpha_scores.len() {
        return Err(PortfolioError::SizeMismatch);
    }
    match solution {
        Ok(x) => Ok(take_net_positions(&x, m)),
        Err(reason) => Err(PortfolioError::SolverFailed(reason)),
    }
}

} // verus!
