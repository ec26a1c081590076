//! A backtest of structures, grid by grid: when the surface is fitted anew, what is unwound, what
//! is allocated, and what the account is then worth. The linear programs that a step asks for are
//! handed out, and their answers are taken in by the next step.

use vstd::prelude::*;
use crate::activation::{activation_score, should_calibrate, ActivationConfig};
use crate::calendar::Moment;
use crate::calibration::{
    calibrate_surface, calibration_problem, fit_program, quotes_of, surface_of, CalibrationSurface,
};
use crate::execution::{
    calibration_due, contract_score, contract_scores, held_contracts, holding_models, is_due,
    not_empty, rebalanced_all, score_contracts, unwound_all, value_of, Account, Book, HoldingModel,
    Scene,
};
use crate::features::{at_spot, distinct_contracts, with_grid, RunningCache};
use crate::ingestion::{OptionGrid, OptionTick};
use crate::lp::{LinearProgram, ProgramModel};
use crate::number::{zero, Analytic, Quantity};
use crate::performance::{with_point, EquityTrack, TrackModel};
use crate::portfolio::{
    net_positions, optimize_portfolio_structured, structured_portfolio_problem, structured_program,
    PortfolioConfig,
};
use crate::structures::{
    active_structures, generate_active_structures, legs_scored, structure_models, ActiveStructure,
    StructureModel,
};

verus! {

/// The settings of a backtest.
#[derive(Debug, Clone, Copy)]
pub struct BacktestConfig<S> {
    pub activation: ActivationConfig<S>,
    pub portfolio: PortfolioConfig<S>,
    /// The interest rate.
    pub rate: S,
    /// The weight of the coefficients in the fit.
    pub regularisation: S,
    /// The edge that a contract must have to be a candidate.
    pub gate: S,
    /// The fee of one contract.
    pub fee: S,
}

/// A running backtest.
pub struct Backtest<S> {
    pub book: Book<S>,
    pub cache: RunningCache<S>,
    pub track: EquityTrack<S>,
    pub surface: Option<CalibrationSurface<S>>,
    pub last_fit: Option<Moment>,
}

/// What a [`Backtest`] holds.
pub ghost struct BacktestModel<S> {
    pub account: Account<S>,
    pub positions: Seq<HoldingModel<S>>,
    pub quotes: Seq<OptionTick<S>>,
    pub track: TrackModel<S>,
    pub surface: Option<CalibrationSurface<S>>,
    pub last_fit: Option<Moment>,
}

impl<S> View for Backtest<S> {
    type V = BacktestModel<S>;

    open spec fn view(&self) -> BacktestModel<S> {
        BacktestModel {
            account: self.book.account,
            positions: holding_models(self.book.positions@),
            quotes: self.cache.ticks@,
            track: self.track@,
            surface: self.surface,
            last_fit: self.last_fit,
        }
    }
}

impl<S: Quantity> Backtest<S> {
    /// The times are times of their days, and no contract is quoted twice.
    pub open spec fn wf(self) -> bool {
        &&& self.book.wf()
        &&& distinct_contracts(self.cache.ticks@)
        &&& self.last_fit matches Some(time) ==> time.wf()
    }
}

/// The quotes that a surface would be fitted to.
pub open spec fn dense_quotes<S>(m: BacktestModel<S>, s_t: S) -> Seq<OptionTick<S>> {
    at_spot(m.quotes, s_t)
}

/// The program of the fit that is asked for: where the surface is due to be looked at and the
/// activation score says so, and there is something to fit to.
pub open spec fn fit_asked<S: Quantity>(
    m: BacktestModel<S>,
    s_t: S,
    now: Moment,
    config: BacktestConfig<S>,
) -> Option<ProgramModel<S>> {
    let dense = dense_quotes(m, s_t);
    let quotes = quotes_of(dense, s_t, config.rate, dense.len());
    let wanted = is_due(m.surface is Some, m.last_fit, now) && (m.surface is None
        || config.activation.tau_enter < activation_score(dense, m.surface, config.activation));
    if wanted && !(s_t <= zero::<S>()) && quotes.len() > 0 {
        Some(fit_program(quotes, s_t, config.regularisation))
    } else {
        None
    }
}

/// What is allocated at a grid.
#[derive(Debug)]
pub struct Order<S> {
    pub structs: Vec<ActiveStructure<S>>,
    pub scores: Vec<S>,
    /// The program of the allocation, if one is asked for.
    pub program: Option<LinearProgram<S>>,
}

impl<S> Order<S> {
    /// The structures lie on the contracts, and an allocation is over some of them.
    pub open spec fn wf(self, contracts: nat) -> bool {
        &&& legs_scored(self.structs@, contracts)
        &&& self.program is Some ==> {
            &&& self.structs@.len() > 0
            &&& contracts > 0
            &&& self.scores@.len() == contracts
        }
    }
}

/// Whether any contract has a score.
pub open spec fn has_signals<S: Quantity>(
    contracts: Seq<OptionTick<S>>,
    s_t: S,
    surface: CalibrationSurface<S>,
    gate: S,
) -> bool {
    exists|i: int|
        0 <= i < contracts.len() && contract_score(
            #[trigger] contracts[i],
            s_t,
            surface,
            gate,
        ) is Some
}

/// The program of the allocation that is asked for: where there is a surface, a contract with a
/// score and a structure.
pub open spec fn allocation_asked<S: Quantity>(
    m: BacktestModel<S>,
    contracts: Seq<OptionTick<S>>,
    s_t: S,
    config: BacktestConfig<S>,
) -> Option<ProgramModel<S>> {
    let structs = active_structures(contracts, config.fee);
    match m.surface {
        Some(surface) => if has_signals(contracts, s_t, surface, config.gate) && structs.len() > 0 {
            Some(
                structured_program(
                    contracts,
                    s_t,
                    surface,
                    contract_scores(contracts, s_t, surface, config.gate),
                    structs,
                    config.portfolio,
                ),
            )
        } else {
            None
        },
        None => None,
    }
}

/// The backtest after the positions that are due were unwound.
pub open spec fn after_unwinding<S: Quantity>(
    m: BacktestModel<S>,
    contracts: Seq<OptionTick<S>>,
    now: Moment,
    fee: S,
) -> BacktestModel<S> {
    let structs = active_structures(contracts, fee);
    let scene = Scene { contracts, structs, surface: m.surface, now, fee };
    let (account, positions) = unwound_all(m.account, m.positions, scene, m.positions.len());
    BacktestModel { account, positions, ..m }
}

/// The backtest after grid number `k`: the positions are moved to the targets, if there are any,
/// the empty ones dropped, and the value of the account is recorded.
pub open spec fn after_grid<S: Quantity>(
    m: BacktestModel<S>,
    k: int,
    contracts: Seq<OptionTick<S>>,
    structs: Seq<StructureModel<S>>,
    targets: Option<Seq<S>>,
    now: Moment,
    fee: S,
) -> BacktestModel<S> {
    let scene = Scene { contracts, structs, surface: None, now, fee };
    let (account, moved) = match targets {
        Some(t) => rebalanced_all(m.account, m.positions, t, scene, t.len()),
        None => (m.account, m.positions),
    };
    let positions = not_empty(moved, moved.len());
    let held = held_contracts(positions, structs, contracts, positions.len());
    let value = value_of(account.cash, held, m.quotes, held.len());
    BacktestModel {
        account,
        positions,
        track: if k % 1000 == 0 {
            with_point(m.track, now, value)
        } else {
            m.track
        },
        ..m
    }
}

/// The targets that an answer to the program of an allocation gives.
pub open spec fn targets_of<S: Quantity>(
    answer: Option<Result<Vec<S>, String>>,
    count: nat,
) -> Option<Seq<S>> {
    match answer {
        Some(Ok(x)) => Some(net_positions(x@, count)),
        _ => None,
    }
}

impl<S: Analytic> Backtest<S> {
    /// A backtest with nothing but cash.
    pub fn new(cash: S) -> (r: Self)
        ensures
            r.wf(),
            r@ == (BacktestModel {
                account: Account { cash, fees_paid: zero::<S>(), traded: 0 },
                positions: Seq::empty(),
                quotes: Seq::empty(),
                track: TrackModel {
                    curve: Seq::empty(),
                    max_equity: cash,
                    max_drawdown: zero::<S>(),
                },
                surface: None,
                last_fit: None,
            }),
    {
        let r = Backtest {
            book: Book::new(cash),
            cache: RunningCache::new(),
            track: EquityTrack::new(cash),
            surface: None,
            last_fit: None,
        };
        assert(r@.positions =~= Seq::empty());
        assert(r@.quotes =~= Seq::empty());
        r
    }

    /// Takes in the quotes of a grid, and gives the program of the fit that is asked for, if
    /// one is.
    pub fn begin(&mut self, grid: &OptionGrid<S>, now: Moment, config: &BacktestConfig<S>) -> (r:
        Option<LinearProgram<S>>)
        requires
            old(self).wf(),
            now.wf(),
            with_grid(old(self)@.quotes, grid.contracts@, grid.contracts@.len()).len()
                <= usize::MAX - 12,
        ensures
            final(self).wf(),
            final(self)@ == (BacktestModel {
                quotes: with_grid(old(self)@.quotes, grid.contracts@, grid.contracts@.len()),
                ..old(self)@
            }),
            fit_asked(final(self)@, grid.s_t, now, *config) == match r {
                Some(program) => Some(program@),
                None => None,
            },
    {
        self.cache.update(grid);
        if !calibration_due(self.surface.is_some(), self.last_fit, now) {
            return None;
        }
        let dense = self.cache.dense_grid(grid);
        assert(dense.contracts@.len() == self.cache.ticks@.len());
        if !should_calibrate(&dense, &self.surface, &config.activation) {
            return None;
        }
        match calibration_problem(&dense, config.rate, config.regularisation) {
            Ok(program) => Some(program),
            Err(_) => None,
        }
    }

    /// Takes in the answer to the program of a fit. Where there is one, the surface is fitted
    /// anew; otherwise it stays.
    pub fn take_fit(
        &mut self,
        grid: &OptionGrid<S>,
        now: Moment,
        config: &BacktestConfig<S>,
        answer: Result<Vec<S>, String>,
    )
        requires
            old(self).wf(),
            now.wf(),
            answer matches Ok(x) ==> x@.len() >= 6,
        ensures
            final(self).wf(),
            ({
                let dense = dense_quotes(old(self)@, grid.s_t);
                let quotes = quotes_of(dense, grid.s_t, config.rate, dense.len());
                if grid.s_t <= zero::<S>() || quotes.len() == 0 {
                    final(self)@ == old(self)@
                } else {
                    match answer {
                        Ok(x) => {
                            &&& final(self)@.surface matches Some(s)
                            &&& surface_of(grid.s_t, config.rate, x@, s)
                            &&& final(self)@ == (BacktestModel {
                                surface: final(self)@.surface,
                                last_fit: Some(now),
                                ..old(self)@
                            })
                        },
                        Err(_) => final(self)@ == old(self)@,
                    }
                }
            }),
    {
        let dense = self.cache.dense_grid(grid);
        match calibrate_surface(&dense, config.rate, answer) {
            Ok(surface) => {
                self.surface = Some(surface);
                self.last_fit = Some(now);
            },
            Err(_) => {},
        }
    }

    /// Unwinds the positions that are due, and gives the structures of the grid with the program
    /// of the allocation that is asked for, if one is.
    pub fn allocate(&mut self, grid: &OptionGrid<S>, now: Moment, config: &BacktestConfig<S>) -> (r:
        Order<S>)
        requires
            old(self).wf(),
            now.wf(),
            2 * active_structures(grid.contracts@, config.fee).len() <= usize::MAX,
        ensures
            final(self).wf(),
            final(self)@ == after_unwinding(old(self)@, grid.contracts@, now, config.fee),
            r.wf(grid.contracts@.len()),
            structure_models(r.structs@) == active_structures(grid.contracts@, config.fee),
            allocation_asked(old(self)@, grid.contracts@, grid.s_t, *config) == match r.program {
                Some(program) => Some(program@),
                None => None,
            },
    {
        let structs = generate_active_structures(grid, config.fee);
        assert(structure_models(structs@).len() == structs@.len());
        assert(self@.positions.len() == self.book.positions@.len());
        self.book.unwind(grid, &structs, &self.surface, now, config.fee);
        match &self.surface {
            None => Order { structs, scores: Vec::new(), program: None },
            Some(surface) => {
                let (scores, signals) = score_contracts(grid, surface, config.gate);
                if !signals || structs.len() == 0 {
                    return Order { structs, scores, program: None };
                }
                match structured_portfolio_problem(
                    grid,
                    surface,
                    &scores,
                    &structs,
                    &config.portfolio,
                ) {
                    Ok(program) => Order { structs, scores, program },
                    Err(_) => Order { structs, scores, program: None },
                }
            },
        }
    }

    /// Ends the work on grid number `k` with the answer to the program of the allocation, if one
    /// was asked for.
    pub fn finish(
        &mut self,
        k: usize,
        grid: &OptionGrid<S>,
        now: Moment,
        config: &BacktestConfig<S>,
        order: &Order<S>,
        answer: Option<Result<Vec<S>, String>>,
    )
        requires
            old(self).wf(),
            now.wf(),
            order.wf(grid.contracts@.len()),
            answer is Some ==> order.program is Some,
            answer matches Some(Ok(x)) ==> x@.len() == order.structs@.len() + order.structs@.len(),
        ensures
            final(self).wf(),
            final(self)@ == after_grid(
                old(self)@,
                k as int,
                grid.contracts@,
                structure_models(order.structs@),
                targets_of(answer, order.structs@.len()),
                now,
                config.fee,
            ),
    {
        if let Some(solution) = answer {
            match optimize_portfolio_structured(grid, &order.scores, &order.structs, solution) {
                Ok(targets) => {
                    self.book.rebalance(grid, &order.structs, &targets, now, config.fee);
                },
                Err(_) => {},
            }
        }
        assert(self@.positions.len() == self.book.positions@.len());
        self.book.clean_up();
        assert(self@.positions.len() == self.book.positions@.len());
        let value = self.book.value(grid, &order.structs, &self.cache);
        self.track.record(k, now, value);
    }
}

} // verus!
