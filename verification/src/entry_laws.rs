//! When boxes and butterflies are entered, and what they then bind, in exact arithmetic.

use vstd::prelude::*;
use crate::activation::{features_of, FeatureVector};
use crate::calibration::CalibrationSurface;
use crate::exact::{exact, lemma_whole_value};
use crate::ingestion::OptionTick;
use crate::market::{Flavor, PosType};
use crate::number::dec;
use crate::optimizer::{
    has_kind, indexed_best_box, indexed_best_fly, sim_enter_fly, sim_enter_long, sim_enter_short,
    sim_entries, Sim, SimKind, SimSetting,
};
use crate::scanner::{best_box, best_fly};
use crate::trader::{enter_fly, enter_long, enter_short, entry_phase, holds, Setting, Turn};

verus! {

proof fn lemma_size<S: crate::number::Quantity>(value: spec_fn(S) -> real, price: S)
    requires
        exact(value),
    ensures
        value(price * dec::<S>(10_000, 0)) == 10_000real * value(price),
        value(dec::<S>(10_000, 0)) == 10_000real,
{
    lemma_whole_value(value, 10_000);
    lemma_order(value(price), 10_000real);
}

proof fn lemma_order(a: real, b: real)
    by (nonlinear_arith)
    ensures
        a * b == b * a,
{
}

/// The best long box is entered if and only if it is not held and ten thousand are left after
/// its cost. The position then has its cost, pays its proceeds and binds no margin.
pub proof fn law_entering_long_box<S: crate::number::Quantity>(
    value: spec_fn(S) -> real,
    turn: Turn<S>,
    s: Setting<S>,
)
    requires
        exact(value),
    ensures
        ({
            let book = turn.book;
            let after = enter_long(turn, s).book;
            match best_box(true, s.ctx, s.quotes, s.now, s.params.min_return) {
                None => after.positions == book.positions && after.cash == book.cash,
                Some(o) => {
                    let cost = 10_000real * value(o.outlay);
                    let enters = !holds(
                        book.positions,
                        s.idx,
                        PosType::LongBox,
                        o.lo.index,
                        o.hi.index,
                        None,
                    ) && 10_000real <= value(book.cash) - cost;
                    if enters {
                        let p = after.positions.last();
                        &&& after.positions == book.positions.push(p)
                        &&& (p.pos_type, p.ctx_idx, p.strike_i, p.strike_j) == (
                            PosType::LongBox,
                            s.idx,
                            o.lo.index,
                            o.hi.index,
                        )
                        &&& p.entry_cost == o.outlay && p.payout == o.proceeds
                        &&& value(p.margin_rmb) == 0real
                        &&& p.entry_ts == s.now && p.dte_at_entry == s.ctx.dte
                        &&& value(after.cash) == value(book.cash) - cost
                        &&& after.margin == book.margin
                    } else {
                        after.positions == book.positions && after.cash == book.cash
                    }
                },
            }
        }),
{
    lemma_whole_value(value, 0);
    if let Some(o) = best_box(true, s.ctx, s.quotes, s.now, s.params.min_return) {
        lemma_size(value, o.outlay);
    }
}

/// The best short box is entered if and only if it is not held and ten thousand are left after
/// its margin, which is twice the distance of its strikes. The position then brings its gain and
/// owes the distance of its strikes.
pub proof fn law_entering_short_box<S: crate::number::Quantity>(
    value: spec_fn(S) -> real,
    turn: Turn<S>,
    s: Setting<S>,
)
    requires
        exact(value),
    ensures
        ({
            let book = turn.book;
            let after = enter_short(turn, s).book;
            match best_box(false, s.ctx, s.quotes, s.now, s.params.min_return) {
                None => after.positions == book.positions && after.cash == book.cash,
                Some(o) => {
                    let width = value(s.ctx.strikes@[o.hi.index as int]) - value(
                        s.ctx.strikes@[o.lo.index as int],
                    );
                    let margin = 20_000real * width;
                    let enters = !holds(
                        book.positions,
                        s.idx,
                        PosType::ShortBox,
                        o.lo.index,
                        o.hi.index,
                        None,
                    ) && 10_000real <= value(book.cash) - margin;
                    if enters {
                        let p = after.positions.last();
                        &&& after.positions == book.positions.push(p)
                        &&& (p.pos_type, p.ctx_idx, p.strike_i, p.strike_j) == (
                            PosType::ShortBox,
                            s.idx,
                            o.lo.index,
                            o.hi.index,
                        )
                        &&& p.entry_cost == o.proceeds && value(p.payout) == width
                        &&& value(p.margin_rmb) == margin
                        &&& p.entry_ts == s.now && p.dte_at_entry == s.ctx.dte
                        &&& value(after.cash) == value(book.cash) + 10_000real * value(o.proceeds)
                            - margin
                        &&& value(after.margin) == value(book.margin) + margin
                    } else {
                        after.positions == book.positions && after.cash == book.cash
                    }
                },
            }
        }),
{
    lemma_whole_value(value, 2);
    if let Some(o) = best_box(false, s.ctx, s.quotes, s.now, s.params.min_return) {
        lemma_size(value, o.proceeds);
        let width = s.ctx.strikes@[o.hi.index as int] - s.ctx.strikes@[o.lo.index as int];
        lemma_size(value, dec::<S>(2, 0) * width);
    }
}

/// The best butterfly is entered if and only if it is not held and ten thousand are left after
/// its margin. The position then brings its profit and owes nothing.
pub proof fn law_entering_butterfly<S: crate::number::Quantity>(
    value: spec_fn(S) -> real,
    turn: Turn<S>,
    s: Setting<S>,
)
    requires
        exact(value),
    ensures
        ({
            let book = turn.book;
            let after = enter_fly(turn, s).book;
            match best_fly(s.ctx, s.quotes, s.now, s.params.min_return_butterfly) {
                None => after.positions == book.positions && after.cash == book.cash,
                Some(o) => {
                    let margin = 10_000real * value(o.margin);
                    let pos_type = match o.flavor {
                        Flavor::Call => PosType::ButterflyCall,
                        Flavor::Put => PosType::ButterflyPut,
                    };
                    let enters = !holds(
                        book.positions,
                        s.idx,
                        pos_type,
                        o.lo.index,
                        o.mid.index,
                        Some(o.hi.index),
                    ) && 10_000real <= value(book.cash) - margin;
                    if enters {
                        let p = after.positions.last();
                        &&& after.positions == book.positions.push(p)
                        &&& (p.pos_type, p.ctx_idx) == (pos_type, s.idx)
                        &&& (p.strike_i, p.strike_j, p.strike_k) == (
                            o.lo.index,
                            o.mid.index,
                            o.hi.index,
                        )
                        &&& p.entry_cost == o.profit && value(p.payout) == 0real
                        &&& value(p.margin_rmb) == margin
                        &&& p.entry_ts == s.now && p.dte_at_entry == s.ctx.dte
                        &&& value(after.cash) == value(book.cash) + 10_000real * value(o.profit)
                            - margin
                        &&& value(after.margin) == value(book.margin) + margin
                    } else {
                        after.positions == book.positions && after.cash == book.cash
                    }
                },
            }
        }),
{
    lemma_whole_value(value, 0);
    if let Some(o) = best_fly(s.ctx, s.quotes, s.now, s.params.min_return_butterfly) {
        lemma_size(value, o.profit);
        lemma_size(value, o.margin);
    }
}

/// Within five days of expiry nothing is entered, nor signalled, and what was signalled of the
/// context is forgotten.
pub proof fn law_no_entry_close_to_expiry<S: crate::number::Quantity>(turn: Turn<S>, s: Setting<S>)
    requires
        s.ctx.dte <= 5,
    ensures
        ({
            let after = entry_phase(turn, s);
            &&& after.events == turn.events
            &&& after.book.positions == turn.book.positions
            &&& after.book.cash == turn.book.cash
            &&& after.book.margin == turn.book.margin
            &&& !after.book.last_lb.contains_key(s.idx)
            &&& !after.book.last_sb.contains_key(s.idx)
            &&& !after.book.last_fly.contains_key(s.idx)
        }),
{
}

/// In the simulation a box or butterfly is entered where none of its kind is open, ten thousand
/// are left after what it binds, and expiry is more than five days off; it binds and brings what
/// the portfolio would have bound and brought.
pub proof fn law_simulated_entries<S: crate::number::Quantity>(
    value: spec_fn(S) -> real,
    sim: Sim<S>,
    s: SimSetting<S>,
)
    requires
        exact(value),
    ensures
        s.dte <= 5 ==> sim_entries(sim, s) == sim,
        match indexed_best_box(true, s.ctx, sim.quotes, s.now, s.params.min_return) {
            None => sim_enter_long(sim, s) == sim,
            Some(o) => {
                let cost = 10_000real * value(o.outlay);
                let after = sim_enter_long(sim, s);
                if !has_kind(sim.positions, SimKind::LongBox) && 10_000real <= value(sim.cash)
                    - cost {
                    let p = after.positions.last();
                    &&& after.positions == sim.positions.push(p)
                    &&& value(after.cash) == value(sim.cash) - cost
                    &&& p.payout == o.proceeds && value(p.margin_rmb) == 0real
                } else {
                    after == sim
                }
            },
        },
        match indexed_best_box(false, s.ctx, sim.quotes, s.now, s.params.min_return) {
            None => sim_enter_short(sim, s) == sim,
            Some(o) => {
                let margin = 10_000real * value(o.outlay);
                let after = sim_enter_short(sim, s);
                if !has_kind(sim.positions, SimKind::ShortBox) && 10_000real <= value(sim.cash)
                    - margin {
                    let p = after.positions.last();
                    &&& after.positions == sim.positions.push(p)
                    &&& value(after.cash) == value(sim.cash) + 10_000real * value(o.proceeds)
                        - margin
                    &&& value(p.payout) == value(s.ctx.strikes@[o.hi.index as int]) - value(
                        s.ctx.strikes@[o.lo.index as int],
                    )
                    &&& value(p.margin_rmb) == margin
                    &&& value(after.margin) == value(sim.margin) + margin
                } else {
                    after == sim
                }
            },
        },
        match indexed_best_fly(s.ctx, sim.quotes, s.now, s.params.min_return_butterfly) {
            None => sim_enter_fly(sim, s) == sim,
            Some(o) => {
                let margin = 10_000real * value(o.margin);
                let after = sim_enter_fly(sim, s);
                if !has_kind(sim.positions, SimKind::Butterfly) && 10_000real <= value(sim.cash)
                    - margin {
                    let p = after.positions.last();
                    &&& after.positions == sim.positions.push(p)
                    &&& value(after.cash) == value(sim.cash) + 10_000real * value(o.profit) - margin
                    &&& value(p.payout) == 0real
                    &&& value(p.margin_rmb) == margin
                    &&& value(after.margin) == value(sim.margin) + margin
                } else {
                    after == sim
                }
            },
        },
{
    lemma_whole_value(value, 0);
    if let Some(o) = indexed_best_box(true, s.ctx, sim.quotes, s.now, s.params.min_return) {
        lemma_size(value, o.outlay);
    }
    if let Some(o) = indexed_best_box(false, s.ctx, sim.quotes, s.now, s.params.min_return) {
        lemma_size(value, o.outlay);
        lemma_size(value, o.proceeds);
    }
    if let Some(o) = indexed_best_fly(s.ctx, sim.quotes, s.now, s.params.min_return_butterfly) {
        lemma_size(value, o.margin);
        lemma_size(value, o.profit);
    }
}

/// The features of a contract say where it stands: the strike is the spot price and the
/// moneyness together, a put is marked by one and a call by nothing, and the raw features list the
/// others in their order.
pub proof fn law_features_of_contract<S: crate::number::Quantity>(
    value: spec_fn(S) -> real,
    tick: OptionTick<S>,
    surface: CalibrationSurface<S>,
    f: FeatureVector<S>,
)
    requires
        exact(value),
        features_of(tick, surface, f),
    ensures
        value(f.spot) + value(f.moneyness) == value(tick.strike),
        f.spot == tick.s_t && f.tau == tick.tau && f.spread == tick.spread,
        value(f.is_put) == if tick.option_type == 'P' {
            1real
        } else {
            0real
        },
        f.raw_features@ == seq![
            f.immediate_execution_gap,
            f.spot,
            f.moneyness,
            f.tau,
            f.is_put,
            f.spread,
        ],
{
    lemma_whole_value(value, 0);
    lemma_whole_value(value, 1);
}

} // verus!
