//! Running the strategy over a recorded day by index, for fitting its thresholds.

use vstd::prelude::*;
use vstd::string::*;
use crate::calendar::{in_session, is_trading_hours};
use crate::market::{
    box_commission, contract_size, early_exit_adjustment, initial_cash, min_cash_threshold,
    no_quote, spec_contract_size, spec_initial_cash, within, StrategyParams, TickData,
    MAX_STALE_SECONDS,
};
use crate::number::{dec, one, zero, Number, Quantity};
use crate::ranking::best_of;
use crate::replay::{place_for, strictly_ascending, QuoteRow};
use crate::scanner::{
    best_box_among, best_fly_among, box_offers, box_ret, fly_offers, fly_ret, is_tradable, tradable,
    BoxOffer, FlyOffer, OpenStrike,
};
use crate::trader::{
    affordable, buy_back, close_net, long_exit_threshold, short_exit_threshold, swap_removed,
    BoxQuotes,
};

verus! {

/// Seconds that a simulated position is held before it may be closed early.
pub const SIM_HOLDING_TIME: i64 = 60;

/// A quote whose instrument is known by its index.
#[derive(Debug, Clone, Copy)]
pub struct IndexedTick<S> {
    pub oid_idx: u32,
    pub a1: S,
    pub b1: S,
    pub a1_v: S,
    pub b1_v: S,
    pub timestamp: i64,
    pub dte: u8,
}

/// The strikes, and for each the indices of its call and its put.
pub struct IndexedCtx<S> {
    pub strikes: Vec<S>,
    pub call_idx: Vec<u32>,
    pub put_idx: Vec<u32>,
}

/// Recorded quotes over one context.
pub struct Dataset<S> {
    pub ticks: Vec<IndexedTick<S>>,
    pub ctx: IndexedCtx<S>,
    pub num_oids: usize,
}

impl<S> IndexedCtx<S> {
    /// Every strike has a call and a put among the first `n` instruments.
    pub open spec fn wf(self, n: nat) -> bool {
        &&& self.call_idx@.len() == self.strikes@.len()
        &&& self.put_idx@.len() == self.strikes@.len()
        &&& forall|i: int| 0 <= i < self.call_idx@.len() ==> #[trigger] self.call_idx@[i] < n
        &&& forall|i: int| 0 <= i < self.put_idx@.len() ==> #[trigger] self.put_idx@[i] < n
    }
}

impl<S> Dataset<S> {
    /// Every index lies within the instruments.
    pub open spec fn wf(self) -> bool {
        &&& self.ctx.wf(self.num_oids as nat)
        &&& forall|i: int|
            0 <= i < self.ticks@.len() ==> (#[trigger] self.ticks@[i]).oid_idx < self.num_oids
    }
}

// ---- Building the dataset ----

/// The index of the instrument of a row among `strikes`: calls come first, then all others. A
/// strike that is not recorded counts as nothing.
pub open spec fn instrument_of<S>(strikes: Seq<i64>, row: QuoteRow<S>) -> Option<u32> {
    let milli = match row.milli {
        Some(m) => m,
        None => 0,
    };
    if strikes.contains(milli) {
        let at = strikes.index_of(milli);
        Some(
            if row.opt_type@ == "C"@ {
                at as u32
            } else {
                (strikes.len() + at) as u32
            },
        )
    } else {
        None
    }
}

/// The quotes of the first `n` rows whose strike is one of `strikes`.
pub open spec fn indexed_ticks<S>(strikes: Seq<i64>, rows: Seq<QuoteRow<S>>, n: nat) -> Seq<
    IndexedTick<S>,
>
    decreases n,
{
    if n == 0 {
        Seq::empty()
    } else {
        let rest = indexed_ticks(strikes, rows, (n - 1) as nat);
        let row = rows[n - 1];
        match instrument_of(strikes, row) {
            Some(oid_idx) => rest.push(
                IndexedTick {
                    oid_idx,
                    a1: row.a1,
                    b1: row.b1,
                    a1_v: row.a1_v,
                    b1_v: row.b1_v,
                    timestamp: row.second,
                    dte: row.dte,
                },
            ),
            None => rest,
        }
    }
}

fn find_instrument<S: Number>(strikes: &Vec<i64>, row: &QuoteRow<S>) -> (r: Option<u32>)
    requires
        strictly_ascending(strikes@),
        2 * strikes@.len() <= u32::MAX,
    ensures
        r == instrument_of(strikes@, *row),
        r matches Some(i) ==> i < 2 * strikes@.len(),
{
    let milli: i64 = match row.milli {
        Some(m) => m,
        None => 0,
    };
    let at = place_for(strikes, milli);
    if at < strikes.len() && strikes[at] == milli {
        assert(strikes@.contains(milli));
        assert(strikes@.index_of(milli) == at) by {
            let other = strikes@.index_of(milli);
            assert(strikes@[other] == milli);
            if other < at {
                assert(strikes@[other] < strikes@[at as int]);
            } else if other > at {
                assert(strikes@[at as int] < strikes@[other]);
            }
        }
        if row.opt_type == String::from_str("C") {
            Some(at as u32)
        } else {
            Some((strikes.len() + at) as u32)
        }
    } else {
        assert(!strikes@.contains(milli)) by {
            if strikes@.contains(milli) {
                let k = choose|k: int| 0 <= k < strikes@.len() && strikes@[k] == milli;
                assert(k >= at);
                if k > at {
                    assert(strikes@[at as int] < strikes@[k]);
                }
            }
        }
        None
    }
}

/// The dataset of recorded quotes over ascending strikes in thousandths.
pub fn dataset_over<S: Number>(strikes: &Vec<i64>, rows: &Vec<QuoteRow<S>>) -> (r: Dataset<S>)
    requires
        strictly_ascending(strikes@),
        2 * strikes@.len() <= u32::MAX,
    ensures
        r.wf(),
        r.num_oids == 2 * strikes@.len(),
        r.ctx.strikes@ == strikes@.map_values(|m: i64| dec::<S>(m as int, 3)),
        r.ctx.call_idx@ == Seq::new(strikes@.len(), |i: int| i as u32),
        r.ctx.put_idx@ == Seq::new(strikes@.len(), |i: int| (strikes@.len() + i) as u32),
        r.ticks@ == indexed_ticks(strikes@, rows@, rows@.len()),
{
    let n = strikes.len();
    let mut ctx = IndexedCtx {
        strikes: Vec::with_capacity(n),
        call_idx: Vec::with_capacity(n),
        put_idx: Vec::with_capacity(n),
    };
    let ghost values = strikes@.map_values(|m: i64| dec::<S>(m as int, 3));
    let ghost calls = Seq::new(strikes@.len(), |i: int| i as u32);
    let ghost puts = Seq::new(strikes@.len(), |i: int| (strikes@.len() + i) as u32);
    let mut i: usize = 0;
    while i < n
        invariant
            i <= n,
            n == strikes@.len(),
            2 * n <= u32::MAX,
            values == strikes@.map_values(|m: i64| dec::<S>(m as int, 3)),
            calls == Seq::new(strikes@.len(), |i: int| i as u32),
            puts == Seq::new(strikes@.len(), |i: int| (strikes@.len() + i) as u32),
            ctx.strikes@ == values.take(i as int),
            ctx.call_idx@ == calls.take(i as int),
            ctx.put_idx@ == puts.take(i as int),
        decreases n - i,
    {
        ctx.strikes.push(S::decimal(strikes[i] as i128, 3));
        ctx.call_idx.push(i as u32);
        ctx.put_idx.push((n + i) as u32);
        i = i + 1;
        assert(ctx.strikes@ =~= values.take(i as int));
        assert(ctx.call_idx@ =~= calls.take(i as int));
        assert(ctx.put_idx@ =~= puts.take(i as int));
    }
    assert(ctx.strikes@ =~= values);
    assert(ctx.call_idx@ =~= calls);
    assert(ctx.put_idx@ =~= puts);
    let count = rows.len();
    let mut ticks: Vec<IndexedTick<S>> = Vec::with_capacity(count);
    let mut k: usize = 0;
    while k < count
        invariant
            k <= count,
            count == rows@.len(),
            n == strikes@.len(),
            strictly_ascending(strikes@),
            2 * n <= u32::MAX,
            ticks@ == indexed_ticks(strikes@, rows@, k as nat),
            forall|t: int| 0 <= t < ticks@.len() ==> (#[trigger] ticks@[t]).oid_idx < 2 * n,
        decreases count - k,
    {
        let row = &rows[k];
        if let Some(oid_idx) = find_instrument(strikes, row) {
            ticks.push(
                IndexedTick {
                    oid_idx,
                    a1: row.a1,
                    b1: row.b1,
                    a1_v: row.a1_v,
                    b1_v: row.b1_v,
                    timestamp: row.second,
                    dte: row.dte,
                },
            );
        }
        k = k + 1;
    }
    Dataset { ticks, ctx, num_oids: 2 * n }
}

// ---- Evaluating the context ----

/// The open strikes among the first `n`.
pub open spec fn indexed_open_strikes<S: Quantity>(
    ctx: IndexedCtx<S>,
    state: Seq<TickData<S>>,
    now: i64,
    n: nat,
) -> Seq<OpenStrike<S>>
    decreases n,
{
    if n == 0 {
        Seq::empty()
    } else {
        let index = n - 1;
        let rest = indexed_open_strikes(ctx, state, now, index as nat);
        let call = state[ctx.call_idx@[index] as int];
        let put = state[ctx.put_idx@[index] as int];
        if tradable(call, now) && tradable(put, now) {
            rest.push(OpenStrike { index: index as usize, call, put })
        } else {
            rest
        }
    }
}

/// The best box on one side.
pub open spec fn indexed_best_box<S: Quantity>(
    long: bool,
    ctx: IndexedCtx<S>,
    state: Seq<TickData<S>>,
    now: i64,
    floor: S,
) -> Option<BoxOffer<S>> {
    let open = indexed_open_strikes(ctx, state, now, ctx.strikes@.len());
    best_of(box_offers(long, ctx.strikes@, open, open.len() as int), box_ret(), floor)
}

/// The best butterfly.
pub open spec fn indexed_best_fly<S: Quantity>(
    ctx: IndexedCtx<S>,
    state: Seq<TickData<S>>,
    now: i64,
    floor: S,
) -> Option<FlyOffer<S>> {
    let open = indexed_open_strikes(ctx, state, now, ctx.strikes@.len());
    best_of(fly_offers(ctx.strikes@, open, open.len() as int), fly_ret(), floor)
}

fn find_open_strikes<S: Number>(ctx: &IndexedCtx<S>, state: &[TickData<S>], now: i64) -> (r: Vec<
    OpenStrike<S>,
>)
    requires
        ctx.wf(state@.len()),
    ensures
        r@ == indexed_open_strikes(*ctx, state@, now, ctx.strikes@.len()),
        forall|k: int| 0 <= k < r@.len() ==> (#[trigger] r@[k]).index < ctx.strikes@.len(),
{
    let n = ctx.strikes.len();
    let mut open: Vec<OpenStrike<S>> = Vec::with_capacity(n);
    let mut i: usize = 0;
    while i < n
        invariant
            i <= n,
            n == ctx.strikes@.len(),
            ctx.wf(state@.len()),
            open@ == indexed_open_strikes(*ctx, state@, now, i as nat),
            forall|k: int| 0 <= k < open@.len() ==> (#[trigger] open@[k]).index < n,
        decreases n - i,
    {
        let call = state[ctx.call_idx[i] as usize];
        let put = state[ctx.put_idx[i] as usize];
        if is_tradable(&call, now) && is_tradable(&put, now) {
            open.push(OpenStrike { index: i, call, put });
        }
        i = i + 1;
    }
    open
}

/// The best long box: its strikes, cost, payout and return.
pub fn eval_long_box<S: Number>(
    ctx: &IndexedCtx<S>,
    state: &[TickData<S>],
    now_ts: i64,
    _current_dte: u8,
    params: &StrategyParams<S>,
) -> (r: Option<(usize, usize, S, S, S)>)
    requires
        ctx.wf(state@.len()),
    ensures
        r == (match indexed_best_box(true, *ctx, state@, now_ts, params.min_return) {
            None => None,
            Some(o) => Some((o.lo.index, o.hi.index, o.outlay, o.proceeds, o.ret)),
        }),
        r matches Some(t) ==> t.0 < ctx.strikes@.len() && t.1 < ctx.strikes@.len(),
{
    let open = find_open_strikes(ctx, state, now_ts);
    match best_box_among(true, &ctx.strikes, &open, params.min_return) {
        None => None,
        Some(o) => Some((o.lo.index, o.hi.index, o.outlay, o.proceeds, o.ret)),
    }
}

/// The best short box: its strikes, premium, the distance of the strikes and the
/// margin in cash.
pub fn eval_short_box<S: Number>(
    ctx: &IndexedCtx<S>,
    state: &[TickData<S>],
    now_ts: i64,
    _current_dte: u8,
    params: &StrategyParams<S>,
) -> (r: Option<(usize, usize, S, S, S)>)
    requires
        ctx.wf(state@.len()),
    ensures
        r == (match indexed_best_box(false, *ctx, state@, now_ts, params.min_return) {
            None => None,
            Some(o) => Some(
                (
                    o.lo.index,
                    o.hi.index,
                    o.proceeds,
                    ctx.strikes@[o.hi.index as int] - ctx.strikes@[o.lo.index as int],
                    o.outlay * spec_contract_size::<S>(),
                ),
            ),
        }),
        r matches Some(t) ==> t.0 < ctx.strikes@.len() && t.1 < ctx.strikes@.len(),
{
    let open = find_open_strikes(ctx, state, now_ts);
    match best_box_among(false, &ctx.strikes, &open, params.min_return) {
        None => None,
        Some(o) => {
            let width = ctx.strikes[o.hi.index].minus(ctx.strikes[o.lo.index]);
            Some((o.lo.index, o.hi.index, o.proceeds, width, o.outlay.times(contract_size())))
        },
    }
}

/// The best butterfly: its strikes, profit and the margin in cash.
pub fn eval_butterfly<S: Number>(
    ctx: &IndexedCtx<S>,
    state: &[TickData<S>],
    now_ts: i64,
    _current_dte: u8,
    params: &StrategyParams<S>,
) -> (r: Option<(usize, usize, usize, S, S)>)
    requires
        ctx.wf(state@.len()),
    ensures
        r == (match indexed_best_fly(*ctx, state@, now_ts, params.min_return_butterfly) {
            None => None,
            Some(o) => Some(
                (
                    o.lo.index,
                    o.mid.index,
                    o.hi.index,
                    o.profit,
                    o.margin * spec_contract_size::<S>(),
                ),
            ),
        }),
        r matches Some(t) ==> t.0 < ctx.strikes@.len() && t.1 < ctx.strikes@.len() && t.2
            < ctx.strikes@.len(),
{
    let open = find_open_strikes(ctx, state, now_ts);
    match best_fly_among(&ctx.strikes, &open, params.min_return_butterfly) {
        None => None,
        Some(o) => Some(
            (
                o.lo.index,
                o.mid.index,
                o.hi.index,
                o.profit,
                o.margin.times(contract_size()),
            ),
        ),
    }
}

// ---- The simulation ----

/// The kind of a simulated position.
#[derive(Debug, Clone, Copy, PartialEq, Eq, Structural)]
pub enum SimKind {
    LongBox,
    ShortBox,
    Butterfly,
}

/// A simulated position.
#[derive(Debug, Clone, Copy)]
pub struct SimplePos<S> {
    pub strike_i: usize,
    pub strike_j: usize,
    pub strike_k: usize,
    pub kind: SimKind,
    /// Price per unit: paid for a long box, received for the others.
    pub entry_cost: S,
    pub payout: S,
    pub margin_rmb: S,
    pub entry_ts: i64,
}

/// The state of a simulation.
pub ghost struct Sim<S> {
    pub quotes: Seq<TickData<S>>,
    pub positions: Seq<SimplePos<S>>,
    pub cash: S,
    pub margin: S,
    pub last_ts: i64,
}

/// What a tick is worked on with.
pub ghost struct SimSetting<S> {
    pub ctx: IndexedCtx<S>,
    pub params: StrategyParams<S>,
    pub now: i64,
    pub dte: u8,
}

/// The simulation before the first tick.
pub open spec fn sim_start<S: Quantity>(num_oids: nat) -> Sim<S> {
    Sim {
        quotes: Seq::new(num_oids, |i: int| no_quote::<S>()),
        positions: Seq::empty(),
        cash: spec_initial_cash::<S>(),
        margin: zero::<S>(),
        last_ts: 0,
    }
}

/// Settles the last of the positions at its payout.
pub open spec fn settle_last<S: Quantity>(sim: Sim<S>) -> Sim<S> {
    let pos = sim.positions.last();
    let paid = pos.payout * spec_contract_size::<S>();
    if pos.kind == SimKind::LongBox {
        Sim { positions: sim.positions.drop_last(), cash: sim.cash + paid, ..sim }
    } else {
        Sim {
            positions: sim.positions.drop_last(),
            cash: sim.cash + (pos.margin_rmb - paid),
            margin: sim.margin - pos.margin_rmb,
            ..sim
        }
    }
}

/// Settles all positions, from the last to the first.
pub open spec fn settle_all<S: Quantity>(sim: Sim<S>) -> Sim<S>
    decreases sim.positions.len(),
{
    if sim.positions.len() == 0 {
        sim
    } else {
        settle_all(settle_last(sim))
    }
}

/// The quotes at the two strikes of a position.
pub open spec fn sim_quotes<S>(
    ctx: IndexedCtx<S>,
    quotes: Seq<TickData<S>>,
    pos: SimplePos<S>,
) -> BoxQuotes<S> {
    BoxQuotes {
        c_lo: quotes[ctx.call_idx@[pos.strike_i as int] as int],
        c_hi: quotes[ctx.call_idx@[pos.strike_j as int] as int],
        p_hi: quotes[ctx.put_idx@[pos.strike_j as int] as int],
        p_lo: quotes[ctx.put_idx@[pos.strike_i as int] as int],
    }
}

/// All four quotes are fresh.
pub open spec fn all_fresh<S>(q: BoxQuotes<S>, now: i64) -> bool {
    &&& now - q.c_lo.timestamp <= MAX_STALE_SECONDS
    &&& now - q.c_hi.timestamp <= MAX_STALE_SECONDS
    &&& now - q.p_hi.timestamp <= MAX_STALE_SECONDS
    &&& now - q.p_lo.timestamp <= MAX_STALE_SECONDS
}

/// At what price per unit a position is closed early, if it is.
pub open spec fn sim_exit<S: Quantity>(
    s: SimSetting<S>,
    quotes: Seq<TickData<S>>,
    pos: SimplePos<S>,
) -> Option<S> {
    let q = sim_quotes(s.ctx, quotes, pos);
    let thr = s.params.min_exit_return;
    if !(all_fresh(q, s.now) && s.now - pos.entry_ts >= SIM_HOLDING_TIME) {
        None
    } else if pos.kind == SimKind::LongBox {
        if pos.payout < close_net(q) * (one::<S>() + long_exit_threshold(s.dte, thr)) {
            Some(close_net(q))
        } else {
            None
        }
    } else if pos.kind == SimKind::ShortBox {
        if zero::<S>() < buy_back(q) && buy_back(q) * (one::<S>() + short_exit_threshold(
            s.dte,
            thr,
        )) < pos.payout {
            Some(buy_back(q))
        } else {
            None
        }
    } else {
        None
    }
}

/// Closes the position at `i` at the given price.
pub open spec fn close_at<S: Quantity>(sim: Sim<S>, i: int, value: S) -> Sim<S> {
    let pos = sim.positions[i];
    let paid = value * spec_contract_size::<S>();
    let positions = swap_removed(sim.positions, i);
    if pos.kind == SimKind::LongBox {
        Sim { positions, cash: sim.cash + paid, ..sim }
    } else {
        Sim {
            positions,
            cash: sim.cash + (pos.margin_rmb - paid),
            margin: sim.margin - pos.margin_rmb,
            ..sim
        }
    }
}

/// Looks at the positions from `i` on and closes those that are worth closing.
/// The position that takes the place of a closed one is looked at too.
pub open spec fn sim_exits<S: Quantity>(sim: Sim<S>, s: SimSetting<S>, i: int) -> Sim<S>
    decreases sim.positions.len() - i,
{
    if i < 0 || i >= sim.positions.len() {
        sim
    } else {
        match sim_exit(s, sim.quotes, sim.positions[i]) {
            Some(value) => sim_exits(close_at(sim, i, value), s, i),
            None => sim_exits(sim, s, i + 1),
        }
    }
}

/// Whether a position of the given kind is open.
pub open spec fn has_kind<S>(positions: Seq<SimplePos<S>>, kind: SimKind) -> bool {
    exists|n: int| 0 <= n < positions.len() && (#[trigger] positions[n]).kind == kind
}

/// Enters the best long box, where none is open and the cash suffices.
pub open spec fn sim_enter_long<S: Quantity>(sim: Sim<S>, s: SimSetting<S>) -> Sim<S> {
    if has_kind(sim.positions, SimKind::LongBox) {
        sim
    } else {
        match indexed_best_box(true, s.ctx, sim.quotes, s.now, s.params.min_return) {
            None => sim,
            Some(o) => {
                let cost_rmb = o.outlay * spec_contract_size::<S>();
                if affordable(sim.cash, cost_rmb) {
                    Sim {
                        cash: sim.cash - cost_rmb,
                        positions: sim.positions.push(
                            SimplePos {
                                strike_i: o.lo.index,
                                strike_j: o.hi.index,
                                strike_k: 0,
                                kind: SimKind::LongBox,
                                entry_cost: o.outlay,
                                payout: o.proceeds,
                                margin_rmb: zero::<S>(),
                                entry_ts: s.now,
                            },
                        ),
                        ..sim
                    }
                } else {
                    sim
                }
            },
        }
    }
}

/// Enters the best short box, where none is open and the cash suffices.
pub open spec fn sim_enter_short<S: Quantity>(sim: Sim<S>, s: SimSetting<S>) -> Sim<S> {
    if has_kind(sim.positions, SimKind::ShortBox) {
        sim
    } else {
        match indexed_best_box(false, s.ctx, sim.quotes, s.now, s.params.min_return) {
            None => sim,
            Some(o) => {
                let margin_rmb = o.outlay * spec_contract_size::<S>();
                if affordable(sim.cash, margin_rmb) {
                    Sim {
                        cash: sim.cash + (o.proceeds * spec_contract_size::<S>() - margin_rmb),
                        margin: sim.margin + margin_rmb,
                        positions: sim.positions.push(
                            SimplePos {
                                strike_i: o.lo.index,
                                strike_j: o.hi.index,
                                strike_k: 0,
                                kind: SimKind::ShortBox,
                                entry_cost: o.proceeds,
                                payout: s.ctx.strikes@[o.hi.index as int]
                                    - s.ctx.strikes@[o.lo.index as int],
                                margin_rmb,
                                entry_ts: s.now,
                            },
                        ),
                        ..sim
                    }
                } else {
                    sim
                }
            },
        }
    }
}

/// Enters the best butterfly, where none is open and the cash suffices.
pub open spec fn sim_enter_fly<S: Quantity>(sim: Sim<S>, s: SimSetting<S>) -> Sim<S> {
    if has_kind(sim.positions, SimKind::Butterfly) {
        sim
    } else {
        match indexed_best_fly(s.ctx, sim.quotes, s.now, s.params.min_return_butterfly) {
            None => sim,
            Some(o) => {
                let margin_rmb = o.margin * spec_contract_size::<S>();
                if affordable(sim.cash, margin_rmb) {
                    Sim {
                        cash: sim.cash + (o.profit * spec_contract_size::<S>() - margin_rmb),
                        margin: sim.margin + margin_rmb,
                        positions: sim.positions.push(
                            SimplePos {
                                strike_i: o.lo.index,
                                strike_j: o.mid.index,
                                strike_k: o.hi.index,
                                kind: SimKind::Butterfly,
                                entry_cost: o.profit,
                                payout: zero::<S>(),
                                margin_rmb,
                                entry_ts: s.now,
                            },
                        ),
                        ..sim
                    }
                } else {
                    sim
                }
            },
        }
    }
}

/// The quote that a tick brings.
pub open spec fn tick_quote<S>(t: IndexedTick<S>) -> TickData<S> {
    TickData { a1: t.a1, b1: t.b1, a1_v: t.a1_v, b1_v: t.b1_v, timestamp: t.timestamp }
}

/// The setting of a tick.
pub open spec fn tick_setting<S>(
    ctx: IndexedCtx<S>,
    params: StrategyParams<S>,
    t: IndexedTick<S>,
) -> SimSetting<S> {
    SimSetting { ctx, params, now: t.timestamp, dte: t.dte }
}

/// The entries of a tick: none within five days of expiry.
pub open spec fn sim_entries<S: Quantity>(sim: Sim<S>, s: SimSetting<S>) -> Sim<S> {
    if s.dte > 5 {
        sim_enter_fly(sim_enter_short(sim_enter_long(sim, s), s), s)
    } else {
        sim
    }
}

/// The simulation after one more tick. Outside continuous trading, and where the
/// second has not advanced, only its quote is kept.
pub open spec fn sim_tick<S: Quantity>(
    sim: Sim<S>,
    ctx: IndexedCtx<S>,
    params: StrategyParams<S>,
    t: IndexedTick<S>,
) -> Sim<S> {
    let s = tick_setting(ctx, params, t);
    let quoted = Sim { quotes: sim.quotes.update(t.oid_idx as int, tick_quote(t)), ..sim };
    if !in_session(t.timestamp as int) || t.timestamp <= sim.last_ts {
        quoted
    } else {
        let begun = Sim { last_ts: t.timestamp, ..quoted };
        let settled = if t.dte == 0 {
            settle_all(begun)
        } else {
            begun
        };
        sim_entries(sim_exits(settled, s, 0), s)
    }
}

/// The simulation after the first `n` ticks.
pub open spec fn sim_ticks<S: Quantity>(
    data: Dataset<S>,
    params: StrategyParams<S>,
    n: nat,
) -> Sim<S>
    decreases n,
{
    if n == 0 {
        sim_start(data.num_oids as nat)
    } else {
        sim_tick(sim_ticks(data, params, (n - 1) as nat), data.ctx, params, data.ticks@[n - 1])
    }
}

/// Cash and margin with the first `n` open positions at their payout.
pub open spec fn final_value<S: Quantity>(sim: Sim<S>, n: nat) -> S
    decreases n,
{
    if n == 0 {
        sim.cash + sim.margin
    } else {
        let rest = final_value(sim, (n - 1) as nat);
        let paid = sim.positions[n - 1].payout * spec_contract_size::<S>();
        if sim.positions[n - 1].kind == SimKind::LongBox {
            rest + paid
        } else {
            rest - paid
        }
    }
}

/// Every position lies on strikes of the context.
pub open spec fn sim_fits<S>(positions: Seq<SimplePos<S>>, n: nat) -> bool {
    forall|i: int|
        0 <= i < positions.len() ==> (#[trigger] positions[i]).strike_i < n
            && positions[i].strike_j < n
}

/// A running simulation.
struct Runner<S> {
    quotes: Vec<TickData<S>>,
    positions: Vec<SimplePos<S>>,
    cash: S,
    margin: S,
    last_ts: i64,
}

impl<S> Runner<S> {
    spec fn sim(self) -> Sim<S> {
        Sim {
            quotes: self.quotes@,
            positions: self.positions@,
            cash: self.cash,
            margin: self.margin,
            last_ts: self.last_ts,
        }
    }
}

impl<S: Number> Runner<S> {
    fn settle(&mut self)
        ensures
            final(self).sim() == settle_all(old(self).sim()),
            final(self).positions@.len() == 0,
            final(self).quotes@ == old(self).quotes@,
    {
        loop
            invariant
                self.quotes@ == old(self).quotes@,
                settle_all(self.sim()) == settle_all(old(self).sim()),
            ensures
                self.quotes@ == old(self).quotes@,
                self.positions@.len() == 0,
                settle_all(self.sim()) == settle_all(old(self).sim()),
            decreases self.positions@.len(),
        {
            let ghost before = self.sim();
            match self.positions.pop() {
                None => {
                    break ;
                },
                Some(pos) => {
                    let paid = pos.payout.times(contract_size());
                    match pos.kind {
                        SimKind::LongBox => {
                            self.cash = self.cash.plus(paid);
                        },
                        _ => {
                            self.cash = self.cash.plus(pos.margin_rmb.minus(paid));
                            self.margin = self.margin.minus(pos.margin_rmb);
                        },
                    }
                    assert(self.sim().positions =~= settle_last(before).positions);
                },
            }
        }
    }

    fn exit_price(
        &self,
        ctx: &IndexedCtx<S>,
        params: &StrategyParams<S>,
        now: i64,
        dte: u8,
        pos: &SimplePos<S>,
    ) -> (r: Option<S>)
        requires
            ctx.wf(self.quotes@.len()),
            pos.strike_i < ctx.strikes@.len(),
            pos.strike_j < ctx.strikes@.len(),
        ensures
            r == sim_exit(
                (SimSetting { ctx: *ctx, params: *params, now, dte }),
                self.quotes@,
                *pos,
            ),
    {
        let c_lo = self.quotes[ctx.call_idx[pos.strike_i] as usize];
        let c_hi = self.quotes[ctx.call_idx[pos.strike_j] as usize];
        let p_hi = self.quotes[ctx.put_idx[pos.strike_j] as usize];
        let p_lo = self.quotes[ctx.put_idx[pos.strike_i] as usize];
        let fresh = within(now, c_lo.timestamp, MAX_STALE_SECONDS) && within(
            now,
            c_hi.timestamp,
            MAX_STALE_SECONDS,
        ) && within(now, p_hi.timestamp, MAX_STALE_SECONDS) && within(
            now,
            p_lo.timestamp,
            MAX_STALE_SECONDS,
        );
        if !fresh || within(now, pos.entry_ts, SIM_HOLDING_TIME - 1) {
            return None;
        }
        let unit = S::decimal(1, 0);
        let nothing = S::decimal(0, 0);
        let mut threshold = params.min_exit_return;
        match pos.kind {
            SimKind::LongBox => {
                if dte <= 4 {
                    threshold = threshold.plus(early_exit_adjustment());
                }
                let value = c_lo.b1.minus(c_hi.a1).plus(p_hi.b1.minus(p_lo.a1)).minus(
                    box_commission(),
                );
                if pos.payout.lt(value.times(unit.plus(threshold))) {
                    Some(value)
                } else {
                    None
                }
            },
            SimKind::ShortBox => {
                if dte <= 4 {
                    threshold = threshold.minus(early_exit_adjustment()).max(nothing);
                }
                let value = c_lo.a1.minus(c_hi.b1).plus(p_hi.a1.minus(p_lo.b1)).plus(
                    box_commission(),
                );
                if nothing.lt(value) && value.times(unit.plus(threshold)).lt(pos.payout) {
                    Some(value)
                } else {
                    None
                }
            },
            SimKind::Butterfly => None,
        }
    }

    fn exits(&mut self, ctx: &IndexedCtx<S>, params: &StrategyParams<S>, now: i64, dte: u8)
        requires
            ctx.wf(old(self).quotes@.len()),
            sim_fits(old(self).positions@, ctx.strikes@.len()),
        ensures
            final(self).sim() == sim_exits(
                old(self).sim(),
                (SimSetting { ctx: *ctx, params: *params, now, dte }),
                0,
            ),
            sim_fits(final(self).positions@, ctx.strikes@.len()),
            final(self).quotes@ == old(self).quotes@,
    {
        let ghost s = SimSetting { ctx: *ctx, params: *params, now, dte };
        let mut i: usize = 0;
        while i < self.positions.len()
            invariant
                i <= self.positions@.len(),
                s == (SimSetting { ctx: *ctx, params: *params, now, dte }),
                ctx.wf(self.quotes@.len()),
                self.quotes@ == old(self).quotes@,
                sim_fits(self.positions@, ctx.strikes@.len()),
                sim_exits(self.sim(), s, i as int) == sim_exits(old(self).sim(), s, 0),
            decreases self.positions@.len() - i,
        {
            let ghost before = self.sim();
            let pos = self.positions[i];
            match self.exit_price(ctx, params, now, dte, &pos) {
                Some(value) => {
                    let paid = value.times(contract_size());
                    match pos.kind {
                        SimKind::LongBox => {
                            self.cash = self.cash.plus(paid);
                        },
                        _ => {
                            self.cash = self.cash.plus(pos.margin_rmb.minus(paid));
                            self.margin = self.margin.minus(pos.margin_rmb);
                        },
                    }
                    self.positions.swap_remove(i);
                    assert(self.sim() == close_at(before, i as int, value));
                },
                None => {
                    i = i + 1;
                },
            }
        }
    }

    fn has(&self, kind: SimKind) -> (r: bool)
        ensures
            r == has_kind(self.positions@, kind),
    {
        let count = self.positions.len();
        let mut n: usize = 0;
        while n < count
            invariant
                n <= count,
                count == self.positions@.len(),
                forall|m: int| 0 <= m < n ==> (#[trigger] self.positions@[m]).kind != kind,
            decreases count - n,
        {
            if self.positions[n].kind == kind {
                return true;
            }
            n = n + 1;
        }
        false
    }

    fn can_afford(&self, needed: S) -> (r: bool)
        ensures
            r == affordable(self.cash, needed),
    {
        min_cash_threshold::<S>().le(self.cash.minus(needed))
    }

    fn enter_long(&mut self, ctx: &IndexedCtx<S>, params: &StrategyParams<S>, now: i64, dte: u8)
        requires
            ctx.wf(old(self).quotes@.len()),
            sim_fits(old(self).positions@, ctx.strikes@.len()),
        ensures
            final(self).sim() == sim_enter_long(
                old(self).sim(),
                (SimSetting { ctx: *ctx, params: *params, now, dte }),
            ),
            sim_fits(final(self).positions@, ctx.strikes@.len()),
    {
        if self.has(SimKind::LongBox) {
            return ;
        }
        if let Some((si, sj, cost, payout, _ret)) = eval_long_box(
            ctx,
            self.quotes.as_slice(),
            now,
            dte,
            params,
        ) {
            let cost_rmb = cost.times(contract_size());
            if self.can_afford(cost_rmb) {
                self.cash = self.cash.minus(cost_rmb);
                self.positions.push(
                    SimplePos {
                        strike_i: si,
                        strike_j: sj,
                        strike_k: 0,
                        kind: SimKind::LongBox,
                        entry_cost: cost,
                        payout,
                        margin_rmb: S::decimal(0, 0),
                        entry_ts: now,
                    },
                );
            }
        }
    }

    fn enter_short(&mut self, ctx: &IndexedCtx<S>, params: &StrategyParams<S>, now: i64, dte: u8)
        requires
            ctx.wf(old(self).quotes@.len()),
            sim_fits(old(self).positions@, ctx.strikes@.len()),
        ensures
            final(self).sim() == sim_enter_short(
                old(self).sim(),
                (SimSetting { ctx: *ctx, params: *params, now, dte }),
            ),
            sim_fits(final(self).positions@, ctx.strikes@.len()),
    {
        if self.has(SimKind::ShortBox) {
            return ;
        }
        if let Some((si, sj, gain, payout, margin_rmb)) = eval_short_box(
            ctx,
            self.quotes.as_slice(),
            now,
            dte,
            params,
        ) {
            if self.can_afford(margin_rmb) {
                self.cash = self.cash.plus(gain.times(contract_size()).minus(margin_rmb));
                self.margin = self.margin.plus(margin_rmb);
                self.positions.push(
                    SimplePos {
                        strike_i: si,
                        strike_j: sj,
                        strike_k: 0,
                        kind: SimKind::ShortBox,
                        entry_cost: gain,
                        payout,
                        margin_rmb,
                        entry_ts: now,
                    },
                );
            }
        }
    }

    fn enter_fly(&mut self, ctx: &IndexedCtx<S>, params: &StrategyParams<S>, now: i64, dte: u8)
        requires
            ctx.wf(old(self).quotes@.len()),
            sim_fits(old(self).positions@, ctx.strikes@.len()),
        ensures
            final(self).sim() == sim_enter_fly(
                old(self).sim(),
                (SimSetting { ctx: *ctx, params: *params, now, dte }),
            ),
            sim_fits(final(self).positions@, ctx.strikes@.len()),
    {
        if self.has(SimKind::Butterfly) {
            return ;
        }
        if let Some((si, sj, sk, profit, margin_rmb)) = eval_butterfly(
            ctx,
            self.quotes.as_slice(),
            now,
            dte,
            params,
        ) {
            if self.can_afford(margin_rmb) {
                self.cash = self.cash.plus(profit.times(contract_size()).minus(margin_rmb));
                self.margin = self.margin.plus(margin_rmb);
                self.positions.push(
                    SimplePos {
                        strike_i: si,
                        strike_j: sj,
                        strike_k: sk,
                        kind: SimKind::Butterfly,
                        entry_cost: profit,
                        payout: S::decimal(0, 0),
                        margin_rmb,
                        entry_ts: now,
                    },
                );
            }
        }
    }

    fn tick(&mut self, ctx: &IndexedCtx<S>, params: &StrategyParams<S>, t: &IndexedTick<S>)
        requires
            ctx.wf(old(self).quotes@.len()),
            t.oid_idx < old(self).quotes@.len(),
            sim_fits(old(self).positions@, ctx.strikes@.len()),
        ensures
            final(self).sim() == sim_tick(old(self).sim(), *ctx, *params, *t),
            sim_fits(final(self).positions@, ctx.strikes@.len()),
            final(self).quotes@.len() == old(self).quotes@.len(),
    {
        self.quotes.set(
            t.oid_idx as usize,
            TickData { a1: t.a1, b1: t.b1, a1_v: t.a1_v, b1_v: t.b1_v, timestamp: t.timestamp },
        );
        if !is_trading_hours(t.timestamp) || t.timestamp <= self.last_ts {
            return ;
        }
        let now = t.timestamp;
        self.last_ts = now;
        if t.dte == 0 {
            self.settle();
        }
        self.exits(ctx, params, now, t.dte);
        if t.dte > 5 {
            self.enter_long(ctx, params, now, t.dte);
            self.enter_short(ctx, params, now, t.dte);
            self.enter_fly(ctx, params, now, t.dte);
        }
    }
}

/// Runs the strategy over the recorded quotes and gives the final capital: cash,
/// margin, and the open positions at their payout.
pub fn simulate<S: Number>(params: &StrategyParams<S>, data: &Dataset<S>) -> (r: S)
    requires
        data.wf(),
    ensures
        r == ({
            let end = sim_ticks(*data, *params, data.ticks@.len());
            final_value(end, end.positions.len())
        }),
{
    let mut quotes: Vec<TickData<S>> = Vec::with_capacity(data.num_oids);
    let mut i: usize = 0;
    while i < data.num_oids
        invariant
            i <= data.num_oids,
            quotes@ == Seq::new(i as nat, |k: int| no_quote::<S>()),
        decreases data.num_oids - i,
    {
        quotes.push(TickData::default());
        i = i + 1;
        assert(quotes@ =~= Seq::new(i as nat, |k: int| no_quote::<S>()));
    }
    let mut runner = Runner {
        quotes,
        positions: Vec::with_capacity(8),
        cash: initial_cash(),
        margin: S::decimal(0, 0),
        last_ts: 0,
    };
    assert(runner.sim().quotes =~= sim_start::<S>(data.num_oids as nat).quotes);
    assert(runner.sim().positions =~= sim_start::<S>(data.num_oids as nat).positions);
    let mut n: usize = 0;
    while n < data.ticks.len()
        invariant
            n <= data.ticks@.len(),
            data.wf(),
            runner.quotes@.len() == data.num_oids,
            sim_fits(runner.positions@, data.ctx.strikes@.len()),
            runner.sim() == sim_ticks(*data, *params, n as nat),
        decreases data.ticks@.len() - n,
    {
        let t = data.ticks[n];
        runner.tick(&data.ctx, params, &t);
        n = n + 1;
    }
    let ghost end = runner.sim();
    let mut value = runner.cash.plus(runner.margin);
    let count = runner.positions.len();
    let mut k: usize = 0;
    while k < count
        invariant
            k <= count,
            count == runner.positions@.len(),
            end == runner.sim(),
            value == final_value(end, k as nat),
        decreases count - k,
    {
        let pos = runner.positions[k];
        let paid = pos.payout.times(contract_size());
        match pos.kind {
            SimKind::LongBox => {
                value = value.plus(paid);
            },
            _ => {
                value = value.minus(paid);
            },
        }
        k = k + 1;
    }
    value
}

} // verus!
