//! The box and butterfly portfolio: exits and entries on each quote.

use std::collections::HashMap;
use vstd::prelude::*;
use vstd::string::*;
use crate::market::{
    box_commission, contract_size, early_exit_adjustment, min_cash_threshold, spec_box_commission,
    spec_contract_size, spec_early_exit_adjustment, spec_min_cash_threshold, within, BoxContext,
    ContextIndex, Flavor, OpenPosition, PosType, PositionModel, QuoteBook, StrategyParams, TickData,
    TickUpdate, TradeModel, TradeRecord, EXIT_STALE_SECONDS, MIN_HOLDING_TIME,
};
use crate::number::{dec, one, zero, Number, Quantity};
use crate::scanner::{
    best_box, best_fly, box_legging, evaluate_butterfly, evaluate_long_box, evaluate_short_box,
    fly_legging, lemma_best_box_in_range, lemma_best_fly_in_range, long_box_vols, short_box_vols,
};

verus! {

broadcast use vstd::std_specs::hash::group_hash_axioms;

/// What a portfolio did.
#[derive(Debug, Clone)]
pub enum PortfolioEvent<S> {
    /// A box was closed.
    Exit {
        pos_type: PosType,
        ctx_idx: usize,
        strike_i: usize,
        strike_j: usize,
        close_net_or_buy_back: S,
        payout: S,
        pnl_rmb: S,
        trade_record: TradeRecord<S>,
    },
    /// A long box is the best one; `is_new` where it was entered.
    EntryLong {
        ctx_idx: usize,
        strike_i: usize,
        strike_j: usize,
        cost: S,
        payout: S,
        ann: S,
        msg: String,
        is_new: bool,
    },
    /// A short box is the best one; `is_new` where it was entered.
    EntryShort {
        ctx_idx: usize,
        strike_i: usize,
        strike_j: usize,
        gain: S,
        payout_val: S,
        margin_rmb: S,
        ann: S,
        msg: String,
        is_new: bool,
    },
    /// A butterfly is the best one; `is_new` where it was entered.
    EntryButterfly {
        ctx_idx: usize,
        flavor: Flavor,
        strike_i: usize,
        strike_j: usize,
        strike_k: usize,
        profit: S,
        margin_rmb: S,
        ann: S,
        msg: String,
        is_new: bool,
    },
}

/// What a [`PortfolioEvent`] holds.
pub ghost enum EventModel<S> {
    Exit {
        pos_type: PosType,
        ctx_idx: usize,
        strike_i: usize,
        strike_j: usize,
        value: S,
        payout: S,
        pnl_rmb: S,
        trade: TradeModel<S>,
    },
    EntryLong {
        ctx_idx: usize,
        strike_i: usize,
        strike_j: usize,
        cost: S,
        payout: S,
        ann: S,
        msg: Seq<char>,
        is_new: bool,
    },
    EntryShort {
        ctx_idx: usize,
        strike_i: usize,
        strike_j: usize,
        gain: S,
        payout_val: S,
        margin_rmb: S,
        ann: S,
        msg: Seq<char>,
        is_new: bool,
    },
    EntryButterfly {
        ctx_idx: usize,
        flavor: Flavor,
        strike_i: usize,
        strike_j: usize,
        strike_k: usize,
        profit: S,
        margin_rmb: S,
        ann: S,
        msg: Seq<char>,
        is_new: bool,
    },
}

impl<S> View for PortfolioEvent<S> {
    type V = EventModel<S>;

    open spec fn view(&self) -> EventModel<S> {
        match *self {
            PortfolioEvent::Exit {
                pos_type,
                ctx_idx,
                strike_i,
                strike_j,
                close_net_or_buy_back,
                payout,
                pnl_rmb,
                trade_record,
            } => EventModel::Exit {
                pos_type,
                ctx_idx,
                strike_i,
                strike_j,
                value: close_net_or_buy_back,
                payout,
                pnl_rmb,
                trade: trade_record@,
            },
            PortfolioEvent::EntryLong {
                ctx_idx,
                strike_i,
                strike_j,
                cost,
                payout,
                ann,
                msg,
                is_new,
            } => EventModel::EntryLong {
                ctx_idx,
                strike_i,
                strike_j,
                cost,
                payout,
                ann,
                msg: msg@,
                is_new,
            },
            PortfolioEvent::EntryShort {
                ctx_idx,
                strike_i,
                strike_j,
                gain,
                payout_val,
                margin_rmb,
                ann,
                msg,
                is_new,
            } => EventModel::EntryShort {
                ctx_idx,
                strike_i,
                strike_j,
                gain,
                payout_val,
                margin_rmb,
                ann,
                msg: msg@,
                is_new,
            },
            PortfolioEvent::EntryButterfly {
                ctx_idx,
                flavor,
                strike_i,
                strike_j,
                strike_k,
                profit,
                margin_rmb,
                ann,
                msg,
                is_new,
            } => EventModel::EntryButterfly {
                ctx_idx,
                flavor,
                strike_i,
                strike_j,
                strike_k,
                profit,
                margin_rmb,
                ann,
                msg: msg@,
                is_new,
            },
        }
    }
}

/// Cash, margin and open positions, and for each context what was last signalled.
pub struct Portfolio<S> {
    pub available_cash: S,
    pub locked_margin: S,
    pub positions: Vec<OpenPosition<S>>,
    pub eval_count: u64,
    pub last_lb: HashMap<usize, (usize, usize)>,
    pub last_sb: HashMap<usize, (usize, usize)>,
    pub last_fly: HashMap<usize, (usize, usize, usize, Flavor)>,
}

/// What a [`Portfolio`] holds, but for its count of evaluations.
pub ghost struct PortfolioModel<S> {
    pub cash: S,
    pub margin: S,
    pub positions: Seq<PositionModel<S>>,
    pub last_lb: Map<usize, (usize, usize)>,
    pub last_sb: Map<usize, (usize, usize)>,
    pub last_fly: Map<usize, (usize, usize, usize, Flavor)>,
}

impl<S> View for Portfolio<S> {
    type V = PortfolioModel<S>;

    open spec fn view(&self) -> PortfolioModel<S> {
        PortfolioModel {
            cash: self.available_cash,
            margin: self.locked_margin,
            positions: position_models(self.positions@),
            last_lb: self.last_lb@,
            last_sb: self.last_sb@,
            last_fly: self.last_fly@,
        }
    }
}

/// What a list of positions holds.
pub open spec fn position_models<S>(positions: Seq<OpenPosition<S>>) -> Seq<PositionModel<S>> {
    positions.map_values(|p: OpenPosition<S>| p@)
}

/// What a list of events holds.
pub open spec fn event_models<S>(events: Seq<PortfolioEvent<S>>) -> Seq<EventModel<S>> {
    events.map_values(|e: PortfolioEvent<S>| e@)
}

/// A portfolio together with the events of the quote that is being worked on.
pub ghost struct Turn<S> {
    pub book: PortfolioModel<S>,
    pub events: Seq<EventModel<S>>,
}

/// What a turn is worked on with: the context, the quotes, the thresholds, the time.
pub ghost struct Setting<S> {
    pub idx: usize,
    pub ctx: BoxContext<S>,
    pub quotes: Map<Seq<char>, TickData<S>>,
    pub params: StrategyParams<S>,
    pub now: i64,
    pub time: Seq<char>,
}

// ---- Exits ----

/// The call and put quotes at the two strikes of a box.
pub ghost struct BoxQuotes<S> {
    pub c_lo: TickData<S>,
    pub c_hi: TickData<S>,
    pub p_hi: TickData<S>,
    pub p_lo: TickData<S>,
}

/// The quotes of the four legs of a position.
pub open spec fn leg_quotes<S>(
    ctx: BoxContext<S>,
    quotes: Map<Seq<char>, TickData<S>>,
    si: usize,
    sj: usize,
) -> BoxQuotes<S> {
    BoxQuotes {
        c_lo: quotes[ctx.call_oids@[si as int]@],
        c_hi: quotes[ctx.call_oids@[sj as int]@],
        p_hi: quotes[ctx.put_oids@[sj as int]@],
        p_lo: quotes[ctx.put_oids@[si as int]@],
    }
}

/// The instrument has a quote that is not too old for an exit.
pub open spec fn quoted_for_exit<S>(
    quotes: Map<Seq<char>, TickData<S>>,
    oid: Seq<char>,
    now: i64,
) -> bool {
    quotes.contains_key(oid) && now - quotes[oid].timestamp <= EXIT_STALE_SECONDS
}

/// All four legs have such a quote.
pub open spec fn legs_quoted<S>(
    ctx: BoxContext<S>,
    quotes: Map<Seq<char>, TickData<S>>,
    si: usize,
    sj: usize,
    now: i64,
) -> bool {
    &&& quoted_for_exit(quotes, ctx.call_oids@[si as int]@, now)
    &&& quoted_for_exit(quotes, ctx.call_oids@[sj as int]@, now)
    &&& quoted_for_exit(quotes, ctx.put_oids@[sj as int]@, now)
    &&& quoted_for_exit(quotes, ctx.put_oids@[si as int]@, now)
}

/// What closing a long box brings per unit.
pub open spec fn close_net<S: Quantity>(q: BoxQuotes<S>) -> S {
    (q.c_lo.b1 - q.c_hi.a1) + (q.p_hi.b1 - q.p_lo.a1) - spec_box_commission::<S>()
}

/// What buying back a short box costs per unit.
pub open spec fn buy_back<S: Quantity>(q: BoxQuotes<S>) -> S {
    (q.c_lo.a1 - q.c_hi.b1) + (q.p_hi.a1 - q.p_lo.b1) + spec_box_commission::<S>()
}

/// The exit threshold of a long box: raised close to expiry.
pub open spec fn long_exit_threshold<S: Quantity>(dte: u8, min_exit_return: S) -> S {
    if dte <= 4 {
        min_exit_return + spec_early_exit_adjustment::<S>()
    } else {
        min_exit_return
    }
}

/// The exit threshold of a short box: lowered close to expiry, not below nothing.
pub open spec fn short_exit_threshold<S: Quantity>(dte: u8, min_exit_return: S) -> S {
    if dte <= 4 {
        (min_exit_return - spec_early_exit_adjustment::<S>()).spec_max(zero::<S>())
    } else {
        min_exit_return
    }
}

/// A long box is worth closing: the sides it closes on are quoted, and the
/// proceeds, grown by the threshold, are above the payout.
pub open spec fn long_should_close<S: Quantity>(
    q: BoxQuotes<S>,
    dte: u8,
    min_exit_return: S,
    payout: S,
) -> bool {
    &&& zero::<S>() < q.c_lo.b1
    &&& zero::<S>() < q.c_hi.a1
    &&& zero::<S>() < q.p_hi.b1
    &&& zero::<S>() < q.p_lo.a1
    &&& payout < close_net(q) * (one::<S>() + long_exit_threshold(dte, min_exit_return))
}

/// A short box is worth closing: the sides it closes on are quoted, and buying it
/// back costs something but, grown by the threshold, less than the payout.
pub open spec fn short_should_close<S: Quantity>(
    q: BoxQuotes<S>,
    dte: u8,
    min_exit_return: S,
    payout: S,
) -> bool {
    &&& zero::<S>() < q.c_lo.a1
    &&& zero::<S>() < q.c_hi.b1
    &&& zero::<S>() < q.p_hi.a1
    &&& zero::<S>() < q.p_lo.b1
    &&& zero::<S>() < buy_back(q)
    &&& buy_back(q) * (one::<S>() + short_exit_threshold(dte, min_exit_return)) < payout
}

/// How a position is closed.
#[derive(Clone, Copy)]
pub struct Exit<S> {
    /// The price per unit at which it is closed.
    pub value: S,
    /// Whether it is settled at maturity.
    pub matured: bool,
}

/// How a position is closed on the present quotes, if it is: butterflies are
/// held to maturity, and a box needs its minimum holding time and a usable quote
/// of every leg.
pub open spec fn exit_of<S: Quantity>(s: Setting<S>, pos: PositionModel<S>) -> Option<Exit<S>> {
    if pos.ctx_idx != s.idx {
        None
    } else if pos.pos_type == PosType::ButterflyCall || pos.pos_type == PosType::ButterflyPut {
        None
    } else if s.now - pos.entry_ts < MIN_HOLDING_TIME {
        None
    } else if !legs_quoted(s.ctx, s.quotes, pos.strike_i, pos.strike_j, s.now) {
        None
    } else if s.ctx.dte == 0 {
        Some(Exit { value: pos.payout, matured: true })
    } else {
        let q = leg_quotes(s.ctx, s.quotes, pos.strike_i, pos.strike_j);
        if pos.pos_type == PosType::LongBox {
            if long_should_close(q, s.ctx.dte, s.params.min_exit_return, pos.payout) {
                Some(Exit { value: close_net(q), matured: false })
            } else {
                None
            }
        } else {
            if short_should_close(q, s.ctx.dte, s.params.min_exit_return, pos.payout) {
                Some(Exit { value: buy_back(q), matured: false })
            } else {
                None
            }
        }
    }
}

/// The profit of a closed box.
pub open spec fn exit_pnl<S: Quantity>(pos: PositionModel<S>, value: S) -> S {
    if pos.pos_type == PosType::LongBox {
        (value - pos.entry_cost) * spec_contract_size::<S>()
    } else {
        (pos.entry_cost - value) * spec_contract_size::<S>()
    }
}

/// The record of a closed box.
pub open spec fn trade_of<S: Quantity>(s: Setting<S>, pos: PositionModel<S>, exit: Exit<S>) -> TradeModel<
    S,
> {
    TradeModel {
        pos_type: pos.pos_type.spec_name(),
        prefix: s.ctx.prefix@,
        strike_lo: s.ctx.strikes@[pos.strike_i as int],
        strike_hi: s.ctx.strikes@[pos.strike_j as int],
        dte_at_entry: pos.dte_at_entry,
        entry_time: pos.entry_time,
        exit_time: s.time,
        entry_cost: pos.entry_cost,
        payout: pos.payout,
        exit_value: exit.value,
        pnl_rmb: exit_pnl(pos, exit.value),
        exit_type: if exit.matured {
            "maturity"@
        } else {
            "early"@
        },
        holding_time_sec: s.now - pos.entry_ts,
    }
}

/// The turn after a box was closed: a long box brings its value, a short one
/// frees its margin and pays its value.
pub open spec fn after_exit<S: Quantity>(
    turn: Turn<S>,
    s: Setting<S>,
    pos: PositionModel<S>,
    exit: Exit<S>,
) -> Turn<S> {
    let book = turn.book;
    let paid = exit.value * spec_contract_size::<S>();
    Turn {
        book: if pos.pos_type == PosType::LongBox {
            PortfolioModel { cash: book.cash + paid, ..book }
        } else {
            PortfolioModel {
                cash: book.cash + pos.margin_rmb - paid,
                margin: book.margin - pos.margin_rmb,
                ..book
            }
        },
        events: turn.events.push(
            EventModel::Exit {
                pos_type: pos.pos_type,
                ctx_idx: s.idx,
                strike_i: pos.strike_i,
                strike_j: pos.strike_j,
                value: exit.value,
                payout: pos.payout,
                pnl_rmb: exit_pnl(pos, exit.value),
                trade: trade_of(s, pos, exit),
            },
        ),
    }
}

/// The turn after the first `n` positions were looked at. The list of positions
/// itself is left as it is.
pub open spec fn after_exits<S: Quantity>(turn: Turn<S>, s: Setting<S>, n: nat) -> Turn<S>
    decreases n,
{
    if n == 0 {
        turn
    } else {
        let before = after_exits(turn, s, (n - 1) as nat);
        let pos = turn.book.positions[n - 1];
        match exit_of(s, pos) {
            Some(exit) => after_exit(before, s, pos, exit),
            None => before,
        }
    }
}

/// Where the positions stand, among the first `n`, that are closed.
pub open spec fn closed_at<S: Quantity>(
    s: Setting<S>,
    positions: Seq<PositionModel<S>>,
    n: nat,
) -> Seq<int>
    decreases n,
{
    if n == 0 {
        Seq::empty()
    } else {
        let before = closed_at(s, positions, (n - 1) as nat);
        if exit_of(s, positions[n - 1]) is Some {
            before.push(n - 1)
        } else {
            before
        }
    }
}

/// The list without the entry at `i`, whose place the last entry takes.
pub open spec fn swap_removed<T>(list: Seq<T>, i: int) -> Seq<T> {
    list.update(i, list.last()).drop_last()
}

/// The list without the entries at the given places, taken out from the last
/// place to the first.
pub open spec fn without<T>(list: Seq<T>, places: Seq<int>) -> Seq<T>
    decreases places.len(),
{
    if places.len() == 0 {
        list
    } else {
        without(swap_removed(list, places.last()), places.drop_last())
    }
}

/// The places rise and lie within a list.
pub open spec fn rising(places: Seq<int>, n: nat) -> bool {
    &&& forall|k: int| 0 <= k < places.len() ==> 0 <= #[trigger] places[k] < n
    &&& forall|k: int, l: int|
        0 <= k < l < places.len() ==> #[trigger] places[k] < #[trigger] places[l]
}

/// The turn after the exits of a context.
pub open spec fn exit_phase<S: Quantity>(turn: Turn<S>, s: Setting<S>) -> Turn<S> {
    let positions = turn.book.positions;
    let done = after_exits(turn, s, positions.len());
    Turn {
        book: PortfolioModel {
            positions: without(positions, closed_at(s, positions, positions.len())),
            ..done.book
        },
        events: done.events,
    }
}

// ---- Entries ----

/// Whether a position on these strikes is already open.
pub open spec fn holds<S>(
    positions: Seq<PositionModel<S>>,
    idx: usize,
    pos_type: PosType,
    i: usize,
    j: usize,
    k: Option<usize>,
) -> bool {
    exists|n: int|
        0 <= n < positions.len() && same_trade(#[trigger] positions[n], idx, pos_type, i, j, k)
}

/// Whether a position is of the given kind and on the given strikes.
pub open spec fn same_trade<S>(
    p: PositionModel<S>,
    idx: usize,
    pos_type: PosType,
    i: usize,
    j: usize,
    k: Option<usize>,
) -> bool {
    &&& p.ctx_idx == idx
    &&& p.pos_type == pos_type
    &&& p.strike_i == i
    &&& p.strike_j == j
    &&& k is Some ==> p.strike_k == k->0
}

/// Whether a position that binds `needed` cash may be entered.
pub open spec fn affordable<S: Quantity>(cash: S, needed: S) -> bool {
    spec_min_cash_threshold::<S>() <= cash - needed
}

/// The turn after the best long box was looked at.
pub open spec fn enter_long<S: Quantity>(turn: Turn<S>, s: Setting<S>) -> Turn<S> {
    let book = turn.book;
    match best_box(true, s.ctx, s.quotes, s.now, s.params.min_return) {
        None => Turn {
            book: PortfolioModel { last_lb: book.last_lb.remove(s.idx), ..book },
            events: turn.events,
        },
        Some(o) => {
            let (i, j) = (o.lo.index, o.hi.index);
            let cost_rmb = o.outlay * spec_contract_size::<S>();
            let is_new = !holds(book.positions, s.idx, PosType::LongBox, i, j, None) && affordable(
                book.cash,
                cost_rmb,
            );
            let entered = if is_new {
                PortfolioModel {
                    cash: book.cash - cost_rmb,
                    positions: book.positions.push(
                        PositionModel {
                            pos_type: PosType::LongBox,
                            ctx_idx: s.idx,
                            strike_i: i,
                            strike_j: j,
                            strike_k: 0,
                            entry_cost: o.outlay,
                            payout: o.proceeds,
                            margin_rmb: zero::<S>(),
                            dte_at_entry: s.ctx.dte,
                            entry_ts: s.now,
                            entry_time: s.time,
                        },
                    ),
                    ..book
                }
            } else {
                book
            };
            if is_new || !(book.last_lb.contains_key(s.idx) && book.last_lb[s.idx] == (i, j)) {
                Turn {
                    book: PortfolioModel {
                        last_lb: entered.last_lb.insert(s.idx, (i, j)),
                        ..entered
                    },
                    events: turn.events.push(
                        EventModel::EntryLong {
                            ctx_idx: s.idx,
                            strike_i: i,
                            strike_j: j,
                            cost: o.outlay,
                            payout: o.proceeds,
                            ann: o.ret,
                            msg: box_legging(s.ctx, o, long_box_vols(o)),
                            is_new,
                        },
                    ),
                }
            } else {
                Turn { book: entered, events: turn.events }
            }
        },
    }
}

/// The turn after the best short box was looked at.
pub open spec fn enter_short<S: Quantity>(turn: Turn<S>, s: Setting<S>) -> Turn<S> {
    let book = turn.book;
    match best_box(false, s.ctx, s.quotes, s.now, s.params.min_return) {
        None => Turn {
            book: PortfolioModel { last_sb: book.last_sb.remove(s.idx), ..book },
            events: turn.events,
        },
        Some(o) => {
            let (i, j) = (o.lo.index, o.hi.index);
            let payout = s.ctx.strikes@[j as int] - s.ctx.strikes@[i as int];
            let margin_rmb = dec::<S>(2, 0) * payout * spec_contract_size::<S>();
            let is_new = !holds(book.positions, s.idx, PosType::ShortBox, i, j, None) && affordable(
                book.cash,
                margin_rmb,
            );
            let entered = if is_new {
                PortfolioModel {
                    cash: book.cash + (o.proceeds * spec_contract_size::<S>() - margin_rmb),
                    margin: book.margin + margin_rmb,
                    positions: book.positions.push(
                        PositionModel {
                            pos_type: PosType::ShortBox,
                            ctx_idx: s.idx,
                            strike_i: i,
                            strike_j: j,
                            strike_k: 0,
                            entry_cost: o.proceeds,
                            payout,
                            margin_rmb,
                            dte_at_entry: s.ctx.dte,
                            entry_ts: s.now,
                            entry_time: s.time,
                        },
                    ),
                    ..book
                }
            } else {
                book
            };
            if is_new || !(book.last_sb.contains_key(s.idx) && book.last_sb[s.idx] == (i, j)) {
                Turn {
                    book: PortfolioModel {
                        last_sb: entered.last_sb.insert(s.idx, (i, j)),
                        ..entered
                    },
                    events: turn.events.push(
                        EventModel::EntryShort {
                            ctx_idx: s.idx,
                            strike_i: i,
                            strike_j: j,
                            gain: o.proceeds,
                            payout_val: payout,
                            margin_rmb,
                            ann: o.ret,
                            msg: box_legging(s.ctx, o, short_box_vols(o)),
                            is_new,
                        },
                    ),
                }
            } else {
                Turn { book: entered, events: turn.events }
            }
        },
    }
}

/// The turn after the best butterfly was looked at.
pub open spec fn enter_fly<S: Quantity>(turn: Turn<S>, s: Setting<S>) -> Turn<S> {
    let book = turn.book;
    match best_fly(s.ctx, s.quotes, s.now, s.params.min_return_butterfly) {
        None => Turn {
            book: PortfolioModel { last_fly: book.last_fly.remove(s.idx), ..book },
            events: turn.events,
        },
        Some(o) => {
            let (i, j, k) = (o.lo.index, o.mid.index, o.hi.index);
            let pos_type = o.flavor.spec_pos_type();
            let margin_rmb = o.margin * spec_contract_size::<S>();
            let is_new = !holds(book.positions, s.idx, pos_type, i, j, Some(k)) && affordable(
                book.cash,
                margin_rmb,
            );
            let entered = if is_new {
                PortfolioModel {
                    cash: book.cash + (o.profit * spec_contract_size::<S>() - margin_rmb),
                    margin: book.margin + margin_rmb,
                    positions: book.positions.push(
                        PositionModel {
                            pos_type,
                            ctx_idx: s.idx,
                            strike_i: i,
                            strike_j: j,
                            strike_k: k,
                            entry_cost: o.profit,
                            payout: zero::<S>(),
                            margin_rmb,
                            dte_at_entry: s.ctx.dte,
                            entry_ts: s.now,
                            entry_time: s.time,
                        },
                    ),
                    ..book
                }
            } else {
                book
            };
            let same = book.last_fly.contains_key(s.idx) && book.last_fly[s.idx] == (
                i,
                j,
                k,
                o.flavor,
            );
            if is_new || !same {
                Turn {
                    book: PortfolioModel {
                        last_fly: entered.last_fly.insert(s.idx, (i, j, k, o.flavor)),
                        ..entered
                    },
                    events: turn.events.push(
                        EventModel::EntryButterfly {
                            ctx_idx: s.idx,
                            flavor: o.flavor,
                            strike_i: i,
                            strike_j: j,
                            strike_k: k,
                            profit: o.profit,
                            margin_rmb,
                            ann: o.ret,
                            msg: fly_legging(s.ctx, o),
                            is_new,
                        },
                    ),
                }
            } else {
                Turn { book: entered, events: turn.events }
            }
        },
    }
}

/// The turn after the entries of a context: none within five days of expiry, and
/// what was signalled is then forgotten.
pub open spec fn entry_phase<S: Quantity>(turn: Turn<S>, s: Setting<S>) -> Turn<S> {
    if s.ctx.dte <= 5 {
        Turn {
            book: PortfolioModel {
                last_lb: turn.book.last_lb.remove(s.idx),
                last_sb: turn.book.last_sb.remove(s.idx),
                last_fly: turn.book.last_fly.remove(s.idx),
                ..turn.book
            },
            events: turn.events,
        }
    } else {
        enter_fly(enter_short(enter_long(turn, s), s), s)
    }
}

/// The turn after one context: first its exits, then its entries.
pub open spec fn context_turn<S: Quantity>(turn: Turn<S>, s: Setting<S>) -> Turn<S> {
    entry_phase(exit_phase(turn, s), s)
}

/// The setting of the `n`th context of a list.
pub open spec fn setting_at<S>(
    list: Seq<usize>,
    n: int,
    contexts: Seq<BoxContext<S>>,
    quotes: Map<Seq<char>, TickData<S>>,
    params: StrategyParams<S>,
    now: i64,
    time: Seq<char>,
) -> Setting<S> {
    Setting { idx: list[n], ctx: contexts[list[n] as int], quotes, params, now, time }
}

/// The turn after the first `n` contexts of a list.
pub open spec fn contexts_turn<S: Quantity>(
    turn: Turn<S>,
    list: Seq<usize>,
    n: nat,
    contexts: Seq<BoxContext<S>>,
    quotes: Map<Seq<char>, TickData<S>>,
    params: StrategyParams<S>,
    now: i64,
    time: Seq<char>,
) -> Turn<S>
    decreases n,
{
    if n == 0 {
        turn
    } else {
        context_turn(
            contexts_turn(turn, list, (n - 1) as nat, contexts, quotes, params, now, time),
            setting_at(list, n - 1, contexts, quotes, params, now, time),
        )
    }
}

/// The contexts that an instrument is part of.
pub open spec fn contexts_of(index: Map<Seq<char>, Seq<usize>>, oid: Seq<char>) -> Seq<usize> {
    if index.contains_key(oid) {
        index[oid]
    } else {
        Seq::empty()
    }
}

/// The listed contexts are there and well formed.
pub open spec fn listed_contexts_wf<S>(list: Seq<usize>, contexts: Seq<BoxContext<S>>) -> bool {
    forall|n: int|
        0 <= n < list.len() ==> (#[trigger] list[n]) < contexts.len() && contexts[list[n] as int].wf()
}

/// Every position lies on strikes of its context.
pub open spec fn positions_fit<S>(
    positions: Seq<PositionModel<S>>,
    contexts: Seq<BoxContext<S>>,
) -> bool {
    forall|n: int|
        0 <= n < positions.len() ==> position_fits(#[trigger] positions[n], contexts)
}

/// A position lies on strikes of its context.
pub open spec fn position_fits<S>(p: PositionModel<S>, contexts: Seq<BoxContext<S>>) -> bool {
    p.ctx_idx < contexts.len() ==> {
        &&& p.strike_i < contexts[p.ctx_idx as int].strikes@.len()
        &&& p.strike_j < contexts[p.ctx_idx as int].strikes@.len()
    }
}

/// How long a position was held can be counted in whole seconds.
pub open spec fn holding_time_fits<S>(p: PositionModel<S>, now: i64) -> bool {
    i64::MIN <= now - p.entry_ts <= i64::MAX
}

/// Every position of the listed contexts lies on strikes of its context, and how long it was
/// held can be counted.
pub open spec fn ready<S>(
    positions: Seq<PositionModel<S>>,
    list: Seq<usize>,
    contexts: Seq<BoxContext<S>>,
    now: i64,
) -> bool {
    forall|n: int|
        0 <= n < positions.len() && list.contains((#[trigger] positions[n]).ctx_idx)
            ==> position_fits(positions[n], contexts) && holding_time_fits(positions[n], now)
}

/// The positions were entered between two times.
pub open spec fn entered_within<S>(positions: Seq<PositionModel<S>>, from: i64, to: i64) -> bool {
    forall|n: int| 0 <= n < positions.len() ==> from <= (#[trigger] positions[n]).entry_ts <= to
}

// ---- Working on a quote ----

proof fn lemma_position_models_push<S>(list: Seq<OpenPosition<S>>, p: OpenPosition<S>)
    ensures
        position_models(list.push(p)) == position_models(list).push(p@),
{
    assert(position_models(list.push(p)) =~= position_models(list).push(p@));
}

proof fn lemma_position_models_swap_removed<S>(list: Seq<OpenPosition<S>>, i: int)
    requires
        0 <= i < list.len(),
    ensures
        position_models(swap_removed(list, i)) == swap_removed(position_models(list), i),
{
    assert(position_models(swap_removed(list, i)) =~= swap_removed(position_models(list), i));
}

proof fn lemma_event_models_push<S>(list: Seq<PortfolioEvent<S>>, e: PortfolioEvent<S>)
    ensures
        event_models(list.push(e)) == event_models(list).push(e@),
{
    assert(event_models(list.push(e)) =~= event_models(list).push(e@));
}

/// The places of the closed positions rise and lie within the list.
pub proof fn lemma_closed_rising<S: Quantity>(
    s: Setting<S>,
    positions: Seq<PositionModel<S>>,
    n: nat,
)
    requires
        n <= positions.len(),
    ensures
        rising(closed_at(s, positions, n), n),
    decreases n,
{
    if n > 0 {
        lemma_closed_rising(s, positions, (n - 1) as nat);
        let before = closed_at(s, positions, (n - 1) as nat);
        let now = closed_at(s, positions, n);
        assert forall|k: int, l: int| 0 <= k < l < now.len() implies #[trigger] now[k]
            < #[trigger] now[l] by {
            assert(now[k] == before[k]);
            if l < before.len() {
                assert(now[l] == before[l]);
            }
        }
        assert forall|k: int| 0 <= k < now.len() implies 0 <= #[trigger] now[k] < n by {
            if k < before.len() {
                assert(now[k] == before[k]);
            }
        }
    }
}

/// Places as integers.
spec fn as_places(list: Seq<usize>) -> Seq<int> {
    list.map_values(|i: usize| i as int)
}

fn quote_for_exit<S: Number>(state: &QuoteBook<S>, oid: &String, now: i64) -> (r: Option<
    TickData<S>,
>)
    ensures
        match r {
            Some(q) => quoted_for_exit(state@, oid@, now) && q == state@[oid@],
            None => !quoted_for_exit(state@, oid@, now),
        },
{
    match state.get(oid.as_str()) {
        Some(q) => {
            if within(now, q.timestamp, EXIT_STALE_SECONDS) {
                Some(q)
            } else {
                None
            }
        },
        None => None,
    }
}

fn decide_exit<S: Number>(
    pos: &OpenPosition<S>,
    idx: usize,
    ctx: &BoxContext<S>,
    state: &QuoteBook<S>,
    params: &StrategyParams<S>,
    now: i64,
    time_str: &str,
) -> (r: Option<Exit<S>>)
    requires
        ctx.wf(),
        pos.ctx_idx == idx ==> pos.strike_i < ctx.strikes@.len() && pos.strike_j
            < ctx.strikes@.len(),
    ensures
        r == exit_of(
            (Setting {
                idx,
                ctx: *ctx,
                quotes: state@,
                params: *params,
                now,
                time: time_str@,
            }),
            pos@,
        ),
{
    if pos.ctx_idx != idx {
        return None;
    }
    match pos.pos_type {
        PosType::ButterflyCall => {
            return None;
        },
        PosType::ButterflyPut => {
            return None;
        },
        _ => {},
    }
    if within(now, pos._entry_ts, MIN_HOLDING_TIME - 1) {
        return None;
    }
    let si = pos.strike_i;
    let sj = pos.strike_j;
    let (c_lo, c_hi, p_hi, p_lo) = match (
        quote_for_exit(state, &ctx.call_oids[si], now),
        quote_for_exit(state, &ctx.call_oids[sj], now),
        quote_for_exit(state, &ctx.put_oids[sj], now),
        quote_for_exit(state, &ctx.put_oids[si], now),
    ) {
        (Some(c_lo), Some(c_hi), Some(p_hi), Some(p_lo)) => (c_lo, c_hi, p_hi, p_lo),
        _ => {
            return None;
        },
    };
    if ctx.dte == 0 {
        return Some(Exit { value: pos.payout, matured: true });
    }
    let nothing = S::decimal(0, 0);
    match pos.pos_type {
        PosType::LongBox => {
            if nothing.lt(c_lo.b1) && nothing.lt(c_hi.a1) && nothing.lt(p_hi.b1) && nothing.lt(
                p_lo.a1,
            ) {
                let value = c_lo.b1.minus(c_hi.a1).plus(p_hi.b1.minus(p_lo.a1)).minus(
                    box_commission(),
                );
                let mut threshold = params.min_exit_return;
                if ctx.dte <= 4 {
                    threshold = threshold.plus(early_exit_adjustment());
                }
                if pos.payout.lt(value.times(S::decimal(1, 0).plus(threshold))) {
                    return Some(Exit { value, matured: false });
                }
            }
            None
        },
        _ => {
            if nothing.lt(c_lo.a1) && nothing.lt(c_hi.b1) && nothing.lt(p_hi.a1) && nothing.lt(
                p_lo.b1,
            ) {
                let value = c_lo.a1.minus(c_hi.b1).plus(p_hi.a1.minus(p_lo.b1)).plus(
                    box_commission(),
                );
                let mut threshold = params.min_exit_return;
                if ctx.dte <= 4 {
                    threshold = threshold.minus(early_exit_adjustment()).max(nothing);
                }
                if nothing.lt(value) && value.times(S::decimal(1, 0).plus(threshold)).lt(
                    pos.payout,
                ) {
                    return Some(Exit { value, matured: false });
                }
            }
            None
        },
    }
}

fn exit_event<S: Number>(
    pos: &OpenPosition<S>,
    idx: usize,
    ctx: &BoxContext<S>,
    exit: Exit<S>,
    now: i64,
    time_str: &str,
    Ghost(s): Ghost<Setting<S>>,
) -> (r: PortfolioEvent<S>)
    requires
        ctx.wf(),
        pos.strike_i < ctx.strikes@.len(),
        pos.strike_j < ctx.strikes@.len(),
        i64::MIN <= now - pos._entry_ts <= i64::MAX,
        s.idx == idx,
        s.ctx == *ctx,
        s.now == now,
        s.time == time_str@,
    ensures
        r@ == (EventModel::Exit {
            pos_type: pos.pos_type,
            ctx_idx: idx,
            strike_i: pos.strike_i,
            strike_j: pos.strike_j,
            value: exit.value,
            payout: pos.payout,
            pnl_rmb: exit_pnl(pos@, exit.value),
            trade: trade_of(s, pos@, exit),
        }),
{
    let pnl_rmb = match pos.pos_type {
        PosType::LongBox => exit.value.minus(pos.entry_cost).times(contract_size()),
        _ => pos.entry_cost.minus(exit.value).times(contract_size()),
    };
    PortfolioEvent::Exit {
        pos_type: pos.pos_type,
        ctx_idx: idx,
        strike_i: pos.strike_i,
        strike_j: pos.strike_j,
        close_net_or_buy_back: exit.value,
        payout: pos.payout,
        pnl_rmb,
        trade_record: TradeRecord {
            pos_type: pos.pos_type.name(),
            prefix: ctx.prefix.clone(),
            strike_lo: ctx.strikes[pos.strike_i],
            strike_hi: ctx.strikes[pos.strike_j],
            dte_at_entry: pos.dte_at_entry,
            entry_time: pos.entry_time_str.clone(),
            exit_time: String::from_str(time_str),
            entry_cost: pos.entry_cost,
            payout: pos.payout,
            exit_value: exit.value,
            pnl_rmb,
            exit_type: if exit.matured {
                String::from_str("maturity")
            } else {
                String::from_str("early")
            },
            holding_time_sec: now - pos._entry_ts,
        },
    }
}

/// What holds of every entry of a list holds of every entry that is left.
pub proof fn lemma_without_keeps<T>(list: Seq<T>, places: Seq<int>, good: spec_fn(T) -> bool)
    requires
        forall|n: int| 0 <= n < list.len() ==> good(#[trigger] list[n]),
        rising(places, list.len()),
    ensures
        forall|n: int|
            0 <= n < without(list, places).len() ==> good(#[trigger] without(list, places)[n]),
    decreases places.len(),
{
    if places.len() > 0 {
        let next = swap_removed(list, places.last());
        let fewer = places.drop_last();
        assert forall|n: int| 0 <= n < next.len() implies good(#[trigger] next[n]) by {
            assert(good(list[n]));
            assert(good(list[list.len() - 1]));
        }
        assert forall|k: int| 0 <= k < fewer.len() implies 0 <= #[trigger] fewer[k] < next.len() by {
            assert(places[k] < places[places.len() - 1]);
        }
        lemma_without_keeps(next, fewer, good);
        assert(without(list, places) == without(next, fewer));
    } else {
        assert(without(list, places) == list);
    }
}

/// What holds of every position before the exits holds of every position after
/// them.
proof fn lemma_exit_phase_keeps<S: Quantity>(
    turn: Turn<S>,
    s: Setting<S>,
    good: spec_fn(PositionModel<S>) -> bool,
)
    requires
        forall|n: int|
            0 <= n < turn.book.positions.len() ==> good(#[trigger] turn.book.positions[n]),
    ensures
        forall|n: int|
            0 <= n < exit_phase(turn, s).book.positions.len() ==> good(
                #[trigger] exit_phase(turn, s).book.positions[n],
            ),
{
    let positions = turn.book.positions;
    lemma_closed_rising(s, positions, positions.len());
    lemma_without_keeps(positions, closed_at(s, positions, positions.len()), good);
}

/// The turn that a portfolio and a list of events stand for.
pub open spec fn turn_of<S>(portfolio: Portfolio<S>, events: Seq<PortfolioEvent<S>>) -> Turn<S> {
    Turn { book: portfolio@, events: event_models(events) }
}

impl<S: Number> Portfolio<S> {
    /// An empty portfolio with the given cash.
    pub fn new(initial_cash: S) -> (r: Self)
        ensures
            r@ == (PortfolioModel {
                cash: initial_cash,
                margin: zero::<S>(),
                positions: Seq::empty(),
                last_lb: Map::empty(),
                last_sb: Map::empty(),
                last_fly: Map::empty(),
            }),
            r.eval_count == 0,
    {
        let r = Portfolio {
            available_cash: initial_cash,
            locked_margin: S::decimal(0, 0),
            positions: Vec::with_capacity(32),
            eval_count: 0,
            last_lb: HashMap::new(),
            last_sb: HashMap::new(),
            last_fly: HashMap::new(),
        };
        assert(r@.positions =~= Seq::empty());
        r
    }

    fn run_exits(
        &mut self,
        idx: usize,
        ctx: &BoxContext<S>,
        state: &QuoteBook<S>,
        params: &StrategyParams<S>,
        now: i64,
        time_str: &str,
        events: &mut Vec<PortfolioEvent<S>>,
        Ghost(s): Ghost<Setting<S>>,
    )
        requires
            ctx.wf(),
            s == (Setting {
                idx,
                ctx: *ctx,
                quotes: state@,
                params: *params,
                now,
                time: time_str@,
            }),
            forall|n: int|
                0 <= n < old(self)@.positions.len() && (#[trigger] old(self)@.positions[n]).ctx_idx
                    == idx ==> old(self)@.positions[n].strike_i < ctx.strikes@.len()
                    && old(self)@.positions[n].strike_j < ctx.strikes@.len() && holding_time_fits(
                    old(self)@.positions[n],
                    now,
                ),
        ensures
            turn_of(*final(self), final(events)@) == exit_phase(
                turn_of(*old(self), old(events)@),
                s,
            ),
            final(self).eval_count == old(self).eval_count,
    {
        let ghost start = turn_of(*self, events@);
        let ghost positions = self@.positions;
        let count = self.positions.len();
        let mut closed: Vec<usize> = Vec::new();
        assert(as_places(closed@) =~= Seq::empty());
        let mut pi: usize = 0;
        while pi < count
            invariant
                pi <= count,
                count == self.positions@.len(),
                ctx.wf(),
                s == (Setting {
                    idx,
                    ctx: *ctx,
                    quotes: state@,
                    params: *params,
                    now,
                    time: time_str@,
                }),
                positions == start.book.positions,
                self@.positions == positions,
                positions.len() == count,
                self.eval_count == old(self).eval_count,
                forall|n: int|
                    0 <= n < positions.len() && (#[trigger] positions[n]).ctx_idx == idx
                        ==> positions[n].strike_i < ctx.strikes@.len() && positions[n].strike_j
                        < ctx.strikes@.len() && holding_time_fits(positions[n], now),
                turn_of(*self, events@) == after_exits(start, s, pi as nat),
                as_places(closed@) == closed_at(s, positions, pi as nat),
            decreases count - pi,
        {
            let ghost before = turn_of(*self, events@);
            assert(positions[pi as int] == self.positions@[pi as int]@);
            let pos = &self.positions[pi];
            let decision = decide_exit(pos, idx, ctx, state, params, now, time_str);
            if let Some(exit) = decision {
                let event = exit_event(pos, idx, ctx, exit, now, time_str, Ghost(s));
                let paid = exit.value.times(contract_size());
                match pos.pos_type {
                    PosType::LongBox => {
                        self.available_cash = self.available_cash.plus(paid);
                    },
                    _ => {
                        let margin = pos.margin_rmb;
                        self.available_cash = self.available_cash.plus(margin);
                        self.locked_margin = self.locked_margin.minus(margin);
                        self.available_cash = self.available_cash.minus(paid);
                    },
                }
                proof {
                    lemma_event_models_push(events@, event);
                }
                events.push(event);
                proof {
                    assert(as_places(closed@.push(pi)) =~= as_places(closed@).push(pi as int));
                }
                closed.push(pi);
            }
            pi = pi + 1;
        }
        let ghost places = as_places(closed@);
        let ghost done = turn_of(*self, events@);
        proof {
            lemma_closed_rising(s, positions, positions.len());
        }
        let mut left: usize = closed.len();
        assert(places.take(left as int) =~= places);
        while left > 0
            invariant
                left <= places.len(),
                as_places(closed@) == places,
                rising(places, count as nat),
                left > 0 ==> 0 <= places[left - 1] < self.positions@.len(),
                without(self@.positions, places.take(left as int)) == without(positions, places),
                self.eval_count == old(self).eval_count,
                self@.cash == done.book.cash,
                self@.margin == done.book.margin,
                self@.last_lb == done.book.last_lb,
                self@.last_sb == done.book.last_sb,
                self@.last_fly == done.book.last_fly,
            decreases left,
        {
            left = left - 1;
            let i = closed[left];
            proof {
                assert(places[left as int] == i);
                lemma_position_models_swap_removed(self.positions@, i as int);
                assert(places.take(left + 1).drop_last() =~= places.take(left as int));
                assert(places.take(left + 1).last() == i);
                if left > 0 {
                    assert(places[left - 1] < places[left as int]);
                }
            }
            let ghost here = self.positions@;
            self.positions.swap_remove(i);
            assert(self.positions@ == swap_removed(here, i as int));
        }
        assert(places.take(0) =~= Seq::empty());
        assert(turn_of(*self, events@).events == done.events);
    }

    fn already_in(
        &self,
        idx: usize,
        pos_type: PosType,
        i: usize,
        j: usize,
        k: Option<usize>,
    ) -> (r: bool)
        ensures
            r == holds(self@.positions, idx, pos_type, i, j, k),
    {
        let count = self.positions.len();
        let mut n: usize = 0;
        while n < count
            invariant
                n <= count,
                count == self.positions@.len(),
                forall|m: int|
                    0 <= m < n ==> !same_trade(
                        #[trigger] self@.positions[m],
                        idx,
                        pos_type,
                        i,
                        j,
                        k,
                    ),
            decreases count - n,
        {
            let p = &self.positions[n];
            assert(self@.positions[n as int] == p@);
            let same_k = match k {
                Some(k) => p.strike_k == k,
                None => true,
            };
            if p.ctx_idx == idx && p.pos_type == pos_type && p.strike_i == i && p.strike_j == j
                && same_k {
                assert(same_trade(self@.positions[n as int], idx, pos_type, i, j, k));
                return true;
            }
            n = n + 1;
        }
        false
    }

    fn can_afford(&self, needed: S) -> (r: bool)
        ensures
            r == affordable(self@.cash, needed),
    {
        min_cash_threshold::<S>().le(self.available_cash.minus(needed))
    }

    fn run_long(
        &mut self,
        idx: usize,
        ctx: &BoxContext<S>,
        state: &QuoteBook<S>,
        params: &StrategyParams<S>,
        now: i64,
        time_str: &str,
        events: &mut Vec<PortfolioEvent<S>>,
        Ghost(s): Ghost<Setting<S>>,
    )
        requires
            ctx.wf(),
            s == (Setting {
                idx,
                ctx: *ctx,
                quotes: state@,
                params: *params,
                now,
                time: time_str@,
            }),
        ensures
            turn_of(*final(self), final(events)@) == enter_long(
                turn_of(*old(self), old(events)@),
                s,
            ),
            final(self).eval_count == old(self).eval_count,
    {
        match evaluate_long_box(ctx, state, now, params) {
            None => {
                self.last_lb.remove(&idx);
            },
            Some((i, j, cost, payout, _ret, ann, msg)) => {
                let held = self.already_in(idx, PosType::LongBox, i, j, None);
                let cost_rmb = cost.times(contract_size());
                let mut is_new = false;
                if !held && self.can_afford(cost_rmb) {
                    self.available_cash = self.available_cash.minus(cost_rmb);
                    let position = OpenPosition {
                        pos_type: PosType::LongBox,
                        ctx_idx: idx,
                        strike_i: i,
                        strike_j: j,
                        strike_k: 0,
                        entry_cost: cost,
                        payout,
                        margin_rmb: S::decimal(0, 0),
                        dte_at_entry: ctx.dte,
                        _entry_ts: now,
                        entry_time_str: String::from_str(time_str),
                    };
                    proof {
                        lemma_position_models_push(self.positions@, position);
                    }
                    self.positions.push(position);
                    is_new = true;
                }
                let same = match self.last_lb.get(&idx) {
                    Some(last) => last.0 == i && last.1 == j,
                    None => false,
                };
                if !same || is_new {
                    self.last_lb.insert(idx, (i, j));
                    let event = PortfolioEvent::EntryLong {
                        ctx_idx: idx,
                        strike_i: i,
                        strike_j: j,
                        cost,
                        payout,
                        ann,
                        msg,
                        is_new,
                    };
                    proof {
                        lemma_event_models_push(events@, event);
                    }
                    events.push(event);
                }
            },
        }
    }

    fn run_short(
        &mut self,
        idx: usize,
        ctx: &BoxContext<S>,
        state: &QuoteBook<S>,
        params: &StrategyParams<S>,
        now: i64,
        time_str: &str,
        events: &mut Vec<PortfolioEvent<S>>,
        Ghost(s): Ghost<Setting<S>>,
    )
        requires
            ctx.wf(),
            s == (Setting {
                idx,
                ctx: *ctx,
                quotes: state@,
                params: *params,
                now,
                time: time_str@,
            }),
        ensures
            turn_of(*final(self), final(events)@) == enter_short(
                turn_of(*old(self), old(events)@),
                s,
            ),
            final(self).eval_count == old(self).eval_count,
    {
        match evaluate_short_box(ctx, state, now, params) {
            None => {
                self.last_sb.remove(&idx);
            },
            Some((i, j, _margin_price, gain, _ret, ann, msg)) => {
                let payout_val = ctx.strikes[j].minus(ctx.strikes[i]);
                let margin_rmb = S::decimal(2, 0).times(payout_val).times(contract_size());
                let held = self.already_in(idx, PosType::ShortBox, i, j, None);
                let mut is_new = false;
                if !held && self.can_afford(margin_rmb) {
                    self.available_cash =
                    self.available_cash.plus(gain.times(contract_size()).minus(margin_rmb));
                    self.locked_margin = self.locked_margin.plus(margin_rmb);
                    let position = OpenPosition {
                        pos_type: PosType::ShortBox,
                        ctx_idx: idx,
                        strike_i: i,
                        strike_j: j,
                        strike_k: 0,
                        entry_cost: gain,
                        payout: payout_val,
                        margin_rmb,
                        dte_at_entry: ctx.dte,
                        _entry_ts: now,
                        entry_time_str: String::from_str(time_str),
                    };
                    proof {
                        lemma_position_models_push(self.positions@, position);
                    }
                    self.positions.push(position);
                    is_new = true;
                }
                let same = match self.last_sb.get(&idx) {
                    Some(last) => last.0 == i && last.1 == j,
                    None => false,
                };
                if !same || is_new {
                    self.last_sb.insert(idx, (i, j));
                    let event = PortfolioEvent::EntryShort {
                        ctx_idx: idx,
                        strike_i: i,
                        strike_j: j,
                        gain,
                        payout_val,
                        margin_rmb,
                        ann,
                        msg,
                        is_new,
                    };
                    proof {
                        lemma_event_models_push(events@, event);
                    }
                    events.push(event);
                }
            },
        }
    }

    fn run_fly(
        &mut self,
        idx: usize,
        ctx: &BoxContext<S>,
        state: &QuoteBook<S>,
        params: &StrategyParams<S>,
        now: i64,
        time_str: &str,
        events: &mut Vec<PortfolioEvent<S>>,
        Ghost(s): Ghost<Setting<S>>,
    )
        requires
            ctx.wf(),
            s == (Setting {
                idx,
                ctx: *ctx,
                quotes: state@,
                params: *params,
                now,
                time: time_str@,
            }),
        ensures
            turn_of(*final(self), final(events)@) == enter_fly(
                turn_of(*old(self), old(events)@),
                s,
            ),
            final(self).eval_count == old(self).eval_count,
    {
        match evaluate_butterfly(ctx, state, now, params) {
            None => {
                self.last_fly.remove(&idx);
            },
            Some((i, j, k, flavor, margin, profit, ret, _ann, msg)) => {
                let pos_type = flavor.pos_type();
                let held = self.already_in(idx, pos_type, i, j, Some(k));
                let margin_rmb = margin.times(contract_size());
                let mut is_new = false;
                if !held && self.can_afford(margin_rmb) {
                    self.available_cash =
                    self.available_cash.plus(profit.times(contract_size()).minus(margin_rmb));
                    self.locked_margin = self.locked_margin.plus(margin_rmb);
                    let position = OpenPosition {
                        pos_type,
                        ctx_idx: idx,
                        strike_i: i,
                        strike_j: j,
                        strike_k: k,
                        entry_cost: profit,
                        payout: S::decimal(0, 0),
                        margin_rmb,
                        dte_at_entry: ctx.dte,
                        _entry_ts: now,
                        entry_time_str: String::from_str(time_str),
                    };
                    proof {
                        lemma_position_models_push(self.positions@, position);
                    }
                    self.positions.push(position);
                    is_new = true;
                }
                let same = match self.last_fly.get(&idx) {
                    Some(last) => last.0 == i && last.1 == j && last.2 == k && last.3 == flavor,
                    None => false,
                };
                if !same || is_new {
                    self.last_fly.insert(idx, (i, j, k, flavor));
                    let event = PortfolioEvent::EntryButterfly {
                        ctx_idx: idx,
                        flavor,
                        strike_i: i,
                        strike_j: j,
                        strike_k: k,
                        profit,
                        margin_rmb,
                        ann: ret,
                        msg,
                        is_new,
                    };
                    proof {
                        lemma_event_models_push(events@, event);
                    }
                    events.push(event);
                }
            },
        }
    }

    fn run_entries(
        &mut self,
        idx: usize,
        ctx: &BoxContext<S>,
        state: &QuoteBook<S>,
        params: &StrategyParams<S>,
        now: i64,
        time_str: &str,
        events: &mut Vec<PortfolioEvent<S>>,
        Ghost(s): Ghost<Setting<S>>,
    )
        requires
            ctx.wf(),
            s == (Setting {
                idx,
                ctx: *ctx,
                quotes: state@,
                params: *params,
                now,
                time: time_str@,
            }),
        ensures
            turn_of(*final(self), final(events)@) == entry_phase(
                turn_of(*old(self), old(events)@),
                s,
            ),
            final(self).eval_count == old(self).eval_count,
    {
        if ctx.dte <= 5 {
            self.last_lb.remove(&idx);
            self.last_sb.remove(&idx);
            self.last_fly.remove(&idx);
        } else {
            self.run_long(idx, ctx, state, params, now, time_str, events, Ghost(s));
            self.run_short(idx, ctx, state, params, now, time_str, events, Ghost(s));
            self.run_fly(idx, ctx, state, params, now, time_str, events, Ghost(s));
        }
    }

    /// Takes in a quote and works on every context that its instrument is part of:
    /// closes what is worth closing, then enters what is worth entering.
    pub fn update(
        &mut self,
        tick: &TickUpdate<S>,
        state: &mut QuoteBook<S>,
        oid_to_ctx_idx: &ContextIndex,
        eval_contexts: &[BoxContext<S>],
        params: &StrategyParams<S>,
        now_ts: i64,
        time_str: &str,
    ) -> (events: Vec<PortfolioEvent<S>>)
        requires
            listed_contexts_wf(contexts_of(oid_to_ctx_idx@, tick.oid@), eval_contexts@),
            ready(
                old(self)@.positions,
                contexts_of(oid_to_ctx_idx@, tick.oid@),
                eval_contexts@,
                now_ts,
            ),
            old(self).eval_count < u64::MAX,
        ensures
            final(state)@ == old(state)@.insert(tick.oid@, tick.quote_at(now_ts)),
            turn_of(*final(self), events@) == ({
                let list = contexts_of(oid_to_ctx_idx@, tick.oid@);
                contexts_turn(
                    Turn { book: old(self)@, events: Seq::empty() },
                    list,
                    list.len(),
                    eval_contexts@,
                    final(state)@,
                    *params,
                    now_ts,
                    time_str@,
                )
            }),
            final(self).eval_count == old(self).eval_count + 1,
            positions_fit(old(self)@.positions, eval_contexts@) ==> positions_fit(
                final(self)@.positions,
                eval_contexts@,
            ),
            forall|from: i64, to: i64|
                (#[trigger] entered_within(old(self)@.positions, from, to)) && from <= now_ts <= to
                    ==> entered_within(final(self)@.positions, from, to),
    {
        let mut events: Vec<PortfolioEvent<S>> = Vec::new();
        state.insert(
            tick.oid.clone(),
            TickData {
                a1: tick.a1,
                b1: tick.b1,
                a1_v: tick.a1_v,
                b1_v: tick.b1_v,
                timestamp: now_ts,
            },
        );
        let ghost start = Turn { book: self@, events: Seq::<EventModel<S>>::empty() };
        let ghost list = contexts_of(oid_to_ctx_idx@, tick.oid@);
        assert(event_models(events@) =~= Seq::empty());
        if let Some(ctx_indices) = oid_to_ctx_idx.get(tick.oid.as_str()) {
            let count = ctx_indices.len();
            let mut n: usize = 0;
            while n < count
                invariant
                    n <= count,
                    count == ctx_indices@.len(),
                    list == ctx_indices@,
                    listed_contexts_wf(list, eval_contexts@),
                    ready(self@.positions, list, eval_contexts@, now_ts),
                    positions_fit(old(self)@.positions, eval_contexts@) ==> positions_fit(
                        self@.positions,
                        eval_contexts@,
                    ),
                    self.eval_count == old(self).eval_count,
                    forall|from: i64, to: i64|
                        (#[trigger] entered_within(old(self)@.positions, from, to)) && from <= now_ts
                            <= to ==> entered_within(self@.positions, from, to),
                    turn_of(*self, events@) == contexts_turn(
                        start,
                        list,
                        n as nat,
                        eval_contexts@,
                        state@,
                        *params,
                        now_ts,
                        time_str@,
                    ),
                decreases count - n,
            {
                let idx = ctx_indices[n];
                let ctx = &eval_contexts[idx];
                let ghost s = setting_at(
                    list,
                    n as int,
                    eval_contexts@,
                    state@,
                    *params,
                    now_ts,
                    time_str@,
                );
                let ghost before = turn_of(*self, events@);
                assert(before.book.positions.len() == self.positions.len());
                assert forall|m: int|
                    0 <= m < self@.positions.len() && (#[trigger] self@.positions[m]).ctx_idx
                        == idx implies self@.positions[m].strike_i < ctx.strikes@.len()
                    && self@.positions[m].strike_j < ctx.strikes@.len() && holding_time_fits(
                    self@.positions[m],
                    now_ts,
                ) by {
                    assert(list.contains(list[n as int]));
                }
                self.run_exits(
                    idx,
                    ctx,
                    state,
                    params,
                    now_ts,
                    time_str,
                    &mut events,
                    Ghost(s),
                );
                self.run_entries(
                    idx,
                    ctx,
                    state,
                    params,
                    now_ts,
                    time_str,
                    &mut events,
                    Ghost(s),
                );
                proof {
                    lemma_context_turn_keeps_fit(before, s, list, eval_contexts@);
                    assert forall|from: i64, to: i64|
                        (#[trigger] entered_within(old(self)@.positions, from, to)) && from <= now_ts
                            <= to implies entered_within(self@.positions, from, to) by {
                        lemma_context_turn_keeps_times(before, s, from, to);
                    }
                }
                n = n + 1;
            }
        }
        self.eval_count = self.eval_count + 1;
        events
    }
}

/// The entries of a context add positions that are entered just now.
proof fn lemma_context_turn_keeps_times<S: Quantity>(
    turn: Turn<S>,
    s: Setting<S>,
    from: i64,
    to: i64,
)
    requires
        entered_within(turn.book.positions, from, to),
        from <= s.now <= to,
    ensures
        entered_within(context_turn(turn, s).book.positions, from, to),
{
    lemma_exit_phase_keeps(turn, s, |p: PositionModel<S>| from <= p.entry_ts <= to);
    let t0 = exit_phase(turn, s);
    assert(entered_within(t0.book.positions, from, to));
    let t1 = enter_long(t0, s);
    assert(entered_within(t1.book.positions, from, to));
    let t2 = enter_short(t1, s);
    assert(entered_within(t2.book.positions, from, to));
}

/// The entries of a context add positions that fit, entered just now.
proof fn lemma_context_turn_keeps_fit<S: Quantity>(
    turn: Turn<S>,
    s: Setting<S>,
    list: Seq<usize>,
    contexts: Seq<BoxContext<S>>,
)
    requires
        s.idx < contexts.len(),
        s.ctx == contexts[s.idx as int],
        ready(turn.book.positions, list, contexts, s.now),
    ensures
        positions_fit(turn.book.positions, contexts) ==> positions_fit(
            context_turn(turn, s).book.positions,
            contexts,
        ),
        ready(context_turn(turn, s).book.positions, list, contexts, s.now),
{
    lemma_best_box_in_range(true, s.ctx, s.quotes, s.now, s.params.min_return);
    lemma_best_box_in_range(false, s.ctx, s.quotes, s.now, s.params.min_return);
    lemma_best_fly_in_range(s.ctx, s.quotes, s.now, s.params.min_return_butterfly);
    let t0 = exit_phase(turn, s);
    let t1 = enter_long(t0, s);
    let t2 = enter_short(t1, s);
    if positions_fit(turn.book.positions, contexts) {
        lemma_exit_phase_keeps(turn, s, |p: PositionModel<S>| position_fits(p, contexts));
        assert(positions_fit(t0.book.positions, contexts));
        assert(positions_fit(t1.book.positions, contexts));
        assert(positions_fit(t2.book.positions, contexts));
    }
    lemma_exit_phase_keeps(
        turn,
        s,
        |p: PositionModel<S>|
            list.contains(p.ctx_idx) ==> position_fits(p, contexts) && holding_time_fits(p, s.now),
    );
    assert(ready(t0.book.positions, list, contexts, s.now));
    assert(ready(t1.book.positions, list, contexts, s.now));
    assert(ready(t2.book.positions, list, contexts, s.now));
}

} // verus!
