//! What open and closed positions are worth, in exact arithmetic.

use vstd::prelude::*;
use crate::exact::{exact, lemma_whole_value, pow10, real_decimal, real_max};
use crate::exit_laws::{brings, costs, Legs};
use crate::market::{BoxContext, PosType, PositionModel, TickData, TradeModel};
use crate::number::dec;
use crate::optimizer::{sim_exit, SimKind, SimSetting, SimplePos};
use crate::replay::{market_value, open_value, payout_value};
use crate::report::{return_pct, trade_return};

verus! {

// ---- Open positions ----

/// The quotes of the legs of a position.
pub open spec fn position_legs<S>(
    ctx: BoxContext<S>,
    quotes: Map<Seq<char>, TickData<S>>,
    p: PositionModel<S>,
) -> Legs<S> {
    let (i, j) = (p.strike_i as int, p.strike_j as int);
    Legs {
        c_lo: quotes[ctx.call_oids@[i]@],
        c_hi: quotes[ctx.call_oids@[j]@],
        p_hi: quotes[ctx.put_oids@[j]@],
        p_lo: quotes[ctx.put_oids@[i]@],
    }
}

/// Every leg of a position has a quote.
pub open spec fn all_quoted<S>(
    ctx: BoxContext<S>,
    quotes: Map<Seq<char>, TickData<S>>,
    p: PositionModel<S>,
) -> bool {
    let (i, j) = (p.strike_i as int, p.strike_j as int);
    &&& quotes.contains_key(ctx.call_oids@[i]@)
    &&& quotes.contains_key(ctx.call_oids@[j]@)
    &&& quotes.contains_key(ctx.put_oids@[j]@)
    &&& quotes.contains_key(ctx.put_oids@[i]@)
}

/// On quotes with all prices a long box is worth what closing it brings and a short box owes what
/// buying it back costs, both before commission and never less than nothing. Without quotes a
/// long box counts at its cost and a short box at its payout.
pub proof fn law_market_value_of_boxes<S: crate::number::Quantity>(
    value: spec_fn(S) -> real,
    ctx: BoxContext<S>,
    quotes: Map<Seq<char>, TickData<S>>,
    p: PositionModel<S>,
)
    requires
        exact(value),
        p.pos_type == PosType::LongBox || p.pos_type == PosType::ShortBox,
    ensures
        ({
            let l = position_legs(ctx, quotes, p);
            let all_prices = 0real < value(l.c_lo.a1) && 0real < value(l.c_lo.b1) && 0real < value(
                l.c_hi.a1,
            ) && 0real < value(l.c_hi.b1) && 0real < value(l.p_hi.a1) && 0real < value(l.p_hi.b1)
                && 0real < value(l.p_lo.a1) && 0real < value(l.p_lo.b1);
            let worth = value(market_value(ctx, quotes, p));
            &&& !all_quoted(ctx, quotes, p) ==> worth == if p.pos_type == PosType::LongBox {
                value(p.entry_cost)
            } else {
                value(p.payout)
            }
            &&& all_quoted(ctx, quotes, p) && all_prices ==> worth == if p.pos_type
                == PosType::LongBox {
                real_max(brings(value, l) + 8real / 10_000real, 0real)
            } else {
                real_max(costs(value, l) - 8real / 10_000real, 0real)
            }
        }),
{
    lemma_whole_value(value, 0);
}

proof fn lemma_size<S: crate::number::Quantity>(value: spec_fn(S) -> real, price: S)
    requires
        exact(value),
    ensures
        value(price * dec::<S>(10_000, 0)) == 10_000real * value(price),
{
    lemma_whole_value(value, 10_000);
    lemma_order(value(price), 10_000real);
}

proof fn lemma_order(a: real, b: real)
    by (nonlinear_arith)
    ensures
        a * b == b * a,
{
}

/// One more position adds to the value of the open positions what it is worth if it is a long
/// box, takes off what it owes if it is a short box, and leaves it if it is a butterfly; on the
/// present quotes as well as at maturity, where a box pays its payout.
pub proof fn law_one_more_position<S: crate::number::Quantity>(
    value: spec_fn(S) -> real,
    positions: Seq<PositionModel<S>>,
    contexts: Seq<BoxContext<S>>,
    quotes: Map<Seq<char>, TickData<S>>,
    n: nat,
)
    requires
        exact(value),
        0 < n <= positions.len(),
    ensures
        ({
            let p = positions[n - 1];
            let now = value(open_value(positions, contexts, quotes, n)) - value(
                open_value(positions, contexts, quotes, (n - 1) as nat),
            );
            let later = value(payout_value(positions, n)) - value(
                payout_value(positions, (n - 1) as nat),
            );
            let worth = value(market_value(contexts[p.ctx_idx as int], quotes, p));
            match p.pos_type {
                PosType::LongBox => now == 10_000real * worth && later == 10_000real * value(
                    p.payout,
                ),
                PosType::ShortBox => now == -(10_000real * worth) && later == -(10_000real * value(
                    p.payout,
                )),
                _ => now == 0real && later == 0real,
            }
        }),
{
    let p = positions[n - 1];
    lemma_size(value, market_value(contexts[p.ctx_idx as int], quotes, p));
    lemma_size(value, p.payout);
}

// ---- Closed trades ----

proof fn lemma_quotient(a: real, b: real)
    by (nonlinear_arith)
    requires
        b != 0real,
    ensures
        (a / b) * b == a,
{
}

/// The return of a closed long box is its profit over what it cost, that of a short box its
/// profit over its margin, twice the payout; ten thousand units to the contract. Boxes of next to
/// no cost or payout have none, nor have other trades.
pub proof fn law_return_of_trade<S: crate::number::Quantity>(
    value: spec_fn(S) -> real,
    t: TradeModel<S>,
)
    requires
        exact(value),
    ensures
        t.pos_type == "LongBox"@ ==> match trade_return(t) {
            Some(r) => {
                &&& 1real / 1_000_000real < value(t.entry_cost)
                &&& value(r) * (value(t.entry_cost) * 10_000real) == value(t.pnl_rmb)
            },
            None => t.pos_type == "ShortBox"@ || value(t.entry_cost) <= 1real / 1_000_000real,
        },
        t.pos_type != "LongBox"@ && t.pos_type == "ShortBox"@ ==> match trade_return(t) {
            Some(r) => {
                &&& 1real / 1_000_000real < value(t.payout)
                &&& value(r) * (2real * value(t.payout) * 10_000real) == value(t.pnl_rmb)
            },
            None => value(t.payout) <= 1real / 1_000_000real,
        },
        t.pos_type != "LongBox"@ && t.pos_type != "ShortBox"@ ==> trade_return(t) is None,
{
    reveal_strlit("LongBox");
    reveal_strlit("ShortBox");
    assert("LongBox"@.len() != "ShortBox"@.len());
    lemma_whole_value(value, 2);
    lemma_whole_value(value, 10_000);
    reveal_with_fuel(pow10, 7);
    assert(pow10(6) == 1_000_000);
    assert(real_decimal(1, 6) == (1int as real) / (1_000_000int as real));
    let (a, b) = (value(t.entry_cost) * 10_000real, 2real * value(t.payout) * 10_000real);
    if a != 0real {
        lemma_quotient(value(t.pnl_rmb), a);
    }
    if b != 0real {
        lemma_quotient(value(t.pnl_rmb), b);
    }
}

// ---- The simulation ----

/// The legs of a simulated position.
pub open spec fn sim_legs<S>(
    s: SimSetting<S>,
    quotes: Seq<TickData<S>>,
    p: SimplePos<S>,
) -> Legs<S> {
    let (i, j) = (p.strike_i as int, p.strike_j as int);
    Legs {
        c_lo: quotes[s.ctx.call_idx@[i] as int],
        c_hi: quotes[s.ctx.call_idx@[j] as int],
        p_hi: quotes[s.ctx.put_idx@[j] as int],
        p_lo: quotes[s.ctx.put_idx@[i] as int],
    }
}

/// A simulated box is closed before maturity if and only if it was held for a minute, all legs
/// were quoted within two seconds, and closing is worth it: for a long box the proceeds, grown by
/// the exit threshold, exceed the payout; for a short box buying back costs something but, grown
/// by the threshold, less than the payout. Butterflies stay.
pub proof fn law_simulated_exit<S: crate::number::Quantity>(
    value: spec_fn(S) -> real,
    s: SimSetting<S>,
    quotes: Seq<TickData<S>>,
    p: SimplePos<S>,
)
    requires
        exact(value),
    ensures
        ({
            let l = sim_legs(s, quotes, p);
            let fresh = s.now - l.c_lo.timestamp <= 2 && s.now - l.c_hi.timestamp <= 2 && s.now
                - l.p_hi.timestamp <= 2 && s.now - l.p_lo.timestamp <= 2;
            let ready = fresh && s.now - p.entry_ts >= 60;
            let least = value(s.params.min_exit_return);
            let long = 1real + if s.dte <= 4 {
                least + 4real / 100real
            } else {
                least
            };
            let short = 1real + if s.dte <= 4 {
                real_max(least - 4real / 100real, 0real)
            } else {
                least
            };
            match sim_exit(s, quotes, p) {
                Some(price) => ready && match p.kind {
                    SimKind::LongBox => value(price) == brings(value, l) && value(p.payout) < value(
                        price,
                    ) * long,
                    SimKind::ShortBox => value(price) == costs(value, l) && 0real < value(price)
                        && value(price) * short < value(p.payout),
                    _ => false,
                },
                None => ready ==> match p.kind {
                    SimKind::LongBox => brings(value, l) * long <= value(p.payout),
                    SimKind::ShortBox => costs(value, l) <= 0real || value(p.payout) <= costs(
                        value,
                        l,
                    ) * short,
                    _ => true,
                },
            }
        }),
{
    lemma_whole_value(value, 0);
    lemma_whole_value(value, 1);
    lemma_whole_value(value, 4);
    reveal_with_fuel(pow10, 5);
    assert(pow10(2) == 100);
    assert(pow10(4) == 10_000);
    assert(real_decimal(2, 4) == (2int as real) / (10_000int as real));
    assert(real_decimal(4, 2) == (4int as real) / (100int as real));
    assert(value(dec::<S>(4, 0) * dec::<S>(2, 4)) == 8real / 10_000real);
}

/// The return in percent of a long box over its cost, and of a short box over its margin, at a
/// price.
pub proof fn law_percent_of_trade<S: crate::number::Quantity>(
    value: spec_fn(S) -> real,
    t: TradeModel<S>,
    price: S,
)
    requires
        exact(value),
    ensures
        t.pos_type == "LongBox"@ && 0real < value(t.entry_cost) ==> value(return_pct(t, price))
            * value(t.entry_cost) == 100real * (value(price) - value(t.entry_cost)),
        t.pos_type == "ShortBox"@ && 0real < value(t.payout) ==> value(return_pct(t, price)) * (
        2real * value(t.payout)) == 100real * (value(t.entry_cost) - value(price)),
{
    reveal_strlit("LongBox");
    reveal_strlit("ShortBox");
    assert("LongBox"@.len() != "ShortBox"@.len());
    lemma_whole_value(value, 0);
    lemma_whole_value(value, 2);
    lemma_whole_value(value, 100);
    if t.pos_type == "LongBox"@ && 0real < value(t.entry_cost) {
        lemma_percent(value(price) - value(t.entry_cost), value(t.entry_cost));
    }
    if t.pos_type == "ShortBox"@ && 0real < value(t.payout) {
        lemma_percent(value(t.entry_cost) - value(price), 2real * value(t.payout));
    }
}

proof fn lemma_percent(a: real, b: real)
    requires
        0real < b,
    ensures
        a / b * 100real * b == 100real * a,
{
    lemma_quotient(a, b);
    lemma_scaled(a / b, b, a);
}

proof fn lemma_scaled(q: real, b: real, a: real)
    by (nonlinear_arith)
    requires
        q * b == a,
    ensures
        q * 100real * b == 100real * a,
{
}

} // verus!
