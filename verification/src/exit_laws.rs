//! When boxes are closed, in exact arithmetic: what an early exit brings or costs, and how it
//! answers to the quotes.

use vstd::prelude::*;
use crate::exact::{exact, lemma_whole_value, pow10, real_decimal, real_max};
use crate::market::{PosType, PositionModel, TickData};
use crate::number::dec;
use crate::trader::{exit_of, exit_pnl, Setting};

verus! {

/// The quotes of the four legs of a box: the lower and the upper call, the upper and the lower
/// put.
pub ghost struct Legs<S> {
    pub c_lo: TickData<S>,
    pub c_hi: TickData<S>,
    pub p_hi: TickData<S>,
    pub p_lo: TickData<S>,
}

/// The legs of a position in its context.
pub open spec fn legs_of<S>(s: Setting<S>, pos: PositionModel<S>) -> Legs<S> {
    let (i, j) = (pos.strike_i as int, pos.strike_j as int);
    Legs {
        c_lo: s.quotes[s.ctx.call_oids@[i]@],
        c_hi: s.quotes[s.ctx.call_oids@[j]@],
        p_hi: s.quotes[s.ctx.put_oids@[j]@],
        p_lo: s.quotes[s.ctx.put_oids@[i]@],
    }
}

/// Every leg has a quote that is at most an hour old.
pub open spec fn legs_known<S>(s: Setting<S>, pos: PositionModel<S>) -> bool {
    let (i, j) = (pos.strike_i as int, pos.strike_j as int);
    let l = legs_of(s, pos);
    &&& s.quotes.contains_key(s.ctx.call_oids@[i]@) && s.now - l.c_lo.timestamp <= 3600
    &&& s.quotes.contains_key(s.ctx.call_oids@[j]@) && s.now - l.c_hi.timestamp <= 3600
    &&& s.quotes.contains_key(s.ctx.put_oids@[j]@) && s.now - l.p_hi.timestamp <= 3600
    &&& s.quotes.contains_key(s.ctx.put_oids@[i]@) && s.now - l.p_lo.timestamp <= 3600
}

/// A box of the context that was held for ten seconds and whose legs are known.
pub open spec fn may_close<S>(s: Setting<S>, pos: PositionModel<S>) -> bool {
    &&& pos.ctx_idx == s.idx
    &&& s.now - pos.entry_ts >= 10
    &&& legs_known(s, pos)
}

/// What the sides of the legs bring per unit when a long box is closed, after commission.
pub open spec fn brings<S>(value: spec_fn(S) -> real, l: Legs<S>) -> real {
    value(l.c_lo.b1) - value(l.c_hi.a1) + value(l.p_hi.b1) - value(l.p_lo.a1) - 8real / 10_000real
}

/// What the sides of the legs cost per unit when a short box is bought back, with commission.
pub open spec fn costs<S>(value: spec_fn(S) -> real, l: Legs<S>) -> real {
    value(l.c_lo.a1) - value(l.c_hi.b1) + value(l.p_hi.a1) - value(l.p_lo.b1) + 8real / 10_000real
}

/// By how much more the proceeds of a long box count at an early exit.
pub open spec fn long_growth<S>(value: spec_fn(S) -> real, s: Setting<S>) -> real {
    if s.ctx.dte <= 4 {
        1real + (value(s.params.min_exit_return) + 4real / 100real)
    } else {
        1real + value(s.params.min_exit_return)
    }
}

/// By how much more the cost of a short box counts at an early exit.
pub open spec fn short_growth<S>(value: spec_fn(S) -> real, s: Setting<S>) -> real {
    if s.ctx.dte <= 4 {
        1real + real_max(value(s.params.min_exit_return) - 4real / 100real, 0real)
    } else {
        1real + value(s.params.min_exit_return)
    }
}

proof fn lemma_constants<S: crate::number::Quantity>(value: spec_fn(S) -> real)
    requires
        exact(value),
    ensures
        value(dec::<S>(0, 0)) == 0real,
        value(dec::<S>(1, 0)) == 1real,
        value(dec::<S>(4, 0) * dec::<S>(2, 4)) == 8real / 10_000real,
        value(dec::<S>(4, 2)) == 4real / 100real,
{
    lemma_whole_value(value, 0);
    lemma_whole_value(value, 1);
    lemma_whole_value(value, 4);
    reveal_with_fuel(pow10, 5);
    assert(pow10(2) == 100);
    assert(pow10(4) == 10_000);
    assert(real_decimal(2, 4) == (2int as real) / (10_000int as real));
    assert(real_decimal(4, 2) == (4int as real) / (100int as real));
}

/// A long box is closed before maturity if and only if the sides that it is closed on are
/// quoted and the proceeds, grown by the exit threshold, exceed its payout; it then brings these
/// proceeds.
pub proof fn law_long_box_is_closed_when_worth_it<S: crate::number::Quantity>(
    value: spec_fn(S) -> real,
    s: Setting<S>,
    pos: PositionModel<S>,
)
    requires
        exact(value),
        may_close(s, pos),
        pos.pos_type == PosType::LongBox,
        s.ctx.dte != 0,
    ensures
        ({
            let l = legs_of(s, pos);
            let quoted = 0real < value(l.c_lo.b1) && 0real < value(l.c_hi.a1) && 0real < value(
                l.p_hi.b1,
            ) && 0real < value(l.p_lo.a1);
            match exit_of(s, pos) {
                Some(exit) => {
                    &&& quoted
                    &&& value(pos.payout) < value(exit.value) * long_growth(value, s)
                    &&& value(exit.value) == brings(value, l)
                    &&& !exit.matured
                },
                None => !quoted || brings(value, l) * long_growth(value, s) <= value(pos.payout),
            }
        }),
{
    lemma_constants(value);
}

/// A short box is bought back before maturity if and only if the sides that it is bought on are
/// quoted and this costs something but, grown by the exit threshold, less than its payout.
pub proof fn law_short_box_is_closed_when_worth_it<S: crate::number::Quantity>(
    value: spec_fn(S) -> real,
    s: Setting<S>,
    pos: PositionModel<S>,
)
    requires
        exact(value),
        may_close(s, pos),
        pos.pos_type == PosType::ShortBox,
        s.ctx.dte != 0,
    ensures
        ({
            let l = legs_of(s, pos);
            let quoted = 0real < value(l.c_lo.a1) && 0real < value(l.c_hi.b1) && 0real < value(
                l.p_hi.a1,
            ) && 0real < value(l.p_lo.b1);
            match exit_of(s, pos) {
                Some(exit) => {
                    &&& quoted
                    &&& 0real < value(exit.value)
                    &&& value(exit.value) * short_growth(value, s) < value(pos.payout)
                    &&& value(exit.value) == costs(value, l)
                    &&& !exit.matured
                },
                None => {
                    ||| !quoted
                    ||| costs(value, l) <= 0real
                    ||| value(pos.payout) <= costs(value, l) * short_growth(value, s)
                },
            }
        }),
{
    lemma_constants(value);
}

/// Boxes are settled at their payout on the day of maturity; butterflies and boxes of other
/// contexts, boxes that were held for less than ten seconds and boxes with an unknown leg stay.
pub proof fn law_who_stays_and_who_matures<S: crate::number::Quantity>(
    s: Setting<S>,
    pos: PositionModel<S>,
)
    ensures
        !may_close(s, pos) ==> exit_of(s, pos) is None,
        pos.pos_type == PosType::ButterflyCall || pos.pos_type == PosType::ButterflyPut ==> exit_of(
            s,
            pos,
        ) is None,
        (pos.pos_type == PosType::LongBox || pos.pos_type == PosType::ShortBox) && may_close(s, pos)
            && s.ctx.dte == 0 ==> {
            &&& exit_of(s, pos) matches Some(exit)
            &&& exit.value == pos.payout
            &&& exit.matured
        },
{
}

proof fn lemma_grows(a: real, b: real, g: real)
    by (nonlinear_arith)
    requires
        a <= b,
        0real <= g,
    ensures
        a * g <= b * g,
{
}

/// Better quotes never keep a long box open: what is closed at some quotes is closed at higher
/// bids and lower asks too, for no less.
pub proof fn law_better_quotes_close_long_box<S: crate::number::Quantity>(
    value: spec_fn(S) -> real,
    s: Setting<S>,
    better: Setting<S>,
    pos: PositionModel<S>,
)
    requires
        exact(value),
        may_close(s, pos),
        may_close(better, pos),
        pos.pos_type == PosType::LongBox,
        s.ctx.dte != 0,
        better.ctx.dte == s.ctx.dte,
        better.params == s.params,
        0real <= long_growth(value, s),
        ({
            let (l, b) = (legs_of(s, pos), legs_of(better, pos));
            &&& value(l.c_lo.b1) <= value(b.c_lo.b1)
            &&& value(l.p_hi.b1) <= value(b.p_hi.b1)
            &&& 0real < value(b.c_hi.a1) <= value(l.c_hi.a1)
            &&& 0real < value(b.p_lo.a1) <= value(l.p_lo.a1)
        }),
        exit_of(s, pos) is Some,
    ensures
        exit_of(better, pos) is Some,
        value(exit_of(s, pos)->0.value) <= value(exit_of(better, pos)->0.value),
{
    law_long_box_is_closed_when_worth_it(value, s, pos);
    law_long_box_is_closed_when_worth_it(value, better, pos);
    lemma_grows(
        brings(value, legs_of(s, pos)),
        brings(value, legs_of(better, pos)),
        long_growth(value, s),
    );
}

/// Better quotes never keep a short box open: what is bought back at some quotes is bought back at
/// lower asks and higher bids too, for no more, as long as it costs something.
pub proof fn law_better_quotes_close_short_box<S: crate::number::Quantity>(
    value: spec_fn(S) -> real,
    s: Setting<S>,
    better: Setting<S>,
    pos: PositionModel<S>,
)
    requires
        exact(value),
        may_close(s, pos),
        may_close(better, pos),
        pos.pos_type == PosType::ShortBox,
        s.ctx.dte != 0,
        better.ctx.dte == s.ctx.dte,
        better.params == s.params,
        0real <= short_growth(value, s),
        ({
            let (l, b) = (legs_of(s, pos), legs_of(better, pos));
            &&& 0real < value(b.c_lo.a1) <= value(l.c_lo.a1)
            &&& 0real < value(b.p_hi.a1) <= value(l.p_hi.a1)
            &&& value(l.c_hi.b1) <= value(b.c_hi.b1)
            &&& value(l.p_lo.b1) <= value(b.p_lo.b1)
        }),
        0real < costs(value, legs_of(better, pos)),
        exit_of(s, pos) is Some,
    ensures
        exit_of(better, pos) is Some,
        value(exit_of(better, pos)->0.value) <= value(exit_of(s, pos)->0.value),
{
    law_short_box_is_closed_when_worth_it(value, s, pos);
    law_short_box_is_closed_when_worth_it(value, better, pos);
    lemma_grows(
        costs(value, legs_of(better, pos)),
        costs(value, legs_of(s, pos)),
        short_growth(value, s),
    );
}

/// The profit of a closed box: what a long box brought less what it cost, what a short box
/// brought less what it cost to buy back, ten thousand units to the contract. On the same prices
/// a long and a short box have opposite profits.
pub proof fn law_profit_of_exit<S: crate::number::Quantity>(
    value: spec_fn(S) -> real,
    long: PositionModel<S>,
    short: PositionModel<S>,
    price: S,
)
    requires
        exact(value),
        long.pos_type == PosType::LongBox,
        short.pos_type == PosType::ShortBox,
        short.entry_cost == long.entry_cost,
    ensures
        value(exit_pnl(long, price)) == -value(exit_pnl(short, price)),
        value(exit_pnl(long, price)) == 10_000real * (value(price) - value(long.entry_cost)),
{
    lemma_whole_value(value, 10_000);
    lemma_sides(value(price), value(long.entry_cost));
}

proof fn lemma_sides(a: real, b: real)
    by (nonlinear_arith)
    ensures
        (a - b) * 10_000real == 10_000real * (a - b),
        (b - a) * 10_000real == -(10_000real * (a - b)),
{
}

} // verus!
