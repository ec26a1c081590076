//! Which boxes and butterflies the scanner offers, and what they cost and bring, in exact
//! arithmetic.

use vstd::prelude::*;
use crate::exact::{exact, lemma_whole_value, pow10, real_decimal};
use crate::exit_laws::{brings, costs, Legs};
use crate::market::{BoxContext, Flavor, TickData};
use crate::number::{dec, strictly_ordered};
use crate::ranking::{best_of, first_best, law_best_of_is_first_best};
use crate::scanner::{
    all_open_strikes, best_box, best_fly, box_counts, box_offer, box_offers, box_offers_from,
    box_ret, fly_counts, fly_offer, fly_offers, fly_offers_from, fly_offers_over, fly_ret,
    long_box, open_strikes, short_box, OpenStrike,
};

verus! {

// ---- Which strikes are open ----

/// A quote that a new position may be entered on: two seconds old at most, with both prices, and
/// three contracts on one side.
pub open spec fn fresh<S: crate::number::Quantity>(
    value: spec_fn(S) -> real,
    q: TickData<S>,
    now: i64,
) -> bool {
    &&& now - q.timestamp <= 2
    &&& 0real < value(q.a1)
    &&& 0real < value(q.b1)
    &&& 3real <= value(q.a1_v) || 3real <= value(q.b1_v)
}

/// The strikes that are open are just those whose call and put have a quote to enter on, in
/// their order, each with its own quotes.
pub proof fn law_open_strikes<S: crate::number::Quantity>(
    value: spec_fn(S) -> real,
    ctx: BoxContext<S>,
    quotes: Map<Seq<char>, TickData<S>>,
    now: i64,
    n: nat,
)
    requires
        exact(value),
        n <= usize::MAX,
    ensures
        ({
            let open = open_strikes(ctx, quotes, now, n);
            &&& forall|k: int|
                0 <= k < open.len() ==> {
                    let i = (#[trigger] open[k]).index as int;
                    &&& i < n
                    &&& quotes.contains_key(ctx.call_oids@[i]@)
                    &&& quotes.contains_key(ctx.put_oids@[i]@)
                    &&& open[k].call == quotes[ctx.call_oids@[i]@]
                    &&& open[k].put == quotes[ctx.put_oids@[i]@]
                    &&& fresh(value, open[k].call, now)
                    &&& fresh(value, open[k].put, now)
                }
            &&& forall|i: int|
                #![trigger ctx.call_oids@[i]]
                0 <= i < n && quotes.contains_key(ctx.call_oids@[i]@) && quotes.contains_key(
                    ctx.put_oids@[i]@,
                ) && fresh(value, quotes[ctx.call_oids@[i]@], now) && fresh(
                    value,
                    quotes[ctx.put_oids@[i]@],
                    now,
                ) ==> is_among(open, i)
            &&& forall|k: int, l: int|
                0 <= k < l < open.len() ==> (#[trigger] open[k]).index < (#[trigger] open[l]).index
        }),
    decreases n,
{
    lemma_whole_value(value, 0);
    lemma_whole_value(value, 3);
    if n > 0 {
        law_open_strikes(value, ctx, quotes, now, (n - 1) as nat);
        let rest = open_strikes(ctx, quotes, now, (n - 1) as nat);
        let open = open_strikes(ctx, quotes, now, n);
        assert forall|i: int|
            #![trigger ctx.call_oids@[i]]
            0 <= i < n && quotes.contains_key(ctx.call_oids@[i]@) && quotes.contains_key(
                ctx.put_oids@[i]@,
            ) && fresh(value, quotes[ctx.call_oids@[i]@], now) && fresh(
                value,
                quotes[ctx.put_oids@[i]@],
                now,
            ) implies is_among(open, i) by {
            if i < n - 1 {
                assert(is_among(rest, i));
                let k = choose|k: int| 0 <= k < rest.len() && (#[trigger] rest[k]).index == i;
                assert(open[k] == rest[k]);
            } else {
                assert(open[rest.len() as int].index == i);
            }
        }
    }
}

/// Whether a strike is one of the open ones.
pub open spec fn is_among<S>(open: Seq<OpenStrike<S>>, i: int) -> bool {
    exists|k: int| 0 <= k < open.len() && (#[trigger] open[k]).index == i
}

// ---- What offers cost and bring ----

/// The legs of a box between two open strikes.
pub open spec fn box_legs<S>(lo: OpenStrike<S>, hi: OpenStrike<S>) -> Legs<S> {
    Legs { c_lo: lo.call, c_hi: hi.call, p_hi: hi.put, p_lo: lo.put }
}

/// The spreads of the four legs of a box together.
pub open spec fn spreads<S>(value: spec_fn(S) -> real, l: Legs<S>) -> real {
    (value(l.c_lo.a1) - value(l.c_lo.b1)) + (value(l.c_hi.a1) - value(l.c_hi.b1)) + (value(
        l.p_hi.a1,
    ) - value(l.p_hi.b1)) + (value(l.p_lo.a1) - value(l.p_lo.b1))
}

proof fn lemma_commission<S: crate::number::Quantity>(value: spec_fn(S) -> real)
    requires
        exact(value),
    ensures
        value(dec::<S>(4, 0) * dec::<S>(2, 4)) == 8real / 10_000real,
{
    lemma_whole_value(value, 4);
    reveal_with_fuel(pow10, 5);
    assert(pow10(4) == 10_000);
    assert(real_decimal(2, 4) == (2int as real) / (10_000int as real));
}

/// Entering a long box and closing it on the same quotes loses the four spreads and twice the
/// commission, and a short box likewise; the long box pays the distance of its strikes, and the
/// short box is margined with twice that.
pub proof fn law_round_trip_loses_spreads<S: crate::number::Quantity>(
    value: spec_fn(S) -> real,
    strikes: Seq<S>,
    lo: OpenStrike<S>,
    hi: OpenStrike<S>,
)
    requires
        exact(value),
    ensures
        ({
            let l = box_legs(lo, hi);
            let width = value(strikes[hi.index as int]) - value(strikes[lo.index as int]);
            let (long, short) = (long_box(strikes, lo, hi), short_box(strikes, lo, hi));
            &&& value(long.outlay) - brings(value, l) == spreads(value, l) + 16real / 10_000real
            &&& costs(value, l) - value(short.proceeds) == spreads(value, l) + 16real / 10_000real
            &&& value(long.proceeds) == width
            &&& value(short.outlay) == width + width
        }),
{
    lemma_commission(value);
    lemma_whole_value(value, 2);
}

proof fn lemma_quotient(a: real, b: real)
    by (nonlinear_arith)
    requires
        b != 0real,
    ensures
        (a / b) * b == a,
{
}

/// The return of a long box is its gain over its cost; that of a short box what it brings beyond
/// its payout over its margin. An offer counts if it costs something, or brings more than it
/// pays.
pub proof fn law_returns_of_boxes<S: crate::number::Quantity>(
    value: spec_fn(S) -> real,
    strikes: Seq<S>,
    lo: OpenStrike<S>,
    hi: OpenStrike<S>,
)
    requires
        exact(value),
    ensures
        ({
            let width = value(strikes[hi.index as int]) - value(strikes[lo.index as int]);
            let (long, short) = (long_box(strikes, lo, hi), short_box(strikes, lo, hi));
            &&& value(long.outlay) != 0real ==> value(long.ret) * value(long.outlay) == width
                - value(long.outlay)
            &&& value(short.outlay) != 0real ==> value(short.ret) * value(short.outlay) == value(
                short.proceeds,
            ) - width
            &&& box_counts(true, strikes, lo, hi) == (0real < value(long.outlay))
            &&& box_counts(false, strikes, lo, hi) == (width < value(short.proceeds))
        }),
{
    lemma_whole_value(value, 0);
    let (long, short) = (long_box(strikes, lo, hi), short_box(strikes, lo, hi));
    let width = value(strikes[hi.index as int]) - value(strikes[lo.index as int]);
    if value(long.outlay) != 0real {
        lemma_quotient(width - value(long.outlay), value(long.outlay));
    }
    if value(short.outlay) != 0real {
        lemma_quotient(value(short.proceeds) - width, value(short.outlay));
    }
}

/// A butterfly brings the two middle bids less the two outer asks and the commission, all of one
/// flavor; it is margined with the distance of its strikes and its return is over that. It counts
/// if it brings something and its strikes are evenly spaced.
pub proof fn law_butterfly_offer<S: crate::number::Quantity>(
    value: spec_fn(S) -> real,
    strikes: Seq<S>,
    lo: OpenStrike<S>,
    mid: OpenStrike<S>,
    hi: OpenStrike<S>,
)
    requires
        exact(value),
    ensures
        ({
            let left = value(strikes[mid.index as int]) - value(strikes[lo.index as int]);
            let right = value(strikes[hi.index as int]) - value(strikes[mid.index as int]);
            let even = -1real / 10_000real <= left - right <= 1real / 10_000real;
            let call = fly_offer(Flavor::Call, strikes, lo, mid, hi);
            let put = fly_offer(Flavor::Put, strikes, lo, mid, hi);
            &&& value(call.profit) == value(mid.call.b1) + value(mid.call.b1) - value(lo.call.a1)
                - value(hi.call.a1) - 8real / 10_000real
            &&& value(put.profit) == value(mid.put.b1) + value(mid.put.b1) - value(lo.put.a1)
                - value(hi.put.a1) - 8real / 10_000real
            &&& value(call.margin) == left && value(put.margin) == left
            &&& left != 0real ==> value(call.ret) * left == value(call.profit) && value(put.ret)
                * left == value(put.profit)
            &&& fly_counts(Flavor::Call, strikes, lo, mid, hi) == (even && 0real < value(
                call.profit,
            ))
            &&& fly_counts(Flavor::Put, strikes, lo, mid, hi) == (even && 0real < value(put.profit))
        }),
{
    lemma_commission(value);
    lemma_whole_value(value, 0);
    lemma_whole_value(value, 2);
    reveal_with_fuel(pow10, 5);
    assert(pow10(4) == 10_000);
    assert(real_decimal(1, 4) == (1int as real) / (10_000int as real));
    let call = fly_offer(Flavor::Call, strikes, lo, mid, hi);
    let put = fly_offer(Flavor::Put, strikes, lo, mid, hi);
    let left = value(strikes[mid.index as int]) - value(strikes[lo.index as int]);
    if left != 0real {
        lemma_quotient(value(call.profit), left);
        lemma_quotient(value(put.profit), left);
    }
}

// ---- The best offer ----

proof fn lemma_offers_from_hold<S: crate::number::Quantity>(
    long: bool,
    strikes: Seq<S>,
    open: Seq<OpenStrike<S>>,
    a: int,
    b: int,
    k: int,
)
    requires
        0 <= a < k < b <= open.len(),
        box_counts(long, strikes, open[a], open[k]),
    ensures
        box_offers_from(long, strikes, open, a, b).contains(
            box_offer(long, strikes, open[a], open[k]),
        ),
    decreases b,
{
    let all = box_offers_from(long, strikes, open, a, b);
    let rest = box_offers_from(long, strikes, open, a, b - 1);
    let offer = box_offer(long, strikes, open[a], open[k]);
    if k == b - 1 {
        assert(all[rest.len() as int] == offer);
    } else {
        lemma_offers_from_hold(long, strikes, open, a, b - 1, k);
        let i = choose|i: int| 0 <= i < rest.len() && rest[i] == offer;
        assert(all[i] == offer);
    }
}

proof fn lemma_offers_hold<S: crate::number::Quantity>(
    long: bool,
    strikes: Seq<S>,
    open: Seq<OpenStrike<S>>,
    n: int,
    a: int,
    k: int,
)
    requires
        0 <= a < n <= open.len(),
        a < k < open.len(),
        box_counts(long, strikes, open[a], open[k]),
    ensures
        box_offers(long, strikes, open, n).contains(box_offer(long, strikes, open[a], open[k])),
    decreases n,
{
    let all = box_offers(long, strikes, open, n);
    let rest = box_offers(long, strikes, open, n - 1);
    let more = box_offers_from(long, strikes, open, n - 1, open.len() as int);
    let offer = box_offer(long, strikes, open[a], open[k]);
    if a == n - 1 {
        lemma_offers_from_hold(long, strikes, open, a, open.len() as int, k);
        let i = choose|i: int| 0 <= i < more.len() && more[i] == offer;
        assert(all[rest.len() + i] == offer);
    } else {
        lemma_offers_hold(long, strikes, open, n - 1, a, k);
        let i = choose|i: int| 0 <= i < rest.len() && rest[i] == offer;
        assert(all[i] == offer);
    }
}

/// No two open strikes, in their order, offer a better box than the one that is chosen; where
/// none is chosen no box that counts is above the threshold.
pub proof fn law_chosen_box_is_best<S: crate::number::Quantity>(
    long: bool,
    ctx: BoxContext<S>,
    quotes: Map<Seq<char>, TickData<S>>,
    now: i64,
    floor: S,
    a: int,
    k: int,
)
    requires
        strictly_ordered::<S>(),
        0 <= a < k < all_open_strikes(ctx, quotes, now).len(),
        ({
            let open = all_open_strikes(ctx, quotes, now);
            box_counts(long, ctx.strikes@, open[a], open[k])
        }),
    ensures
        ({
            let open = all_open_strikes(ctx, quotes, now);
            let offer = box_offer(long, ctx.strikes@, open[a], open[k]);
            match best_box(long, ctx, quotes, now, floor) {
                Some(best) => floor.spec_lt(best.ret) && !best.ret.spec_lt(offer.ret),
                None => !floor.spec_lt(offer.ret),
            }
        }),
{
    let open = all_open_strikes(ctx, quotes, now);
    let offers = box_offers(long, ctx.strikes@, open, open.len() as int);
    let offer = box_offer(long, ctx.strikes@, open[a], open[k]);
    lemma_offers_hold(long, ctx.strikes@, open, open.len() as int, a, k);
    let at = choose|i: int| 0 <= i < offers.len() && offers[i] == offer;
    law_best_of_is_first_best(offers, box_ret::<S>(), floor);
    let ret = box_ret::<S>();
    assert(ret(offers[at]) == offer.ret);
    if let Some(best) = best_of(offers, ret, floor) {
        let index = choose|index: int|
            #[trigger] first_best(offers, ret, floor, index) && offers[index] == best;
        assert(!(ret(offers[index]).spec_lt(ret(offers[at]))));
    }
}

proof fn lemma_flies_over_hold<S: crate::number::Quantity>(
    strikes: Seq<S>,
    open: Seq<OpenStrike<S>>,
    flavor: Flavor,
    a: int,
    b: int,
    c: int,
    k: int,
)
    requires
        0 <= a < b < k < c <= open.len(),
        fly_counts(flavor, strikes, open[a], open[b], open[k]),
    ensures
        fly_offers_over(strikes, open, a, b, c).contains(
            fly_offer(flavor, strikes, open[a], open[b], open[k]),
        ),
    decreases c,
{
    let all = fly_offers_over(strikes, open, a, b, c);
    let rest = fly_offers_over(strikes, open, a, b, c - 1);
    let offer = fly_offer(flavor, strikes, open[a], open[b], open[k]);
    if k == c - 1 {
        let first = if fly_counts(Flavor::Call, strikes, open[a], open[b], open[k]) {
            1int
        } else {
            0int
        };
        match flavor {
            Flavor::Call => {
                assert(all[rest.len() as int] == offer);
            },
            Flavor::Put => {
                assert(all[rest.len() + first] == offer);
            },
        }
    } else {
        lemma_flies_over_hold(strikes, open, flavor, a, b, c - 1, k);
        let i = choose|i: int| 0 <= i < rest.len() && rest[i] == offer;
        assert(all[i] == offer);
    }
}

proof fn lemma_flies_from_hold<S: crate::number::Quantity>(
    strikes: Seq<S>,
    open: Seq<OpenStrike<S>>,
    flavor: Flavor,
    a: int,
    n: int,
    b: int,
    k: int,
)
    requires
        0 <= a < b < n <= open.len(),
        b < k < open.len(),
        fly_counts(flavor, strikes, open[a], open[b], open[k]),
    ensures
        fly_offers_from(strikes, open, a, n).contains(
            fly_offer(flavor, strikes, open[a], open[b], open[k]),
        ),
    decreases n,
{
    let all = fly_offers_from(strikes, open, a, n);
    let rest = fly_offers_from(strikes, open, a, n - 1);
    let more = fly_offers_over(strikes, open, a, n - 1, open.len() as int);
    let offer = fly_offer(flavor, strikes, open[a], open[b], open[k]);
    if b == n - 1 {
        lemma_flies_over_hold(strikes, open, flavor, a, b, open.len() as int, k);
        let i = choose|i: int| 0 <= i < more.len() && more[i] == offer;
        assert(all[rest.len() + i] == offer);
    } else {
        lemma_flies_from_hold(strikes, open, flavor, a, n - 1, b, k);
        let i = choose|i: int| 0 <= i < rest.len() && rest[i] == offer;
        assert(all[i] == offer);
    }
}

proof fn lemma_flies_hold<S: crate::number::Quantity>(
    strikes: Seq<S>,
    open: Seq<OpenStrike<S>>,
    flavor: Flavor,
    n: int,
    a: int,
    b: int,
    k: int,
)
    requires
        0 <= a < n <= open.len(),
        a < b < k < open.len(),
        fly_counts(flavor, strikes, open[a], open[b], open[k]),
    ensures
        fly_offers(strikes, open, n).contains(
            fly_offer(flavor, strikes, open[a], open[b], open[k]),
        ),
    decreases n,
{
    let all = fly_offers(strikes, open, n);
    let rest = fly_offers(strikes, open, n - 1);
    let more = fly_offers_from(strikes, open, n - 1, open.len() as int);
    let offer = fly_offer(flavor, strikes, open[a], open[b], open[k]);
    if a == n - 1 {
        lemma_flies_from_hold(strikes, open, flavor, a, open.len() as int, b, k);
        let i = choose|i: int| 0 <= i < more.len() && more[i] == offer;
        assert(all[rest.len() + i] == offer);
    } else {
        lemma_flies_hold(strikes, open, flavor, n - 1, a, b, k);
        let i = choose|i: int| 0 <= i < rest.len() && rest[i] == offer;
        assert(all[i] == offer);
    }
}

/// No three open strikes, in their order, offer a better butterfly, of calls or of puts, than the
/// one that is chosen.
pub proof fn law_chosen_butterfly_is_best<S: crate::number::Quantity>(
    ctx: BoxContext<S>,
    quotes: Map<Seq<char>, TickData<S>>,
    now: i64,
    floor: S,
    flavor: Flavor,
    a: int,
    b: int,
    k: int,
)
    requires
        strictly_ordered::<S>(),
        0 <= a < b < k < all_open_strikes(ctx, quotes, now).len(),
        ({
            let open = all_open_strikes(ctx, quotes, now);
            fly_counts(flavor, ctx.strikes@, open[a], open[b], open[k])
        }),
    ensures
        ({
            let open = all_open_strikes(ctx, quotes, now);
            let offer = fly_offer(flavor, ctx.strikes@, open[a], open[b], open[k]);
            match best_fly(ctx, quotes, now, floor) {
                Some(best) => floor.spec_lt(best.ret) && !best.ret.spec_lt(offer.ret),
                None => !floor.spec_lt(offer.ret),
            }
        }),
{
    let open = all_open_strikes(ctx, quotes, now);
    let offers = fly_offers(ctx.strikes@, open, open.len() as int);
    let offer = fly_offer(flavor, ctx.strikes@, open[a], open[b], open[k]);
    lemma_flies_hold(ctx.strikes@, open, flavor, open.len() as int, a, b, k);
    let at = choose|i: int| 0 <= i < offers.len() && offers[i] == offer;
    let ret = fly_ret::<S>();
    law_best_of_is_first_best(offers, ret, floor);
    assert(ret(offers[at]) == offer.ret);
    if let Some(best) = best_of(offers, ret, floor) {
        let index = choose|index: int|
            #[trigger] first_best(offers, ret, floor, index) && offers[index] == best;
        assert(!(ret(offers[index]).spec_lt(ret(offers[at]))));
    }
}

} // verus!
