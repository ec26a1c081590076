//! Scanning a context for the best long box, short box and butterfly.

use vstd::prelude::*;
use vstd::string::*;
use crate::market::{
    box_commission, butterfly_commission, min_vol, spec_box_commission, spec_butterfly_commission,
    spec_min_vol, within, BoxContext, Flavor, QuoteBook, StrategyParams, TickData,
    MAX_STALE_SECONDS,
};
use crate::number::{dec, zero, Number, Quantity};
use crate::ranking::{bar, best_of, lemma_best_of_keeps};

verus! {

// ---- Strikes that can be traded ----

/// A call or put quote is fresh, has a price on both sides and is liquid on one.
pub open spec fn tradable<S: Quantity>(q: TickData<S>, now: i64) -> bool {
    &&& now - q.timestamp <= MAX_STALE_SECONDS
    &&& zero::<S>() < q.a1
    &&& zero::<S>() < q.b1
    &&& spec_min_vol::<S>() <= q.a1_v || spec_min_vol::<S>() <= q.b1_v
}

/// A strike whose call and put can both be traded, with their quotes.
#[derive(Clone, Copy)]
pub struct OpenStrike<S> {
    pub index: usize,
    pub call: TickData<S>,
    pub put: TickData<S>,
}

/// Whether both options of the strike at `index` are quoted and tradable.
pub open spec fn strike_is_open<S: Quantity>(
    ctx: BoxContext<S>,
    quotes: Map<Seq<char>, TickData<S>>,
    now: i64,
    index: int,
) -> bool {
    let call = ctx.call_oids@[index]@;
    let put = ctx.put_oids@[index]@;
    &&& quotes.contains_key(call)
    &&& quotes.contains_key(put)
    &&& tradable(quotes[call], now)
    &&& tradable(quotes[put], now)
}

/// The open strikes among the first `n`, in the order of the context.
pub open spec fn open_strikes<S: Quantity>(
    ctx: BoxContext<S>,
    quotes: Map<Seq<char>, TickData<S>>,
    now: i64,
    n: nat,
) -> Seq<OpenStrike<S>>
    decreases n,
{
    if n == 0 {
        Seq::empty()
    } else {
        let index = n - 1;
        let rest = open_strikes(ctx, quotes, now, index as nat);
        if strike_is_open(ctx, quotes, now, index) {
            rest.push(
                OpenStrike {
                    index: index as usize,
                    call: quotes[ctx.call_oids@[index]@],
                    put: quotes[ctx.put_oids@[index]@],
                },
            )
        } else {
            rest
        }
    }
}

/// All open strikes of a context.
pub open spec fn all_open_strikes<S: Quantity>(
    ctx: BoxContext<S>,
    quotes: Map<Seq<char>, TickData<S>>,
    now: i64,
) -> Seq<OpenStrike<S>> {
    open_strikes(ctx, quotes, now, ctx.strikes@.len())
}

/// The open strikes lie within the context.
pub proof fn lemma_open_strikes_in_range<S: Quantity>(
    ctx: BoxContext<S>,
    quotes: Map<Seq<char>, TickData<S>>,
    now: i64,
    n: nat,
)
    requires
        n <= ctx.strikes@.len(),
    ensures
        forall|k: int|
            0 <= k < open_strikes(ctx, quotes, now, n).len() ==> (#[trigger] open_strikes(
                ctx,
                quotes,
                now,
                n,
            )[k]).index < n,
    decreases n,
{
    assert(ctx.strikes.len() == ctx.strikes@.len());
    if n > 0 {
        lemma_open_strikes_in_range(ctx, quotes, now, (n - 1) as nat);
        let rest = open_strikes(ctx, quotes, now, (n - 1) as nat);
        assert forall|k: int| 0 <= k < open_strikes(ctx, quotes, now, n).len() implies (
        #[trigger] open_strikes(ctx, quotes, now, n)[k]).index < n by {
            if k < rest.len() {
                assert(open_strikes(ctx, quotes, now, n)[k] == rest[k]);
            }
        }
    }
}

/// Whether a quote can be traded.
pub fn is_tradable<S: Number>(q: &TickData<S>, now: i64) -> (r: bool)
    ensures
        r == tradable(*q, now),
{
    let nothing = S::decimal(0, 0);
    within(now, q.timestamp, MAX_STALE_SECONDS) && nothing.lt(q.a1) && nothing.lt(q.b1) && (
    min_vol::<S>().le(q.a1_v) || min_vol::<S>().le(q.b1_v))
}

fn find_open_strikes<S: Number>(ctx: &BoxContext<S>, state: &QuoteBook<S>, now: i64) -> (r: Vec<
    OpenStrike<S>,
>)
    requires
        ctx.wf(),
    ensures
        r@ == all_open_strikes(*ctx, state@, now),
{
    let n = ctx.strikes.len();
    let mut open: Vec<OpenStrike<S>> = Vec::with_capacity(n);
    let mut i: usize = 0;
    while i < n
        invariant
            i <= n,
            n == ctx.strikes@.len(),
            ctx.wf(),
            open@ == open_strikes(*ctx, state@, now, i as nat),
        decreases n - i,
    {
        if let (Some(call), Some(put)) = (
            state.get(ctx.call_oids[i].as_str()),
            state.get(ctx.put_oids[i].as_str()),
        ) {
            if is_tradable(&call, now) && is_tradable(&put, now) {
                open.push(OpenStrike { index: i, call, put });
            }
        }
        i = i + 1;
    }
    open
}

// ---- Boxes ----

/// A box over two open strikes.
pub struct BoxOffer<S> {
    pub lo: OpenStrike<S>,
    pub hi: OpenStrike<S>,
    /// What it binds per unit: the cost of a long box, the margin of a short one.
    pub outlay: S,
    /// What it brings per unit: the payout of a long box, the premium of a short one.
    pub proceeds: S,
    /// The profit as a fraction of the outlay.
    pub ret: S,
}

/// The long box: pays the cost now and receives the distance of the strikes.
pub open spec fn long_box<S: Quantity>(
    strikes: Seq<S>,
    lo: OpenStrike<S>,
    hi: OpenStrike<S>,
) -> BoxOffer<S> {
    let payout = strikes[hi.index as int] - strikes[lo.index as int];
    let cost = (lo.call.a1 - hi.call.b1) + (hi.put.a1 - lo.put.b1) + spec_box_commission::<S>();
    BoxOffer { lo, hi, outlay: cost, proceeds: payout, ret: (payout - cost) / cost }
}

/// The short box: receives the premium now, owes the distance of the strikes and
/// locks twice that distance as margin.
pub open spec fn short_box<S: Quantity>(
    strikes: Seq<S>,
    lo: OpenStrike<S>,
    hi: OpenStrike<S>,
) -> BoxOffer<S> {
    let width = strikes[hi.index as int] - strikes[lo.index as int];
    let margin = width * dec::<S>(2, 0);
    let gain = (lo.call.b1 - hi.call.a1) + (hi.put.b1 - lo.put.a1) - spec_box_commission::<S>();
    BoxOffer { lo, hi, outlay: margin, proceeds: gain, ret: (gain - width) / margin }
}

/// The offer on one side.
pub open spec fn box_offer<S: Quantity>(
    long: bool,
    strikes: Seq<S>,
    lo: OpenStrike<S>,
    hi: OpenStrike<S>,
) -> BoxOffer<S> {
    if long {
        long_box(strikes, lo, hi)
    } else {
        short_box(strikes, lo, hi)
    }
}

/// A long box counts where it costs something, a short one where its premium is
/// above the distance of the strikes.
pub open spec fn box_counts<S: Quantity>(
    long: bool,
    strikes: Seq<S>,
    lo: OpenStrike<S>,
    hi: OpenStrike<S>,
) -> bool {
    if long {
        zero::<S>() < long_box(strikes, lo, hi).outlay
    } else {
        zero::<S>() < short_box(strikes, lo, hi).proceeds - (strikes[hi.index as int]
            - strikes[lo.index as int])
    }
}

/// The boxes that count, with the lower strike `open[a]` and the upper one among
/// `open[a + 1 .. b]`.
pub open spec fn box_offers_from<S: Quantity>(
    long: bool,
    strikes: Seq<S>,
    open: Seq<OpenStrike<S>>,
    a: int,
    b: int,
) -> Seq<BoxOffer<S>>
    decreases b,
{
    if b <= a + 1 || b <= 0 {
        Seq::empty()
    } else {
        let rest = box_offers_from(long, strikes, open, a, b - 1);
        if box_counts(long, strikes, open[a], open[b - 1]) {
            rest.push(box_offer(long, strikes, open[a], open[b - 1]))
        } else {
            rest
        }
    }
}

/// The boxes that count, with the lower strike among the first `a`: by lower
/// strike, then by upper strike.
pub open spec fn box_offers<S: Quantity>(
    long: bool,
    strikes: Seq<S>,
    open: Seq<OpenStrike<S>>,
    a: int,
) -> Seq<BoxOffer<S>>
    decreases a,
{
    if a <= 0 {
        Seq::empty()
    } else {
        box_offers(long, strikes, open, a - 1) + box_offers_from(
            long,
            strikes,
            open,
            a - 1,
            open.len() as int,
        )
    }
}

/// The value by which boxes are ranked.
pub open spec fn box_ret<S: Quantity>() -> spec_fn(BoxOffer<S>) -> S {
    |o: BoxOffer<S>| o.ret
}

/// The best box of a context on one side.
pub open spec fn best_box<S: Quantity>(
    long: bool,
    ctx: BoxContext<S>,
    quotes: Map<Seq<char>, TickData<S>>,
    now: i64,
    floor: S,
) -> Option<BoxOffer<S>> {
    let open = all_open_strikes(ctx, quotes, now);
    best_of(box_offers(long, ctx.strikes@, open, open.len() as int), box_ret(), floor)
}

/// Whether the strikes of an offer lie within the context.
pub open spec fn box_in_range<S>(o: BoxOffer<S>, n: nat) -> bool {
    o.lo.index < n && o.hi.index < n
}

/// The best box lies on strikes of the context.
pub proof fn lemma_best_box_in_range<S: Quantity>(
    long: bool,
    ctx: BoxContext<S>,
    quotes: Map<Seq<char>, TickData<S>>,
    now: i64,
    floor: S,
)
    ensures
        best_box(long, ctx, quotes, now, floor) is Some ==> box_in_range(
            best_box(long, ctx, quotes, now, floor)->0,
            ctx.strikes@.len(),
        ),
{
    let open = all_open_strikes(ctx, quotes, now);
    let n = ctx.strikes@.len();
    lemma_open_strikes_in_range(ctx, quotes, now, n);
    lemma_box_offers_in_range(long, ctx.strikes@, open, open.len() as int, n);
    lemma_best_of_keeps(
        box_offers(long, ctx.strikes@, open, open.len() as int),
        box_ret(),
        floor,
        |o: BoxOffer<S>| box_in_range(o, n),
    );
}

proof fn lemma_box_offers_from_in_range<S: Quantity>(
    long: bool,
    strikes: Seq<S>,
    open: Seq<OpenStrike<S>>,
    a: int,
    b: int,
    n: nat,
)
    requires
        0 <= a,
        b <= open.len(),
        forall|k: int| 0 <= k < open.len() ==> (#[trigger] open[k]).index < n,
    ensures
        forall|k: int|
            0 <= k < box_offers_from(long, strikes, open, a, b).len() ==> box_in_range(
                #[trigger] box_offers_from(long, strikes, open, a, b)[k],
                n,
            ),
    decreases b,
{
    if !(b <= a + 1 || b <= 0) {
        lemma_box_offers_from_in_range(long, strikes, open, a, b - 1, n);
        let rest = box_offers_from(long, strikes, open, a, b - 1);
        let all = box_offers_from(long, strikes, open, a, b);
        assert(open[a].index < n && open[b - 1].index < n);
        assert forall|k: int| 0 <= k < all.len() implies box_in_range(#[trigger] all[k], n) by {
            if k < rest.len() {
                assert(all[k] == rest[k]);
            }
        }
    }
}

proof fn lemma_box_offers_in_range<S: Quantity>(
    long: bool,
    strikes: Seq<S>,
    open: Seq<OpenStrike<S>>,
    a: int,
    n: nat,
)
    requires
        forall|k: int| 0 <= k < open.len() ==> (#[trigger] open[k]).index < n,
    ensures
        forall|k: int|
            0 <= k < box_offers(long, strikes, open, a).len() ==> box_in_range(
                #[trigger] box_offers(long, strikes, open, a)[k],
                n,
            ),
    decreases a,
{
    if a > 0 {
        lemma_box_offers_in_range(long, strikes, open, a - 1, n);
        lemma_box_offers_from_in_range(long, strikes, open, a - 1, open.len() as int, n);
        let rest = box_offers(long, strikes, open, a - 1);
        let more = box_offers_from(long, strikes, open, a - 1, open.len() as int);
        let all = box_offers(long, strikes, open, a);
        assert forall|k: int| 0 <= k < all.len() implies box_in_range(#[trigger] all[k], n) by {
            if k < rest.len() {
                assert(all[k] == rest[k]);
            } else {
                assert(all[k] == more[k - rest.len()]);
            }
        }
    }
}

fn make_box<S: Number>(
    long: bool,
    strikes: &Vec<S>,
    lo: OpenStrike<S>,
    hi: OpenStrike<S>,
) -> (r: Option<BoxOffer<S>>)
    requires
        lo.index < strikes@.len(),
        hi.index < strikes@.len(),
    ensures
        r == (if box_counts(long, strikes@, lo, hi) {
            Some(box_offer(long, strikes@, lo, hi))
        } else {
            None
        }),
{
    let width = strikes[hi.index].minus(strikes[lo.index]);
    let nothing = S::decimal(0, 0);
    if long {
        let cost = lo.call.a1.minus(hi.call.b1).plus(hi.put.a1.minus(lo.put.b1)).plus(
            box_commission(),
        );
        if nothing.lt(cost) {
            let ret = width.minus(cost).over(cost);
            Some(BoxOffer { lo, hi, outlay: cost, proceeds: width, ret })
        } else {
            None
        }
    } else {
        let margin = width.times(S::decimal(2, 0));
        let gain = lo.call.b1.minus(hi.call.a1).plus(hi.put.b1.minus(lo.put.a1)).minus(
            box_commission(),
        );
        let profit = gain.minus(width);
        if nothing.lt(profit) {
            let ret = profit.over(margin);
            Some(BoxOffer { lo, hi, outlay: margin, proceeds: gain, ret })
        } else {
            None
        }
    }
}

/// The best box over a list of open strikes.
pub fn best_box_among<S: Number>(
    long: bool,
    strikes: &Vec<S>,
    open: &Vec<OpenStrike<S>>,
    floor: S,
) -> (r: Option<BoxOffer<S>>)
    requires
        forall|k: int| 0 <= k < open@.len() ==> (#[trigger] open@[k]).index < strikes@.len(),
    ensures
        r == best_of(
            box_offers(long, strikes@, open@, open@.len() as int),
            box_ret(),
            floor,
        ),
        r is Some ==> box_in_range(r->0, strikes@.len()),
{
    let m = open.len();
    let mut best: Option<BoxOffer<S>> = None;
    let mut best_ret = floor;
    let ghost mut seen: Seq<BoxOffer<S>> = Seq::empty();
    let mut a: usize = 0;
    while a < m
        invariant
            a <= m,
            m == open@.len(),
            forall|k: int| 0 <= k < m ==> (#[trigger] open@[k]).index < strikes@.len(),
            seen == box_offers(long, strikes@, open@, a as int),
            best == best_of(seen, box_ret(), floor),
            best_ret == bar(best, box_ret(), floor),
        decreases m - a,
    {
        let ghost before = seen;
        assert(seen =~= before + box_offers_from(long, strikes@, open@, a as int, a + 1));
        let mut b: usize = a + 1;
        while b < m
            invariant
                a < b <= m,
                m == open@.len(),
                forall|k: int| 0 <= k < m ==> (#[trigger] open@[k]).index < strikes@.len(),
                seen == before + box_offers_from(long, strikes@, open@, a as int, b as int),
                best == best_of(seen, box_ret(), floor),
                best_ret == bar(best, box_ret(), floor),
            decreases m - b,
        {
            let offer = make_box(long, strikes, open[a], open[b]);
            let ghost last = seen;
            if let Some(o) = offer {
                proof {
                    seen = seen.push(o);
                    assert(seen.drop_last() =~= last);
                    assert(seen =~= before + box_offers_from(
                        long,
                        strikes@,
                        open@,
                        a as int,
                        b + 1,
                    ));
                }
                if best_ret.lt(o.ret) {
                    best_ret = o.ret;
                    best = Some(o);
                }
            }
            b = b + 1;
        }
        a = a + 1;
    }
    proof {
        let n = strikes@.len();
        lemma_box_offers_in_range(long, strikes@, open@, m as int, n);
        lemma_best_of_keeps(
            box_offers(long, strikes@, open@, m as int),
            box_ret(),
            floor,
            |o: BoxOffer<S>| box_in_range(o, n),
        );
    }
    best
}

fn find_best_box<S: Number>(
    long: bool,
    ctx: &BoxContext<S>,
    state: &QuoteBook<S>,
    now: i64,
    floor: S,
) -> (r: Option<BoxOffer<S>>)
    requires
        ctx.wf(),
    ensures
        r == best_box(long, *ctx, state@, now, floor),
        r is Some ==> box_in_range(r->0, ctx.strikes@.len()),
{
    let open = find_open_strikes(ctx, state, now);
    proof {
        lemma_open_strikes_in_range(*ctx, state@, now, ctx.strikes@.len());
    }
    best_box_among(long, &ctx.strikes, &open, floor)
}

/// Where the smallest of the volumes first stands.
pub open spec fn thinnest<S: Quantity>(vols: Seq<S>) -> int
    decreases vols.len(),
{
    if vols.len() <= 1 {
        0
    } else {
        let m = thinnest(vols.drop_last());
        if vols.last() < vols[m] {
            vols.len() - 1
        } else {
            m
        }
    }
}

fn find_thinnest<S: Number>(vols: &Vec<S>) -> (r: usize)
    requires
        vols@.len() > 0,
    ensures
        r < vols@.len(),
        r == thinnest(vols@),
{
    let mut m: usize = 0;
    let mut k: usize = 1;
    assert(vols@.subrange(0, 1).len() == 1);
    while k < vols.len()
        invariant
            1 <= k <= vols@.len(),
            m < k,
            m == thinnest(vols@.subrange(0, k as int)),
        decreases vols@.len() - k,
    {
        assert(vols@.subrange(0, k + 1).drop_last() =~= vols@.subrange(0, k as int));
        if vols[k].lt(vols[m]) {
            m = k;
        }
        k = k + 1;
    }
    assert(vols@.subrange(0, k as int) =~= vols@);
    m
}

/// How the legs are to be placed: all at once where even the thinnest one is
/// liquid, else the thinnest one passively.
pub open spec fn legging<S: Quantity>(
    vols: Seq<S>,
    oids: Seq<Seq<char>>,
    all_liquid: Seq<char>,
    tail: Seq<char>,
) -> Seq<char> {
    let m = thinnest(vols);
    if spec_min_vol::<S>() <= vols[m] {
        all_liquid
    } else {
        "Place passive limit order on leg "@ + oids[m] + tail
    }
}

fn legging_message<S: Number>(vols: &Vec<S>, oids: &Vec<&String>, all_liquid: &str, tail: &str) -> (r:
    String)
    requires
        vols@.len() > 0,
        vols@.len() == oids@.len(),
    ensures
        r@ == legging(vols@, oids@.map_values(|s: &String| s@), all_liquid@, tail@),
{
    let m = find_thinnest(vols);
    if min_vol::<S>().le(vols[m]) {
        String::from_str(all_liquid)
    } else {
        let mut text = String::from_str("Place passive limit order on leg ");
        text.append(oids[m].as_str());
        text.append(tail);
        text
    }
}

/// The legs of a box in the order in which their liquidity is compared.
pub open spec fn box_leg_oids<S: Quantity>(ctx: BoxContext<S>, o: BoxOffer<S>) -> Seq<Seq<char>> {
    seq![
        ctx.call_oids@[o.lo.index as int]@,
        ctx.call_oids@[o.hi.index as int]@,
        ctx.put_oids@[o.hi.index as int]@,
        ctx.put_oids@[o.lo.index as int]@,
    ]
}

/// The volumes of the legs of a long box.
pub open spec fn long_box_vols<S: Quantity>(o: BoxOffer<S>) -> Seq<S> {
    seq![o.lo.call.a1_v, o.hi.call.b1_v, o.hi.put.b1_v, o.lo.put.a1_v]
}

/// The volumes of the legs of a short box.
pub open spec fn short_box_vols<S: Quantity>(o: BoxOffer<S>) -> Seq<S> {
    seq![o.lo.call.b1_v, o.hi.call.a1_v, o.hi.put.b1_v, o.lo.put.a1_v]
}

/// How the legs of a box are to be placed.
pub open spec fn box_legging<S: Quantity>(ctx: BoxContext<S>, o: BoxOffer<S>, vols: Seq<S>) -> Seq<
    char,
> {
    legging(
        vols,
        box_leg_oids(ctx, o),
        "All 4 legs are limit orders"@,
        " (most illiquid), limit orders on others."@,
    )
}

fn box_message<S: Number>(ctx: &BoxContext<S>, o: &BoxOffer<S>, vols: &Vec<S>) -> (r: String)
    requires
        ctx.wf(),
        o.lo.index < ctx.strikes@.len(),
        o.hi.index < ctx.strikes@.len(),
        vols@.len() == 4,
    ensures
        r@ == box_legging(*ctx, *o, vols@),
{
    let oids: Vec<&String> = vec![
        &ctx.call_oids[o.lo.index],
        &ctx.call_oids[o.hi.index],
        &ctx.put_oids[o.hi.index],
        &ctx.put_oids[o.lo.index],
    ];
    assert(oids@.map_values(|s: &String| s@) =~= box_leg_oids(*ctx, *o));
    legging_message(
        vols,
        &oids,
        "All 4 legs are limit orders",
        " (most illiquid), limit orders on others.",
    )
}

/// The long box with the highest return above the threshold: its strikes, cost,
/// payout and return, the return once more, and how to place its legs.
pub fn evaluate_long_box<S: Number>(
    ctx: &BoxContext<S>,
    state: &QuoteBook<S>,
    now_ts: i64,
    params: &StrategyParams<S>,
) -> (r: Option<(usize, usize, S, S, S, S, String)>)
    requires
        ctx.wf(),
    ensures
        match best_box(true, *ctx, state@, now_ts, params.min_return) {
            None => r is None,
            Some(o) => {
                &&& r matches Some(t)
                &&& t.0 == o.lo.index && t.0 < ctx.strikes@.len()
                &&& t.1 == o.hi.index && t.1 < ctx.strikes@.len()
                &&& t.2 == o.outlay
                &&& t.3 == o.proceeds
                &&& t.4 == o.ret
                &&& t.5 == o.ret
                &&& t.6@ == box_legging(*ctx, o, long_box_vols(o))
            },
        },
{
    match find_best_box(true, ctx, state, now_ts, params.min_return) {
        None => None,
        Some(o) => {
            let vols: Vec<S> = vec![o.lo.call.a1_v, o.hi.call.b1_v, o.hi.put.b1_v, o.lo.put.a1_v];
            assert(vols@ =~= long_box_vols(o));
            let msg = box_message(ctx, &o, &vols);
            Some((o.lo.index, o.hi.index, o.outlay, o.proceeds, o.ret, o.ret, msg))
        },
    }
}

/// The short box with the highest return above the threshold: its strikes,
/// margin, premium and return, the return once more, and how to place its legs.
pub fn evaluate_short_box<S: Number>(
    ctx: &BoxContext<S>,
    state: &QuoteBook<S>,
    now_ts: i64,
    params: &StrategyParams<S>,
) -> (r: Option<(usize, usize, S, S, S, S, String)>)
    requires
        ctx.wf(),
    ensures
        match best_box(false, *ctx, state@, now_ts, params.min_return) {
            None => r is None,
            Some(o) => {
                &&& r matches Some(t)
                &&& t.0 == o.lo.index && t.0 < ctx.strikes@.len()
                &&& t.1 == o.hi.index && t.1 < ctx.strikes@.len()
                &&& t.2 == o.outlay
                &&& t.3 == o.proceeds
                &&& t.4 == o.ret
                &&& t.5 == o.ret
                &&& t.6@ == box_legging(*ctx, o, short_box_vols(o))
            },
        },
{
    match find_best_box(false, ctx, state, now_ts, params.min_return) {
        None => None,
        Some(o) => {
            let vols: Vec<S> = vec![o.lo.call.b1_v, o.hi.call.a1_v, o.hi.put.b1_v, o.lo.put.a1_v];
            assert(vols@ =~= short_box_vols(o));
            let msg = box_message(ctx, &o, &vols);
            Some((o.lo.index, o.hi.index, o.outlay, o.proceeds, o.ret, o.ret, msg))
        },
    }
}

// ---- Butterflies ----

/// A butterfly over three open strikes.
pub struct FlyOffer<S> {
    pub lo: OpenStrike<S>,
    pub mid: OpenStrike<S>,
    pub hi: OpenStrike<S>,
    pub flavor: Flavor,
    /// The margin per unit: the distance of the lower two strikes.
    pub margin: S,
    /// What it pays out on entry, per unit.
    pub profit: S,
    /// The profit as a fraction of the margin.
    pub ret: S,
}

/// The quote that a butterfly of the given flavor takes from a strike.
pub open spec fn fly_quote<S: Quantity>(flavor: Flavor, k: OpenStrike<S>) -> TickData<S> {
    match flavor {
        Flavor::Call => k.call,
        Flavor::Put => k.put,
    }
}

/// Cost of buying the wings and selling the body twice.
pub open spec fn fly_cost<S: Quantity>(
    flavor: Flavor,
    lo: OpenStrike<S>,
    mid: OpenStrike<S>,
    hi: OpenStrike<S>,
) -> S {
    fly_quote(flavor, lo).a1 - dec::<S>(2, 0) * fly_quote(flavor, mid).b1 + fly_quote(flavor, hi).a1
        + spec_butterfly_commission::<S>()
}

/// The two distances of the three strikes agree to a ten-thousandth.
pub open spec fn evenly_spaced<S: Quantity>(
    strikes: Seq<S>,
    lo: OpenStrike<S>,
    mid: OpenStrike<S>,
    hi: OpenStrike<S>,
) -> bool {
    let left = strikes[mid.index as int] - strikes[lo.index as int];
    let right = strikes[hi.index as int] - strikes[mid.index as int];
    !(dec::<S>(1, 4) < (left - right).spec_abs())
}

/// A butterfly counts where its strikes are evenly spaced and it costs less than
/// nothing.
pub open spec fn fly_counts<S: Quantity>(
    flavor: Flavor,
    strikes: Seq<S>,
    lo: OpenStrike<S>,
    mid: OpenStrike<S>,
    hi: OpenStrike<S>,
) -> bool {
    evenly_spaced(strikes, lo, mid, hi) && fly_cost(flavor, lo, mid, hi) < zero::<S>()
}

/// The butterfly over three strikes.
pub open spec fn fly_offer<S: Quantity>(
    flavor: Flavor,
    strikes: Seq<S>,
    lo: OpenStrike<S>,
    mid: OpenStrike<S>,
    hi: OpenStrike<S>,
) -> FlyOffer<S> {
    let margin = strikes[mid.index as int] - strikes[lo.index as int];
    let profit = -fly_cost(flavor, lo, mid, hi);
    FlyOffer { lo, mid, hi, flavor, margin, profit, ret: profit / margin }
}

/// `offers` with the butterfly over three strikes, if it counts.
pub open spec fn with_fly<S: Quantity>(
    offers: Seq<FlyOffer<S>>,
    flavor: Flavor,
    strikes: Seq<S>,
    lo: OpenStrike<S>,
    mid: OpenStrike<S>,
    hi: OpenStrike<S>,
) -> Seq<FlyOffer<S>> {
    if fly_counts(flavor, strikes, lo, mid, hi) {
        offers.push(fly_offer(flavor, strikes, lo, mid, hi))
    } else {
        offers
    }
}

/// The butterflies that count with the lower two strikes `open[a]` and `open[b]`
/// and the upper one among `open[b + 1 .. c]`: of each, calls before puts.
pub open spec fn fly_offers_over<S: Quantity>(
    strikes: Seq<S>,
    open: Seq<OpenStrike<S>>,
    a: int,
    b: int,
    c: int,
) -> Seq<FlyOffer<S>>
    decreases c,
{
    if c <= b + 1 || c <= 0 {
        Seq::empty()
    } else {
        let rest = fly_offers_over(strikes, open, a, b, c - 1);
        with_fly(
            with_fly(rest, Flavor::Call, strikes, open[a], open[b], open[c - 1]),
            Flavor::Put,
            strikes,
            open[a],
            open[b],
            open[c - 1],
        )
    }
}

/// The butterflies that count with the lowest strike `open[a]` and the middle one
/// among `open[a + 1 .. b]`.
pub open spec fn fly_offers_from<S: Quantity>(
    strikes: Seq<S>,
    open: Seq<OpenStrike<S>>,
    a: int,
    b: int,
) -> Seq<FlyOffer<S>>
    decreases b,
{
    if b <= a + 1 || b <= 0 {
        Seq::empty()
    } else {
        fly_offers_from(strikes, open, a, b - 1) + fly_offers_over(
            strikes,
            open,
            a,
            b - 1,
            open.len() as int,
        )
    }
}

/// The butterflies that count with the lowest strike among the first `a`.
pub open spec fn fly_offers<S: Quantity>(strikes: Seq<S>, open: Seq<OpenStrike<S>>, a: int) -> Seq<
    FlyOffer<S>,
>
    decreases a,
{
    if a <= 0 {
        Seq::empty()
    } else {
        fly_offers(strikes, open, a - 1) + fly_offers_from(
            strikes,
            open,
            a - 1,
            open.len() as int,
        )
    }
}

/// The value by which butterflies are ranked.
pub open spec fn fly_ret<S: Quantity>() -> spec_fn(FlyOffer<S>) -> S {
    |o: FlyOffer<S>| o.ret
}

/// The best butterfly of a context.
pub open spec fn best_fly<S: Quantity>(
    ctx: BoxContext<S>,
    quotes: Map<Seq<char>, TickData<S>>,
    now: i64,
    floor: S,
) -> Option<FlyOffer<S>> {
    let open = all_open_strikes(ctx, quotes, now);
    best_of(fly_offers(ctx.strikes@, open, open.len() as int), fly_ret(), floor)
}

fn make_fly<S: Number>(
    flavor: Flavor,
    strikes: &Vec<S>,
    lo: OpenStrike<S>,
    mid: OpenStrike<S>,
    hi: OpenStrike<S>,
) -> (r: Option<FlyOffer<S>>)
    requires
        lo.index < strikes@.len(),
        mid.index < strikes@.len(),
        hi.index < strikes@.len(),
    ensures
        r == (if fly_counts(flavor, strikes@, lo, mid, hi) {
            Some(fly_offer(flavor, strikes@, lo, mid, hi))
        } else {
            None
        }),
{
    let left = strikes[mid.index].minus(strikes[lo.index]);
    let right = strikes[hi.index].minus(strikes[mid.index]);
    if S::decimal(1, 4).lt(left.minus(right).abs()) {
        return None;
    }
    let (q1, q2, q3) = match flavor {
        Flavor::Call => (lo.call, mid.call, hi.call),
        Flavor::Put => (lo.put, mid.put, hi.put),
    };
    let cost = q1.a1.minus(S::decimal(2, 0).times(q2.b1)).plus(q3.a1).plus(butterfly_commission());
    if cost.lt(S::decimal(0, 0)) {
        let profit = cost.negated();
        let ret = profit.over(left);
        Some(FlyOffer { lo, mid, hi, flavor, margin: left, profit, ret })
    } else {
        None
    }
}

/// Whether the strikes of an offer lie within the context.
pub open spec fn fly_in_range<S>(o: FlyOffer<S>, n: nat) -> bool {
    o.lo.index < n && o.mid.index < n && o.hi.index < n
}

/// The best butterfly lies on strikes of the context.
pub proof fn lemma_best_fly_in_range<S: Quantity>(
    ctx: BoxContext<S>,
    quotes: Map<Seq<char>, TickData<S>>,
    now: i64,
    floor: S,
)
    ensures
        best_fly(ctx, quotes, now, floor) is Some ==> fly_in_range(
            best_fly(ctx, quotes, now, floor)->0,
            ctx.strikes@.len(),
        ),
{
    let open = all_open_strikes(ctx, quotes, now);
    let n = ctx.strikes@.len();
    lemma_open_strikes_in_range(ctx, quotes, now, n);
    lemma_fly_offers_in_range(ctx.strikes@, open, open.len() as int, n);
    lemma_best_of_keeps(
        fly_offers(ctx.strikes@, open, open.len() as int),
        fly_ret(),
        floor,
        |o: FlyOffer<S>| fly_in_range(o, n),
    );
}

proof fn lemma_fly_offers_over_in_range<S: Quantity>(
    strikes: Seq<S>,
    open: Seq<OpenStrike<S>>,
    a: int,
    b: int,
    c: int,
    n: nat,
)
    requires
        0 <= a < b,
        c <= open.len(),
        forall|k: int| 0 <= k < open.len() ==> (#[trigger] open[k]).index < n,
    ensures
        forall|k: int|
            0 <= k < fly_offers_over(strikes, open, a, b, c).len() ==> fly_in_range(
                #[trigger] fly_offers_over(strikes, open, a, b, c)[k],
                n,
            ),
    decreases c,
{
    if !(c <= b + 1 || c <= 0) {
        lemma_fly_offers_over_in_range(strikes, open, a, b, c - 1, n);
        let rest = fly_offers_over(strikes, open, a, b, c - 1);
        let half = with_fly(rest, Flavor::Call, strikes, open[a], open[b], open[c - 1]);
        let all = fly_offers_over(strikes, open, a, b, c);
        assert(open[a].index < n && open[b].index < n && open[c - 1].index < n);
        assert forall|k: int| 0 <= k < half.len() implies fly_in_range(#[trigger] half[k], n) by {
            if k < rest.len() {
                assert(half[k] == rest[k]);
            }
        }
        assert forall|k: int| 0 <= k < all.len() implies fly_in_range(#[trigger] all[k], n) by {
            if k < half.len() {
                assert(all[k] == half[k]);
            }
        }
    }
}

proof fn lemma_fly_offers_from_in_range<S: Quantity>(
    strikes: Seq<S>,
    open: Seq<OpenStrike<S>>,
    a: int,
    b: int,
    n: nat,
)
    requires
        0 <= a,
        b <= open.len(),
        forall|k: int| 0 <= k < open.len() ==> (#[trigger] open[k]).index < n,
    ensures
        forall|k: int|
            0 <= k < fly_offers_from(strikes, open, a, b).len() ==> fly_in_range(
                #[trigger] fly_offers_from(strikes, open, a, b)[k],
                n,
            ),
    decreases b,
{
    if !(b <= a + 1 || b <= 0) {
        lemma_fly_offers_from_in_range(strikes, open, a, b - 1, n);
        lemma_fly_offers_over_in_range(strikes, open, a, b - 1, open.len() as int, n);
        let rest = fly_offers_from(strikes, open, a, b - 1);
        let more = fly_offers_over(strikes, open, a, b - 1, open.len() as int);
        let all = fly_offers_from(strikes, open, a, b);
        assert forall|k: int| 0 <= k < all.len() implies fly_in_range(#[trigger] all[k], n) by {
            if k < rest.len() {
                assert(all[k] == rest[k]);
            } else {
                assert(all[k] == more[k - rest.len()]);
            }
        }
    }
}

proof fn lemma_fly_offers_in_range<S: Quantity>(
    strikes: Seq<S>,
    open: Seq<OpenStrike<S>>,
    a: int,
    n: nat,
)
    requires
        forall|k: int| 0 <= k < open.len() ==> (#[trigger] open[k]).index < n,
    ensures
        forall|k: int|
            0 <= k < fly_offers(strikes, open, a).len() ==> fly_in_range(
                #[trigger] fly_offers(strikes, open, a)[k],
                n,
            ),
    decreases a,
{
    if a > 0 {
        lemma_fly_offers_in_range(strikes, open, a - 1, n);
        lemma_fly_offers_from_in_range(strikes, open, a - 1, open.len() as int, n);
        let rest = fly_offers(strikes, open, a - 1);
        let more = fly_offers_from(strikes, open, a - 1, open.len() as int);
        let all = fly_offers(strikes, open, a);
        assert forall|k: int| 0 <= k < all.len() implies fly_in_range(#[trigger] all[k], n) by {
            if k < rest.len() {
                assert(all[k] == rest[k]);
            } else {
                assert(all[k] == more[k - rest.len()]);
            }
        }
    }
}

/// The best offer after one more triple of strikes was looked at.
fn consider_fly<S: Number>(
    best: Option<FlyOffer<S>>,
    floor: S,
    flavor: Flavor,
    strikes: &Vec<S>,
    lo: OpenStrike<S>,
    mid: OpenStrike<S>,
    hi: OpenStrike<S>,
    Ghost(seen): Ghost<Seq<FlyOffer<S>>>,
) -> (r: Option<FlyOffer<S>>)
    requires
        lo.index < strikes@.len(),
        mid.index < strikes@.len(),
        hi.index < strikes@.len(),
        best == best_of(seen, fly_ret(), floor),
    ensures
        r == best_of(with_fly(seen, flavor, strikes@, lo, mid, hi), fly_ret(), floor),
{
    match make_fly(flavor, strikes, lo, mid, hi) {
        None => best,
        Some(o) => {
            assert(seen.push(o).drop_last() =~= seen);
            let level = match &best {
                Some(b) => b.ret,
                None => floor,
            };
            if level.lt(o.ret) {
                Some(o)
            } else {
                best
            }
        },
    }
}

/// The best butterfly over a list of open strikes.
pub fn best_fly_among<S: Number>(strikes: &Vec<S>, open: &Vec<OpenStrike<S>>, floor: S) -> (r:
    Option<FlyOffer<S>>)
    requires
        forall|k: int| 0 <= k < open@.len() ==> (#[trigger] open@[k]).index < strikes@.len(),
    ensures
        r == best_of(fly_offers(strikes@, open@, open@.len() as int), fly_ret(), floor),
        r is Some ==> fly_in_range(r->0, strikes@.len()),
{
    let m = open.len();
    let mut best: Option<FlyOffer<S>> = None;
    let ghost mut seen: Seq<FlyOffer<S>> = Seq::empty();
    let mut a: usize = 0;
    while a < m
        invariant
            a <= m,
            m == open@.len(),
            forall|k: int| 0 <= k < m ==> (#[trigger] open@[k]).index < strikes@.len(),
            seen == fly_offers(strikes@, open@, a as int),
            best == best_of(seen, fly_ret(), floor),
        decreases m - a,
    {
        let ghost before = seen;
        assert(seen =~= before + fly_offers_from(strikes@, open@, a as int, a + 1));
        let mut b: usize = a + 1;
        while b < m
            invariant
                a < b <= m,
                m == open@.len(),
                forall|k: int| 0 <= k < m ==> (#[trigger] open@[k]).index < strikes@.len(),
                seen == before + fly_offers_from(strikes@, open@, a as int, b as int),
                best == best_of(seen, fly_ret(), floor),
                decreases m - b,
        {
            let ghost before_b = seen;
            assert(seen =~= before_b + fly_offers_over(strikes@, open@, a as int, b as int, b + 1));
            let mut c: usize = b + 1;
            while c < m
                invariant
                    a < b < c <= m,
                    m == open@.len(),
                    forall|k: int| 0 <= k < m ==> (#[trigger] open@[k]).index < strikes@.len(),
                    seen == before_b + fly_offers_over(
                        strikes@,
                        open@,
                        a as int,
                        b as int,
                        c as int,
                    ),
                    best == best_of(seen, fly_ret(), floor),
                        decreases m - c,
            {
                let (lo, mid, hi) = (open[a], open[b], open[c]);
                best =
                consider_fly(
                    best,
                    floor,
                    Flavor::Call,
                    strikes,
                    lo,
                    mid,
                    hi,
                    Ghost(seen),
                );
                proof {
                    seen = with_fly(seen, Flavor::Call, strikes@, lo, mid, hi);
                }
                best =
                consider_fly(best, floor, Flavor::Put, strikes, lo, mid, hi, Ghost(seen));
                proof {
                    seen = with_fly(seen, Flavor::Put, strikes@, lo, mid, hi);
                    assert(seen =~= before_b + fly_offers_over(
                        strikes@,
                        open@,
                        a as int,
                        b as int,
                        c + 1,
                    ));
                }
                c = c + 1;
            }
            assert(seen =~= before + fly_offers_from(strikes@, open@, a as int, b + 1));
            b = b + 1;
        }
        a = a + 1;
    }
    proof {
        let n = strikes@.len();
        lemma_fly_offers_in_range(strikes@, open@, m as int, n);
        lemma_best_of_keeps(
            fly_offers(strikes@, open@, m as int),
            fly_ret(),
            floor,
            |o: FlyOffer<S>| fly_in_range(o, n),
        );
    }
    best
}

fn find_best_fly<S: Number>(ctx: &BoxContext<S>, state: &QuoteBook<S>, now: i64, floor: S) -> (r:
    Option<FlyOffer<S>>)
    requires
        ctx.wf(),
    ensures
        r == best_fly(*ctx, state@, now, floor),
        r is Some ==> fly_in_range(r->0, ctx.strikes@.len()),
{
    let open = find_open_strikes(ctx, state, now);
    proof {
        lemma_open_strikes_in_range(*ctx, state@, now, ctx.strikes@.len());
    }
    best_fly_among(&ctx.strikes, &open, floor)
}

/// How the legs of a butterfly are to be placed.
pub open spec fn fly_legging<S: Quantity>(ctx: BoxContext<S>, o: FlyOffer<S>) -> Seq<char> {
    let oids = match o.flavor {
        Flavor::Call => ctx.call_oids@,
        Flavor::Put => ctx.put_oids@,
    };
    legging(
        seq![
            fly_quote(o.flavor, o.lo).a1_v,
            fly_quote(o.flavor, o.mid).b1_v,
            fly_quote(o.flavor, o.hi).a1_v,
        ],
        seq![
            oids[o.lo.index as int]@,
            oids[o.mid.index as int]@,
            oids[o.hi.index as int]@,
        ],
        match o.flavor {
            Flavor::Call => "All Call legs are limit orders"@,
            Flavor::Put => "All Put legs are limit orders"@,
        },
        " (most illiquid)."@,
    )
}

fn fly_message<S: Number>(ctx: &BoxContext<S>, o: &FlyOffer<S>) -> (r: String)
    requires
        ctx.wf(),
        fly_in_range(*o, ctx.strikes@.len()),
    ensures
        r@ == fly_legging(*ctx, *o),
{
    let oids_of: &Vec<String> = match o.flavor {
        Flavor::Call => &ctx.call_oids,
        Flavor::Put => &ctx.put_oids,
    };
    let (q1, q2, q3) = match o.flavor {
        Flavor::Call => (o.lo.call, o.mid.call, o.hi.call),
        Flavor::Put => (o.lo.put, o.mid.put, o.hi.put),
    };
    let vols: Vec<S> = vec![q1.a1_v, q2.b1_v, q3.a1_v];
    let oids: Vec<&String> = vec![
        &oids_of[o.lo.index],
        &oids_of[o.mid.index],
        &oids_of[o.hi.index],
    ];
    let all_liquid = match o.flavor {
        Flavor::Call => "All Call legs are limit orders",
        Flavor::Put => "All Put legs are limit orders",
    };
    assert(oids@.map_values(|s: &String| s@) =~= seq![
        oids_of@[o.lo.index as int]@,
        oids_of@[o.mid.index as int]@,
        oids_of@[o.hi.index as int]@,
    ]);
    assert(vols@ =~= seq![q1.a1_v, q2.b1_v, q3.a1_v]);
    legging_message(&vols, &oids, all_liquid, " (most illiquid).")
}

/// The butterfly with the highest return above the threshold: its strikes,
/// flavor, margin, profit and return, the return once more, and how to place its
/// legs.
pub fn evaluate_butterfly<S: Number>(
    ctx: &BoxContext<S>,
    state: &QuoteBook<S>,
    now_ts: i64,
    params: &StrategyParams<S>,
) -> (r: Option<(usize, usize, usize, Flavor, S, S, S, S, String)>)
    requires
        ctx.wf(),
    ensures
        match best_fly(*ctx, state@, now_ts, params.min_return_butterfly) {
            None => r is None,
            Some(o) => {
                &&& r matches Some(t)
                &&& t.0 == o.lo.index && t.0 < ctx.strikes@.len()
                &&& t.1 == o.mid.index && t.1 < ctx.strikes@.len()
                &&& t.2 == o.hi.index && t.2 < ctx.strikes@.len()
                &&& t.3 == o.flavor
                &&& t.4 == o.margin
                &&& t.5 == o.profit
                &&& t.6 == o.ret
                &&& t.7 == o.ret
                &&& t.8@ == fly_legging(*ctx, o)
            },
        },
{
    match find_best_fly(ctx, state, now_ts, params.min_return_butterfly) {
        None => None,
        Some(o) => {
            let msg = fly_message(ctx, &o);
            Some(
                (
                    o.lo.index,
                    o.mid.index,
                    o.hi.index,
                    o.flavor,
                    o.margin,
                    o.profit,
                    o.ret,
                    o.ret,
                    msg,
                ),
            )
        },
    }
}

} // verus!
