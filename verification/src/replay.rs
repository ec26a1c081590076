//! Replaying recorded quotes of one underlying through the box and butterfly portfolio, and
//! what its positions are worth.

use vstd::prelude::*;
use vstd::string::*;
use crate::calendar::{
    fmt_ts, in_session, is_trading_hours, quotient, rough_year, timestamp_text, LOCAL_OFFSET,
};
use crate::instruments::{indexed, texts};
use crate::market::{
    contract_size, spec_contract_size, BoxContext, ContextIndex, PosType, PositionModel, QuoteBook,
    StrategyParams, TickData, TickUpdate, TradeModel, TradeRecord,
};
use crate::number::{dec, zero, Number, Quantity};
use crate::trader::{
    contexts_of, contexts_turn, entered_within, event_models, positions_fit, ready,
    turn_of, EventModel, Portfolio, PortfolioEvent, PortfolioModel, Turn,
};

verus! {

// ---- Recorded quotes ----

/// The unit that recorded times count in.
#[derive(Debug, Clone, Copy, PartialEq, Eq, Structural)]
pub enum TimeUnit {
    Nanoseconds,
    Microseconds,
    Milliseconds,
}

impl TimeUnit {
    /// How many of the unit make a second.
    pub open spec fn spec_per_second(self) -> i64 {
        match self {
            TimeUnit::Nanoseconds => 1_000_000_000,
            TimeUnit::Microseconds => 1_000_000,
            TimeUnit::Milliseconds => 1_000,
        }
    }

    /// How many of the unit make a second.
    pub fn per_second(self) -> (r: i64)
        ensures
            r == self.spec_per_second(),
    {
        match self {
            TimeUnit::Nanoseconds => 1_000_000_000,
            TimeUnit::Microseconds => 1_000_000,
            TimeUnit::Milliseconds => 1_000,
        }
    }
}

/// The local second of a recorded time. Times with a time zone are recorded in UTC, eight hours
/// behind.
pub open spec fn local_second(time: int, unit: TimeUnit, zoned: bool) -> int {
    quotient(time, unit.spec_per_second() as int) + if zoned {
        28_800int
    } else {
        0
    }
}

/// The local second of a recorded time.
pub fn second_of(time: i64, unit: TimeUnit, zoned: bool) -> (r: i64)
    ensures
        r == local_second(time as int, unit, zoned),
        -10_000_000_000_000_000 <= r <= 10_000_000_000_000_000,
{
    let offset: i64 = if zoned {
        28_800
    } else {
        0
    };
    time / unit.per_second() + offset
}

/// The low eight bits of a count of days.
pub open spec fn low_byte(days: int) -> u8 {
    (days % 256) as u8
}

/// The low eight bits of a count of days.
pub fn days_byte(days: i64) -> (r: u8)
    ensures
        r == low_byte(days as int),
{
    match days.checked_rem_euclid(256) {
        Some(rest) => rest as u8,
        None => 0,
    }
}

/// A strike in thousandths.
pub open spec fn strike_milli_of<S: Quantity>(strike: S) -> i64 {
    (strike * dec::<S>(1000, 0)).spec_round_i64()
}

/// A strike in thousandths.
pub fn strike_milli<S: Number>(strike: S) -> (r: i64)
    ensures
        r == strike_milli_of(strike),
{
    strike.times(S::decimal(1000, 0)).round_i64()
}

/// A recorded quote.
#[derive(Debug)]
pub struct QuoteRow<S> {
    /// The local second.
    pub second: i64,
    pub opt_type: String,
    pub strike: S,
    /// The strike in thousandths, if it is recorded.
    pub milli: Option<i64>,
    pub a1: S,
    pub b1: S,
    pub a1_v: S,
    pub b1_v: S,
    pub dte: u8,
}

/// The identifier of an option: its type and its strike to three places.
pub open spec fn option_id<S: Quantity>(opt_type: Seq<char>, strike: S) -> Seq<char> {
    opt_type + "_"@ + strike.spec_text(3)
}

/// The identifier of an option.
pub fn make_option_id<S: Number>(opt_type: &str, strike: S) -> (r: String)
    ensures
        r@ == option_id(opt_type@, strike),
{
    let mut id = String::from_str(opt_type);
    id.append("_");
    id.append(strike.text(3).as_str());
    id
}

// ---- The context ----

/// The values rise.
pub open spec fn strictly_ascending(list: Seq<i64>) -> bool {
    forall|i: int, j: int| 0 <= i < j < list.len() ==> #[trigger] list[i] < #[trigger] list[j]
}

/// The values are those of the strikes that are recorded in the first `n` rows.
pub open spec fn are_strikes_of<S>(list: Seq<i64>, rows: Seq<QuoteRow<S>>, n: int) -> bool {
    forall|v: i64|
        #[trigger] list.contains(v) <==> exists|i: int|
            0 <= i < n && (#[trigger] rows[i]).milli == Some(v)
}

/// The first place whose value is not below `v`, in a rising list.
pub(crate) fn place_for(list: &Vec<i64>, v: i64) -> (r: usize)
    requires
        strictly_ascending(list@),
    ensures
        r <= list@.len(),
        forall|i: int| 0 <= i < r ==> #[trigger] list@[i] < v,
        forall|i: int| r <= i < list@.len() ==> #[trigger] list@[i] >= v,
{
    let mut low: usize = 0;
    let mut high: usize = list.len();
    while low < high
        invariant
            low <= high <= list@.len(),
            strictly_ascending(list@),
            forall|i: int| 0 <= i < low ==> #[trigger] list@[i] < v,
            forall|i: int| high <= i < list@.len() ==> #[trigger] list@[i] >= v,
        decreases high - low,
    {
        let middle = low + (high - low) / 2;
        if list[middle] < v {
            assert forall|i: int| 0 <= i < middle + 1 implies #[trigger] list@[i] < v by {
                if i < middle {
                    assert(list@[i] < list@[middle as int]);
                }
            }
            low = middle + 1;
        } else {
            assert forall|i: int| middle <= i < list@.len() implies #[trigger] list@[i] >= v by {
                if i > middle {
                    assert(list@[middle as int] < list@[i]);
                }
            }
            high = middle;
        }
    }
    low
}

/// The strikes that rows record, in thousandths, each once and in ascending order.
pub fn strikes_of<S: Number>(rows: &Vec<QuoteRow<S>>) -> (r: Vec<i64>)
    ensures
        strictly_ascending(r@),
        are_strikes_of(r@, rows@, rows@.len() as int),
{
    let n = rows.len();
    let mut list: Vec<i64> = Vec::new();
    let mut i: usize = 0;
    while i < n
        invariant
            i <= n,
            n == rows@.len(),
            strictly_ascending(list@),
            are_strikes_of(list@, rows@, i as int),
        decreases n - i,
    {
        let ghost before = list@;
        if let Some(v) = rows[i].milli {
            let at = place_for(&list, v);
            if at < list.len() && list[at] == v {
                assert(before.contains(v));
            } else {
                list.insert(at, v);
                assert(list@[at as int] == v);
                assert forall|a: int, b: int| 0 <= a < b < list@.len() implies #[trigger] list@[a]
                    < #[trigger] list@[b] by {
                    if a < at {
                        assert(list@[a] == before[a]);
                    } else if a > at {
                        assert(list@[a] == before[a - 1]);
                    }
                    if b < at {
                        assert(list@[b] == before[b]);
                    } else if b > at {
                        assert(list@[b] == before[b - 1]);
                    }
                }
                assert forall|w: i64| #[trigger] list@.contains(w) <==> before.contains(w) || w
                    == v by {
                    if before.contains(w) {
                        let k = choose|k: int| 0 <= k < before.len() && before[k] == w;
                        if k < at {
                            assert(list@[k] == w);
                        } else {
                            assert(list@[k + 1] == w);
                        }
                    }
                    if list@.contains(w) && w != v {
                        let k = choose|k: int| 0 <= k < list@.len() && list@[k] == w;
                        if k < at {
                            assert(before[k] == w);
                        } else {
                            assert(before[k - 1] == w);
                        }
                    }
                }
            }
            assert forall|w: i64| #[trigger] list@.contains(w) <==> exists|k: int|
                0 <= k < i + 1 && (#[trigger] rows@[k]).milli == Some(w) by {
                assert(list@.contains(w) <==> before.contains(w) || w == v);
                if before.contains(w) {
                    let k = choose|k: int| 0 <= k < i && (#[trigger] rows@[k]).milli == Some(w);
                    assert(rows@[k].milli == Some(w));
                }
                if w == v {
                    assert(rows@[i as int].milli == Some(w));
                }
            }
        }
        i = i + 1;
    }
    list
}

/// Whether a context is that of an underlying with the given strikes in thousandths.
pub open spec fn is_context_of<S: Quantity>(
    ctx: BoxContext<S>,
    symbol: Seq<char>,
    strikes: Seq<i64>,
    dte: u8,
) -> bool {
    &&& ctx.prefix@ == symbol
    &&& ctx.dte == dte
    &&& ctx.strikes@ == strikes.map_values(|m: i64| dec::<S>(m as int, 3))
    &&& texts(ctx.call_oids@) == strikes.map_values(
        |m: i64| option_id("C"@, dec::<S>(m as int, 3)),
    )
    &&& texts(ctx.put_oids@) == strikes.map_values(
        |m: i64| option_id("P"@, dec::<S>(m as int, 3)),
    )
}

/// The context of an underlying with the given strikes in thousandths.
pub fn box_context<S: Number>(symbol: &String, strikes: &Vec<i64>, dte: u8) -> (r: BoxContext<S>)
    ensures
        is_context_of(r, symbol@, strikes@, dte),
        r.wf(),
{
    let n = strikes.len();
    let mut ctx = BoxContext {
        prefix: symbol.clone(),
        dte,
        strikes: Vec::with_capacity(n),
        call_oids: Vec::with_capacity(n),
        put_oids: Vec::with_capacity(n),
    };
    let ghost values = strikes@.map_values(|m: i64| dec::<S>(m as int, 3));
    let ghost calls = strikes@.map_values(|m: i64| option_id("C"@, dec::<S>(m as int, 3)));
    let ghost puts = strikes@.map_values(|m: i64| option_id("P"@, dec::<S>(m as int, 3)));
    assert(texts(ctx.call_oids@) =~= calls.take(0));
    assert(texts(ctx.put_oids@) =~= puts.take(0));
    let mut i: usize = 0;
    while i < n
        invariant
            i <= n,
            n == strikes@.len(),
            ctx.prefix@ == symbol@,
            ctx.dte == dte,
            values == strikes@.map_values(|m: i64| dec::<S>(m as int, 3)),
            calls == strikes@.map_values(|m: i64| option_id("C"@, dec::<S>(m as int, 3))),
            puts == strikes@.map_values(|m: i64| option_id("P"@, dec::<S>(m as int, 3))),
            ctx.strikes@ == values.take(i as int),
            texts(ctx.call_oids@) == calls.take(i as int),
            texts(ctx.put_oids@) == puts.take(i as int),
        decreases n - i,
    {
        let ghost before = ctx;
        let strike = S::decimal(strikes[i] as i128, 3);
        let call = make_option_id("C", strike);
        let put = make_option_id("P", strike);
        ctx.strikes.push(strike);
        ctx.call_oids.push(call);
        ctx.put_oids.push(put);
        i = i + 1;
        assert(ctx.strikes@ =~= values.take(i as int));
        assert(texts(ctx.call_oids@) =~= texts(before.call_oids@).push(call@));
        assert(texts(ctx.put_oids@) =~= texts(before.put_oids@).push(put@));
        assert(texts(ctx.call_oids@) =~= calls.take(i as int));
        assert(texts(ctx.put_oids@) =~= puts.take(i as int));
    }
    assert(ctx.strikes@ =~= values);
    assert(texts(ctx.call_oids@) =~= calls);
    assert(texts(ctx.put_oids@) =~= puts);
    assert(texts(ctx.call_oids@).len() == ctx.call_oids@.len());
    assert(texts(ctx.put_oids@).len() == ctx.put_oids@.len());
    ctx
}

/// The index with the first `n` instruments as part of the only context.
pub open spec fn only_index(
    index: Map<Seq<char>, Seq<usize>>,
    oids: Seq<Seq<char>>,
    n: nat,
) -> Map<Seq<char>, Seq<usize>>
    decreases n,
{
    if n == 0 {
        index
    } else {
        indexed(only_index(index, oids, (n - 1) as nat), oids[n - 1], 0)
    }
}

/// Every instrument is part of the only context.
pub open spec fn all_first(index: Map<Seq<char>, Seq<usize>>) -> bool {
    forall|oid: Seq<char>, k: int|
        index.contains_key(oid) && 0 <= k < index[oid].len() ==> #[trigger] index[oid][k] == 0
}

fn add_all(index: &mut ContextIndex, oids: &Vec<String>)
    requires
        all_first(old(index)@),
    ensures
        final(index)@ == only_index(old(index)@, texts(oids@), oids@.len()),
        all_first(final(index)@),
{
    let ghost start = index@;
    let ghost all = texts(oids@);
    let n = oids.len();
    let mut i: usize = 0;
    while i < n
        invariant
            i <= n,
            n == oids@.len(),
            all == texts(oids@),
            index@ == only_index(start, all, i as nat),
            all_first(index@),
        decreases n - i,
    {
        assert(all[i as int] == oids@[i as int]@);
        index.add(oids[i].as_str(), 0);
        i = i + 1;
    }
}

/// The index of a single context: its calls, then its puts.
pub fn context_index<S: Number>(ctx: &BoxContext<S>) -> (r: ContextIndex)
    ensures
        r@ == only_index(
            only_index(Map::empty(), texts(ctx.call_oids@), ctx.call_oids@.len()),
            texts(ctx.put_oids@),
            ctx.put_oids@.len(),
        ),
        all_first(r@),
{
    let mut index = ContextIndex::new();
    add_all(&mut index, &ctx.call_oids);
    add_all(&mut index, &ctx.put_oids);
    index
}

// ---- The replay ----

/// What a replay has come to.
pub ghost struct RunModel<S> {
    pub book: PortfolioModel<S>,
    pub quotes: Map<Seq<char>, TickData<S>>,
    pub trades: Seq<TradeModel<S>>,
    /// The second that was last evaluated.
    pub evaluated: i64,
    /// The first second within trading hours, nothing where there was none.
    pub first: i64,
    /// The last second within trading hours.
    pub last: i64,
}

/// The trades that the first `n` events record.
pub open spec fn trades_in<S>(events: Seq<EventModel<S>>, n: nat) -> Seq<TradeModel<S>>
    decreases n,
{
    if n == 0 {
        Seq::empty()
    } else {
        let rest = trades_in(events, (n - 1) as nat);
        match events[n - 1] {
            EventModel::Exit { trade, .. } => rest.push(trade),
            _ => rest,
        }
    }
}

/// The quote of a row.
pub open spec fn row_quote<S>(row: QuoteRow<S>) -> TickData<S> {
    TickData {
        a1: row.a1,
        b1: row.b1,
        a1_v: row.a1_v,
        b1_v: row.b1_v,
        timestamp: row.second,
    }
}

/// The turn that a row makes of a portfolio.
pub open spec fn row_turn<S: Quantity>(
    book: PortfolioModel<S>,
    row: QuoteRow<S>,
    ctx: BoxContext<S>,
    index: Map<Seq<char>, Seq<usize>>,
    quotes: Map<Seq<char>, TickData<S>>,
    params: StrategyParams<S>,
) -> Turn<S> {
    let list = contexts_of(index, option_id(row.opt_type@, row.strike));
    contexts_turn(
        Turn { book, events: Seq::empty() },
        list,
        list.len(),
        seq![BoxContext { dte: row.dte, ..ctx }],
        quotes,
        params,
        row.second,
        timestamp_text(row.second as int),
    )
}

/// The replay after one more row: its quote is taken in, and within trading hours, once the
/// second has moved on, the portfolio works on it with the days to expiry of the row.
pub open spec fn after_row<S: Quantity>(
    run: RunModel<S>,
    row: QuoteRow<S>,
    ctx: BoxContext<S>,
    index: Map<Seq<char>, Seq<usize>>,
    params: StrategyParams<S>,
) -> RunModel<S> {
    let quotes = run.quotes.insert(option_id(row.opt_type@, row.strike), row_quote(row));
    if !in_session(row.second as int) {
        RunModel { quotes, ..run }
    } else {
        let first = if run.first == 0 {
            row.second
        } else {
            run.first
        };
        if row.second <= run.evaluated {
            RunModel { quotes, first, last: row.second, ..run }
        } else {
            let turn = row_turn(run.book, row, ctx, index, quotes, params);
            RunModel {
                book: turn.book,
                quotes,
                trades: run.trades + trades_in(turn.events, turn.events.len()),
                evaluated: row.second,
                first,
                last: row.second,
            }
        }
    }
}

/// The replay of the first `n` rows.
pub open spec fn replayed<S: Quantity>(
    start: RunModel<S>,
    rows: Seq<QuoteRow<S>>,
    ctx: BoxContext<S>,
    index: Map<Seq<char>, Seq<usize>>,
    params: StrategyParams<S>,
    n: nat,
) -> RunModel<S>
    decreases n,
{
    if n == 0 {
        start
    } else {
        after_row(
            replayed(start, rows, ctx, index, params, (n - 1) as nat),
            rows[n - 1],
            ctx,
            index,
            params,
        )
    }
}

/// A replay before its first row.
pub open spec fn run_start<S: Quantity>(cash: S) -> RunModel<S> {
    RunModel {
        book: PortfolioModel {
            cash,
            margin: zero::<S>(),
            positions: Seq::empty(),
            last_lb: Map::empty(),
            last_sb: Map::empty(),
            last_fly: Map::empty(),
        },
        quotes: Map::empty(),
        trades: Seq::empty(),
        evaluated: 0,
        first: 0,
        last: 0,
    }
}

/// The seconds of rows come from recorded times.
pub open spec fn seconds_fit<S>(rows: Seq<QuoteRow<S>>) -> bool {
    forall|i: int|
        0 <= i < rows.len() ==> -10_000_000_000_000_000 <= (#[trigger] rows[i]).second
            <= 10_000_000_000_000_000
}

/// What a list of trades holds.
pub open spec fn trade_models<S>(list: Seq<TradeRecord<S>>) -> Seq<TradeModel<S>> {
    list.map_values(|t: TradeRecord<S>| t@)
}

/// A finished replay.
pub struct BoxRun<S> {
    pub portfolio: Portfolio<S>,
    pub trades: Vec<TradeRecord<S>>,
    pub first_ts: i64,
    pub last_ts: i64,
}

fn take_trades<S: Number>(trades: &mut Vec<TradeRecord<S>>, events: Vec<PortfolioEvent<S>>)
    ensures
        trade_models(final(trades)@) == trade_models(old(trades)@) + trades_in(
            event_models(events@),
            events@.len(),
        ),
{
    let ghost all = event_models(events@);
    let ghost start = trade_models(trades@);
    let n = events.len();
    let mut i: usize = 0;
    assert(start =~= start + trades_in(all, 0));
    while i < n
        invariant
            i <= n,
            n == events@.len(),
            all == event_models(events@),
            trade_models(trades@) == start + trades_in(all, i as nat),
        decreases n - i,
    {
        assert(all[i as int] == events@[i as int]@);
        if let PortfolioEvent::Exit { trade_record, .. } = &events[i] {
            let copy = copy_trade(trade_record);
            let ghost before = trades@;
            let ghost model = copy@;
            trades.push(copy);
            assert(trade_models(trades@) =~= trade_models(before).push(model));
            assert(trade_models(trades@) =~= start + trades_in(all, i as nat + 1));
        }
        i = i + 1;
    }
}

/// A copy of a trade record.
fn copy_trade<S: Copy>(t: &TradeRecord<S>) -> (r: TradeRecord<S>)
    ensures
        r@ == t@,
{
    TradeRecord {
        pos_type: t.pos_type.clone(),
        prefix: t.prefix.clone(),
        strike_lo: t.strike_lo,
        strike_hi: t.strike_hi,
        dte_at_entry: t.dte_at_entry,
        entry_time: t.entry_time.clone(),
        exit_time: t.exit_time.clone(),
        entry_cost: t.entry_cost,
        payout: t.payout,
        exit_value: t.exit_value,
        pnl_rmb: t.pnl_rmb,
        exit_type: t.exit_type.clone(),
        holding_time_sec: t.holding_time_sec,
    }
}

/// Replays rows through a portfolio with the given cash at the start.
pub fn replay<S: Number>(
    rows: &Vec<QuoteRow<S>>,
    ctx: BoxContext<S>,
    params: &StrategyParams<S>,
    cash: S,
) -> (r: BoxRun<S>)
    requires
        ctx.wf(),
        seconds_fit(rows@),
    ensures
        ({
            let index = only_index(
                only_index(Map::empty(), texts(ctx.call_oids@), ctx.call_oids@.len()),
                texts(ctx.put_oids@),
                ctx.put_oids@.len(),
            );
            let run = replayed(run_start(cash), rows@, ctx, index, *params, rows@.len());
            &&& r.portfolio@ == run.book
            &&& trade_models(r.trades@) == run.trades
            &&& r.first_ts == run.first
            &&& r.last_ts == run.last
        }),
        positions_fit(r.portfolio@.positions, seq![ctx]),
{
    let n = rows.len();
    let index = context_index(&ctx);
    let ghost start = run_start(cash);
    let ghost plain = ctx;
    let mut contexts: Vec<BoxContext<S>> = Vec::new();
    contexts.push(ctx);
    let mut portfolio = Portfolio::new(cash);
    let mut state: QuoteBook<S> = QuoteBook::new();
    let mut trades: Vec<TradeRecord<S>> = Vec::new();
    assert(trade_models(trades@) =~= Seq::empty());
    let mut evaluated: i64 = 0;
    let mut first: i64 = 0;
    let mut last: i64 = 0;
    let from: i64 = -10_000_000_000_000_000;
    let to: i64 = 10_000_000_000_000_000;
    assert(entered_within(portfolio@.positions, from, to));
    let mut i: usize = 0;
    while i < n
        invariant
            i <= n,
            n == rows@.len(),
            plain.wf(),
            contexts@.len() == 1,
            contexts@[0] == (BoxContext { dte: contexts@[0].dte, ..plain }),
            seconds_fit(rows@),
            all_first(index@),
            from == -10_000_000_000_000_000,
            to == 10_000_000_000_000_000,
            entered_within(portfolio@.positions, from, to),
            positions_fit(portfolio@.positions, contexts@),
            portfolio.eval_count <= i,
            evaluated >= 0,
            (RunModel {
                book: portfolio@,
                quotes: state@,
                trades: trade_models(trades@),
                evaluated,
                first,
                last,
            }) == replayed(start, rows@, plain, index@, *params, i as nat),
        decreases n - i,
    {
        let row = &rows[i];
        let second = row.second;
        let oid = make_option_id(row.opt_type.as_str(), row.strike);
        let quote = TickData {
            a1: row.a1,
            b1: row.b1,
            a1_v: row.a1_v,
            b1_v: row.b1_v,
            timestamp: second,
        };
        state.insert(oid.clone(), quote);
        let ghost old_contexts = contexts@;
        contexts[0].dte = row.dte;
        proof {
            assert(contexts@[0] == (BoxContext { dte: row.dte, ..plain }));
            assert forall|m: int| 0 <= m < portfolio@.positions.len() implies
                crate::trader::position_fits(#[trigger] portfolio@.positions[m], contexts@) by {
                assert(crate::trader::position_fits(portfolio@.positions[m], old_contexts));
            }
        }
        if is_trading_hours(second) {
            if first == 0 {
                first = second;
            }
            last = second;
            if second > evaluated {
                evaluated = second;
                let tick = TickUpdate {
                    oid,
                    a1: row.a1,
                    b1: row.b1,
                    a1_v: row.a1_v,
                    b1_v: row.b1_v,
                };
                let ghost before = state@;
                let ghost book = portfolio@;
                let ghost traded = trade_models(trades@);
                let ghost list = contexts_of(index@, tick.oid@);
                assert(contexts@ =~= seq![BoxContext { dte: row.dte, ..plain }]);
                assert(ready(portfolio@.positions, list, contexts@, second)) by {
                    assert forall|m: int| 0 <= m < portfolio@.positions.len() implies i64::MIN
                        <= second - (#[trigger] portfolio@.positions[m]).entry_ts <= i64::MAX by {
                        assert(from <= portfolio@.positions[m].entry_ts <= to);
                        assert(rows@[i as int].second == second);
                    }
                }
                assert(n == rows.len());
                assert forall|m: int| 0 <= m < list.len() implies (#[trigger] list[m]) < 1 by {
                    assert(index@[tick.oid@][m] == 0);
                }
                assert(rough_year(quotient(second as int, 86_400)).1 >= 0);
                let time = fmt_ts(second - LOCAL_OFFSET);
                let events = portfolio.update(
                    &tick,
                    &mut state,
                    &index,
                    contexts.as_slice(),
                    params,
                    second,
                    time.as_str(),
                );
                proof {
                    assert(before.insert(tick.oid@, tick.quote_at(second)) =~= before);
                    assert(state@ == before);
                    let turn = row_turn(book, *row, plain, index@, before, *params);
                    assert(turn_of(portfolio, events@) == turn);
                    assert(event_models(events@).len() == events@.len());
                }
                take_trades(&mut trades, events);
            }
        }
        i = i + 1;
    }
    proof {
        assert forall|m: int| 0 <= m < portfolio@.positions.len() implies
            crate::trader::position_fits(#[trigger] portfolio@.positions[m], seq![plain]) by {
            assert(crate::trader::position_fits(portfolio@.positions[m], contexts@));
        }
    }
    BoxRun { portfolio, trades, first_ts: first, last_ts: last }
}

// ---- Valuation ----

/// What the first `n` positions are worth at maturity: long boxes bring their payout, short
/// ones owe it, butterflies count for nothing.
pub open spec fn payout_value<S: Quantity>(positions: Seq<PositionModel<S>>, n: nat) -> S
    decreases n,
{
    if n == 0 {
        zero::<S>()
    } else {
        let rest = payout_value(positions, (n - 1) as nat);
        let p = positions[n - 1];
        if p.pos_type == PosType::LongBox {
            rest + p.payout * spec_contract_size::<S>()
        } else if p.pos_type == PosType::ShortBox {
            rest - p.payout * spec_contract_size::<S>()
        } else {
            rest
        }
    }
}

/// The quotes of the four legs of a position, if all are there.
pub open spec fn legs_known<S>(
    ctx: BoxContext<S>,
    quotes: Map<Seq<char>, TickData<S>>,
    p: PositionModel<S>,
) -> bool {
    &&& quotes.contains_key(ctx.call_oids@[p.strike_i as int]@)
    &&& quotes.contains_key(ctx.call_oids@[p.strike_j as int]@)
    &&& quotes.contains_key(ctx.put_oids@[p.strike_j as int]@)
    &&& quotes.contains_key(ctx.put_oids@[p.strike_i as int]@)
}

/// What a position is worth on the present quotes: a long box what closing it would bring, or
/// its cost where a price is missing; a short box owes what buying it back would take, or its
/// payout where a price is missing.
pub open spec fn market_value<S: Quantity>(
    ctx: BoxContext<S>,
    quotes: Map<Seq<char>, TickData<S>>,
    p: PositionModel<S>,
) -> S {
    let c_lo = quotes[ctx.call_oids@[p.strike_i as int]@];
    let c_hi = quotes[ctx.call_oids@[p.strike_j as int]@];
    let p_hi = quotes[ctx.put_oids@[p.strike_j as int]@];
    let p_lo = quotes[ctx.put_oids@[p.strike_i as int]@];
    let none = zero::<S>();
    if p.pos_type == PosType::LongBox {
        let priced = none < c_lo.b1 && none < c_hi.a1 && none < p_hi.b1 && none < p_lo.a1;
        if legs_known(ctx, quotes, p) && priced {
            ((c_lo.b1 - c_hi.a1) + (p_hi.b1 - p_lo.a1)).spec_max(none)
        } else {
            p.entry_cost
        }
    } else {
        let priced = none < c_lo.a1 && none < c_hi.b1 && none < p_hi.a1 && none < p_lo.b1;
        if legs_known(ctx, quotes, p) && priced {
            ((c_lo.a1 - c_hi.b1) + (p_hi.a1 - p_lo.b1)).spec_max(none)
        } else {
            p.payout
        }
    }
}

/// What the first `n` positions are worth on the present quotes.
pub open spec fn open_value<S: Quantity>(
    positions: Seq<PositionModel<S>>,
    contexts: Seq<BoxContext<S>>,
    quotes: Map<Seq<char>, TickData<S>>,
    n: nat,
) -> S
    decreases n,
{
    if n == 0 {
        zero::<S>()
    } else {
        let rest = open_value(positions, contexts, quotes, (n - 1) as nat);
        let p = positions[n - 1];
        let value = market_value(contexts[p.ctx_idx as int], quotes, p) * spec_contract_size::<
            S,
        >();
        if p.pos_type == PosType::LongBox {
            rest + value
        } else if p.pos_type == PosType::ShortBox {
            rest - value
        } else {
            rest
        }
    }
}

impl<S: Number> Portfolio<S> {
    /// What the open positions are worth at maturity.
    pub fn value_at_maturity(&self) -> (r: S)
        ensures
            r == payout_value(self@.positions, self@.positions.len()),
    {
        let ghost all = self@.positions;
        let n = self.positions.len();
        let mut value = S::decimal(0, 0);
        let mut i: usize = 0;
        while i < n
            invariant
                i <= n,
                n == self.positions@.len(),
                all == self@.positions,
                all.len() == n,
                value == payout_value(all, i as nat),
            decreases n - i,
        {
            let p = &self.positions[i];
            assert(all[i as int] == p@);
            match p.pos_type {
                PosType::LongBox => {
                    value = value.plus(p.payout.times(contract_size()));
                },
                PosType::ShortBox => {
                    value = value.minus(p.payout.times(contract_size()));
                },
                _ => {},
            }
            i = i + 1;
        }
        value
    }

    /// Cash, margin and open positions on the present quotes.
    pub fn net_worth(&self, state: &QuoteBook<S>, contexts: &[BoxContext<S>]) -> (r: S)
        requires
            forall|c: int| 0 <= c < contexts@.len() ==> (#[trigger] contexts@[c]).wf(),
            positions_fit(self@.positions, contexts@),
            forall|p: int|
                0 <= p < self@.positions.len() ==> (#[trigger] self@.positions[p]).ctx_idx
                    < contexts@.len(),
        ensures
            r == self.available_cash + self.locked_margin + open_value(
                self@.positions,
                contexts@,
                state@,
                self@.positions.len(),
            ),
    {
        let ghost all = self@.positions;
        let n = self.positions.len();
        let mut value = S::decimal(0, 0);
        let mut i: usize = 0;
        while i < n
            invariant
                i <= n,
                n == self.positions@.len(),
                all == self@.positions,
                all.len() == n,
                forall|c: int| 0 <= c < contexts@.len() ==> (#[trigger] contexts@[c]).wf(),
                positions_fit(all, contexts@),
                forall|p: int|
                    0 <= p < all.len() ==> (#[trigger] all[p]).ctx_idx < contexts@.len(),
                value == open_value(all, contexts@, state@, i as nat),
            decreases n - i,
        {
            let p = &self.positions[i];
            assert(all[i as int] == p@);
            assert(crate::trader::position_fits(all[i as int], contexts@));
            let ctx = &contexts[p.ctx_idx];
            assert(ctx.wf());
            let quotes = (
                state.get(ctx.call_oids[p.strike_i].as_str()),
                state.get(ctx.call_oids[p.strike_j].as_str()),
                state.get(ctx.put_oids[p.strike_j].as_str()),
                state.get(ctx.put_oids[p.strike_i].as_str()),
            );
            let none = S::decimal(0, 0);
            match p.pos_type {
                PosType::LongBox => {
                    let mut worth = p.entry_cost;
                    if let (Some(c_lo), Some(c_hi), Some(p_hi), Some(p_lo)) = quotes {
                        if none.lt(c_lo.b1) && none.lt(c_hi.a1) && none.lt(p_hi.b1) && none.lt(
                            p_lo.a1,
                        ) {
                            worth = c_lo.b1.minus(c_hi.a1).plus(p_hi.b1.minus(p_lo.a1)).max(none);
                        }
                    }
                    assert(worth == market_value(*ctx, state@, p@));
                    value = value.plus(worth.times(contract_size()));
                },
                PosType::ShortBox => {
                    let mut owed = p.payout;
                    if let (Some(c_lo), Some(c_hi), Some(p_hi), Some(p_lo)) = quotes {
                        if none.lt(c_lo.a1) && none.lt(c_hi.b1) && none.lt(p_hi.a1) && none.lt(
                            p_lo.b1,
                        ) {
                            owed = c_lo.a1.minus(c_hi.b1).plus(p_hi.a1.minus(p_lo.b1)).max(none);
                        }
                    }
                    assert(owed == market_value(*ctx, state@, p@));
                    value = value.minus(owed.times(contract_size()));
                },
                _ => {},
            }
            i = i + 1;
        }
        self.available_cash.plus(self.locked_margin).plus(value)
    }
}

} // verus!
