//! What a box and butterfly run amounts to: returns, win rate, holding times, and the trade log.

use vstd::prelude::*;
use vstd::string::*;
use crate::market::{
    contract_size, initial_cash, spec_contract_size, spec_initial_cash, StrategyParams, TradeModel,
    TradeRecord,
};
use crate::model::{json_in_text, json_member, json_nodes, json_number, json_numbers, parse_json};
use crate::number::{dec, zero, Number, Quantity};
use crate::replay::trade_models;
use crate::text::{padded, padded_text};

verus! {

// ---- Parameters ----

/// The thresholds that a parameter file gives, as far as it does.
#[derive(Debug, Clone, Copy)]
pub struct ParamFields<S> {
    pub min_return: Option<S>,
    pub min_return_butterfly: Option<S>,
    pub min_exit_return: Option<S>,
}

/// A value, or another one where it is missing.
pub open spec fn given_or<S>(value: Option<S>, otherwise: S) -> S {
    match value {
        Some(v) => v,
        None => otherwise,
    }
}

/// The thresholds of a parameter file, those that are missing taken from elsewhere.
pub open spec fn filled<S>(f: ParamFields<S>, otherwise: StrategyParams<S>) -> StrategyParams<S> {
    StrategyParams {
        min_return: given_or(f.min_return, otherwise.min_return),
        min_return_butterfly: given_or(f.min_return_butterfly, otherwise.min_return_butterfly),
        min_exit_return: given_or(f.min_exit_return, otherwise.min_exit_return),
    }
}

/// The number that a document has under a member name, if it has one there.
pub open spec fn number_at<S: Quantity>(
    nodes: Set<Seq<Seq<char>>>,
    numbers: Map<Seq<Seq<char>>, Seq<char>>,
    key: Seq<char>,
) -> Option<S> {
    if nodes.contains(seq![key]) && numbers.dom().contains(seq![key]) {
        S::spec_parse(numbers[seq![key]])
    } else {
        None
    }
}

fn find_number<S: Number>(doc: &serde_json::Value, key: &str) -> (r: Option<S>)
    ensures
        r == number_at::<S>(json_nodes(*doc), json_numbers(*doc), key@),
{
    match json_member(doc, key) {
        None => None,
        Some(node) => {
            assert(seq![key@] + Seq::<Seq<char>>::empty() =~= seq![key@]);
            match json_number(node) {
                None => None,
                Some(text) => S::parse(text.as_str()),
            }
        },
    }
}

/// The thresholds that the text of a parameter file gives; nothing where it is no document.
pub fn param_fields<S: Number>(text: &str) -> (r: Option<ParamFields<S>>)
    ensures
        match json_in_text(text@) {
            None => r is None,
            Some((nodes, _, numbers)) => r == Some(
                ParamFields {
                    min_return: number_at::<S>(nodes, numbers, "min_return"@),
                    min_return_butterfly: number_at::<S>(
                        nodes,
                        numbers,
                        "min_return_butterfly"@,
                    ),
                    min_exit_return: number_at::<S>(nodes, numbers, "min_exit_return"@),
                },
            ),
        },
{
    match parse_json(text) {
        None => None,
        Some(doc) => Some(
            ParamFields {
                min_return: find_number(&doc, "min_return"),
                min_return_butterfly: find_number(&doc, "min_return_butterfly"),
                min_exit_return: find_number(&doc, "min_exit_return"),
            },
        ),
    }
}

fn or_given<S: Number>(value: Option<S>, otherwise: S) -> (r: S)
    ensures
        r == given_or(value, otherwise),
{
    match value {
        Some(v) => v,
        None => otherwise,
    }
}

fn fill<S: Number>(f: ParamFields<S>, otherwise: StrategyParams<S>) -> (r: StrategyParams<S>)
    ensures
        r == filled(f, otherwise),
{
    StrategyParams {
        min_return: or_given(f.min_return, otherwise.min_return),
        min_return_butterfly: or_given(f.min_return_butterfly, otherwise.min_return_butterfly),
        min_exit_return: or_given(f.min_exit_return, otherwise.min_exit_return),
    }
}

/// The thresholds that stand in for those missing from the file in live trading.
pub open spec fn live_fill<S: Quantity>() -> StrategyParams<S> {
    StrategyParams {
        min_return: dec::<S>(15, 3),
        min_return_butterfly: dec::<S>(65, 3),
        min_exit_return: dec::<S>(5, 2),
    }
}

/// The thresholds of a replay without a parameter file.
pub open spec fn replay_fill<S: Quantity>() -> StrategyParams<S> {
    StrategyParams {
        min_return: dec::<S>(1126, 4),
        min_return_butterfly: dec::<S>(546, 4),
        min_exit_return: dec::<S>(10, 2),
    }
}

/// The thresholds of live trading: those of the parameter file, or the defaults where there is
/// none.
pub fn live_params<S: Number>(file: Option<ParamFields<S>>) -> (r: StrategyParams<S>)
    ensures
        match file {
            Some(f) => r == filled(f, live_fill::<S>()),
            None => {
                &&& r.min_return == dec::<S>(2, 1)
                &&& r.min_return_butterfly == dec::<S>(9, 1)
                &&& r.min_exit_return == dec::<S>(2, 1)
            },
        },
{
    match file {
        Some(f) => fill(
            f,
            StrategyParams {
                min_return: S::decimal(15, 3),
                min_return_butterfly: S::decimal(65, 3),
                min_exit_return: S::decimal(5, 2),
            },
        ),
        None => StrategyParams::default(),
    }
}

/// The thresholds of a replay: those of the parameter file, filled up with, or replaced by, its
/// own.
pub fn replay_params<S: Number>(file: Option<ParamFields<S>>) -> (r: StrategyParams<S>)
    ensures
        match file {
            Some(f) => r == filled(f, replay_fill::<S>()),
            None => r == replay_fill::<S>(),
        },
{
    let own = StrategyParams {
        min_return: S::decimal(1126, 4),
        min_return_butterfly: S::decimal(546, 4),
        min_exit_return: S::decimal(10, 2),
    };
    match file {
        Some(f) => fill(f, own),
        None => own,
    }
}

// ---- Capital ----

/// The capital at the end of a run, and how it compares with the start.
#[derive(Debug, Clone, Copy)]
pub struct CapitalReport<S> {
    pub final_capital: S,
    pub total_pnl: S,
    pub pnl_pct: S,
    pub sim_days: S,
    pub ann_return_pct: S,
}

/// The days between two seconds, one where there is no span.
pub open spec fn days_between_seconds<S: Quantity>(first: int, last: int) -> S {
    if first > 0 && last > first {
        dec::<S>(last - first, 0) / dec::<S>(86_400, 0)
    } else {
        dec::<S>(1, 0)
    }
}

/// The capital report of a run.
pub open spec fn capital_of<S: Quantity>(
    cash: S,
    margin: S,
    open_value: S,
    first: int,
    last: int,
) -> CapitalReport<S> {
    let final_capital = cash + margin + open_value;
    let total_pnl = final_capital - spec_initial_cash::<S>();
    let pnl_pct = total_pnl / spec_initial_cash::<S>() * dec::<S>(100, 0);
    let sim_days = days_between_seconds::<S>(first, last);
    CapitalReport {
        final_capital,
        total_pnl,
        pnl_pct,
        sim_days,
        ann_return_pct: pnl_pct * dec::<S>(365, 0) / sim_days,
    }
}

/// Works out the capital at the end of a run, and how it compares with the start.
pub fn capital_report<S: Number>(
    cash: S,
    margin: S,
    open_value: S,
    first_ts: i64,
    last_ts: i64,
) -> (r: CapitalReport<S>)
    ensures
        r == capital_of(cash, margin, open_value, first_ts as int, last_ts as int),
{
    let final_capital = cash.plus(margin).plus(open_value);
    let total_pnl = final_capital.minus(initial_cash());
    let pnl_pct = total_pnl.over(initial_cash()).times(S::decimal(100, 0));
    let sim_days = if first_ts > 0 && last_ts > first_ts {
        S::decimal((last_ts - first_ts) as i128, 0).over(S::decimal(86_400, 0))
    } else {
        S::decimal(1, 0)
    };
    CapitalReport {
        final_capital,
        total_pnl,
        pnl_pct,
        sim_days,
        ann_return_pct: pnl_pct.times(S::decimal(365, 0)).over(sim_days),
    }
}

// ---- Lists of values ----

/// The sum of the first `n` values.
pub open spec fn sum_of<S: Quantity>(list: Seq<S>, n: nat) -> S
    decreases n,
{
    if n == 0 {
        zero::<S>()
    } else {
        sum_of(list, (n - 1) as nat) + list[n - 1]
    }
}

/// The mean of values, nothing where there are none.
pub open spec fn mean_value<S: Quantity>(list: Seq<S>) -> S {
    if list.len() > 0 {
        sum_of(list, list.len()) / dec::<S>(list.len() as int, 0)
    } else {
        zero::<S>()
    }
}

/// The first place whose value is above `v`, or the length of the list.
pub open spec fn place_above<S: Quantity>(list: Seq<S>, v: S, from: int) -> int
    decreases list.len() - from,
{
    if from >= list.len() {
        list.len() as int
    } else if v < list[from] {
        from
    } else {
        place_above(list, v, from + 1)
    }
}

/// The first `n` values in ascending order.
pub open spec fn in_order<S: Quantity>(list: Seq<S>, n: nat) -> Seq<S>
    decreases n,
{
    if n == 0 {
        Seq::empty()
    } else {
        let rest = in_order(list, (n - 1) as nat);
        rest.insert(place_above(rest, list[n - 1], 0), list[n - 1])
    }
}

/// The middle value in ascending order, the mean of the two in the middle where their number is
/// even, nothing where there are none.
pub open spec fn median_value<S: Quantity>(list: Seq<S>) -> S {
    let sorted = in_order(list, list.len());
    let mid = list.len() as int / 2;
    if list.len() == 0 {
        zero::<S>()
    } else if list.len() % 2 == 0 {
        (sorted[mid - 1] + sorted[mid]) / dec::<S>(2, 0)
    } else {
        sorted[mid]
    }
}

/// How many of the first `n` values are above nothing.
pub open spec fn positive_count<S: Quantity>(list: Seq<S>, n: nat) -> nat
    decreases n,
{
    if n == 0 {
        0
    } else {
        positive_count(list, (n - 1) as nat) + if zero::<S>() < list[n - 1] {
            1nat
        } else {
            0
        }
    }
}

/// How many of the first `n` values reach a level.
pub open spec fn reaching_count<S: Quantity>(list: Seq<S>, level: S, n: nat) -> nat
    decreases n,
{
    if n == 0 {
        0
    } else {
        reaching_count(list, level, (n - 1) as nat) + if level <= list[n - 1] {
            1nat
        } else {
            0
        }
    }
}

/// A share of a number in percent, nothing where the number is nothing.
pub open spec fn percent_of<S: Quantity>(part: nat, whole: nat) -> S {
    if whole > 0 {
        dec::<S>(part as int, 0) / dec::<S>(whole as int, 0) * dec::<S>(100, 0)
    } else {
        zero::<S>()
    }
}

fn sum<S: Number>(list: &Vec<S>) -> (r: S)
    ensures
        r == sum_of(list@, list@.len()),
{
    let n = list.len();
    let mut total = S::decimal(0, 0);
    let mut i: usize = 0;
    while i < n
        invariant
            i <= n,
            n == list@.len(),
            total == sum_of(list@, i as nat),
        decreases n - i,
    {
        total = total.plus(list[i]);
        i = i + 1;
    }
    total
}

/// The mean of values, nothing where there are none.
pub fn mean<S: Number>(list: &Vec<S>) -> (r: S)
    ensures
        r == mean_value(list@),
{
    if list.len() > 0 {
        sum(list).over(S::decimal(list.len() as i128, 0))
    } else {
        S::decimal(0, 0)
    }
}

fn sorted<S: Number>(list: &Vec<S>) -> (r: Vec<S>)
    ensures
        r@ == in_order(list@, list@.len()),
        r@.len() == list@.len(),
{
    let n = list.len();
    let mut result: Vec<S> = Vec::with_capacity(n);
    let mut i: usize = 0;
    while i < n
        invariant
            i <= n,
            n == list@.len(),
            result@ == in_order(list@, i as nat),
            result@.len() == i,
        decreases n - i,
    {
        let v = list[i];
        let mut at: usize = 0;
        while at < result.len() && !v.lt(result[at])
            invariant
                at <= result@.len(),
                place_above(result@, v, 0) == place_above(result@, v, at as int),
            decreases result@.len() - at,
        {
            at = at + 1;
        }
        result.insert(at, v);
        i = i + 1;
    }
    result
}

/// The middle value in ascending order, nothing where there are no values.
pub fn median<S: Number>(list: &Vec<S>) -> (r: S)
    ensures
        r == median_value(list@),
{
    let n = list.len();
    if n == 0 {
        return S::decimal(0, 0);
    }
    let order = sorted(list);
    let mid = n / 2;
    if n % 2 == 0 {
        order[mid - 1].plus(order[mid]).over(S::decimal(2, 0))
    } else {
        order[mid]
    }
}

fn percent<S: Number>(part: usize, whole: usize) -> (r: S)
    ensures
        r == percent_of::<S>(part as nat, whole as nat),
{
    if whole > 0 {
        S::decimal(part as i128, 0).over(S::decimal(whole as i128, 0)).times(S::decimal(100, 0))
    } else {
        S::decimal(0, 0)
    }
}

// ---- Returns ----

/// The return of a closed box on what it tied up: the cash paid for a long box, the margin locked
/// for a short one; none where that is next to nothing.
pub open spec fn trade_return<S: Quantity>(t: TradeModel<S>) -> Option<S> {
    let tiny = dec::<S>(1, 6);
    if t.pos_type == "LongBox"@ && tiny < t.entry_cost {
        Some(t.pnl_rmb / (t.entry_cost * spec_contract_size::<S>()))
    } else if t.pos_type == "ShortBox"@ && tiny < t.payout {
        Some(t.pnl_rmb / (dec::<S>(2, 0) * t.payout * spec_contract_size::<S>()))
    } else {
        None
    }
}

/// The returns of the first `n` trades that have one.
pub open spec fn returns_of<S: Quantity>(trades: Seq<TradeModel<S>>, n: nat) -> Seq<S>
    decreases n,
{
    if n == 0 {
        Seq::empty()
    } else {
        let rest = returns_of(trades, (n - 1) as nat);
        match trade_return(trades[n - 1]) {
            Some(r) => rest.push(r),
            None => rest,
        }
    }
}

/// How the returns of trades compare with the smallest one that is asked for.
#[derive(Debug, Clone, Copy)]
pub struct ReturnReport<S> {
    pub count: usize,
    pub average: S,
    pub median: S,
    pub positive_pct: S,
    pub above_min: usize,
    pub above_min_pct: S,
}

/// The report of returns against the smallest one that is asked for.
pub open spec fn return_report_of<S: Quantity>(
    list: Seq<S>,
    min_return: S,
    r: ReturnReport<S>,
) -> bool {
    let n = list.len();
    &&& r.count == n
    &&& r.average == mean_value(list)
    &&& r.median == median_value(list)
    &&& r.positive_pct == percent_of::<S>(positive_count(list, n), n)
    &&& r.above_min == reaching_count(list, min_return, n)
    &&& r.above_min_pct == percent_of::<S>(reaching_count(list, min_return, n), n)
}

fn is_named(name: &String, text: &str) -> (r: bool)
    ensures
        r == (name@ == text@),
{
    *name == String::from_str(text)
}

fn return_of<S: Number>(t: &TradeRecord<S>) -> (r: Option<S>)
    ensures
        r == trade_return(t@),
{
    let tiny = S::decimal(1, 6);
    if is_named(&t.pos_type, "LongBox") && tiny.lt(t.entry_cost) {
        Some(t.pnl_rmb.over(t.entry_cost.times(contract_size())))
    } else if is_named(&t.pos_type, "ShortBox") && tiny.lt(t.payout) {
        Some(t.pnl_rmb.over(S::decimal(2, 0).times(t.payout).times(contract_size())))
    } else {
        None
    }
}

/// The returns of the trades that have one.
pub fn trade_returns<S: Number>(trades: &Vec<TradeRecord<S>>) -> (r: Vec<S>)
    ensures
        r@ == returns_of(trade_models(trades@), trades@.len()),
{
    let ghost all = trade_models(trades@);
    let n = trades.len();
    let mut list: Vec<S> = Vec::new();
    let mut i: usize = 0;
    while i < n
        invariant
            i <= n,
            n == trades@.len(),
            all == trade_models(trades@),
            list@ == returns_of(all, i as nat),
        decreases n - i,
    {
        assert(all[i as int] == trades@[i as int]@);
        if let Some(v) = return_of(&trades[i]) {
            list.push(v);
        }
        i = i + 1;
    }
    list
}

/// Compares returns with the smallest one that is asked for.
pub fn return_report<S: Number>(list: &Vec<S>, min_return: S) -> (r: ReturnReport<S>)
    ensures
        return_report_of(list@, min_return, r),
{
    let n = list.len();
    let nothing = S::decimal(0, 0);
    let mut positive: usize = 0;
    let mut above: usize = 0;
    let mut i: usize = 0;
    while i < n
        invariant
            i <= n,
            n == list@.len(),
            nothing == zero::<S>(),
            positive <= i,
            above <= i,
            positive == positive_count(list@, i as nat),
            above == reaching_count(list@, min_return, i as nat),
        decreases n - i,
    {
        if nothing.lt(list[i]) {
            positive = positive + 1;
        }
        if min_return.le(list[i]) {
            above = above + 1;
        }
        i = i + 1;
    }
    ReturnReport {
        count: n,
        average: mean(list),
        median: median(list),
        positive_pct: percent(positive, n),
        above_min: above,
        above_min_pct: percent(above, n),
    }
}

/// Whether the return that is asked for is achieved.
#[derive(Debug, Clone, Copy, PartialEq, Eq, Structural)]
pub enum Verdict {
    /// The median trade loses.
    Losing,
    /// The median trade reaches the return.
    Achievable,
    /// The median trade gains less than the return.
    Partial,
}

/// Judges whether the return that is asked for is achieved, by the median trade.
pub fn verdict<S: Number>(median_return: S, min_return: S) -> (r: Verdict)
    ensures
        r == if median_return <= zero::<S>() {
            Verdict::Losing
        } else if min_return <= median_return {
            Verdict::Achievable
        } else {
            Verdict::Partial
        },
{
    if median_return.le(S::decimal(0, 0)) {
        Verdict::Losing
    } else if min_return.le(median_return) {
        Verdict::Achievable
    } else {
        Verdict::Partial
    }
}

// ---- Profits and losses ----

/// The profits of the first `n` trades that gain, or the losses of those that lose.
pub open spec fn results_of<S: Quantity>(trades: Seq<TradeModel<S>>, gain: bool, n: nat) -> Seq<S>
    decreases n,
{
    if n == 0 {
        Seq::empty()
    } else {
        let rest = results_of(trades, gain, (n - 1) as nat);
        let pnl = trades[n - 1].pnl_rmb;
        if gain && zero::<S>() < pnl || !gain && pnl < zero::<S>() {
            rest.push(pnl)
        } else {
            rest
        }
    }
}

/// The largest, or the smallest, of the first `n` values.
pub open spec fn extreme_of<S: Quantity>(list: Seq<S>, largest: bool, n: nat) -> Option<S>
    decreases n,
{
    if n == 0 {
        None
    } else {
        match extreme_of(list, largest, (n - 1) as nat) {
            None => Some(list[n - 1]),
            Some(v) => Some(
                if largest {
                    v.spec_max(list[n - 1])
                } else {
                    v.spec_min(list[n - 1])
                },
            ),
        }
    }
}

/// Profits and losses of trades.
#[derive(Debug, Clone, Copy)]
pub struct ProfitReport<S> {
    pub trades: usize,
    pub wins: usize,
    pub losses: usize,
    pub gross_win: S,
    pub gross_loss: S,
    pub avg_pnl: S,
    pub avg_win: S,
    pub avg_loss: S,
    /// The best trade, if any gained.
    pub max_win: Option<S>,
    /// The worst trade, if any lost.
    pub max_loss: Option<S>,
    /// What was gained over what was lost, if anything was lost.
    pub profit_factor: Option<S>,
    pub win_rate: S,
}

/// The report of the profits and losses of trades.
pub open spec fn profit_report_of<S: Quantity>(
    trades: Seq<TradeModel<S>>,
    total_pnl: S,
    r: ProfitReport<S>,
) -> bool {
    let n = trades.len();
    let wins = results_of(trades, true, n);
    let losses = results_of(trades, false, n);
    let gross_loss = sum_of(losses, losses.len());
    &&& r.trades == n
    &&& r.wins == wins.len()
    &&& r.losses == losses.len()
    &&& r.gross_win == sum_of(wins, wins.len())
    &&& r.gross_loss == gross_loss
    &&& r.avg_pnl == if n > 0 {
        total_pnl / dec::<S>(n as int, 0)
    } else {
        zero::<S>()
    }
    &&& r.avg_win == mean_value(wins)
    &&& r.avg_loss == mean_value(losses)
    &&& r.max_win == extreme_of(wins, true, wins.len())
    &&& r.max_loss == extreme_of(losses, false, losses.len())
    &&& r.profit_factor == if zero::<S>() < gross_loss.spec_abs() {
        Some(sum_of(wins, wins.len()) / gross_loss.spec_abs())
    } else {
        None
    }
    &&& r.win_rate == percent_of::<S>(wins.len(), n)
}

fn results<S: Number>(trades: &Vec<TradeRecord<S>>, gain: bool) -> (r: Vec<S>)
    ensures
        r@ == results_of(trade_models(trades@), gain, trades@.len()),
{
    let ghost all = trade_models(trades@);
    let n = trades.len();
    let nothing = S::decimal(0, 0);
    let mut list: Vec<S> = Vec::new();
    let mut i: usize = 0;
    while i < n
        invariant
            i <= n,
            n == trades@.len(),
            nothing == zero::<S>(),
            all == trade_models(trades@),
            list@ == results_of(all, gain, i as nat),
        decreases n - i,
    {
        assert(all[i as int] == trades@[i as int]@);
        let pnl = trades[i].pnl_rmb;
        if gain && nothing.lt(pnl) || !gain && pnl.lt(nothing) {
            list.push(pnl);
        }
        i = i + 1;
    }
    list
}

fn extreme<S: Number>(list: &Vec<S>, largest: bool) -> (r: Option<S>)
    ensures
        r == extreme_of(list@, largest, list@.len()),
{
    let n = list.len();
    let mut best: Option<S> = None;
    let mut i: usize = 0;
    while i < n
        invariant
            i <= n,
            n == list@.len(),
            best == extreme_of(list@, largest, i as nat),
        decreases n - i,
    {
        best = match best {
            None => Some(list[i]),
            Some(v) => Some(
                if largest {
                    v.max(list[i])
                } else {
                    v.min(list[i])
                },
            ),
        };
        i = i + 1;
    }
    best
}

/// Adds up the profits and losses of trades.
pub fn profit_report<S: Number>(trades: &Vec<TradeRecord<S>>, total_pnl: S) -> (r: ProfitReport<S>)
    ensures
        profit_report_of(trade_models(trades@), total_pnl, r),
{
    let n = trades.len();
    assert(trade_models(trades@).len() == n);
    let wins = results(trades, true);
    let losses = results(trades, false);
    let gross_win = sum(&wins);
    let gross_loss = sum(&losses);
    let size = gross_loss.abs();
    ProfitReport {
        trades: n,
        wins: wins.len(),
        losses: losses.len(),
        gross_win,
        gross_loss,
        avg_pnl: if n > 0 {
            total_pnl.over(S::decimal(n as i128, 0))
        } else {
            S::decimal(0, 0)
        },
        avg_win: mean(&wins),
        avg_loss: mean(&losses),
        max_win: extreme(&wins, true),
        max_loss: extreme(&losses, false),
        profit_factor: if S::decimal(0, 0).lt(size) {
            Some(gross_win.over(size))
        } else {
            None
        },
        win_rate: percent(wins.len(), n),
    }
}

// ---- Holding times and kinds ----

/// The times that trades were held, in seconds.
pub open spec fn holding_times<S: Quantity>(trades: Seq<TradeModel<S>>) -> Seq<S> {
    trades.map_values(|t: TradeModel<S>| dec::<S>(t.holding_time_sec, 0))
}

/// The times that trades were held, in seconds.
pub fn times_held<S: Number>(trades: &Vec<TradeRecord<S>>) -> (r: Vec<S>)
    ensures
        r@ == holding_times(trade_models(trades@)),
{
    let ghost all = holding_times(trade_models(trades@));
    let n = trades.len();
    let mut list: Vec<S> = Vec::with_capacity(n);
    let mut i: usize = 0;
    while i < n
        invariant
            i <= n,
            n == trades@.len(),
            all == holding_times(trade_models(trades@)),
            list@ == all.take(i as int),
        decreases n - i,
    {
        list.push(S::decimal(trades[i].holding_time_sec as i128, 0));
        i = i + 1;
        assert(list@ =~= all.take(i as int));
    }
    assert(list@ =~= all);
    list
}

/// A span of time as text: in seconds, minutes or hours.
pub open spec fn span_text<S: Quantity>(secs: S) -> Seq<char> {
    if secs < dec::<S>(60, 0) {
        secs.spec_text(1) + "s"@
    } else if secs < dec::<S>(3600, 0) {
        (secs / dec::<S>(60, 0)).spec_text(1) + "m"@
    } else {
        (secs / dec::<S>(3600, 0)).spec_text(1) + "h"@
    }
}

/// Writes a span of time in seconds, minutes or hours.
pub fn fmt_dur<S: Number>(secs: S) -> (r: String)
    ensures
        r@ == span_text(secs),
{
    if secs.lt(S::decimal(60, 0)) {
        secs.text(1).concat("s")
    } else if secs.lt(S::decimal(3600, 0)) {
        secs.over(S::decimal(60, 0)).text(1).concat("m")
    } else {
        secs.over(S::decimal(3600, 0)).text(1).concat("h")
    }
}

/// The number and the sum of the profits of the first `n` trades of a kind.
pub open spec fn kind_totals<S: Quantity>(trades: Seq<TradeModel<S>>, kind: Seq<char>, n: nat) -> (
    nat,
    S,
)
    decreases n,
{
    if n == 0 {
        (0, zero::<S>())
    } else {
        let (count, total) = kind_totals(trades, kind, (n - 1) as nat);
        if trades[n - 1].pos_type == kind {
            (count + 1, total + trades[n - 1].pnl_rmb)
        } else {
            (count, total)
        }
    }
}

/// Counts the trades of a kind and adds up their profits.
pub fn totals_of_kind<S: Number>(trades: &Vec<TradeRecord<S>>, kind: &str) -> (r: (usize, S))
    ensures
        (r.0 as nat, r.1) == kind_totals(trade_models(trades@), kind@, trades@.len()),
{
    let ghost all = trade_models(trades@);
    let n = trades.len();
    let mut count: usize = 0;
    let mut total = S::decimal(0, 0);
    let mut i: usize = 0;
    while i < n
        invariant
            i <= n,
            n == trades@.len(),
            all == trade_models(trades@),
            count <= i,
            (count as nat, total) == kind_totals(all, kind@, i as nat),
        decreases n - i,
    {
        assert(all[i as int] == trades@[i as int]@);
        if is_named(&trades[i].pos_type, kind) {
            count = count + 1;
            total = total.plus(trades[i].pnl_rmb);
        }
        i = i + 1;
    }
    (count, total)
}

/// How many of the first `n` trades ended in a way.
pub open spec fn exit_count<S>(trades: Seq<TradeModel<S>>, exit_type: Seq<char>, n: nat) -> nat
    decreases n,
{
    if n == 0 {
        0
    } else {
        exit_count(trades, exit_type, (n - 1) as nat) + if trades[n - 1].exit_type == exit_type {
            1nat
        } else {
            0
        }
    }
}

/// Counts the trades that ended in a way.
pub fn count_exits<S: Number>(trades: &Vec<TradeRecord<S>>, exit_type: &str) -> (r: usize)
    ensures
        r == exit_count(trade_models(trades@), exit_type@, trades@.len()),
{
    let ghost all = trade_models(trades@);
    let n = trades.len();
    let mut count: usize = 0;
    let mut i: usize = 0;
    while i < n
        invariant
            i <= n,
            n == trades@.len(),
            all == trade_models(trades@),
            count <= i,
            count == exit_count(all, exit_type@, i as nat),
        decreases n - i,
    {
        assert(all[i as int] == trades@[i as int]@);
        if is_named(&trades[i].exit_type, exit_type) {
            count = count + 1;
        }
        i = i + 1;
    }
    count
}

// ---- The trade log ----

/// What a trade returned, in percent: by its exit, or by its payout had it been held.
pub open spec fn return_pct<S: Quantity>(t: TradeModel<S>, value: S) -> S {
    let hundred = dec::<S>(100, 0);
    if t.pos_type == "LongBox"@ && zero::<S>() < t.entry_cost {
        (value - t.entry_cost) / t.entry_cost * hundred
    } else if t.pos_type == "ShortBox"@ && zero::<S>() < t.payout {
        (t.entry_cost - value) / (dec::<S>(2, 0) * t.payout) * hundred
    } else {
        zero::<S>()
    }
}

fn return_percent<S: Number>(t: &TradeRecord<S>, value: S) -> (r: S)
    ensures
        r == return_pct(t@, value),
{
    let hundred = S::decimal(100, 0);
    let nothing = S::decimal(0, 0);
    if is_named(&t.pos_type, "LongBox") && nothing.lt(t.entry_cost) {
        value.minus(t.entry_cost).over(t.entry_cost).times(hundred)
    } else if is_named(&t.pos_type, "ShortBox") && nothing.lt(t.payout) {
        t.entry_cost.minus(value).over(S::decimal(2, 0).times(t.payout)).times(hundred)
    } else {
        nothing
    }
}

/// The cells of a trade in the log of a replay.
pub open spec fn trade_cells<S: Quantity>(t: TradeModel<S>) -> Seq<Seq<char>> {
    seq![
        t.pos_type,
        t.prefix,
        t.strike_lo.spec_text(3),
        t.strike_hi.spec_text(3),
        padded(t.dte_at_entry as int, 0),
        t.entry_time,
        t.exit_time,
        t.entry_cost.spec_text(6),
        t.payout.spec_text(6),
        t.exit_value.spec_text(6),
        t.pnl_rmb.spec_text(2),
        t.exit_type,
        padded(t.holding_time_sec, 0),
        return_pct(t, t.exit_value).spec_text(4),
        return_pct(t, t.payout).spec_text(4),
    ]
}

/// Writes the cells of a trade for the log of a replay.
pub fn trade_row<S: Number>(t: &TradeRecord<S>) -> (r: Vec<String>)
    ensures
        r@.map_values(|s: String| s@) == trade_cells(t@),
{
    let r: Vec<String> = vec![
        t.pos_type.clone(),
        t.prefix.clone(),
        t.strike_lo.text(3),
        t.strike_hi.text(3),
        padded_text(t.dte_at_entry as i64, 0),
        t.entry_time.clone(),
        t.exit_time.clone(),
        t.entry_cost.text(6),
        t.payout.text(6),
        t.exit_value.text(6),
        t.pnl_rmb.text(2),
        t.exit_type.clone(),
        padded_text(t.holding_time_sec, 0),
        return_percent(t, t.exit_value).text(4),
        return_percent(t, t.payout).text(4),
    ];
    assert(r@.map_values(|s: String| s@) =~= trade_cells(t@));
    r
}

/// A trade as a line of the live log.
pub open spec fn live_text<S: Quantity>(t: TradeModel<S>) -> Seq<char> {
    t.pos_type + ","@ + t.prefix + ","@ + t.strike_lo.spec_text(2) + ","@ + t.strike_hi.spec_text(2)
        + ","@ + padded(t.dte_at_entry as int, 0) + ","@ + t.entry_time + ","@ + t.exit_time + ","@
        + t.entry_cost.spec_text(4) + ","@ + t.payout.spec_text(4) + ","@ + t.exit_value.spec_text(4)
        + ","@ + t.pnl_rmb.spec_text(2) + ","@ + t.exit_type
}

/// Writes a trade as a line of the live log.
pub fn live_line<S: Number>(t: &TradeRecord<S>) -> (r: String)
    ensures
        r@ == live_text(t@),
{
    let mut line = t.pos_type.clone();
    line.append(",");
    line.append(t.prefix.as_str());
    line.append(",");
    line.append(t.strike_lo.text(2).as_str());
    line.append(",");
    line.append(t.strike_hi.text(2).as_str());
    line.append(",");
    line.append(padded_text(t.dte_at_entry as i64, 0).as_str());
    line.append(",");
    line.append(t.entry_time.as_str());
    line.append(",");
    line.append(t.exit_time.as_str());
    line.append(",");
    line.append(t.entry_cost.text(4).as_str());
    line.append(",");
    line.append(t.payout.text(4).as_str());
    line.append(",");
    line.append(t.exit_value.text(4).as_str());
    line.append(",");
    line.append(t.pnl_rmb.text(2).as_str());
    line.append(",");
    line.append(t.exit_type.as_str());
    line
}

} // verus!
