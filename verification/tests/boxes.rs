use proarbitrage::market::{
    box_commission, contract_size, BoxContext, ContextIndex, Flavor, OpenPosition, PosType,
    QuoteBook, StrategyParams, TickData, TickUpdate,
};
use proarbitrage::number::{Number, Quantity};
use proarbitrage::scanner::{evaluate_butterfly, evaluate_long_box, evaluate_short_box};
use proarbitrage::trader::{Portfolio, PortfolioEvent};

/// Single-precision numbers.
#[derive(Debug, Clone, Copy, PartialEq)]
struct F32(f32);

impl Quantity for F32 {}

impl Number for F32 {
    fn plus(self, other: Self) -> Self {
        F32(self.0 + other.0)
    }
    fn minus(self, other: Self) -> Self {
        F32(self.0 - other.0)
    }
    fn times(self, other: Self) -> Self {
        F32(self.0 * other.0)
    }
    fn over(self, other: Self) -> Self {
        F32(self.0 / other.0)
    }
    fn negated(self) -> Self {
        F32(-self.0)
    }
    fn lt(self, other: Self) -> bool {
        self.0 < other.0
    }
    fn le(self, other: Self) -> bool {
        self.0 <= other.0
    }
    fn abs(self) -> Self {
        F32(self.0.abs())
    }
    fn signum(self) -> Self {
        F32(self.0.signum())
    }
    fn max(self, other: Self) -> Self {
        F32(self.0.max(other.0))
    }
    fn min(self, other: Self) -> Self {
        F32(self.0.min(other.0))
    }
    fn is_nan(self) -> bool {
        self.0.is_nan()
    }
    fn is_finite(self) -> bool {
        self.0.is_finite()
    }
    fn nan() -> Self {
        F32(f32::NAN)
    }
    fn decimal(mantissa: i128, places: u32) -> Self {
        F32(mantissa as f32 / 10f32.powi(places as i32))
    }
    fn round_u64(self) -> u64 {
        self.0.round() as u64
    }
    fn round_i64(self) -> i64 {
        self.0.round() as i64
    }
    fn trunc_u64(self) -> u64 {
        self.0 as u64
    }
    fn text(self, places: u32) -> String {
        format!("{:.*}", places as usize, self.0)
    }
    fn parse(text: &str) -> Option<Self> {
        text.parse().ok().map(F32)
    }
}


fn quote(a1: f32, b1: f32, timestamp: i64) -> TickData<F32> {
    TickData { a1: F32(a1), b1: F32(b1), a1_v: F32(10.0), b1_v: F32(10.0), timestamp }
}

fn two_strikes(dte: u8) -> BoxContext<F32> {
    BoxContext {
        prefix: "TEST".to_string(),
        dte,
        strikes: vec![F32(3.0), F32(3.1)],
        call_oids: vec!["c3.0".into(), "c3.1".into()],
        put_oids: vec!["p3.0".into(), "p3.1".into()],
    }
}

fn params(min: f32, fly: f32, exit: f32) -> StrategyParams<F32> {
    StrategyParams {
        min_return: F32(min),
        min_return_butterfly: F32(fly),
        min_exit_return: F32(exit),
    }
}

fn index_of(ctx: &BoxContext<F32>) -> ContextIndex {
    let mut index = ContextIndex::new();
    for oid in ctx.call_oids.iter().chain(ctx.put_oids.iter()) {
        index.add(oid, 0);
    }
    index
}

fn tick(oid: &str, a1: f32, b1: f32) -> TickUpdate<F32> {
    TickUpdate { oid: oid.to_string(), a1: F32(a1), b1: F32(b1), a1_v: F32(10.0), b1_v: F32(10.0) }
}

#[test]
fn test_exit_logic() {
    let ctx = two_strikes(10);

    let positions = vec![
        OpenPosition {
            pos_type: PosType::LongBox,
            ctx_idx: 0,
            strike_i: 0,
            strike_j: 1,
            strike_k: 0,
            entry_cost: F32(0.09),
            payout: F32(0.10),
            margin_rmb: F32(0.0),
            dte_at_entry: 20,
            _entry_ts: 0,
            entry_time_str: "10:00:00".into(),
        },
        OpenPosition {
            pos_type: PosType::ShortBox,
            ctx_idx: 0,
            strike_i: 0,
            strike_j: 1,
            strike_k: 0,
            entry_cost: F32(0.11),
            payout: F32(0.10),
            margin_rmb: F32(0.20).times(contract_size()),
            dte_at_entry: 20,
            _entry_ts: 0,
            entry_time_str: "10:00:00".into(),
        },
    ];

    let mut state: QuoteBook<F32> = QuoteBook::new();
    let now_ts = chrono::Utc::now().timestamp();

    state.insert("c3.0".to_string(), quote(0.14, 0.1508, now_ts));
    state.insert("c3.1".to_string(), quote(0.05, 0.05, now_ts));
    state.insert("p3.1".to_string(), quote(0.10, 0.10, now_ts));
    state.insert("p3.0".to_string(), quote(0.10, 0.10, now_ts));

    let commission: F32 = box_commission();
    let mut closed = Vec::new();
    for (pi, pos) in positions.iter().enumerate() {
        let si = pos.strike_i;
        let sj = pos.strike_j;
        let c_lo = state.get(&ctx.call_oids[si]).unwrap();
        let c_hi = state.get(&ctx.call_oids[sj]).unwrap();
        let p_hi = state.get(&ctx.put_oids[sj]).unwrap();
        let p_lo = state.get(&ctx.put_oids[si]).unwrap();

        match pos.pos_type {
            PosType::LongBox => {
                let close_net =
                    (c_lo.b1.0 - c_hi.a1.0) + (p_hi.b1.0 - p_lo.a1.0) - commission.0;
                let fv_close = close_net * (1.0 + 0.02 * ctx.dte as f32 / 365.0);
                if fv_close > pos.payout.0 {
                    closed.push(pi);
                }
            }
            PosType::ShortBox => {
                let buy_back =
                    (c_lo.a1.0 - c_hi.b1.0) + (p_hi.a1.0 - p_lo.b1.0) + commission.0;
                let fv_buy_back = buy_back * (1.0 + 0.02 * ctx.dte as f32 / 365.0);
                if buy_back > 0.0 && fv_buy_back < pos.payout.0 {
                    closed.push(pi);
                }
            }
            PosType::ButterflyCall | PosType::ButterflyPut => {}
        }
    }

    assert!(closed.contains(&0), "LongBox should have exited early!");
    assert!(closed.contains(&1), "ShortBox should have exited early!");
}

#[test]
fn constants_in_single_precision() {
    assert_eq!(box_commission::<F32>(), F32(4.0 * 0.0002));
    assert_eq!(contract_size::<F32>(), F32(10_000.0));
    let d: StrategyParams<F32> = StrategyParams::default();
    assert_eq!((d.min_return, d.min_return_butterfly, d.min_exit_return), (F32(0.2), F32(0.9), F32(0.2)));
}

#[test]
fn long_box_with_its_return() {
    let ctx = two_strikes(10);
    let mut state = QuoteBook::new();
    state.insert("c3.0".to_string(), quote(0.10, 0.09, 100));
    state.insert("c3.1".to_string(), quote(0.08, 0.07, 100));
    state.insert("p3.1".to_string(), quote(0.08, 0.07, 100));
    state.insert("p3.0".to_string(), quote(0.06, 0.05, 100));
    let cost = (0.10f32 - 0.07) + (0.08 - 0.05) + 4.0 * 0.0002;
    let payout = 3.1f32 - 3.0;
    let ret = (payout - cost) / cost;
    let best = evaluate_long_box(&ctx, &state, 102, &params(0.2, 0.9, 0.2)).unwrap();
    assert_eq!((best.0, best.1), (0, 1));
    assert_eq!(best.2, F32(cost));
    assert_eq!(best.3, F32(payout));
    assert_eq!(best.4, F32(ret));
    assert_eq!(best.6, "All 4 legs are limit orders");
    // The smallest return has to be beaten, not met.
    assert!(evaluate_long_box(&ctx, &state, 102, &params(ret, 0.9, 0.2)).is_none());
    // A quote older than two seconds does not count.
    assert!(evaluate_long_box(&ctx, &state, 103, &params(0.2, 0.9, 0.2)).is_none());
}

#[test]
fn short_box_with_its_return() {
    let ctx = two_strikes(10);
    let mut state = QuoteBook::new();
    state.insert("c3.0".to_string(), quote(0.16, 0.15, 100));
    state.insert("c3.1".to_string(), quote(0.04, 0.03, 100));
    state.insert("p3.1".to_string(), quote(0.13, 0.12, 100));
    state.insert("p3.0".to_string(), quote(0.05, 0.04, 100));
    let gain = (0.15f32 - 0.04) + (0.12 - 0.05) - 4.0 * 0.0002;
    let width = 3.1f32 - 3.0;
    let best = evaluate_short_box(&ctx, &state, 100, &params(0.2, 0.9, 0.2)).unwrap();
    assert_eq!((best.0, best.1), (0, 1));
    assert_eq!(best.4, F32((gain - width) / (width * 2.0)));
}

#[test]
fn thin_leg_is_named() {
    let ctx = two_strikes(10);
    let mut state = QuoteBook::new();
    let mut thin = quote(0.08, 0.07, 100);
    thin.b1_v = F32(1.0);
    state.insert("c3.0".to_string(), quote(0.10, 0.09, 100));
    state.insert("c3.1".to_string(), thin);
    state.insert("p3.1".to_string(), quote(0.08, 0.07, 100));
    state.insert("p3.0".to_string(), quote(0.06, 0.05, 100));
    let best = evaluate_long_box(&ctx, &state, 100, &params(0.2, 0.9, 0.2)).unwrap();
    assert_eq!(
        best.6,
        "Place passive limit order on leg c3.1 (most illiquid), limit orders on others."
    );
}

#[test]
fn missing_quote_makes_no_offer() {
    let ctx = two_strikes(10);
    let state: QuoteBook<F32> = QuoteBook::new();
    assert!(evaluate_long_box(&ctx, &state, 0, &params(0.0, 0.0, 0.0)).is_none());
    assert!(evaluate_short_box(&ctx, &state, 0, &params(0.0, 0.0, 0.0)).is_none());
    assert!(evaluate_butterfly(&ctx, &state, 0, &params(0.0, 0.0, 0.0)).is_none());
}

fn open_long(portfolio: &mut Portfolio<F32>, state: &mut QuoteBook<F32>, dte: u8) -> usize {
    let ctx = two_strikes(dte);
    let index = index_of(&ctx);
    let contexts = vec![ctx];
    let p = params(0.2, 0.9, 0.2);
    state.insert("c3.0".to_string(), quote(0.10, 0.09, 100));
    state.insert("c3.1".to_string(), quote(0.08, 0.07, 100));
    state.insert("p3.1".to_string(), quote(0.08, 0.07, 100));
    let events =
        portfolio.update(&tick("p3.0", 0.06, 0.05), state, &index, &contexts, &p, 100, "10:00:00");
    events.len()
}

#[test]
fn long_box_is_entered_once() {
    let mut portfolio: Portfolio<F32> = Portfolio::new(F32(100_000.0));
    let mut state = QuoteBook::new();
    assert_eq!(open_long(&mut portfolio, &mut state, 10), 1);
    assert_eq!(portfolio.positions.len(), 1);
    let cost = (0.10f32 - 0.07) + (0.08 - 0.05) + 4.0 * 0.0002;
    assert_eq!(portfolio.available_cash, F32(100_000.0 - cost * 10_000.0));
    assert_eq!(portfolio.locked_margin, F32(0.0));
    // The same box is neither entered nor signalled again.
    assert_eq!(open_long(&mut portfolio, &mut state, 10), 0);
    assert_eq!(portfolio.positions.len(), 1);
    assert_eq!(portfolio.eval_count, 2);
}

#[test]
fn no_entry_within_five_days_of_expiry() {
    let mut portfolio: Portfolio<F32> = Portfolio::new(F32(100_000.0));
    let mut state = QuoteBook::new();
    assert_eq!(open_long(&mut portfolio, &mut state, 5), 0);
    assert!(portfolio.positions.is_empty());
}

#[test]
fn no_entry_without_cash() {
    let mut portfolio: Portfolio<F32> = Portfolio::new(F32(10_100.0));
    let mut state = QuoteBook::new();
    // The box is signalled but not entered.
    assert_eq!(open_long(&mut portfolio, &mut state, 10), 1);
    assert!(portfolio.positions.is_empty());
    assert_eq!(portfolio.available_cash, F32(10_100.0));
}

#[test]
fn box_is_settled_at_maturity() {
    let mut portfolio: Portfolio<F32> = Portfolio::new(F32(100_000.0));
    let mut state = QuoteBook::new();
    open_long(&mut portfolio, &mut state, 10);
    let before = portfolio.available_cash.0;
    let ctx = two_strikes(0);
    let index = index_of(&ctx);
    let contexts = vec![ctx];
    let p = params(0.2, 0.9, 0.2);
    // Not yet held for ten seconds.
    let t = tick("p3.0", 0.06, 0.05);
    assert!(portfolio.update(&t, &mut state, &index, &contexts, &p, 109, "t").is_empty());
    let events = portfolio.update(&t, &mut state, &index, &contexts, &p, 110, "10:00:10");
    assert_eq!(events.len(), 1);
    match &events[0] {
        PortfolioEvent::Exit { pos_type, trade_record, .. } => {
            assert_eq!(*pos_type, PosType::LongBox);
            assert_eq!(trade_record.exit_type, "maturity");
            assert_eq!(trade_record.holding_time_sec, 10);
            assert_eq!(trade_record.exit_time, "10:00:10");
        }
        _ => panic!("not an exit"),
    }
    assert!(portfolio.positions.is_empty());
    assert_eq!(portfolio.available_cash, F32(before + (3.1f32 - 3.0) * 10_000.0));
}

#[test]
fn stale_legs_keep_a_box_open() {
    let mut portfolio: Portfolio<F32> = Portfolio::new(F32(100_000.0));
    let mut state = QuoteBook::new();
    open_long(&mut portfolio, &mut state, 10);
    let ctx = two_strikes(0);
    let index = index_of(&ctx);
    let contexts = vec![ctx];
    let p = params(0.2, 0.9, 0.2);
    let t = tick("p3.0", 0.06, 0.05);
    // The other legs are older than an hour.
    portfolio.update(&t, &mut state, &index, &contexts, &p, 100 + 3601, "t");
    assert_eq!(portfolio.positions.len(), 1);
    portfolio.update(&t, &mut state, &index, &contexts, &p, 100 + 3600, "t");
    assert!(portfolio.positions.is_empty());
}

#[test]
fn short_box_locks_and_frees_margin() {
    let mut portfolio: Portfolio<F32> = Portfolio::new(F32(100_000.0));
    let mut state = QuoteBook::new();
    let ctx = two_strikes(10);
    let index = index_of(&ctx);
    let contexts = vec![ctx];
    let p = params(0.2, 0.9, 0.2);
    state.insert("c3.0".to_string(), quote(0.16, 0.15, 100));
    state.insert("c3.1".to_string(), quote(0.04, 0.03, 100));
    state.insert("p3.1".to_string(), quote(0.13, 0.12, 100));
    let t = tick("p3.0", 0.05, 0.04);
    portfolio.update(&t, &mut state, &index, &contexts, &p, 100, "t");
    assert_eq!(portfolio.positions.len(), 1);
    let margin = 2.0 * (3.1f32 - 3.0) * 10_000.0;
    assert_eq!(portfolio.locked_margin, F32(margin));
    assert_eq!(portfolio.positions[0].margin_rmb, F32(margin));
    // The prices fall and the box is bought back.
    state.insert("c3.0".to_string(), quote(0.05, 0.04, 200));
    state.insert("c3.1".to_string(), quote(0.02, 0.015, 200));
    state.insert("p3.1".to_string(), quote(0.05, 0.04, 200));
    let t2 = tick("p3.0", 0.04, 0.03);
    // No other box is worth entering at so high a return.
    let high = params(5.0, 9.0, 0.2);
    let events = portfolio.update(&t2, &mut state, &index, &contexts, &high, 200, "t");
    assert!(portfolio.positions.is_empty());
    assert_eq!(portfolio.locked_margin, F32(0.0));
    let buy_back = (0.05f32 - 0.015) + (0.05 - 0.03) + 4.0 * 0.0002;
    match &events[0] {
        PortfolioEvent::Exit { close_net_or_buy_back, trade_record, .. } => {
            assert_eq!(*close_net_or_buy_back, F32(buy_back));
            assert_eq!(trade_record.exit_type, "early");
        }
        _ => panic!("not an exit"),
    }
}

#[test]
fn names_of_kinds() {
    assert_eq!(PosType::LongBox.name(), "LongBox");
    assert_eq!(PosType::ShortBox.name(), "ShortBox");
    assert_eq!(Flavor::Call.pos_type().name(), "ButterflyCall");
    assert_eq!(Flavor::Put.pos_type().name(), "ButterflyPut");
}

#[test]
fn quotes_outside_any_context_are_only_kept() {
    let mut portfolio: Portfolio<F32> = Portfolio::new(F32(100_000.0));
    let mut state = QuoteBook::new();
    let ctx = two_strikes(10);
    let index = index_of(&ctx);
    let contexts = vec![ctx];
    let t = tick("other", 1.0, 0.9);
    let events =
        portfolio.update(&t, &mut state, &index, &contexts, &params(0.2, 0.9, 0.2), 5, "t");
    assert!(events.is_empty());
    assert_eq!(state.get("other").unwrap().timestamp, 5);
    assert!(state.get("absent").is_none());
}

/// Three strikes whose middle call is dear, with one of its quotes as given.
fn butterfly_quotes(middle: TickData<F32>) -> (BoxContext<F32>, QuoteBook<F32>) {
    let ctx = BoxContext {
        prefix: "TEST".to_string(),
        dte: 10,
        strikes: vec![F32(3.0), F32(3.1), F32(3.2)],
        call_oids: vec!["c3.0".into(), "c3.1".into(), "c3.2".into()],
        put_oids: vec!["p3.0".into(), "p3.1".into(), "p3.2".into()],
    };
    let mut state = QuoteBook::new();
    state.insert("c3.0".to_string(), quote(0.10, 0.09, 100));
    state.insert("c3.1".to_string(), middle);
    state.insert("c3.2".to_string(), quote(0.05, 0.04, 100));
    for put in ["p3.0", "p3.1", "p3.2"] {
        state.insert(put.to_string(), quote(0.06, 0.05, 100));
    }
    (ctx, state)
}

#[test]
fn butterfly_with_its_return() {
    let (ctx, state) = butterfly_quotes(quote(0.13, 0.12, 100));
    let margin = 3.1f32 - 3.0;
    let profit = -(0.10f32 - 2.0 * 0.12 + 0.05 + 4.0 * 0.0002);
    let (i, j, k, flavor, m, p, ret, again, msg) =
        evaluate_butterfly(&ctx, &state, 100, &params(9.0, 0.5, 0.2)).unwrap();
    assert_eq!((i, j, k), (0, 1, 2));
    assert!(matches!(flavor, Flavor::Call));
    assert_eq!((m, p, ret, again), (F32(margin), F32(profit), F32(profit / margin), ret));
    assert_eq!(msg, "All Call legs are limit orders");
    // The threshold, stale quotes and wings of unequal width each rule it out.
    assert!(evaluate_butterfly(&ctx, &state, 100, &params(9.0, 0.95, 0.2)).is_none());
    assert!(evaluate_butterfly(&ctx, &state, 103, &params(9.0, 0.5, 0.2)).is_none());
    let mut uneven = ctx.clone();
    uneven.strikes[2] = F32(3.3);
    assert!(evaluate_butterfly(&uneven, &state, 100, &params(9.0, 0.5, 0.2)).is_none());
}

#[test]
fn thin_butterfly_leg_is_named() {
    let mut thin = quote(0.13, 0.12, 100);
    thin.b1_v = F32(1.0);
    let (ctx, state) = butterfly_quotes(thin);
    let best = evaluate_butterfly(&ctx, &state, 100, &params(9.0, 0.5, 0.2)).unwrap();
    assert_eq!(best.8, "Place passive limit order on leg c3.1 (most illiquid).");
}

#[test]
fn butterfly_locks_its_margin_once() {
    let (ctx, mut state) = butterfly_quotes(quote(0.13, 0.12, 100));
    let index = index_of(&ctx);
    let contexts = vec![ctx];
    let p = params(9.0, 0.5, 0.2);
    let mut portfolio: Portfolio<F32> = Portfolio::new(F32(100_000.0));
    let t = tick("c3.1", 0.13, 0.12);
    let events = portfolio.update(&t, &mut state, &index, &contexts, &p, 100, "t");
    let margin = (3.1f32 - 3.0) * 10_000.0;
    let profit = -(0.10f32 - 2.0 * 0.12 + 0.05 + 4.0 * 0.0002);
    assert!(matches!(
        &events[..],
        [PortfolioEvent::EntryButterfly { is_new: true, strike_k: 2, .. }]
    ));
    assert_eq!(portfolio.locked_margin, F32(margin));
    assert_eq!(portfolio.available_cash, F32(100_000.0 + (profit * 10_000.0 - margin)));
    assert_eq!(portfolio.positions[0].pos_type, PosType::ButterflyCall);
    let again = portfolio.update(&t, &mut state, &index, &contexts, &p, 100, "t");
    assert!(again.is_empty());
    assert_eq!(portfolio.positions.len(), 1);
}
