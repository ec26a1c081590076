use proarbitrage::decimal::Decimal;
use proarbitrage::market::{QuoteBook, StrategyParams, TickUpdate, TradeRecord};
use proarbitrage::number::Number;
use proarbitrage::optimizer::{dataset_over, simulate};
use proarbitrage::replay::{
    box_context, context_index, days_byte, make_option_id, replay, second_of, strike_milli,
    strikes_of, QuoteRow, TimeUnit,
};
use proarbitrage::report::{
    capital_report, count_exits, fmt_dur, live_line, live_params, mean, median, param_fields,
    profit_report, replay_params, return_report, times_held, totals_of_kind, trade_returns, trade_row, verdict,
    ParamFields, Verdict,
};
use proarbitrage::swarm::{bounds_max, bounds_min, params_at, resting, Swarm};
use proarbitrage::trader::{Portfolio, PortfolioEvent};

fn d(m: i128, places: u32) -> Decimal {
    Decimal::decimal(m, places)
}

fn row(second: i64, opt_type: &str, milli: i64, a1: i128, b1: i128, dte: u8) -> QuoteRow<Decimal> {
    QuoteRow {
        second,
        opt_type: opt_type.to_string(),
        strike: d(milli as i128, 3),
        milli: Some(milli),
        a1: d(a1, 2),
        b1: d(b1, 2),
        a1_v: d(10, 0),
        b1_v: d(10, 0),
        dte,
    }
}

const OPEN: i64 = 10 * 3600;

/// A long box at a cost of 0.0608 a unit, then again at expiry.
fn rows() -> Vec<QuoteRow<Decimal>> {
    vec![
        row(OPEN, "C", 3000, 10, 9, 10),
        row(OPEN, "C", 3100, 8, 7, 10),
        row(OPEN, "P", 3100, 8, 7, 10),
        row(OPEN + 1, "P", 3000, 6, 5, 10),
        row(OPEN + 3600, "P", 3000, 6, 5, 0),
    ]
}

fn params() -> StrategyParams<Decimal> {
    StrategyParams {
        min_return: d(2, 1),
        min_return_butterfly: d(9, 1),
        min_exit_return: d(2, 1),
    }
}

#[test]
fn recorded_times() {
    assert_eq!(second_of(1_500, TimeUnit::Milliseconds, false), 1);
    assert_eq!(second_of(1_500_000, TimeUnit::Microseconds, true), 28_801);
    assert_eq!(second_of(-1_500_000_000, TimeUnit::Nanoseconds, false), -1);
    assert_eq!(days_byte(30), 30);
    assert_eq!(days_byte(256), 0);
    assert_eq!(days_byte(-1), 255);
    assert_eq!(strike_milli(d(29_995, 4)), 3000);
    assert_eq!(make_option_id("C", d(31, 1)), "C_3.100");
}

#[test]
fn strikes_once_and_in_order() {
    let mut list = rows();
    list[1].milli = None;
    list.push(row(OPEN, "C", 2900, 1, 1, 10));
    assert_eq!(strikes_of(&list), vec![2900, 3000, 3100]);
    let ctx = box_context::<Decimal>(&"X".to_string(), &strikes_of(&list), 7);
    assert_eq!(ctx.strikes, vec![d(29, 1), d(3, 0), d(31, 1)]);
    assert_eq!(ctx.call_oids[0], "C_2.900");
    assert_eq!(ctx.put_oids[2], "P_3.100");
    assert_eq!(context_index(&ctx).get("P_3.100"), Some(&vec![0]));
}

#[test]
fn a_box_from_entry_to_maturity() {
    let list = rows();
    let ctx = box_context(&"X".to_string(), &strikes_of(&list), 10);
    let run = replay(&list, ctx, &params(), d(100_000, 0));
    assert_eq!((run.first_ts, run.last_ts), (OPEN, OPEN + 3600));
    assert_eq!(run.trades.len(), 1);
    let t = &run.trades[0];
    assert_eq!(t.pos_type, "LongBox");
    assert_eq!(t.entry_cost, d(608, 4));
    assert_eq!(t.payout, d(1, 1));
    assert_eq!(t.pnl_rmb, d(392, 0));
    assert_eq!(t.entry_time, "1970-01-01 10:00:01");
    assert_eq!(t.exit_time, "1970-01-01 11:00:00");
    assert_eq!(t.exit_type, "maturity");
    assert_eq!(run.portfolio.available_cash, d(100_392, 0));
    assert!(run.portfolio.positions.is_empty());
}

#[test]
fn open_positions_count_at_their_payout() {
    let mut list = rows();
    list.truncate(4);
    let ctx = box_context(&"X".to_string(), &strikes_of(&list), 10);
    let contexts = vec![box_context(&"X".to_string(), &strikes_of(&list), 10)];
    let run = replay(&list, ctx, &params(), d(100_000, 0));
    assert_eq!(run.portfolio.positions.len(), 1);
    assert_eq!(run.portfolio.value_at_maturity(), d(1000, 0));
    let mut state = proarbitrage::market::QuoteBook::new();
    // Without quotes a long box counts at its cost.
    assert_eq!(run.portfolio.net_worth(&state, &contexts), d(100_000, 0));
    for r in &list {
        state.insert(
            make_option_id(&r.opt_type, r.strike),
            proarbitrage::market::TickData {
                a1: r.a1,
                b1: r.b1,
                a1_v: r.a1_v,
                b1_v: r.b1_v,
                timestamp: 0,
            },
        );
    }
    // Closing brings 0.09 - 0.08 + 0.07 - 0.06.
    let cash = d(100_000, 0).minus(d(608, 0));
    assert_eq!(run.portfolio.net_worth(&state, &contexts), cash.plus(d(200, 0)));
}

#[test]
fn quotes_outside_trading_hours_are_only_kept() {
    let mut list = rows();
    for r in list.iter_mut() {
        r.second -= 2 * 3600;
    }
    list.truncate(4);
    let ctx = box_context(&"X".to_string(), &strikes_of(&list), 10);
    let run = replay(&list, ctx, &params(), d(100_000, 0));
    assert_eq!((run.first_ts, run.last_ts), (0, 0));
    assert!(run.portfolio.positions.is_empty());
    assert_eq!(run.portfolio.eval_count, 0);
}

#[test]
fn simulation_of_the_same_box() {
    let list = rows();
    let data = dataset_over(&strikes_of(&list), &list);
    assert_eq!(data.num_oids, 4);
    assert_eq!(data.ticks.len(), 5);
    assert_eq!(data.ticks[1].oid_idx, 1);
    assert_eq!(data.ticks[2].oid_idx, 3);
    assert_eq!(simulate(&params(), &data), d(100_392, 0));
    // Nothing is entered at a higher return.
    let mut high = params();
    high.min_return = d(9, 1);
    assert_eq!(simulate(&high, &data), d(100_000, 0));
}

#[test]
fn rows_without_their_strike_are_left_out() {
    let mut list = rows();
    let strikes = strikes_of(&list);
    list[0].milli = None;
    assert_eq!(dataset_over(&strikes, &list).ticks.len(), 4);
    // A strike that is not recorded counts as nothing, and nothing can be a strike.
    list.push(row(OPEN, "P", 0, 1, 1, 10));
    let data = dataset_over(&strikes_of(&list), &list);
    assert_eq!(data.ticks.len(), 6);
    assert_eq!(data.ticks[0].oid_idx, 0);
}

#[test]
fn thresholds_from_a_file() {
    let none: Option<ParamFields<Decimal>> = None;
    assert_eq!(live_params(none).min_return, d(2, 1));
    assert_eq!(replay_params(none).min_return, d(1126, 4));
    assert_eq!(replay_params(none).min_return_butterfly, d(546, 4));
    let part = ParamFields {
        min_return: Some(d(3, 1)),
        min_return_butterfly: None,
        min_exit_return: None,
    };
    let live = live_params(Some(part));
    assert_eq!(
        (live.min_return, live.min_return_butterfly, live.min_exit_return),
        (d(3, 1), d(65, 3), d(5, 2))
    );
    let back = replay_params(Some(part));
    assert_eq!((back.min_return, back.min_exit_return), (d(3, 1), d(1, 1)));
}

#[test]
fn capital_of_a_run() {
    let r = capital_report(d(99_000, 0), d(500, 0), d(1000, 0), 86_400, 86_400 * 11);
    assert_eq!(r.final_capital, d(100_500, 0));
    assert_eq!(r.total_pnl, d(500, 0));
    assert_eq!(r.pnl_pct, d(5, 1));
    assert_eq!(r.sim_days, d(10, 0));
    assert_eq!(r.ann_return_pct, d(1825, 2));
    let still = capital_report(d(100_000, 0), d(0, 0), d(0, 0), 0, 0);
    assert_eq!(still.sim_days, d(1, 0));
}

fn trade(pos_type: &str, entry_cost: Decimal, payout: Decimal, pnl: Decimal) -> TradeRecord<Decimal> {
    TradeRecord {
        pos_type: pos_type.to_string(),
        prefix: "X".to_string(),
        strike_lo: d(3, 0),
        strike_hi: d(31, 1),
        dte_at_entry: 10,
        entry_time: "a".to_string(),
        exit_time: "b".to_string(),
        entry_cost,
        payout,
        exit_value: d(9, 2),
        pnl_rmb: pnl,
        exit_type: "early".to_string(),
        holding_time_sec: 90,
    }
}

#[test]
fn returns_of_trades() {
    let list = vec![
        trade("LongBox", d(1, 1), d(2, 1), d(100, 0)),
        trade("ShortBox", d(1, 1), d(1, 1), d(-100, 0)),
        trade("LongBox", d(0, 0), d(2, 1), d(100, 0)),
        trade("ButterflyCall", d(1, 1), d(2, 1), d(100, 0)),
    ];
    let returns = trade_returns(&list);
    assert_eq!(returns, vec![d(1, 1), d(-5, 2)]);
    let r = return_report(&returns, d(1, 1));
    assert_eq!((r.count, r.above_min), (2, 1));
    assert_eq!(r.average, d(25, 3));
    assert_eq!(r.median, d(25, 3));
    assert_eq!((r.positive_pct, r.above_min_pct), (d(50, 0), d(50, 0)));
    let none = return_report(&vec![], d(1, 1));
    assert_eq!((none.count, none.average, none.median), (0, d(0, 0), d(0, 0)));
}

#[test]
fn medians_and_means() {
    assert_eq!(median(&vec![d(3, 0), d(1, 0), d(2, 0)]), d(2, 0));
    assert_eq!(median(&vec![d(4, 0), d(1, 0), d(3, 0), d(2, 0)]), d(25, 1));
    assert_eq!(mean(&vec![d(4, 0), d(1, 0)]), d(25, 1));
    assert_eq!(mean::<Decimal>(&vec![]), d(0, 0));
}

#[test]
fn verdicts() {
    assert_eq!(verdict(d(0, 0), d(1, 1)), Verdict::Losing);
    assert_eq!(verdict(d(1, 1), d(1, 1)), Verdict::Achievable);
    assert_eq!(verdict(d(5, 2), d(1, 1)), Verdict::Partial);
}

#[test]
fn profits_and_losses() {
    let list = vec![
        trade("LongBox", d(1, 1), d(2, 1), d(100, 0)),
        trade("ShortBox", d(1, 1), d(1, 1), d(-40, 0)),
        trade("LongBox", d(1, 1), d(2, 1), d(60, 0)),
        trade("LongBox", d(1, 1), d(2, 1), d(0, 0)),
    ];
    let r = profit_report(&list, d(120, 0));
    assert_eq!((r.trades, r.wins, r.losses), (4, 2, 1));
    assert_eq!((r.gross_win, r.gross_loss), (d(160, 0), d(-40, 0)));
    assert_eq!((r.avg_pnl, r.avg_win, r.avg_loss), (d(30, 0), d(80, 0), d(-40, 0)));
    assert_eq!((r.max_win, r.max_loss), (Some(d(100, 0)), Some(d(-40, 0))));
    assert_eq!(r.profit_factor, Some(d(4, 0)));
    assert_eq!(r.win_rate, d(50, 0));
    assert_eq!(totals_of_kind(&list, "LongBox"), (3, d(160, 0)));
    assert_eq!(count_exits(&list, "early"), 4);
    assert_eq!(count_exits(&list, "maturity"), 0);
    assert_eq!(times_held(&list)[0], d(90, 0));
    let none = profit_report(&vec![], d(0, 0));
    assert_eq!((none.max_win, none.profit_factor), (None, None));
}

#[test]
fn spans_as_text() {
    assert_eq!(fmt_dur(d(599, 1)), "59.9s");
    assert_eq!(fmt_dur(d(90, 0)), "1.5m");
    assert_eq!(fmt_dur(d(7200, 0)), "2.0h");
}

#[test]
fn trade_log() {
    let t = trade("LongBox", d(8, 2), d(1, 1), d(100, 0));
    assert_eq!(trade_row(&t), vec![
        "LongBox", "X", "3.000", "3.100", "10", "a", "b", "0.080000", "0.100000", "0.090000",
        "100.00", "early", "90", "12.5000", "25.0000",
    ]);
    assert_eq!(live_line(&t), "LongBox,X,3.00,3.10,10,a,b,0.0800,0.1000,0.0900,100.00,early");
    let s = trade("ShortBox", d(12, 2), d(1, 1), d(100, 0));
    assert_eq!(trade_row(&s)[13], "15.0000");
    assert_eq!(trade_row(&s)[14], "10.0000");
    let f = trade("ButterflyPut", d(12, 2), d(1, 1), d(100, 0));
    assert_eq!(trade_row(&f)[13], "0.0000");
}

#[test]
fn swarm_steps() {
    let low: [Decimal; 3] = bounds_min();
    let high: [Decimal; 3] = bounds_max();
    assert_eq!(low, [d(5, 3), d(2, 2), d(1, 2)]);
    assert_eq!(high, [d(15, 2), d(2, 1), d(1, 1)]);
    let start = [d(5, 2), d(1, 1), d(5, 2)];
    let mut swarm = Swarm {
        particles: vec![resting(start), resting([d(1, 1), d(1, 1), d(1, 1)])],
        best_position: start,
        best_score: Decimal { units: Some(i128::MIN) },
    };
    let half = (d(5, 1), d(5, 1));
    let draws = vec![[half, half, half], [half, half, half]];
    swarm.advance(&vec![d(10, 0), d(5, 0)], &draws);
    assert_eq!(swarm.best_score, d(10, 0));
    assert_eq!(swarm.best_position, start);
    // The first is where the best is and stays; the second is drawn to it.
    assert_eq!(swarm.particles[0].position, start);
    let pull = d(75, 2).times(d(5, 2).minus(d(1, 1)));
    assert_eq!(swarm.particles[1].velocity[0], pull);
    assert_eq!(swarm.particles[1].position[0], d(1, 1).plus(pull));
    assert_eq!(swarm.particles[1].best_score, d(5, 0));
    // A large velocity is held to the bounds.
    swarm.particles[1].velocity = [d(10, 0), d(-10, 0), d(10, 0)];
    swarm.advance(&vec![d(1, 0), d(1, 0)], &draws);
    assert_eq!(swarm.particles[1].position, [d(15, 2), d(2, 2), d(1, 1)]);
    assert_eq!(swarm.best_score, d(10, 0));
    let p = params_at(&start);
    assert_eq!(
        (p.min_return, p.min_return_butterfly, p.min_exit_return),
        (d(5, 2), d(1, 1), d(5, 2))
    );
}

#[test]
fn thresholds_in_the_text_of_a_file() {
    let text = "{\"min_return\": 0.1126, \"min_exit_return\": 1, \"min_return_butterfly\": \"x\"}";
    let f = param_fields::<Decimal>(text).unwrap();
    assert_eq!(f.min_return, Some(d(1126, 4)));
    assert_eq!(f.min_exit_return, Some(d(1, 0)));
    // A text is no number.
    assert_eq!(f.min_return_butterfly, None);
    let none = param_fields::<Decimal>("[1, 2]").unwrap();
    assert_eq!((none.min_return, none.min_exit_return), (None, None));
    assert!(param_fields::<Decimal>("{\"min_return\": }").is_none());
}

#[test]
fn settling_at_the_end_changes_nothing() {
    let mut list = rows();
    let settled = simulate(&params(), &dataset_over(&strikes_of(&list), &list));
    list.truncate(4);
    let open = simulate(&params(), &dataset_over(&strikes_of(&list), &list));
    assert_eq!(settled, open);
}

#[test]
fn events_tell_positions_and_funds() {
    let list = rows();
    let mut ctx = box_context(&"X".to_string(), &strikes_of(&list), 10);
    let index = context_index(&ctx);
    let mut portfolio: Portfolio<Decimal> = Portfolio::new(d(100_000, 0));
    let mut state = QuoteBook::new();
    let (mut opened, mut closed) = (0, 0);
    let mut funds = d(100_000, 0);
    for r in &list {
        ctx.dte = r.dte;
        let tick = TickUpdate {
            oid: make_option_id(&r.opt_type, r.strike),
            a1: r.a1,
            b1: r.b1,
            a1_v: r.a1_v,
            b1_v: r.b1_v,
        };
        let contexts = vec![ctx.clone()];
        for e in portfolio.update(&tick, &mut state, &index, &contexts, &params(), r.second, "t") {
            match e {
                PortfolioEvent::Exit { close_net_or_buy_back, .. } => {
                    closed += 1;
                    funds = funds.plus(d(10_000, 0).times(close_net_or_buy_back));
                }
                PortfolioEvent::EntryLong { cost, is_new: true, .. } => {
                    opened += 1;
                    funds = funds.minus(d(10_000, 0).times(cost));
                }
                _ => {}
            }
        }
        assert_eq!(portfolio.positions.len(), opened - closed);
        assert_eq!(portfolio.available_cash.plus(portfolio.locked_margin), funds);
    }
    assert_eq!((opened, closed), (1, 1));
}
