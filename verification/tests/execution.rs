use proarbitrage::activation::ActivationConfig;
use proarbitrage::backtest::{Backtest, BacktestConfig};
use proarbitrage::calendar::{parse_date, Moment};
use proarbitrage::calibration::CalibrationSurface;
use proarbitrage::decimal::Decimal;
use proarbitrage::execution::{calibration_due, score_contracts, Book, StructurePosition};
use proarbitrage::features::RunningCache;
use proarbitrage::ingestion::{OptionGrid, OptionTick};
use proarbitrage::number::Number;
use proarbitrage::performance::{performance, EquityTrack};
use proarbitrage::portfolio::PortfolioConfig;
use proarbitrage::structures::{generate_active_structures, ActiveStructure};

fn d(m: i128, places: u32) -> Decimal {
    Decimal::decimal(m, places)
}

fn at(minute: u32, second: u32) -> Moment {
    parse_date(&format!("2024-01-02 10:{:02}:{:02}", minute, second)).unwrap()
}

fn option(option_type: char, strike_milli: i128, p_a: Decimal, p_b: Decimal) -> OptionTick<Decimal> {
    OptionTick {
        date: "d".to_string(),
        option_type,
        strike: d(strike_milli, 3),
        expiry: "E".to_string(),
        days_to_maturity: d(30, 0),
        tau: d(1, 1),
        s_t: d(3, 0),
        moneyness: d(0, 0),
        p_a,
        p_b,
        mid: p_a.plus(p_b).over(d(2, 0)),
        spread: p_a.minus(p_b),
        a_v_eff: 8,
        b_v_eff: 7,
        is_liquid: true,
    }
}

fn grid() -> OptionGrid<Decimal> {
    OptionGrid {
        date: "d".to_string(),
        s_t: d(3, 0),
        contracts: vec![
            option('C', 3000, d(11, 2), d(9, 2)),
            option('P', 3000, d(11, 2), d(9, 2)),
            option('C', 3100, d(6, 2), d(4, 2)),
            option('P', 3100, d(16, 2), d(14, 2)),
        ],
    }
}

fn structs(g: &OptionGrid<Decimal>) -> Vec<ActiveStructure<Decimal>> {
    generate_active_structures(g, d(2, 0))
}

#[test]
fn when_the_surface_is_due() {
    assert!(calibration_due(false, None, at(0, 0)));
    assert!(calibration_due(true, None, at(0, 0)));
    assert!(!calibration_due(true, Some(at(0, 0)), at(0, 0)));
    assert!(calibration_due(true, Some(at(0, 0)), at(0, 1)));
    assert!(calibration_due(false, Some(at(0, 0)), at(0, 0)));
}

#[test]
fn rebalancing_buys_at_the_ask_and_sells_at_the_bid() {
    let g = grid();
    let list = structs(&g);
    let mut book = Book::new(d(100_000, 0));
    book.rebalance(&g, &list, &[d(20, 0)], at(0, 0), d(2, 0));
    // At most five structures at a time.
    assert_eq!(book.positions.len(), 1);
    assert_eq!(book.positions[0].name, "Box_E_3.000_3.100");
    assert_eq!(book.positions[0].qty, d(5, 0));
    // Ask of the lower call and the upper put, bid of the others: 0.11 + 0.16 - 0.04 - 0.09.
    assert_eq!(book.account.cash, d(100_000, 0).minus(d(70, 0)).minus(d(40, 0)));
    assert_eq!(book.account.fees_paid, d(40, 0));
    assert_eq!(book.account.traded, 20);
    // Fifteen more are asked for, and five are added.
    book.rebalance(&g, &list, &[d(20, 0)], at(0, 1), d(2, 0));
    assert_eq!(book.positions[0].qty, d(10, 0));
    assert_eq!(book.positions[0].entry_time, at(0, 0));
}

#[test]
fn small_changes_are_not_made() {
    let g = grid();
    let list = structs(&g);
    let mut book = Book::new(d(100_000, 0));
    book.rebalance(&g, &list, &[d(49, 1)], at(0, 0), d(2, 0));
    assert!(book.positions.is_empty());
    book.rebalance(&g, &list, &[d(-5, 0)], at(0, 0), d(2, 0));
    assert_eq!(book.positions[0].qty, d(-5, 0));
}

#[test]
fn volume_caps_a_fill() {
    let mut g = grid();
    g.contracts[0].a_v_eff = 3;
    let list = structs(&g);
    let mut book = Book::new(d(100_000, 0));
    book.rebalance(&g, &list, &[d(20, 0)], at(0, 0), d(2, 0));
    assert_eq!(book.positions[0].qty, d(3, 0));
    // A side without a price keeps the order from being made.
    g.contracts[3].p_a = Decimal::nan();
    let mut other = Book::new(d(100_000, 0));
    other.rebalance(&g, &list, &[d(20, 0)], at(0, 0), d(2, 0));
    assert!(other.positions.is_empty());
    assert_eq!(other.account.cash, d(100_000, 0));
}

fn holding(qty: Decimal) -> Book<Decimal> {
    let mut book = Book::new(d(1000, 0));
    book.positions.push(StructurePosition {
        name: "Box_E_3.000_3.100".to_string(),
        qty,
        entry_time: at(0, 0),
    });
    book
}

#[test]
fn converged_positions_are_unwound() {
    let g = grid();
    let list = structs(&g);
    let mut book = holding(d(5, 0));
    // Without a surface there is no gap, and the spreads cancel out.
    book.unwind(&g, &list, &None, at(1, 0), d(2, 0));
    assert!(book.positions.is_empty());
    // Sold at 0.09 + 0.14, bought back at 0.06 + 0.11: six hundredths a unit, and the fees.
    assert_eq!(book.account.cash, d(1000, 0).plus(d(30, 0)).minus(d(40, 0)));
}

#[test]
fn promising_positions_are_kept_until_the_cutoff() {
    let mut g = grid();
    // A wide spread on the lower call leaves something to gain.
    g.contracts[0].spread = d(5, 2);
    let list = structs(&g);
    let mut book = holding(d(5, 0));
    book.unwind(&g, &list, &None, at(10, 0), d(2, 0));
    assert_eq!(book.positions.len(), 1);
    book.unwind(&g, &list, &None, at(29, 59), d(2, 0));
    assert_eq!(book.positions.len(), 1);
    book.unwind(&g, &list, &None, at(30, 0), d(2, 0));
    assert!(book.positions.is_empty());
}

#[test]
fn the_level_rises_after_a_quarter_of_an_hour() {
    let mut g = grid();
    // A tenth of the extra spread is one thousandth.
    g.contracts[0].spread = d(3, 2);
    let list = structs(&g);
    let mut book = holding(d(5, 0));
    book.unwind(&g, &list, &None, at(14, 59), d(2, 0));
    assert_eq!(book.positions.len(), 1);
    book.unwind(&g, &list, &None, at(15, 0), d(2, 0));
    assert!(book.positions.is_empty());
}

#[test]
fn a_dry_book_is_closed_at_mid() {
    let mut g = grid();
    g.contracts[0].p_b = Decimal::nan();
    let list = structs(&g);
    let mut book = holding(d(20, 0));
    book.unwind(&g, &list, &None, at(31, 0), d(2, 0));
    assert!(book.positions.is_empty());
}

#[test]
fn partial_fills_leave_the_rest() {
    let g = grid();
    let list = structs(&g);
    let mut book = holding(d(20, 0));
    book.unwind(&g, &list, &None, at(31, 0), d(2, 0));
    // Bids carry seven, asks eight.
    assert_eq!(book.positions[0].qty, d(13, 0));
}

#[test]
fn positions_without_their_structure_are_dropped() {
    let g = grid();
    let mut book = holding(d(20, 0));
    book.unwind(&g, &[], &None, at(0, 1), d(2, 0));
    assert!(book.positions.is_empty());
    assert_eq!(book.account.cash, d(1000, 0));
}

#[test]
fn empty_positions_are_cleaned_up() {
    let mut book = holding(d(1, 5));
    book.clean_up();
    assert!(book.positions.is_empty());
    let mut kept = holding(d(-2, 5));
    kept.clean_up();
    assert_eq!(kept.positions.len(), 1);
}

#[test]
fn value_of_positions() {
    let g = grid();
    let list = structs(&g);
    let mut cache = RunningCache::new();
    cache.update(&g);
    let book = holding(d(2, 0));
    // Mid prices: 0.10 - 0.05 + 0.15 - 0.10.
    assert_eq!(book.value(&g, &list, &cache), d(1000, 0).plus(d(20, 0)));
    let unknown = RunningCache::new();
    assert_eq!(book.value(&g, &list, &unknown), d(1000, 0));
}

#[test]
fn scores_of_contracts() {
    let mut g = grid();
    g.contracts.truncate(1);
    let none = d(0, 0);
    let surface = CalibrationSurface { s_t: d(2, 1), r: none, theta: [none; 6] };
    // The gap is nine hundredths, the spread two: 0.0765 + 0.0004.
    let (scores, any) = score_contracts(&g, &surface, d(5, 4));
    assert_eq!((scores, any), (vec![d(769, 4)], true));
    let fair = CalibrationSurface { s_t: d(1, 1), r: none, theta: [none; 6] };
    assert_eq!(score_contracts(&g, &fair, d(5, 4)), (vec![none], false));
    g.contracts[0].strike = d(5, 0);
    // Far from the money the score is taken off.
    assert_eq!(score_contracts(&g, &surface, d(5, 4)), (vec![none], false));
}

#[test]
fn equity_curve() {
    let mut track = EquityTrack::new(d(100, 0));
    track.record(0, at(0, 0), d(110, 0));
    track.record(1, at(0, 1), d(10, 0));
    track.record(1000, at(0, 2), d(99, 0));
    track.record(2000, at(0, 3), d(121, 0));
    assert_eq!(track.curve.len(), 3);
    assert_eq!(track.max_equity, d(121, 0));
    assert_eq!(track.max_drawdown, d(1, 1));
    let p = performance(&track.curve, d(100, 0));
    assert_eq!(p.final_equity, d(121, 0));
    assert_eq!(p.net_profit, d(21, 0));
    assert_eq!(p.total_return, d(21, 0));
    assert!(d(0, 0).lt(p.sharpe_ratio));
    let flat = vec![(at(0, 0), d(1, 0)), (at(0, 1), d(1, 0)), (at(0, 2), d(1, 0))];
    assert_eq!(performance(&flat, d(1, 0)).sharpe_ratio, d(0, 0));
}

#[test]
fn a_backtest_step_by_step() {
    let g = grid();
    let config = BacktestConfig {
        activation: ActivationConfig::default(),
        portfolio: PortfolioConfig::default(),
        rate: d(0, 0),
        regularisation: d(1, 4),
        gate: d(5, 4),
        fee: d(2, 0),
    };
    let mut run = Backtest::new(d(100_000, 0));
    // There is no surface yet, so a fit is asked for: four quotes.
    let program = run.begin(&g, at(0, 0), &config).unwrap();
    assert_eq!(program.variables.len(), 6 + 4 + 6);
    assert_eq!(run.cache.ticks.len(), 4);
    run.take_fit(&g, at(0, 0), &config, Err("no answer".to_string()));
    assert!(run.surface.is_none() && run.last_fit.is_none());
    // Without a surface nothing is allocated.
    let order = run.allocate(&g, at(0, 0), &config);
    assert!(order.program.is_none());
    assert_eq!(order.structs.len(), 1);
    run.finish(0, &g, at(0, 0), &config, &order, None);
    assert_eq!(run.track.curve, vec![(at(0, 0), d(100_000, 0))]);
    // The surface is the spot price everywhere, which is above every ask price.
    assert!(run.begin(&g, at(0, 1), &config).is_some());
    run.take_fit(&g, at(0, 1), &config, Ok(vec![d(0, 0); 16]));
    assert_eq!(run.last_fit, Some(at(0, 1)));
    assert_eq!(run.surface.unwrap().evaluate(d(3, 0), d(1, 1)), d(3, 0));
    // The next look is due a second later.
    assert!(run.begin(&g, at(0, 1), &config).is_none());
    let order = run.allocate(&g, at(0, 1), &config);
    assert_eq!(order.program.as_ref().unwrap().variables.len(), 2);
    let answer = Some(Ok(vec![d(7, 0), d(0, 0)]));
    run.finish(1, &g, at(0, 1), &config, &order, answer);
    // Of the seven structures five are bought; only one grid in a thousand is recorded.
    assert_eq!(run.book.positions[0].qty, d(5, 0));
    assert_eq!(run.book.account.traded, 20);
    assert_eq!(run.track.curve.len(), 1);
}
