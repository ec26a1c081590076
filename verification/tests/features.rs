use proarbitrage::calendar::parse_date;
use proarbitrage::calibration::CalibrationSurface;
use proarbitrage::decimal::Decimal;
use proarbitrage::features::{
    feature_record, find_future_price_hist, grid_records, has_price, nearest_price,
    record_heading, ContractKey, PriceHistory, RunningCache,
};
use proarbitrage::ingestion::{OptionGrid, OptionTick};
use proarbitrage::number::Number;

fn d(m: i128, places: u32) -> Decimal {
    Decimal::decimal(m, places)
}

fn option(date: &str, strike_milli: i128, mid: Decimal) -> OptionTick<Decimal> {
    OptionTick {
        date: date.to_string(),
        option_type: 'C',
        strike: d(strike_milli, 3),
        expiry: "2024-01-24".to_string(),
        days_to_maturity: d(10, 0),
        tau: d(1, 1),
        s_t: d(3, 0),
        moneyness: d(0, 0),
        p_a: d(101, 3),
        p_b: d(99, 3),
        mid,
        spread: d(2, 3),
        a_v_eff: 5,
        b_v_eff: 5,
        is_liquid: true,
    }
}

fn flat(value: Decimal) -> CalibrationSurface<Decimal> {
    let none = d(0, 0);
    CalibrationSurface { s_t: value, r: none, theta: [none; 6] }
}

#[test]
fn keys_tell_contracts_apart() {
    let a = ContractKey::from_tick(&option("d", 3000, d(1, 1)));
    let b = ContractKey::from_tick(&option("other", 3000, d(2, 1)));
    let c = ContractKey::from_tick(&option("d", 3001, d(1, 1)));
    assert!(a.same(&b) && !a.same(&c));
    assert_eq!(a.strike_micro, 3_000_000);
}

#[test]
fn which_quotes_count() {
    assert!(has_price(&option("d", 3000, d(1, 1))));
    assert!(!has_price(&option("d", 3000, d(0, 0))));
    assert!(!has_price(&option("d", 3000, Decimal::nan())));
    let mut dry = option("d", 3000, d(1, 1));
    dry.is_liquid = false;
    assert!(!has_price(&dry));
}

#[test]
fn prices_near_a_time() {
    let at = |s: &str| parse_date(&format!("2024-01-02 09:{}", s)).unwrap();
    let history = vec![(at("30:00"), d(1, 0)), (at("31:00"), d(2, 0)), (at("32:00"), d(3, 0))];
    assert_eq!(nearest_price(&history, at("31:00"), 30), Some(d(2, 0)));
    assert_eq!(nearest_price(&history, at("31:20"), 30), Some(d(2, 0)));
    assert_eq!(nearest_price(&history, at("31:40"), 30), Some(d(3, 0)));
    // Half way the later one counts.
    assert_eq!(nearest_price(&history, at("31:30"), 30), Some(d(3, 0)));
    assert_eq!(nearest_price(&history, at("32:30"), 30), Some(d(3, 0)));
    assert_eq!(nearest_price(&history, at("32:31"), 30), None);
    assert_eq!(nearest_price(&history, at("29:29"), 30), None);
    assert_eq!(nearest_price(&history, at("31:00"), -1), None);
    let none: Vec<(proarbitrage::calendar::Moment, Decimal)> = vec![];
    assert_eq!(nearest_price(&none, at("31:00"), 30), None);
}

#[test]
fn history_of_contracts() {
    let ticks = vec![
        option("2024-01-02 09:30:00.000", 3000, d(1, 1)),
        option("2024-01-02 09:30:00.000", 3100, d(5, 1)),
        option("2024-01-02 09:31:00.000", 3000, d(2, 1)),
        option("no date", 3000, d(9, 1)),
        option("2024-01-02 09:31:10.000", 3000, d(0, 0)),
    ];
    let history = PriceHistory::build(&ticks);
    let mut seen: Vec<i128> = Vec::new();
    for t in ticks.iter().filter(|t| has_price(t) && parse_date(&t.date).is_some()) {
        let strike = t.strike.units.unwrap();
        if !seen.contains(&strike) {
            seen.push(strike);
        }
    }
    assert_eq!(history.contracts(), seen.len());
    assert_eq!(PriceHistory::<Decimal>::build(&[]).contracts(), 0);
    let key = ContractKey::from_tick(&ticks[0]);
    let then = parse_date("2024-01-02 09:31:05.000").unwrap();
    assert_eq!(find_future_price_hist(&history, &key, then, 30), Some(d(2, 1)));
    let other = ContractKey::from_tick(&option("d", 3200, d(1, 1)));
    assert_eq!(find_future_price_hist(&history, &other, then, 30), None);
}

#[test]
fn cache_keeps_the_last_quote() {
    let mut cache = RunningCache::new();
    let first = OptionGrid {
        date: "a".to_string(),
        s_t: d(3, 0),
        contracts: vec![
            option("a", 3000, d(1, 1)),
            option("a", 3100, d(2, 1)),
            option("a", 3200, d(0, 0)),
        ],
    };
    cache.update(&first);
    assert_eq!(cache.ticks.len(), 2);
    let second = OptionGrid {
        date: "b".to_string(),
        s_t: d(4, 0),
        contracts: vec![option("b", 3000, d(3, 1))],
    };
    cache.update(&second);
    assert_eq!(cache.ticks.len(), 2);
    assert_eq!(cache.ticks[0].mid, d(3, 1));
    let dense = cache.dense_grid(&second);
    assert_eq!(dense.date, "b");
    assert_eq!(dense.contracts.len(), 2);
    assert_eq!(dense.contracts[1].s_t, d(4, 0));
    assert_eq!(dense.contracts[1].mid, d(2, 1));
    let absent = ContractKey::from_tick(&option("a", 9000, d(1, 1)));
    assert_eq!(cache.find(&absent), 2);
}

#[test]
fn records() {
    let ticks = vec![
        option("2024-01-02 09:30:00.000", 3000, d(1, 1)),
        option("2024-01-02 09:31:00.000", 3000, d(125, 3)),
        option("2024-01-02 09:35:10.000", 3000, d(75, 3)),
    ];
    let history = PriceHistory::build(&ticks);
    let now = parse_date(&ticks[0].date).unwrap();
    let surface = flat(d(15, 2));
    let line = feature_record(&ticks[0].date, now, &ticks[0], &surface, d(5, 4), &history).unwrap();
    assert_eq!(
        line,
        "2024-01-02 09:30:00.000,C,3.0000,2024-01-24,0.04900,3.0000,0.0000,0.10000,0,0.00200,\
         0.02500,0.00000,-0.02500,0.00000"
    );
    assert_eq!(record_heading().matches(',').count(), line.matches(',').count());
    // Inside the spread there is no edge.
    let fair = flat(d(1, 1));
    assert!(feature_record(&ticks[0].date, now, &ticks[0], &fair, d(5, 4), &history).is_none());
    // Without a later price there is no record.
    let alone = PriceHistory::build(&ticks[..1]);
    assert!(feature_record(&ticks[0].date, now, &ticks[0], &surface, d(5, 4), &alone).is_none());
    let grid = OptionGrid {
        date: ticks[0].date.clone(),
        s_t: d(3, 0),
        contracts: vec![ticks[0].clone(), option("x", 3100, d(0, 0))],
    };
    assert_eq!(grid_records(&grid, now, &surface, d(5, 4), &history), vec![line]);
}
