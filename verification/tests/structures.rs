use proarbitrage::decimal::Decimal;
use proarbitrage::ingestion::{
    or_else, reconstruct_grids, tick_from_row, ticks_from_rows, OptionGrid, OptionTick, TickRow,
};
use proarbitrage::number::Number;
use proarbitrage::pricing::bs_price;
use proarbitrage::structures::{
    generate_active_structures, scan_strict_arbitrage, strike_micro, structure_alpha,
};

fn d(m: i128, places: u32) -> Decimal {
    Decimal::decimal(m, places)
}

fn option(option_type: char, strike_milli: i128, expiry: &str) -> OptionTick<Decimal> {
    OptionTick {
        date: "d1".to_string(),
        option_type,
        strike: d(strike_milli, 3),
        expiry: expiry.to_string(),
        days_to_maturity: d(10, 0),
        tau: d(1, 1),
        s_t: d(3, 0),
        moneyness: d(0, 0),
        p_a: d(11, 2),
        p_b: d(9, 2),
        mid: d(10, 2),
        spread: d(2, 2),
        a_v_eff: 5,
        b_v_eff: 5,
        is_liquid: true,
    }
}

fn grid(contracts: Vec<OptionTick<Decimal>>) -> OptionGrid<Decimal> {
    OptionGrid { date: "d1".to_string(), s_t: d(3, 0), contracts }
}

fn ladder(strikes: &[i128]) -> Vec<OptionTick<Decimal>> {
    let mut list = Vec::new();
    for k in strikes {
        list.push(option('C', *k, "E1"));
        list.push(option('P', *k, "E1"));
    }
    list
}

#[test]
fn box_of_two_strikes() {
    // The strikes are put in order.
    let list = generate_active_structures(&grid(ladder(&[3100, 3000])), d(2, 0));
    assert_eq!(list.len(), 1);
    assert_eq!(list[0].name, "Box_E1_3.000_3.100");
    assert_eq!(list[0].legs, vec![(2, d(1, 0)), (0, d(-1, 0)), (1, d(1, 0)), (3, d(-1, 0))]);
    assert_eq!(list[0].expected_fee, d(8, 0));
}

#[test]
fn all_structures_of_four_strikes() {
    let list = generate_active_structures(&grid(ladder(&[3000, 3100, 3200, 3300])), d(2, 0));
    let names: Vec<&str> = list.iter().map(|a| a.name.as_str()).collect();
    assert_eq!(names, vec![
        "Box_E1_3.000_3.100",
        "Box_E1_3.000_3.200",
        "Box_E1_3.100_3.200",
        "Box_E1_3.100_3.300",
        "Box_E1_3.200_3.300",
        "C_Fly_E1_3.000_3.100_3.200",
        "P_Fly_E1_3.000_3.100_3.200",
        "C_Fly_E1_3.100_3.200_3.300",
        "P_Fly_E1_3.100_3.200_3.300",
        "Condor_E1_3.000_3.100_3.200_3.300",
    ]);
    assert_eq!(list[5].legs, vec![(0, d(1, 0)), (2, d(-2, 0)), (4, d(1, 0))]);
    assert_eq!(list[9].legs, vec![(1, d(1, 0)), (3, d(-1, 0)), (4, d(-1, 0)), (6, d(1, 0))]);
}

#[test]
fn unequal_distances_make_no_butterfly() {
    let list = generate_active_structures(&grid(ladder(&[3000, 3100, 3250])), d(2, 0));
    assert!(list.iter().all(|a| a.name.starts_with("Box")));
    assert_eq!(list.len(), 3);
}

#[test]
fn expiries_do_not_mix() {
    let mut contracts = ladder(&[3000]);
    contracts.push(option('C', 3100, "E2"));
    contracts.push(option('P', 3100, "E2"));
    assert!(generate_active_structures(&grid(contracts), d(2, 0)).is_empty());
    assert!(generate_active_structures(&grid(vec![]), d(2, 0)).is_empty());
}

#[test]
fn butterfly_reaches_four_strikes_up() {
    let strikes = [3000, 3100, 3200, 3300, 3400, 3500, 3600];
    let list = generate_active_structures(&grid(ladder(&strikes)), d(2, 0));
    assert!(list.iter().any(|a| a.name == "C_Fly_E1_3.000_3.200_3.400"));
    assert!(!list.iter().any(|a| a.name == "C_Fly_E1_3.000_3.300_3.600"));
    assert!(list.iter().any(|a| a.name == "Condor_E1_3.000_3.100_3.200_3.500"));
    assert!(!list.iter().any(|a| a.name == "Condor_E1_3.000_3.100_3.200_3.600"));
    assert!(!list.iter().any(|a| a.name == "Box_E1_3.000_3.300"));
}

#[test]
fn structures_at_expiry() {
    let contracts = ladder(&[3000, 3100, 3200, 3300]);
    let list = generate_active_structures(&grid(contracts.clone()), d(2, 0));
    for spot in [2500, 3000, 3050, 3100, 3150, 3275, 3300, 4000] {
        let values: Vec<Decimal> = contracts
            .iter()
            .map(|c| bs_price(d(spot, 3), c.strike, d(0, 0), d(2, 2), d(2, 1), c.option_type))
            .collect();
        for a in &list {
            let pays = structure_alpha(a, &values);
            if a.name == "Box_E1_3.000_3.200" {
                assert_eq!(pays, d(2, 1));
            } else if a.name.starts_with("Box_E1_3.000_3.100") {
                assert_eq!(pays, d(1, 1));
            } else if a.name.contains("Fly") {
                assert!(d(0, 0).le(pays) && pays.le(d(1, 1)));
            } else if a.name.starts_with("Condor") {
                assert!(pays.le(d(0, 0)) && d(-1, 1).le(pays));
            }
        }
    }
}

#[test]
fn later_contract_of_a_strike_takes_its_place() {
    let mut contracts = ladder(&[3000, 3100]);
    contracts.push(option('C', 3000, "E1"));
    let list = generate_active_structures(&grid(contracts), d(2, 0));
    assert_eq!(list[0].legs[0], (4, d(1, 0)));
}

#[test]
fn strikes_in_millionths() {
    assert_eq!(strike_micro(d(31, 1)), 3_100_000);
    assert_eq!(strike_micro(d(-1, 0)), 0);
}

#[test]
fn profitable_sides() {
    let list = generate_active_structures(&grid(ladder(&[3000, 3100])), d(2, 0));
    // The fee is eight hundredths.
    let scores = vec![d(2, 1), d(0, 0), d(0, 0), d(0, 0)];
    let found = scan_strict_arbitrage(&list, &scores, d(12, 2));
    assert_eq!(found.len(), 1);
    assert_eq!(found[0].0.name, "Box_E1_3.000_3.100");
    assert_eq!((found[0].1, found[0].2), (d(12, 2), d(1, 0)));
    let down = vec![d(-2, 1), d(0, 0), d(0, 0), d(0, 0)];
    let found = scan_strict_arbitrage(&list, &down, d(12, 2));
    assert_eq!((found[0].1, found[0].2), (d(12, 2), d(-1, 0)));
    assert!(scan_strict_arbitrage(&list, &scores, d(13, 2)).is_empty());
}

#[test]
fn grids_are_runs_of_one_date() {
    let mut ticks = ladder(&[3000, 3100]);
    ticks[2].date = "d2".to_string();
    ticks[2].s_t = d(4, 0);
    ticks[3].date = "d1".to_string();
    let grids = reconstruct_grids(&ticks);
    assert_eq!(grids.len(), 3);
    assert_eq!(grids[0].contracts.len(), 2);
    assert_eq!(grids[1].date, "d2");
    assert_eq!(grids[1].s_t, d(4, 0));
    assert_eq!(grids[2].contracts.len(), 1);
    assert!(reconstruct_grids::<Decimal>(&[]).is_empty());
}

fn empty_row() -> TickRow<Decimal> {
    TickRow {
        date: None,
        option_type: None,
        strike: None,
        expiry: None,
        days_to_maturity: None,
        tau: None,
        s_t: None,
        moneyness: None,
        p_a: None,
        p_b: None,
        mid: None,
        spread: None,
        a_v_eff: None,
        b_v_eff: None,
        is_liquid: None,
    }
}

#[test]
fn empty_cells() {
    let t = tick_from_row(&empty_row());
    assert_eq!(t.date, "");
    assert_eq!(t.option_type, 'C');
    assert_eq!(t.strike, d(0, 0));
    assert!(t.mid.is_nan());
    assert_eq!((t.a_v_eff, t.b_v_eff, t.is_liquid), (0, 0, false));
    let mut row = empty_row();
    row.option_type = Some("Put".to_string());
    row.mid = Some(d(5, 1));
    row.is_liquid = Some(true);
    let ticks = ticks_from_rows(&vec![empty_row(), row]);
    assert_eq!(ticks.len(), 2);
    assert_eq!(ticks[1].option_type, 'P');
    assert_eq!(ticks[1].mid, d(5, 1));
    assert!(ticks[1].is_liquid);
    let mut blank = empty_row();
    blank.option_type = Some(String::new());
    assert_eq!(tick_from_row(&blank).option_type, 'C');
    assert_eq!(or_else(Some(3), 4), 3);
    assert_eq!(or_else(None, 4), 4);
}
