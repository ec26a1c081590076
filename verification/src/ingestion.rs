//! Option ticks and the grids that they make up.

use vstd::prelude::*;
use vstd::string::*;
use crate::number::{zero, Number, Quantity};

verus! {

/// One quote of an option contract.
#[derive(Debug)]
pub struct OptionTick<S> {
    pub date: String,
    /// 'C' or 'P'.
    pub option_type: char,
    pub strike: S,
    pub expiry: String,
    pub days_to_maturity: S,
    pub tau: S,
    pub s_t: S,
    pub moneyness: S,
    pub p_a: S,
    pub p_b: S,
    pub mid: S,
    pub spread: S,
    pub a_v_eff: i64,
    pub b_v_eff: i64,
    pub is_liquid: bool,
}

impl<S: Copy> Clone for OptionTick<S> {
    fn clone(&self) -> (r: Self)
        ensures
            r == *self,
    {
        OptionTick {
            date: self.date.clone(),
            option_type: self.option_type,
            strike: self.strike,
            expiry: self.expiry.clone(),
            days_to_maturity: self.days_to_maturity,
            tau: self.tau,
            s_t: self.s_t,
            moneyness: self.moneyness,
            p_a: self.p_a,
            p_b: self.p_b,
            mid: self.mid,
            spread: self.spread,
            a_v_eff: self.a_v_eff,
            b_v_eff: self.b_v_eff,
            is_liquid: self.is_liquid,
        }
    }
}

/// The contracts that are quoted at one time.
#[derive(Debug)]
pub struct OptionGrid<S> {
    pub date: String,
    pub s_t: S,
    pub contracts: Vec<OptionTick<S>>,
}

/// A row of the tick table, with the cells that may be empty.
#[derive(Debug)]
pub struct TickRow<S> {
    pub date: Option<String>,
    pub option_type: Option<String>,
    pub strike: Option<S>,
    pub expiry: Option<String>,
    pub days_to_maturity: Option<S>,
    pub tau: Option<S>,
    pub s_t: Option<S>,
    pub moneyness: Option<S>,
    pub p_a: Option<S>,
    pub p_b: Option<S>,
    pub mid: Option<S>,
    pub spread: Option<S>,
    pub a_v_eff: Option<i64>,
    pub b_v_eff: Option<i64>,
    pub is_liquid: Option<bool>,
}

/// The value of a cell, or another one where it is empty.
pub open spec fn cell<T>(value: Option<T>, otherwise: T) -> T {
    match value {
        Some(v) => v,
        None => otherwise,
    }
}

/// The text of a cell, empty where the cell is.
pub open spec fn text_cell(value: Option<String>) -> Seq<char> {
    match value {
        Some(v) => v@,
        None => Seq::empty(),
    }
}

/// The option type that a cell names by its first letter, a call where there is
/// none.
pub open spec fn type_cell(value: Option<String>) -> char {
    match value {
        Some(v) => if v@.len() > 0 {
            v@[0]
        } else {
            'C'
        },
        None => 'C',
    }
}

/// Whether a tick is what a row says: empty cells count as nothing, but for the
/// mid price, which is then not a number.
pub open spec fn tick_of_row<S: Quantity>(row: TickRow<S>, tick: OptionTick<S>) -> bool {
    &&& tick.date@ == text_cell(row.date)
    &&& tick.option_type == type_cell(row.option_type)
    &&& tick.strike == cell(row.strike, zero::<S>())
    &&& tick.expiry@ == text_cell(row.expiry)
    &&& tick.days_to_maturity == cell(row.days_to_maturity, zero::<S>())
    &&& tick.tau == cell(row.tau, zero::<S>())
    &&& tick.s_t == cell(row.s_t, zero::<S>())
    &&& tick.moneyness == cell(row.moneyness, zero::<S>())
    &&& tick.p_a == cell(row.p_a, zero::<S>())
    &&& tick.p_b == cell(row.p_b, zero::<S>())
    &&& tick.mid == cell(row.mid, S::spec_nan())
    &&& tick.spread == cell(row.spread, zero::<S>())
    &&& tick.a_v_eff == cell(row.a_v_eff, 0)
    &&& tick.b_v_eff == cell(row.b_v_eff, 0)
    &&& tick.is_liquid == cell(row.is_liquid, false)
}

/// The value of a cell, or another one where it is empty.
pub fn or_else<T: Copy>(value: Option<T>, otherwise: T) -> (r: T)
    ensures
        r == cell(value, otherwise),
{
    match value {
        Some(v) => v,
        None => otherwise,
    }
}

fn or_empty(value: &Option<String>) -> (r: String)
    ensures
        r@ == text_cell(*value),
{
    match value {
        Some(v) => v.clone(),
        None => String::new(),
    }
}

fn first_letter(value: &Option<String>) -> (r: char)
    ensures
        r == type_cell(*value),
{
    match value {
        Some(v) => {
            if v.as_str().is_empty() {
                'C'
            } else {
                v.as_str().get_char(0)
            }
        },
        None => 'C',
    }
}

/// The tick that a row of the table stands for.
pub fn tick_from_row<S: Number>(row: &TickRow<S>) -> (r: OptionTick<S>)
    ensures
        tick_of_row(*row, r),
{
    let nothing = S::decimal(0, 0);
    OptionTick {
        date: or_empty(&row.date),
        option_type: first_letter(&row.option_type),
        strike: or_else(row.strike, nothing),
        expiry: or_empty(&row.expiry),
        days_to_maturity: or_else(row.days_to_maturity, nothing),
        tau: or_else(row.tau, nothing),
        s_t: or_else(row.s_t, nothing),
        moneyness: or_else(row.moneyness, nothing),
        p_a: or_else(row.p_a, nothing),
        p_b: or_else(row.p_b, nothing),
        mid: or_else(row.mid, S::nan()),
        spread: or_else(row.spread, nothing),
        a_v_eff: or_else(row.a_v_eff, 0),
        b_v_eff: or_else(row.b_v_eff, 0),
        is_liquid: or_else(row.is_liquid, false),
    }
}

/// The ticks of a table, row by row.
pub fn ticks_from_rows<S: Number>(rows: &Vec<TickRow<S>>) -> (r: Vec<OptionTick<S>>)
    ensures
        r@.len() == rows@.len(),
        forall|i: int| 0 <= i < rows@.len() ==> tick_of_row(rows@[i], #[trigger] r@[i]),
{
    let n = rows.len();
    let mut ticks: Vec<OptionTick<S>> = Vec::with_capacity(n);
    let mut i: usize = 0;
    while i < n
        invariant
            i <= n,
            n == rows@.len(),
            ticks@.len() == i,
            forall|k: int| 0 <= k < i ==> tick_of_row(rows@[k], #[trigger] ticks@[k]),
        decreases n - i,
    {
        ticks.push(tick_from_row(&rows[i]));
        i = i + 1;
    }
    ticks
}

/// The contracts of all grids, one grid after the other.
pub open spec fn all_contracts<S>(grids: Seq<OptionGrid<S>>) -> Seq<OptionTick<S>>
    decreases grids.len(),
{
    if grids.len() == 0 {
        Seq::empty()
    } else {
        all_contracts(grids.drop_last()) + grids.last().contracts@
    }
}

/// A grid holds contracts of one date, and has the date and the spot price of the
/// first.
pub open spec fn is_grid<S>(grid: OptionGrid<S>) -> bool {
    &&& grid.contracts@.len() > 0
    &&& grid.s_t == grid.contracts@[0].s_t
    &&& forall|i: int|
        0 <= i < grid.contracts@.len() ==> (#[trigger] grid.contracts@[i]).date@ == grid.date@
}

/// Groups ticks into grids: each grid is a run of ticks with the same date, and
/// neighbouring grids have different dates.
pub fn reconstruct_grids<S: Number>(ticks: &[OptionTick<S>]) -> (grids: Vec<OptionGrid<S>>)
    ensures
        all_contracts(grids@) == ticks@,
        forall|g: int| 0 <= g < grids@.len() ==> is_grid(#[trigger] grids@[g]),
        forall|g: int|
            1 <= g < grids@.len() ==> grids@[g - 1].date@ != (#[trigger] grids@[g]).date@,
{
    let mut grids: Vec<OptionGrid<S>> = Vec::new();
    let n = ticks.len();
    if n == 0 {
        assert(all_contracts(grids@) =~= ticks@);
        return grids;
    }
    let mut current_date = ticks[0].date.clone();
    let mut current_st = ticks[0].s_t;
    let mut contracts: Vec<OptionTick<S>> = Vec::new();
    let mut i: usize = 0;
    while i < n
        invariant
            i <= n,
            n == ticks@.len(),
            n > 0,
            i == 0 ==> contracts@.len() == 0 && grids@.len() == 0 && current_date@
                == ticks@[0].date@ && current_st == ticks@[0].s_t,
            i > 0 ==> contracts@.len() > 0 && current_st == contracts@[0].s_t,
            forall|k: int|
                0 <= k < contracts@.len() ==> (#[trigger] contracts@[k]).date@ == current_date@,
            all_contracts(grids@) + contracts@ == ticks@.take(i as int),
            forall|g: int| 0 <= g < grids@.len() ==> is_grid(#[trigger] grids@[g]),
            forall|g: int|
                1 <= g < grids@.len() ==> grids@[g - 1].date@ != (#[trigger] grids@[g]).date@,
            grids@.len() > 0 ==> grids@.last().date@ != current_date@,
        decreases n - i,
    {
        let tick = &ticks[i];
        if !(tick.date == current_date) {
            let ghost before = grids@;
            let grid = OptionGrid { date: current_date, s_t: current_st, contracts };
            assert(is_grid(grid));
            grids.push(grid);
            assert(grids@.drop_last() =~= before);
            current_date = tick.date.clone();
            current_st = tick.s_t;
            contracts = Vec::new();
            assert(all_contracts(grids@) + contracts@ =~= ticks@.take(i as int));
        }
        assert(ticks@.take(i + 1) =~= ticks@.take(i as int).push(ticks@[i as int]));
        let ghost held = contracts@;
        contracts.push(tick.clone());
        assert(all_contracts(grids@) + contracts@ =~= (all_contracts(grids@) + held).push(
            ticks@[i as int],
        ));
        i = i + 1;
    }
    let ghost before = grids@;
    let grid = OptionGrid { date: current_date, s_t: current_st, contracts };
    assert(is_grid(grid));
    grids.push(grid);
    assert(grids@.drop_last() =~= before);
    assert(ticks@.take(n as int) =~= ticks@);
    grids
}

} // verus!
