//! Trading structures against the quotes of a grid: when to fit the surface, which
//! structures to unwind, how far orders fill, and what the positions are worth.

use vstd::prelude::*;
use vstd::string::*;
use crate::activation::{
    execution_gap, extract_candidate_features, immediate_execution_gap, is_candidate,
};
use crate::calendar::Moment;
use crate::calibration::CalibrationSurface;
use crate::features::{
    has_price, is_priced, key_of, quote_place, ContractKey, KeyModel, RunningCache,
};
use crate::ingestion::{OptionGrid, OptionTick};
use crate::number::{dec, one, zero, Analytic, Number, Quantity};
use crate::structures::{legs_scored, structure_models, ActiveStructure, StructureModel};

verus! {

/// Nanoseconds in fifteen minutes, after which a position is let go more easily.
pub const SOFT_CUTOFF_NANOS: i128 = 900_000_000_000;

/// Nanoseconds in half an hour, after which a position is closed.
pub const HARD_CUTOFF_NANOS: i128 = 1_800_000_000_000;

/// Nanoseconds between two looks at the surface.
pub const CALIBRATION_NANOS: i128 = 1_000_000_000;

/// How many grids there are from one point of the equity curve to the next.
pub const EQUITY_INTERVAL: usize = 1000;

// ---- When to fit ----

/// Whether the surface is due to be looked at: there is none, or none was fitted at a known
/// time, or that was a second ago.
pub open spec fn is_due(has_surface: bool, last: Option<Moment>, now: Moment) -> bool {
    !has_surface || match last {
        Some(time) => now.nanos_since(time) >= 1_000_000_000,
        None => true,
    }
}

/// Whether the surface is due to be looked at.
pub fn calibration_due(has_surface: bool, last: Option<Moment>, now: Moment) -> (r: bool)
    requires
        now.wf(),
        last matches Some(time) ==> time.wf(),
    ensures
        r == is_due(has_surface, last, now),
{
    match last {
        Some(time) => !has_surface || now.since(&time) >= CALIBRATION_NANOS,
        None => true,
    }
}

// ---- Positions ----

/// A position in a structure.
#[derive(Debug)]
pub struct StructurePosition<S> {
    pub name: String,
    /// Positive if bought, negative if sold.
    pub qty: S,
    pub entry_time: Moment,
}

/// What a [`StructurePosition`] holds.
pub ghost struct HoldingModel<S> {
    pub name: Seq<char>,
    pub qty: S,
    pub entry_time: Moment,
}

impl<S> View for StructurePosition<S> {
    type V = HoldingModel<S>;

    open spec fn view(&self) -> HoldingModel<S> {
        HoldingModel { name: self.name@, qty: self.qty, entry_time: self.entry_time }
    }
}

/// What a list of positions holds.
pub open spec fn holding_models<S>(list: Seq<StructurePosition<S>>) -> Seq<HoldingModel<S>> {
    list.map_values(|p: StructurePosition<S>| p@)
}

proof fn lemma_holdings_push<S>(list: Seq<StructurePosition<S>>, p: StructurePosition<S>)
    ensures
        holding_models(list.push(p)) == holding_models(list).push(p@),
{
    assert(holding_models(list.push(p)) =~= holding_models(list).push(p@));
}

/// Cash, and what was paid and traded so far.
#[derive(Debug, Clone, Copy)]
pub struct Account<S> {
    pub cash: S,
    pub fees_paid: S,
    pub traded: u64,
}

/// An account with its open positions.
#[derive(Debug)]
pub struct Book<S> {
    pub account: Account<S>,
    pub positions: Vec<StructurePosition<S>>,
}

impl<S> Book<S> {
    /// The times of entry are times of their days.
    pub open spec fn wf(self) -> bool {
        forall|i: int| 0 <= i < self.positions@.len() ==> (#[trigger] self.positions@[i]).entry_time.wf()
    }
}

impl<S: Number> Book<S> {
    /// An account with nothing but cash.
    pub fn new(cash: S) -> (r: Self)
        ensures
            r.wf(),
            r.account == (Account { cash, fees_paid: zero::<S>(), traded: 0 }),
            r.positions@.len() == 0,
    {
        Book {
            account: Account { cash, fees_paid: S::decimal(0, 0), traded: 0 },
            positions: Vec::new(),
        }
    }
}

// ---- Fills ----

/// Which way a leg is traded when the position in its structure changes by `dz`.
pub open spec fn direction<S: Quantity>(dz: S, weight: S) -> S {
    dz.spec_signum() * weight
}

/// Whether a price can be traded at.
pub open spec fn is_quoted<S: Quantity>(price: S) -> bool {
    price.spec_is_finite() && zero::<S>() < price
}

/// How far a change by `dz` can be filled through the first `n` legs, and whether all of
/// them are quoted on the side that is needed.
pub open spec fn fill_limit<S: Quantity>(
    contracts: Seq<OptionTick<S>>,
    legs: Seq<(usize, S)>,
    dz: S,
    n: nat,
) -> (S, bool)
    decreases n,
{
    if n == 0 {
        (dz.spec_abs(), true)
    } else {
        let (limit, valid) = fill_limit(contracts, legs, dz, (n - 1) as nat);
        let c = contracts[legs[n - 1].0 as int];
        let way = direction(dz, legs[n - 1].1);
        if zero::<S>() < way {
            if is_quoted(c.p_a) {
                (limit.spec_min(dec::<S>(c.a_v_eff as int, 0)), valid)
            } else {
                (limit, false)
            }
        } else if way < zero::<S>() {
            if is_quoted(c.p_b) {
                (limit.spec_min(dec::<S>(c.b_v_eff as int, 0)), valid)
            } else {
                (limit, false)
            }
        } else {
            (limit, valid)
        }
    }
}

/// A price, or the mid price where it can not be traded at.
pub open spec fn price_or_mid<S: Quantity>(price: S, mid: S) -> S {
    if is_quoted(price) {
        price
    } else {
        mid
    }
}

/// An account after the first `n` legs of `qty` structures have been traded: bought at the
/// ask, sold at the bid, a hundred units to the contract, with the fee for each.
pub open spec fn after_legs<S: Quantity>(
    account: Account<S>,
    contracts: Seq<OptionTick<S>>,
    legs: Seq<(usize, S)>,
    dz: S,
    qty: S,
    fee: S,
    n: nat,
) -> Account<S>
    decreases n,
{
    if n == 0 {
        account
    } else {
        let rest = after_legs(account, contracts, legs, dz, qty, fee, (n - 1) as nat);
        let c = contracts[legs[n - 1].0 as int];
        let weight = legs[n - 1].1;
        let way = direction(dz, weight);
        let leg_qty = qty * weight.spec_abs();
        let hundred = dec::<S>(100, 0);
        Account {
            cash: if zero::<S>() < way {
                rest.cash - (price_or_mid(c.p_a, c.mid) * leg_qty * hundred + leg_qty * fee)
            } else if way < zero::<S>() {
                rest.cash + (price_or_mid(c.p_b, c.mid) * leg_qty * hundred - leg_qty * fee)
            } else {
                rest.cash
            },
            fees_paid: rest.fees_paid + leg_qty * fee,
            traded: rest.traded.wrapping_add(leg_qty.spec_trunc_u64()),
        }
    }
}

/// The legs of a structure name contracts of a grid.
pub open spec fn legs_in<S>(legs: Seq<(usize, S)>, n: nat) -> bool {
    forall|q: int| 0 <= q < legs.len() ==> (#[trigger] legs[q]).0 < n
}

fn quoted<S: Number>(price: S) -> (r: bool)
    ensures
        r == is_quoted(price),
{
    price.is_finite() && S::decimal(0, 0).lt(price)
}

fn max_fill<S: Number>(contracts: &Vec<OptionTick<S>>, legs: &Vec<(usize, S)>, dz: S) -> (r: (
    S,
    bool,
))
    requires
        legs_in(legs@, contracts@.len()),
    ensures
        r == fill_limit(contracts@, legs@, dz, legs@.len()),
{
    let n = legs.len();
    let nothing = S::decimal(0, 0);
    let mut limit = dz.abs();
    let mut valid = true;
    let mut q: usize = 0;
    while q < n
        invariant
            q <= n,
            n == legs@.len(),
            nothing == zero::<S>(),
            legs_in(legs@, contracts@.len()),
            (limit, valid) == fill_limit(contracts@, legs@, dz, q as nat),
        decreases n - q,
    {
        assert(legs@[q as int].0 < contracts@.len());
        let (idx, weight) = legs[q];
        let c = &contracts[idx];
        let way = dz.signum().times(weight);
        if nothing.lt(way) {
            if quoted(c.p_a) {
                limit = limit.min(S::decimal(c.a_v_eff as i128, 0));
            } else {
                valid = false;
            }
        } else if way.lt(nothing) {
            if quoted(c.p_b) {
                limit = limit.min(S::decimal(c.b_v_eff as i128, 0));
            } else {
                valid = false;
            }
        }
        q = q + 1;
    }
    (limit, valid)
}

fn trade_legs<S: Number>(
    account: Account<S>,
    contracts: &Vec<OptionTick<S>>,
    legs: &Vec<(usize, S)>,
    dz: S,
    qty: S,
    fee: S,
) -> (r: Account<S>)
    requires
        legs_in(legs@, contracts@.len()),
    ensures
        r == after_legs(account, contracts@, legs@, dz, qty, fee, legs@.len()),
{
    let n = legs.len();
    let nothing = S::decimal(0, 0);
    let hundred = S::decimal(100, 0);
    let mut now = account;
    let mut q: usize = 0;
    while q < n
        invariant
            q <= n,
            n == legs@.len(),
            nothing == zero::<S>(),
            hundred == dec::<S>(100, 0),
            legs_in(legs@, contracts@.len()),
            now == after_legs(account, contracts@, legs@, dz, qty, fee, q as nat),
        decreases n - q,
    {
        assert(legs@[q as int].0 < contracts@.len());
        let (idx, weight) = legs[q];
        let c = &contracts[idx];
        let way = dz.signum().times(weight);
        let leg_qty = qty.times(weight.abs());
        let costs = leg_qty.times(fee);
        let mut cash = now.cash;
        if nothing.lt(way) {
            let price = if quoted(c.p_a) {
                c.p_a
            } else {
                c.mid
            };
            cash = cash.minus(price.times(leg_qty).times(hundred).plus(costs));
        } else if way.lt(nothing) {
            let price = if quoted(c.p_b) {
                c.p_b
            } else {
                c.mid
            };
            cash = cash.plus(price.times(leg_qty).times(hundred).minus(costs));
        }
        now = Account {
            cash,
            fees_paid: now.fees_paid.plus(costs),
            traded: now.traded.wrapping_add(leg_qty.trunc_u64()),
        };
        q = q + 1;
    }
    now
}

// ---- Unwinding ----

/// What the first `n` legs of a structure still promise: of each, the gap from the fair
/// price and a part of the spread. Without a surface the mid price counts as fair.
pub open spec fn remaining_alpha<S: Quantity>(
    contracts: Seq<OptionTick<S>>,
    legs: Seq<(usize, S)>,
    surface: Option<CalibrationSurface<S>>,
    n: nat,
) -> S
    decreases n,
{
    if n == 0 {
        zero::<S>()
    } else {
        let c = contracts[legs[n - 1].0 as int];
        let fair = match surface {
            Some(s) => s.spec_evaluate_contract(c),
            None => c.mid,
        };
        let leg = dec::<S>(8, 1) * execution_gap(fair, c.p_a, c.p_b) + dec::<S>(1, 1) * c.spread;
        remaining_alpha(contracts, legs, surface, (n - 1) as nat) + legs[n - 1].1 * leg
    }
}

/// Whether to unwind a position of a given age: after half an hour, or once what it still
/// promises is below the level, which is higher after a quarter of an hour.
pub open spec fn should_unwind<S: Quantity>(age: int, alpha: S) -> bool {
    let level = if age >= 900_000_000_000 {
        dec::<S>(20, 4)
    } else {
        dec::<S>(5, 4)
    };
    age >= 1_800_000_000_000 || alpha < level
}

/// How much of a position is closed: what can be filled of it, or all of it, at mid prices
/// where needed, if the order book is dry.
pub open spec fn closing_qty<S: Quantity>(limit: S, valid: bool, qty: S) -> S {
    if valid && one::<S>() <= limit {
        limit.spec_min(qty.spec_abs())
    } else {
        qty.spec_abs()
    }
}

/// The quotes and the time at which positions are looked at.
pub ghost struct Scene<S> {
    pub contracts: Seq<OptionTick<S>>,
    pub structs: Seq<StructureModel<S>>,
    pub surface: Option<CalibrationSurface<S>>,
    pub now: Moment,
    pub fee: S,
}

/// The place of the structure of a name, or the length of the list.
pub open spec fn structure_place<S>(list: Seq<StructureModel<S>>, name: Seq<char>, from: int) -> int
    decreases list.len() - from,
{
    if from >= list.len() {
        list.len() as int
    } else if list[from].name == name {
        from
    } else {
        structure_place(list, name, from + 1)
    }
}

/// What becomes of a position: nothing is left of it where its structure is no longer there
/// or it is closed in full.
pub open spec fn unwound<S: Quantity>(account: Account<S>, p: HoldingModel<S>, s: Scene<S>) -> (
    Account<S>,
    Option<HoldingModel<S>>,
) {
    let at = structure_place(s.structs, p.name, 0);
    if at >= s.structs.len() {
        (account, None)
    } else {
        let legs = s.structs[at].legs;
        let alpha = remaining_alpha(s.contracts, legs, s.surface, legs.len());
        if should_unwind(s.now.nanos_since(p.entry_time), alpha) {
            let dz = -p.qty;
            let (limit, valid) = fill_limit(s.contracts, legs, dz, legs.len());
            let qty = closing_qty(limit, valid, p.qty);
            let left = p.qty + qty * dz.spec_signum();
            (
                after_legs(account, s.contracts, legs, dz, qty, s.fee, legs.len()),
                if left.spec_abs() < dec::<S>(1, 5) {
                    None
                } else {
                    Some(HoldingModel { qty: left, ..p })
                },
            )
        } else {
            (account, Some(p))
        }
    }
}

/// The account and the positions after the first `n` positions have been looked at.
pub open spec fn unwound_all<S: Quantity>(
    account: Account<S>,
    positions: Seq<HoldingModel<S>>,
    s: Scene<S>,
    n: nat,
) -> (Account<S>, Seq<HoldingModel<S>>)
    decreases n,
{
    if n == 0 {
        (account, Seq::empty())
    } else {
        let (before, kept) = unwound_all(account, positions, s, (n - 1) as nat);
        let (after, left) = unwound(before, positions[n - 1], s);
        (
            after,
            match left {
                Some(p) => kept.push(p),
                None => kept,
            },
        )
    }
}

fn find_structure<S: Number>(list: &[ActiveStructure<S>], name: &String) -> (r: usize)
    ensures
        r == structure_place(structure_models(list@), name@, 0),
        r <= list@.len(),
{
    let n = list.len();
    let ghost models = structure_models(list@);
    let mut i: usize = 0;
    while i < n && !(list[i].name == *name)
        invariant
            i <= n,
            n == list@.len(),
            models == structure_models(list@),
            structure_place(models, name@, 0) == structure_place(models, name@, i as int),
        decreases n - i,
    {
        assert(models[i as int].name == list@[i as int].name@);
        i = i + 1;
    }
    assert(i < n ==> models[i as int].name == list@[i as int].name@);
    i
}

fn alpha_left<S: Analytic>(
    contracts: &Vec<OptionTick<S>>,
    legs: &Vec<(usize, S)>,
    surface: &Option<CalibrationSurface<S>>,
) -> (r: S)
    requires
        legs_in(legs@, contracts@.len()),
    ensures
        r == remaining_alpha(contracts@, legs@, *surface, legs@.len()),
{
    let n = legs.len();
    let mut alpha = S::decimal(0, 0);
    let mut q: usize = 0;
    while q < n
        invariant
            q <= n,
            n == legs@.len(),
            legs_in(legs@, contracts@.len()),
            alpha == remaining_alpha(contracts@, legs@, *surface, q as nat),
        decreases n - q,
    {
        assert(legs@[q as int].0 < contracts@.len());
        let (idx, weight) = legs[q];
        let c = &contracts[idx];
        let fair = match surface {
            Some(s) => s.evaluate_contract(c),
            None => c.mid,
        };
        let gap = immediate_execution_gap(fair, c.p_a, c.p_b);
        let leg = S::decimal(8, 1).times(gap).plus(S::decimal(1, 1).times(c.spread));
        alpha = alpha.plus(weight.times(leg));
        q = q + 1;
    }
    alpha
}

proof fn lemma_legs_in<S>(list: Seq<ActiveStructure<S>>, n: nat, p: int)
    requires
        legs_scored(list, n),
        0 <= p < list.len(),
    ensures
        legs_in(list[p].legs@, n),
{
    assert forall|q: int| 0 <= q < list[p].legs@.len() implies (#[trigger] list[p].legs@[q]).0
        < n by {}
}

impl<S: Analytic> Book<S> {
    /// Unwinds the positions that are due at the quotes of a grid.
    pub fn unwind(
        &mut self,
        grid: &OptionGrid<S>,
        structs: &[ActiveStructure<S>],
        surface: &Option<CalibrationSurface<S>>,
        now: Moment,
        fee: S,
    )
        requires
            old(self).wf(),
            now.wf(),
            legs_scored(structs@, grid.contracts@.len()),
        ensures
            final(self).wf(),
            ({
                let s = Scene {
                    contracts: grid.contracts@,
                    structs: structure_models(structs@),
                    surface: *surface,
                    now,
                    fee,
                };
                (final(self).account, holding_models(final(self).positions@)) == unwound_all(
                    old(self).account,
                    holding_models(old(self).positions@),
                    s,
                    old(self).positions@.len(),
                )
            }),
    {
        let ghost s = Scene {
            contracts: grid.contracts@,
            structs: structure_models(structs@),
            surface: *surface,
            now,
            fee,
        };
        let ghost all = holding_models(self.positions@);
        let n = self.positions.len();
        let mut account = self.account;
        let mut kept: Vec<StructurePosition<S>> = Vec::new();
        assert(holding_models(kept@) =~= Seq::empty());
        let mut i: usize = 0;
        while i < n
            invariant
                i <= n,
                n == self.positions@.len(),
                self.wf(),
                self.account == old(self).account,
                now.wf(),
                legs_scored(structs@, grid.contracts@.len()),
                s == (Scene {
                    contracts: grid.contracts@,
                    structs: structure_models(structs@),
                    surface: *surface,
                    now,
                    fee,
                }),
                all == holding_models(self.positions@),
                forall|k: int| 0 <= k < kept@.len() ==> (#[trigger] kept@[k]).entry_time.wf(),
                (account, holding_models(kept@)) == unwound_all(
                    self.account,
                    all,
                    s,
                    i as nat,
                ),
            decreases n - i,
        {
            let p = &self.positions[i];
            assert(all[i as int] == p@);
            assert(p.entry_time.wf());
            let at = find_structure(structs, &p.name);
            if at < structs.len() {
                let a = &structs[at];
                proof {
                    lemma_legs_in(structs@, grid.contracts@.len(), at as int);
                    assert(s.structs[at as int].legs == a.legs@);
                }
                let age = now.since(&p.entry_time);
                let alpha = alpha_left(&grid.contracts, &a.legs, surface);
                let level = if age >= SOFT_CUTOFF_NANOS {
                    S::decimal(20, 4)
                } else {
                    S::decimal(5, 4)
                };
                if age >= HARD_CUTOFF_NANOS || alpha.lt(level) {
                    let dz = p.qty.negated();
                    let (limit, valid) = max_fill(&grid.contracts, &a.legs, dz);
                    let qty = if valid && S::decimal(1, 0).le(limit) {
                        limit.min(p.qty.abs())
                    } else {
                        p.qty.abs()
                    };
                    account = trade_legs(account, &grid.contracts, &a.legs, dz, qty, fee);
                    let left = p.qty.plus(qty.times(dz.signum()));
                    if !left.abs().lt(S::decimal(1, 5)) {
                        let q = StructurePosition {
                            name: p.name.clone(),
                            qty: left,
                            entry_time: p.entry_time,
                        };
                        proof {
                            lemma_holdings_push(kept@, q);
                        }
                        kept.push(q);
                    }
                } else {
                    let q = StructurePosition {
                        name: p.name.clone(),
                        qty: p.qty,
                        entry_time: p.entry_time,
                    };
                    proof {
                        lemma_holdings_push(kept@, q);
                    }
                    kept.push(q);
                }
            }
            i = i + 1;
        }
        self.account = account;
        self.positions = kept;
    }
}

// ---- Scoring ----

/// The score of a contract: most of its gap and some of its spread, less what its distance
/// from the money takes off; nothing where it is no candidate or scores too low.
pub open spec fn contract_score<S: Quantity>(
    c: OptionTick<S>,
    s_t: S,
    surface: CalibrationSurface<S>,
    lambda: S,
) -> Option<S> {
    if is_priced(c) && is_candidate(c, surface, lambda) {
        let gap = execution_gap(surface.spec_evaluate_contract(c), c.p_a, c.p_b);
        let share = if c.option_type == 'P' {
            dec::<S>(12, 2)
        } else {
            dec::<S>(2, 2)
        };
        let away = c.strike - s_t;
        let alpha = dec::<S>(85, 2) * gap + share * c.spread - dec::<S>(5, 2) * (away * away);
        if dec::<S>(65, 4) < alpha {
            Some(alpha)
        } else {
            None
        }
    } else {
        None
    }
}

/// The scores of the contracts of a grid, nothing for one without.
pub open spec fn contract_scores<S: Quantity>(
    contracts: Seq<OptionTick<S>>,
    s_t: S,
    surface: CalibrationSurface<S>,
    lambda: S,
) -> Seq<S> {
    contracts.map_values(
        |c: OptionTick<S>|
            match contract_score(c, s_t, surface, lambda) {
                Some(alpha) => alpha,
                None => zero::<S>(),
            },
    )
}

/// Scores the contracts of a grid, and says whether any has a score.
pub fn score_contracts<S: Analytic>(
    grid: &OptionGrid<S>,
    surface: &CalibrationSurface<S>,
    lambda: S,
) -> (r: (Vec<S>, bool))
    ensures
        r.0@ == contract_scores(grid.contracts@, grid.s_t, *surface, lambda),
        r.1 == exists|i: int|
            0 <= i < grid.contracts@.len() && contract_score(
                #[trigger] grid.contracts@[i],
                grid.s_t,
                *surface,
                lambda,
            ) is Some,
{
    let n = grid.contracts.len();
    let ghost all = contract_scores(grid.contracts@, grid.s_t, *surface, lambda);
    let mut scores: Vec<S> = Vec::with_capacity(n);
    let mut any = false;
    let mut i: usize = 0;
    while i < n
        invariant
            i <= n,
            n == grid.contracts@.len(),
            all == contract_scores(grid.contracts@, grid.s_t, *surface, lambda),
            scores@ == all.take(i as int),
            any == exists|k: int|
                0 <= k < i && contract_score(
                    #[trigger] grid.contracts@[k],
                    grid.s_t,
                    *surface,
                    lambda,
                ) is Some,
        decreases n - i,
    {
        let c = &grid.contracts[i];
        let mut score = S::decimal(0, 0);
        let mut found = false;
        if has_price(c) {
            if let Some(feat) = extract_candidate_features(c, surface, lambda) {
                let share = if c.option_type == 'P' {
                    S::decimal(12, 2)
                } else {
                    S::decimal(2, 2)
                };
                let away = c.strike.minus(grid.s_t);
                let alpha = S::decimal(85, 2).times(feat.immediate_execution_gap).plus(
                    share.times(c.spread),
                ).minus(S::decimal(5, 2).times(away.times(away)));
                if S::decimal(65, 4).lt(alpha) {
                    score = alpha;
                    found = true;
                }
            }
        }
        assert(found == (contract_score(*c, grid.s_t, *surface, lambda) is Some));
        any = any || found;
        scores.push(score);
        i = i + 1;
        assert(scores@ =~= all.take(i as int));
    }
    assert(scores@ =~= all);
    (scores, any)
}

// ---- Rebalancing ----

/// The place of the position of a name, or the length of the list.
pub open spec fn holding_place<S>(list: Seq<HoldingModel<S>>, name: Seq<char>, from: int) -> int
    decreases list.len() - from,
{
    if from >= list.len() {
        list.len() as int
    } else if list[from].name == name {
        from
    } else {
        holding_place(list, name, from + 1)
    }
}

/// How many of a structure are held.
pub open spec fn held_qty<S: Quantity>(list: Seq<HoldingModel<S>>, name: Seq<char>) -> S {
    let at = holding_place(list, name, 0);
    if at < list.len() {
        list[at].qty
    } else {
        zero::<S>()
    }
}

/// The positions with a change in one: it is added to what is held, or opens a position.
pub open spec fn with_change<S: Quantity>(
    list: Seq<HoldingModel<S>>,
    name: Seq<char>,
    change: S,
    now: Moment,
) -> Seq<HoldingModel<S>> {
    let at = holding_place(list, name, 0);
    if at < list.len() {
        list.update(at, HoldingModel { qty: list[at].qty + change, ..list[at] })
    } else {
        list.push(HoldingModel { name, qty: change, entry_time: now })
    }
}

/// What becomes of account and positions when the position in a structure is to be moved to
/// a target. A change of less than five is not made; a change is made where all legs are
/// quoted and one structure can be filled, of at most five.
pub open spec fn rebalanced<S: Quantity>(
    account: Account<S>,
    positions: Seq<HoldingModel<S>>,
    a: StructureModel<S>,
    target: S,
    s: Scene<S>,
) -> (Account<S>, Seq<HoldingModel<S>>) {
    let five = dec::<S>(5, 0);
    let dz = target - held_qty(positions, a.name);
    let (limit, valid) = fill_limit(s.contracts, a.legs, dz, a.legs.len());
    if five <= dz.spec_abs() && valid && one::<S>() <= limit {
        let qty = limit.spec_min(five);
        (
            after_legs(account, s.contracts, a.legs, dz, qty, s.fee, a.legs.len()),
            with_change(positions, a.name, qty * dz.spec_signum(), s.now),
        )
    } else {
        (account, positions)
    }
}

/// Account and positions after the first `n` structures have been moved to their targets.
pub open spec fn rebalanced_all<S: Quantity>(
    account: Account<S>,
    positions: Seq<HoldingModel<S>>,
    targets: Seq<S>,
    s: Scene<S>,
    n: nat,
) -> (Account<S>, Seq<HoldingModel<S>>)
    decreases n,
{
    if n == 0 {
        (account, positions)
    } else {
        let (acc, pos) = rebalanced_all(account, positions, targets, s, (n - 1) as nat);
        rebalanced(acc, pos, s.structs[n - 1], targets[n - 1], s)
    }
}

/// The positions that are not empty, among the first `n`.
pub open spec fn not_empty<S: Quantity>(list: Seq<HoldingModel<S>>, n: nat) -> Seq<HoldingModel<S>>
    decreases n,
{
    if n == 0 {
        Seq::empty()
    } else {
        let rest = not_empty(list, (n - 1) as nat);
        if dec::<S>(1, 5) < list[n - 1].qty.spec_abs() {
            rest.push(list[n - 1])
        } else {
            rest
        }
    }
}

impl<S: Number> Book<S> {
    fn find(&self, name: &String) -> (r: usize)
        ensures
            r == holding_place(holding_models(self.positions@), name@, 0),
            r <= self.positions@.len(),
    {
        let n = self.positions.len();
        let ghost models = holding_models(self.positions@);
        let mut i: usize = 0;
        while i < n && !(self.positions[i].name == *name)
            invariant
                i <= n,
                n == self.positions@.len(),
                models == holding_models(self.positions@),
                holding_place(models, name@, 0) == holding_place(models, name@, i as int),
            decreases n - i,
        {
            assert(models[i as int].name == self.positions@[i as int].name@);
            i = i + 1;
        }
        assert(i < n ==> models[i as int].name == self.positions@[i as int].name@);
        i
    }

    fn change(&mut self, name: &String, change: S, now: Moment)
        requires
            old(self).wf(),
            now.wf(),
        ensures
            final(self).wf(),
            final(self).account == old(self).account,
            holding_models(final(self).positions@) == with_change(
                holding_models(old(self).positions@),
                name@,
                change,
                now,
            ),
    {
        let at = self.find(name);
        let ghost before = self.positions@;
        if at < self.positions.len() {
            let held = &self.positions[at];
            assert(held.entry_time.wf());
            let next = StructurePosition {
                name: held.name.clone(),
                qty: held.qty.plus(change),
                entry_time: held.entry_time,
            };
            let ghost model = next@;
            self.positions.set(at, next);
            assert(holding_models(self.positions@) =~= holding_models(before).update(
                at as int,
                model,
            ));
        } else {
            let next = StructurePosition { name: name.clone(), qty: change, entry_time: now };
            proof {
                lemma_holdings_push(self.positions@, next);
            }
            self.positions.push(next);
        }
    }

    /// Moves the positions in structures towards their targets at the quotes of a grid.
    pub fn rebalance(
        &mut self,
        grid: &OptionGrid<S>,
        structs: &[ActiveStructure<S>],
        targets: &[S],
        now: Moment,
        fee: S,
    )
        requires
            old(self).wf(),
            now.wf(),
            legs_scored(structs@, grid.contracts@.len()),
            targets@.len() == structs@.len(),
        ensures
            final(self).wf(),
            ({
                let s = Scene {
                    contracts: grid.contracts@,
                    structs: structure_models(structs@),
                    surface: None,
                    now,
                    fee,
                };
                (final(self).account, holding_models(final(self).positions@)) == rebalanced_all(
                    old(self).account,
                    holding_models(old(self).positions@),
                    targets@,
                    s,
                    targets@.len(),
                )
            }),
    {
        let ghost s = Scene {
            contracts: grid.contracts@,
            structs: structure_models(structs@),
            surface: None,
            now,
            fee,
        };
        let ghost start = holding_models(self.positions@);
        let ghost start_account = self.account;
        let n = targets.len();
        let five = S::decimal(5, 0);
        let mut p: usize = 0;
        while p < n
            invariant
                p <= n,
                n == targets@.len(),
                n == structs@.len(),
                five == dec::<S>(5, 0),
                self.wf(),
                now.wf(),
                legs_scored(structs@, grid.contracts@.len()),
                s == (Scene {
                    contracts: grid.contracts@,
                    structs: structure_models(structs@),
                    surface: None,
                    now,
                    fee,
                }),
                (self.account, holding_models(self.positions@)) == rebalanced_all(
                    start_account,
                    start,
                    targets@,
                    s,
                    p as nat,
                ),
            decreases n - p,
        {
            let a = &structs[p];
            proof {
                lemma_legs_in(structs@, grid.contracts@.len(), p as int);
                assert(s.structs[p as int] == a@);
            }
            let at = self.find(&a.name);
            let current = if at < self.positions.len() {
                self.positions[at].qty
            } else {
                S::decimal(0, 0)
            };
            assert(current == held_qty(holding_models(self.positions@), a.name@));
            let dz = targets[p].minus(current);
            if five.le(dz.abs()) {
                let (limit, valid) = max_fill(&grid.contracts, &a.legs, dz);
                if valid && S::decimal(1, 0).le(limit) {
                    let qty = limit.min(five);
                    self.account = trade_legs(
                        self.account,
                        &grid.contracts,
                        &a.legs,
                        dz,
                        qty,
                        fee,
                    );
                    self.change(&a.name, qty.times(dz.signum()), now);
                }
            }
            p = p + 1;
        }
    }

    /// Drops the positions of which nothing is left.
    pub fn clean_up(&mut self)
        requires
            old(self).wf(),
        ensures
            final(self).wf(),
            final(self).account == old(self).account,
            holding_models(final(self).positions@) == not_empty(
                holding_models(old(self).positions@),
                old(self).positions@.len(),
            ),
    {
        let ghost all = holding_models(self.positions@);
        let n = self.positions.len();
        let mut kept: Vec<StructurePosition<S>> = Vec::new();
        assert(holding_models(kept@) =~= Seq::empty());
        let mut i: usize = 0;
        while i < n
            invariant
                i <= n,
                n == self.positions@.len(),
                self.wf(),
                self.account == old(self).account,
                all == holding_models(self.positions@),
                forall|k: int| 0 <= k < kept@.len() ==> (#[trigger] kept@[k]).entry_time.wf(),
                holding_models(kept@) == not_empty(all, i as nat),
            decreases n - i,
        {
            let p = &self.positions[i];
            assert(all[i as int] == p@);
            assert(p.entry_time.wf());
            if S::decimal(1, 5).lt(p.qty.abs()) {
                let q = StructurePosition {
                    name: p.name.clone(),
                    qty: p.qty,
                    entry_time: p.entry_time,
                };
                proof {
                    lemma_holdings_push(kept@, q);
                }
                kept.push(q);
            }
            i = i + 1;
        }
        self.positions = kept;
    }
}

// ---- Valuation ----

/// The place of a contract in a list of held contracts, or its length.
pub open spec fn contract_place<S>(list: Seq<(KeyModel, S)>, key: KeyModel, from: int) -> int
    decreases list.len() - from,
{
    if from >= list.len() {
        list.len() as int
    } else if list[from].0 == key {
        from
    } else {
        contract_place(list, key, from + 1)
    }
}

/// Held contracts with some more of one.
pub open spec fn with_contract<S: Quantity>(
    list: Seq<(KeyModel, S)>,
    key: KeyModel,
    qty: S,
) -> Seq<(KeyModel, S)> {
    let at = contract_place(list, key, 0);
    if at < list.len() {
        list.update(at, (key, list[at].1 + qty))
    } else {
        list.push((key, zero::<S>() + qty))
    }
}

/// Held contracts with the first `n` legs of `qty` structures.
pub open spec fn with_legs<S: Quantity>(
    list: Seq<(KeyModel, S)>,
    contracts: Seq<OptionTick<S>>,
    legs: Seq<(usize, S)>,
    qty: S,
    n: nat,
) -> Seq<(KeyModel, S)>
    decreases n,
{
    if n == 0 {
        list
    } else {
        with_contract(
            with_legs(list, contracts, legs, qty, (n - 1) as nat),
            key_of(contracts[legs[n - 1].0 as int]),
            qty * legs[n - 1].1,
        )
    }
}

/// The contracts that the first `n` positions hold. Positions whose structure is not there
/// do not count.
pub open spec fn held_contracts<S: Quantity>(
    positions: Seq<HoldingModel<S>>,
    structs: Seq<StructureModel<S>>,
    contracts: Seq<OptionTick<S>>,
    n: nat,
) -> Seq<(KeyModel, S)>
    decreases n,
{
    if n == 0 {
        Seq::empty()
    } else {
        let rest = held_contracts(positions, structs, contracts, (n - 1) as nat);
        let at = structure_place(structs, positions[n - 1].name, 0);
        if at < structs.len() {
            let legs = structs[at].legs;
            with_legs(rest, contracts, legs, positions[n - 1].qty, legs.len())
        } else {
            rest
        }
    }
}

/// Cash and the first `n` held contracts at their last mid prices, a hundred units to the
/// contract.
pub open spec fn value_of<S: Quantity>(
    cash: S,
    held: Seq<(KeyModel, S)>,
    quotes: Seq<OptionTick<S>>,
    n: nat,
) -> S
    decreases n,
{
    if n == 0 {
        cash
    } else {
        let rest = value_of(cash, held, quotes, (n - 1) as nat);
        let at = quote_place(quotes, held[n - 1].0, 0);
        if at < quotes.len() && is_quoted(quotes[at].mid) {
            rest + held[n - 1].1 * quotes[at].mid * dec::<S>(100, 0)
        } else {
            rest
        }
    }
}

/// What a list of held contracts holds.
spec fn held_models<S>(list: Seq<(ContractKey, S)>) -> Seq<(KeyModel, S)> {
    list.map_values(|h: (ContractKey, S)| (h.0@, h.1))
}

fn add_contract<S: Number>(list: &mut Vec<(ContractKey, S)>, key: ContractKey, qty: S)
    ensures
        held_models(final(list)@) == with_contract(held_models(old(list)@), key@, qty),
{
    let n = list.len();
    let ghost models = held_models(list@);
    let mut i: usize = 0;
    while i < n && !list[i].0.same(&key)
        invariant
            i <= n,
            n == list@.len(),
            models == held_models(list@),
            contract_place(models, key@, 0) == contract_place(models, key@, i as int),
        decreases n - i,
    {
        assert(models[i as int].0 == list@[i as int].0@);
        i = i + 1;
    }
    let ghost before = list@;
    if i < n {
        assert(models[i as int].0 == list@[i as int].0@);
        let sum = list[i].1.plus(qty);
        let ghost model = (key@, sum);
        list.set(i, (key, sum));
        assert(held_models(list@) =~= held_models(before).update(i as int, model));
    } else {
        let sum = S::decimal(0, 0).plus(qty);
        let ghost model = (key@, sum);
        list.push((key, sum));
        assert(held_models(list@) =~= held_models(before).push(model));
    }
}

impl<S: Number> Book<S> {
    fn contracts_held(&self, grid: &OptionGrid<S>, structs: &[ActiveStructure<S>]) -> (r: Vec<
        (ContractKey, S),
    >)
        requires
            legs_scored(structs@, grid.contracts@.len()),
        ensures
            held_models(r@) == held_contracts(
                holding_models(self.positions@),
                structure_models(structs@),
                grid.contracts@,
                self.positions@.len(),
            ),
    {
        let ghost positions = holding_models(self.positions@);
        let ghost models = structure_models(structs@);
        let n = self.positions.len();
        let mut held: Vec<(ContractKey, S)> = Vec::new();
        assert(held_models(held@) =~= Seq::empty());
        let mut i: usize = 0;
        while i < n
            invariant
                i <= n,
                n == self.positions@.len(),
                positions == holding_models(self.positions@),
                models == structure_models(structs@),
                legs_scored(structs@, grid.contracts@.len()),
                held_models(held@) == held_contracts(
                    positions,
                    models,
                    grid.contracts@,
                    i as nat,
                ),
            decreases n - i,
        {
            let p = &self.positions[i];
            assert(positions[i as int] == p@);
            let at = find_structure(structs, &p.name);
            if at < structs.len() {
                let legs = &structs[at].legs;
                proof {
                    lemma_legs_in(structs@, grid.contracts@.len(), at as int);
                    assert(models[at as int].legs == legs@);
                }
                let ghost before = held_models(held@);
                let m = legs.len();
                let mut q: usize = 0;
                while q < m
                    invariant
                        q <= m,
                        m == legs@.len(),
                        legs_in(legs@, grid.contracts@.len()),
                        held_models(held@) == with_legs(
                            before,
                            grid.contracts@,
                            legs@,
                            p.qty,
                            q as nat,
                        ),
                    decreases m - q,
                {
                    assert(legs@[q as int].0 < grid.contracts@.len());
                    let (idx, weight) = legs[q];
                    let key = ContractKey::from_tick(&grid.contracts[idx]);
                    add_contract(&mut held, key, p.qty.times(weight));
                    q = q + 1;
                }
            }
            i = i + 1;
        }
        held
    }

    /// What the account is worth: its cash, and the contracts that its positions hold at
    /// their last mid prices.
    pub fn value(
        &self,
        grid: &OptionGrid<S>,
        structs: &[ActiveStructure<S>],
        cache: &RunningCache<S>,
    ) -> (r: S)
        requires
            legs_scored(structs@, grid.contracts@.len()),
        ensures
            ({
                let held = held_contracts(
                    holding_models(self.positions@),
                    structure_models(structs@),
                    grid.contracts@,
                    self.positions@.len(),
                );
                r == value_of(self.account.cash, held, cache.ticks@, held.len())
            }),
    {
        let list = self.contracts_held(grid, structs);
        let ghost held = held_models(list@);
        let n = list.len();
        let mut value = self.account.cash;
        let mut i: usize = 0;
        while i < n
            invariant
                i <= n,
                n == list@.len(),
                held == held_models(list@),
                value == value_of(self.account.cash, held, cache.ticks@, i as nat),
            decreases n - i,
        {
            let (key, qty) = &list[i];
            assert(held[i as int] == (key@, *qty));
            let at = cache.find(key);
            if at < cache.ticks.len() {
                let mid = cache.ticks[at].mid;
                if quoted(mid) {
                    value = value.plus(qty.times(mid).times(S::decimal(100, 0)));
                }
            }
            i = i + 1;
        }
        value
    }
}

} // verus!
