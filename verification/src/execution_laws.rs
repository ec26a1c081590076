//! What holds of fills, unwinding and the equity curve in exact arithmetic.

use vstd::prelude::*;
use crate::activation::execution_gap;
use crate::calendar::Moment;
use crate::calibration::CalibrationSurface;
use crate::exact::{lemma_whole, pow10, real_abs, real_decimal};
use crate::execution::{
    after_legs, closing_qty, contract_score, direction, fill_limit, held_qty, holding_place, is_quoted,
    price_or_mid, rebalanced, remaining_alpha, structure_place, unwound, with_change, Account,
    HoldingModel, Scene,
};
use crate::ingestion::OptionTick;
use crate::number::dec;
use crate::performance::{with_point, TrackModel};
use crate::structures::StructureModel;

verus! {

/// The volume that a leg finds on the side that it needs, if it needs one.
pub open spec fn volume_at(c: OptionTick<real>, way: real) -> Option<real> {
    if 0real < way {
        Some(c.a_v_eff as real)
    } else if way < 0real {
        Some(c.b_v_eff as real)
    } else {
        None
    }
}

/// A fill is never more than was asked for, nor more than the volume of any leg on the side
/// that it needs; where it is valid every such side is quoted.
pub proof fn law_fill_within_book(
    contracts: Seq<OptionTick<real>>,
    legs: Seq<(usize, real)>,
    dz: real,
    n: nat,
)
    requires
        n <= legs.len(),
    ensures
        fill_limit(contracts, legs, dz, n).0 <= (if dz < 0real {
            -dz
        } else {
            dz
        }),
        fill_limit(contracts, legs, dz, n).1 ==> forall|q: int|
            0 <= q < n ==> {
                let c = contracts[(#[trigger] legs[q]).0 as int];
                let way = direction(dz, legs[q].1);
                &&& volume_at(c, way) matches Some(v) ==> fill_limit(contracts, legs, dz, n).0 <= v
                &&& 0real < way ==> is_quoted(c.p_a)
                &&& way < 0real ==> is_quoted(c.p_b)
            },
    decreases n,
{
    lemma_whole(0);
    if n > 0 {
        law_fill_within_book(contracts, legs, dz, (n - 1) as nat);
        let c = contracts[legs[n - 1].0 as int];
        lemma_whole(c.a_v_eff as int);
        lemma_whole(c.b_v_eff as int);
        let now = fill_limit(contracts, legs, dz, n);
        let before = fill_limit(contracts, legs, dz, (n - 1) as nat);
        assert(now.0 <= before.0);
        if now.1 {
            assert(before.1);
            assert forall|q: int| 0 <= q < n implies {
                let c = contracts[(#[trigger] legs[q]).0 as int];
                let way = direction(dz, legs[q].1);
                &&& volume_at(c, way) matches Some(v) ==> now.0 <= v
                &&& 0real < way ==> is_quoted(c.p_a)
                &&& way < 0real ==> is_quoted(c.p_b)
            } by {
                if q < n - 1 {
                    let c = contracts[legs[q].0 as int];
                    let way = direction(dz, legs[q].1);
                    assert(volume_at(c, way) matches Some(v) ==> before.0 <= v);
                }
            }
        }
    }
}

/// Unwinding never turns a position round and never makes it larger.
pub proof fn law_unwind_never_overshoots(
    account: Account<real>,
    p: HoldingModel<real>,
    s: Scene<real>,
)
    ensures
        unwound(account, p, s).1 matches Some(left) ==> {
            &&& left.name == p.name
            &&& left.entry_time == p.entry_time
            &&& 0real <= p.qty ==> 0real <= left.qty <= p.qty
            &&& p.qty <= 0real ==> p.qty <= left.qty <= 0real
        },
{
    lemma_whole(1);
    let at = structure_place(s.structs, p.name, 0);
    let legs = s.structs[at].legs;
    let (limit, valid) = fill_limit(s.contracts, legs, -p.qty, legs.len());
    let closed = closing_qty(limit, valid, p.qty);
    assert(closed * 1real == closed);
    assert(closed * (-1real) == -closed);
}

proof fn lemma_holding_place(list: Seq<HoldingModel<real>>, name: Seq<char>, from: int)
    requires
        0 <= from <= list.len(),
    ensures
        from <= holding_place(list, name, from) <= list.len(),
        holding_place(list, name, from) < list.len() ==> list[holding_place(list, name, from)].name
            == name,
        forall|i: int| from <= i < holding_place(list, name, from) ==> (#[trigger] list[i]).name != name,
    decreases list.len() - from,
{
    if from < list.len() && list[from].name != name {
        lemma_holding_place(list, name, from + 1);
    }
}

proof fn lemma_found_at(list: Seq<HoldingModel<real>>, name: Seq<char>, from: int, at: int)
    requires
        0 <= from <= at < list.len(),
        list[at].name == name,
        forall|i: int| from <= i < at ==> (#[trigger] list[i]).name != name,
    ensures
        holding_place(list, name, from) == at,
    decreases at - from,
{
    if from < at {
        assert(list[from].name != name);
        lemma_found_at(list, name, from + 1, at);
    }
}

/// A change in a position is what its quantity changes by.
pub proof fn law_change_is_held(
    list: Seq<HoldingModel<real>>,
    name: Seq<char>,
    change: real,
    now: Moment,
)
    ensures
        held_qty(with_change(list, name, change, now), name) == held_qty(list, name) + change,
{
    lemma_whole(0);
    lemma_holding_place(list, name, 0);
    let at = holding_place(list, name, 0);
    lemma_found_at(with_change(list, name, change, now), name, 0, at);
}

/// One rebalancing moves a position towards its target, not beyond it, and by at most five
/// structures.
pub proof fn law_rebalancing_moves_towards_target(
    account: Account<real>,
    positions: Seq<HoldingModel<real>>,
    a: StructureModel<real>,
    target: real,
    s: Scene<real>,
)
    ensures
        ({
            let before = held_qty(positions, a.name);
            let after = held_qty(rebalanced(account, positions, a, target, s).1, a.name);
            &&& before - 5real <= after <= before + 5real
            &&& before <= target ==> before <= after <= target
            &&& target <= before ==> target <= after <= before
        }),
{
    lemma_whole(5);
    lemma_whole(1);
    let dz = target - held_qty(positions, a.name);
    law_fill_within_book(s.contracts, a.legs, dz, a.legs.len());
    let limit = fill_limit(s.contracts, a.legs, dz, a.legs.len()).0;
    let qty = if dec::<real>(5, 0) < limit {
        dec::<real>(5, 0)
    } else {
        limit
    };
    assert(qty * 1real == qty);
    assert(qty * (-1real) == -qty);
    law_change_is_held(positions, a.name, qty, s.now);
    law_change_is_held(positions, a.name, -qty, s.now);
}

/// Every value of a curve is at most the peak, and the largest fall is not negative.
pub open spec fn track_bounded(t: TrackModel<real>) -> bool {
    &&& forall|i: int| 0 <= i < t.curve.len() ==> (#[trigger] t.curve[i]).1 <= t.max_equity
    &&& 0real <= t.max_drawdown
}

/// The peak stays above all values of the curve, and the largest fall never shrinks and is
/// at least the fall to the new point.
pub proof fn law_track_bounded(t: TrackModel<real>, time: Moment, value: real)
    requires
        track_bounded(t),
    ensures
        track_bounded(with_point(t, time, value)),
        t.max_drawdown <= with_point(t, time, value).max_drawdown,
        ({
            let next = with_point(t, time, value);
            (next.max_equity - value) / next.max_equity <= next.max_drawdown
        }),
{
    let next = with_point(t, time, value);
    assert forall|i: int| 0 <= i < next.curve.len() implies (#[trigger] next.curve[i]).1
        <= next.max_equity by {
        if i < t.curve.len() {
            assert(t.curve[i].1 <= t.max_equity);
        }
    }
}

// ---- The edge that is left ----

/// The gap from the fair price is how far it lies from the nearest price between bid and ask.
pub proof fn law_gap_is_distance_from_spread(fair: real, p_a: real, p_b: real, price: real)
    requires
        p_b <= p_a,
        p_b <= price <= p_a,
    ensures
        0real <= execution_gap(fair, p_a, p_b),
        execution_gap(fair, p_a, p_b) <= fair - price || execution_gap(fair, p_a, p_b) <= price
            - fair,
        exists|nearest: real|
            p_b <= nearest <= p_a && (execution_gap(fair, p_a, p_b) == #[trigger] apart(
                fair,
                nearest,
            )),
{
    lemma_whole(0);
    let nearest = if p_a < fair {
        p_a
    } else if fair < p_b {
        p_b
    } else {
        fair
    };
    assert(execution_gap(fair, p_a, p_b) == apart(fair, nearest));
}

/// How far two prices are apart.
pub open spec fn apart(a: real, b: real) -> real {
    if a < b {
        b - a
    } else {
        a - b
    }
}

/// The gap of a contract from its price on a surface, or from its mid price.
#[verifier::opaque]
pub open spec fn gap_of(c: OptionTick<real>, surface: Option<CalibrationSurface<real>>) -> real {
    match surface {
        Some(s) => execution_gap(s.spec_evaluate_contract(c), c.p_a, c.p_b),
        None => execution_gap(c.mid, c.p_a, c.p_b),
    }
}

/// Sum of the first `n` weights, each times how much the gap of its leg differs between two
/// lists of quotes.
pub open spec fn gap_change(
    before: Seq<OptionTick<real>>,
    after: Seq<OptionTick<real>>,
    legs: Seq<(usize, real)>,
    surface: Option<CalibrationSurface<real>>,
    n: nat,
) -> real
    decreases n,
{
    if n == 0 {
        0real
    } else {
        let (b, a) = (before[legs[n - 1].0 as int], after[legs[n - 1].0 as int]);
        gap_change(before, after, legs, surface, (n - 1) as nat) + legs[n - 1].1 * (gap_of(
            a,
            surface,
        ) - gap_of(b, surface))
    }
}

proof fn lemma_tenths()
    ensures
        dec::<real>(8, 1) == 8real / 10real,
        dec::<real>(1, 1) == 1real / 10real,
        dec::<real>(20, 4) == 2real / 1000real,
        dec::<real>(5, 4) == 1real / 2000real,
        dec::<real>(1, 5) == 1real / 100_000real,
{
    reveal_with_fuel(pow10, 6);
    assert(pow10(1) == 10);
    assert(pow10(4) == 10_000);
    assert(pow10(5) == 100_000);
    assert(real_decimal(8, 1) == (8int as real) / (10int as real));
    assert(real_decimal(1, 1) == (1int as real) / (10int as real));
    assert(real_decimal(20, 4) == (20int as real) / (10_000int as real));
    assert(real_decimal(5, 4) == (5int as real) / (10_000int as real));
    assert(real_decimal(1, 5) == (1int as real) / (100_000int as real));
}

/// What a leg of weight one promises.
#[verifier::opaque]
spec fn leg_promise(c: OptionTick<real>, surface: Option<CalibrationSurface<real>>) -> real {
    let fair = match surface {
        Some(s) => s.spec_evaluate_contract(c),
        None => c.mid,
    };
    dec::<real>(8, 1) * execution_gap(fair, c.p_a, c.p_b) + dec::<real>(1, 1) * c.spread
}

proof fn lemma_one_more_leg(
    contracts: Seq<OptionTick<real>>,
    legs: Seq<(usize, real)>,
    surface: Option<CalibrationSurface<real>>,
    n: nat,
)
    requires
        n > 0,
    ensures
        remaining_alpha(contracts, legs, surface, n) == remaining_alpha(
            contracts,
            legs,
            surface,
            (n - 1) as nat,
        ) + legs[n - 1].1 * leg_promise(contracts[legs[n - 1].0 as int], surface),
{
    reveal(leg_promise);
}

proof fn lemma_leg_promise(c: OptionTick<real>, surface: Option<CalibrationSurface<real>>)
    ensures
        leg_promise(c, surface) == (8real / 10real) * gap_of(c, surface) + (1real / 10real)
            * c.spread,
{
    reveal(leg_promise);
    reveal(gap_of);
    lemma_tenths();
}

proof fn lemma_leg_step(w: real, a: real, b: real, x: real, y: real)
    by (nonlinear_arith)
    requires
        x - y == (8real / 10real) * (a - b),
    ensures
        w * x - w * y == (8real / 10real) * (w * (a - b)),
{
}

/// What a structure still promises rises with the gap of every leg that it buys and falls with
/// that of every leg that it sells: by eight tenths of the weight times the change.
pub proof fn law_promise_follows_gaps(
    before: Seq<OptionTick<real>>,
    after: Seq<OptionTick<real>>,
    legs: Seq<(usize, real)>,
    surface: Option<CalibrationSurface<real>>,
    n: nat,
)
    requires
        n <= legs.len(),
        forall|q: int|
            0 <= q < n ==> after[(#[trigger] legs[q]).0 as int].spread
                == before[legs[q].0 as int].spread,
    ensures
        remaining_alpha(after, legs, surface, n) - remaining_alpha(before, legs, surface, n) == (
        8real / 10real) * gap_change(before, after, legs, surface, n),
    decreases n,
{
    lemma_whole(0);
    if n > 0 {
        law_promise_follows_gaps(before, after, legs, surface, (n - 1) as nat);
        lemma_one_more_leg(before, legs, surface, n);
        lemma_one_more_leg(after, legs, surface, n);
        let (b, a) = (before[legs[n - 1].0 as int], after[legs[n - 1].0 as int]);
        assert(a.spread == b.spread);
        lemma_leg_promise(a, surface);
        lemma_leg_promise(b, surface);
        lemma_leg_step(
            legs[n - 1].1,
            gap_of(a, surface),
            gap_of(b, surface),
            leg_promise(a, surface),
            leg_promise(b, surface),
        );
    }
}

/// A structure of one bought leg promises what the leg does.
pub proof fn law_promise_of_one_leg(
    contracts: Seq<OptionTick<real>>,
    legs: Seq<(usize, real)>,
    surface: Option<CalibrationSurface<real>>,
)
    requires
        legs.len() == 1,
        legs[0].1 == 1real,
    ensures
        remaining_alpha(contracts, legs, surface, 1) == (8real / 10real) * gap_of(
            contracts[legs[0].0 as int],
            surface,
        ) + (1real / 10real) * contracts[legs[0].0 as int].spread,
{
    lemma_whole(0);
    lemma_one_more_leg(contracts, legs, surface, 1);
    lemma_leg_promise(contracts[legs[0].0 as int], surface);
    assert(remaining_alpha(contracts, legs, surface, 0) == 0real);
}

/// A position is left as it is while it promises enough: at least two thousandths, or a
/// twentieth of a hundredth within the first quarter of an hour; not beyond half an hour.
pub proof fn law_promising_position_is_kept(
    account: Account<real>,
    p: HoldingModel<real>,
    s: Scene<real>,
    at: int,
)
    requires
        at == structure_place(s.structs, p.name, 0),
        0 <= at < s.structs.len(),
        s.now.nanos_since(p.entry_time) < 1_800_000_000_000,
        ({
            let legs = s.structs[at].legs;
            let promise = remaining_alpha(s.contracts, legs, s.surface, legs.len());
            ||| 2real / 1000real <= promise
            ||| 1real / 2000real <= promise && s.now.nanos_since(p.entry_time) < 900_000_000_000
        }),
    ensures
        unwound(account, p, s) == (account, Some(p)),
{
    lemma_tenths();
}

/// A position that promises less than that, or is half an hour old, is unwound: what is left of
/// it is smaller, or nothing.
pub proof fn law_other_position_is_unwound(
    account: Account<real>,
    p: HoldingModel<real>,
    s: Scene<real>,
    at: int,
)
    requires
        at == structure_place(s.structs, p.name, 0),
        0 <= at < s.structs.len(),
        p.qty != 0real,
        ({
            let legs = s.structs[at].legs;
            let promise = remaining_alpha(s.contracts, legs, s.surface, legs.len());
            let age = s.now.nanos_since(p.entry_time);
            ||| age >= 1_800_000_000_000
            ||| promise < 1real / 2000real
            ||| age >= 900_000_000_000 && promise < 2real / 1000real
        }),
    ensures
        unwound(account, p, s).1 matches Some(left) ==> apart(left.qty, 0real) < apart(
            p.qty,
            0real,
        ) && left.name == p.name && left.entry_time == p.entry_time,
{
    lemma_tenths();
    lemma_whole(1);
    let legs = s.structs[at].legs;
    let (limit, valid) = fill_limit(s.contracts, legs, -p.qty, legs.len());
    let closed = closing_qty(limit, valid, p.qty);
    assert(closed * 1real == closed);
    assert(closed * (-1real) == -closed);
}

// ---- Trading the legs ----

/// What trading one leg adds to the cash.
#[verifier::opaque]
spec fn leg_cash(c: OptionTick<real>, weight: real, dz: real, qty: real, fee: real) -> real {
    let way = direction(dz, weight);
    let leg_qty = qty * real_abs(weight);
    if 0real < way {
        -(price_or_mid(c.p_a, c.mid) * leg_qty * dec::<real>(100, 0) + leg_qty * fee)
    } else if way < 0real {
        price_or_mid(c.p_b, c.mid) * leg_qty * dec::<real>(100, 0) - leg_qty * fee
    } else {
        0real
    }
}

proof fn lemma_one_more_trade(
    account: Account<real>,
    contracts: Seq<OptionTick<real>>,
    legs: Seq<(usize, real)>,
    dz: real,
    qty: real,
    fee: real,
    n: nat,
)
    requires
        n > 0,
    ensures
        ({
            let before = after_legs(account, contracts, legs, dz, qty, fee, (n - 1) as nat);
            let after = after_legs(account, contracts, legs, dz, qty, fee, n);
            &&& after.cash == before.cash + leg_cash(
                contracts[legs[n - 1].0 as int],
                legs[n - 1].1,
                dz,
                qty,
                fee,
            )
            &&& after.fees_paid == before.fees_paid + qty * real_abs(legs[n - 1].1) * fee
        }),
{
    reveal(leg_cash);
    lemma_whole(0);
}

/// What buying and selling a leg again on the same quotes loses: a hundred times the spread of
/// every unit, and two fees.
pub open spec fn leg_loss(c: OptionTick<real>, weight: real, qty: real, fee: real) -> real {
    (qty * real_abs(weight)) * ((c.p_a - c.p_b) * 100real + 2real * fee)
}

/// What doing so with the first `n` legs loses.
pub open spec fn legs_loss(
    contracts: Seq<OptionTick<real>>,
    legs: Seq<(usize, real)>,
    qty: real,
    fee: real,
    n: nat,
) -> real
    decreases n,
{
    if n == 0 {
        0real
    } else {
        legs_loss(contracts, legs, qty, fee, (n - 1) as nat) + leg_loss(
            contracts[legs[n - 1].0 as int],
            legs[n - 1].1,
            qty,
            fee,
        )
    }
}

proof fn lemma_loss_form(q: real, a: real, b: real, fee: real)
    by (nonlinear_arith)
    ensures
        -(a * q * 100real + q * fee) + (b * q * 100real - q * fee) == -(q * ((a - b) * 100real
            + 2real * fee)),
{
}

proof fn lemma_no_units(qty: real, x: real)
    by (nonlinear_arith)
    ensures
        (qty * 0real) * x == 0real,
{
}

proof fn lemma_leg_both_ways(c: OptionTick<real>, weight: real, dz: real, qty: real, fee: real)
    requires
        dz != 0real,
        is_quoted(c.p_a),
        is_quoted(c.p_b),
    ensures
        leg_cash(c, weight, dz, qty, fee) + leg_cash(c, weight, -dz, qty, fee) == -leg_loss(
            c,
            weight,
            qty,
            fee,
        ),
{
    reveal(leg_cash);
    lemma_whole(100);
    lemma_loss_form(qty * real_abs(weight), c.p_a, c.p_b, fee);
    lemma_no_units(qty, (c.p_a - c.p_b) * 100real + 2real * fee);
    assert(1real * weight == weight);
    assert(-1real * weight == -weight);
}

/// Trading a structure and trading it back on the same quotes loses the spread of every leg, a
/// hundred units to the contract, and two fees for every contract.
pub proof fn law_trading_back_loses_spreads(
    account: Account<real>,
    contracts: Seq<OptionTick<real>>,
    legs: Seq<(usize, real)>,
    dz: real,
    qty: real,
    fee: real,
    n: nat,
)
    requires
        n <= legs.len(),
        dz != 0real,
        forall|q: int|
            0 <= q < n ==> is_quoted(contracts[(#[trigger] legs[q]).0 as int].p_a) && is_quoted(
                contracts[legs[q].0 as int].p_b,
            ),
    ensures
        (after_legs(account, contracts, legs, dz, qty, fee, n).cash - account.cash) + (after_legs(
            account,
            contracts,
            legs,
            -dz,
            qty,
            fee,
            n,
        ).cash - account.cash) == -legs_loss(contracts, legs, qty, fee, n),
    decreases n,
{
    if n > 0 {
        law_trading_back_loses_spreads(account, contracts, legs, dz, qty, fee, (n - 1) as nat);
        lemma_one_more_trade(account, contracts, legs, dz, qty, fee, n);
        lemma_one_more_trade(account, contracts, legs, -dz, qty, fee, n);
        let c = contracts[legs[n - 1].0 as int];
        assert(is_quoted(c.p_a) && is_quoted(c.p_b));
        lemma_leg_both_ways(c, legs[n - 1].1, dz, qty, fee);
    }
}

/// A bought leg takes from the cash and a sold one adds to it, at the ask and at the bid, or at
/// mid where there is none, with the fee for each contract; the fees are counted.
pub proof fn law_one_leg(
    account: Account<real>,
    contracts: Seq<OptionTick<real>>,
    legs: Seq<(usize, real)>,
    dz: real,
    qty: real,
    fee: real,
)
    requires
        legs.len() == 1,
        legs[0].1 == 1real,
        dz != 0real,
    ensures
        ({
            let c = contracts[legs[0].0 as int];
            let after = after_legs(account, contracts, legs, dz, qty, fee, 1);
            let price = if dz > 0real {
                if is_quoted(c.p_a) {
                    c.p_a
                } else {
                    c.mid
                }
            } else {
                if is_quoted(c.p_b) {
                    c.p_b
                } else {
                    c.mid
                }
            };
            &&& dz > 0real ==> account.cash - after.cash == price * qty * 100real + qty * fee
            &&& dz < 0real ==> after.cash - account.cash == price * qty * 100real - qty * fee
            &&& after.fees_paid - account.fees_paid == qty * fee
        }),
{
    reveal(leg_cash);
    lemma_whole(0);
    lemma_whole(100);
    lemma_one_more_trade(account, contracts, legs, dz, qty, fee, 1);
    assert(after_legs(account, contracts, legs, dz, qty, fee, 0) == account);
    assert(qty * 1real == qty);
}

// ---- Scores ----

/// What a contract scores: eighty-five hundredths of its gap, with twelve hundredths of its spread
/// for a put or two for a call, less a twentieth of the square of its distance from the money.
/// It scores just where it is liquid, has a price and a gap above the given edge, and that
/// comes to more than sixty-five ten thousandths.
pub proof fn law_score_of_contract(
    c: OptionTick<real>,
    s_t: real,
    surface: CalibrationSurface<real>,
    edge: real,
)
    ensures
        ({
            let share = if c.option_type == 'P' {
                12real / 100real
            } else {
                2real / 100real
            };
            let away = c.strike - s_t;
            let score = (85real / 100real) * gap_of(c, Some(surface)) + share * c.spread - (5real
                / 100real) * (away * away);
            let stands = c.is_liquid && 0real < c.mid && edge < gap_of(c, Some(surface));
            match contract_score(c, s_t, surface, edge) {
                Some(alpha) => stands && alpha == score && 65real / 10_000real < score,
                None => stands ==> score <= 65real / 10_000real,
            }
        }),
{
    reveal(gap_of);
    lemma_whole(0);
    lemma_hundredths();
}

proof fn lemma_hundredths()
    ensures
        dec::<real>(85, 2) == 85real / 100real,
        dec::<real>(12, 2) == 12real / 100real,
        dec::<real>(2, 2) == 2real / 100real,
        dec::<real>(5, 2) == 5real / 100real,
        dec::<real>(65, 4) == 65real / 10_000real,
{
    reveal_with_fuel(pow10, 5);
    assert(pow10(2) == 100);
    assert(pow10(4) == 10_000);
    assert(real_decimal(85, 2) == (85int as real) / (100int as real));
    assert(real_decimal(12, 2) == (12int as real) / (100int as real));
    assert(real_decimal(2, 2) == (2int as real) / (100int as real));
    assert(real_decimal(5, 2) == (5int as real) / (100int as real));
    assert(real_decimal(65, 4) == (65int as real) / (10_000int as real));
}

/// A fill is as large as was asked for or as the volume of one of its legs on the side that it
/// needs; it is refused just where one of these sides is not quoted.
pub proof fn law_fill_is_not_held_back(
    contracts: Seq<OptionTick<real>>,
    legs: Seq<(usize, real)>,
    dz: real,
    n: nat,
)
    requires
        n <= legs.len(),
    ensures
        fill_limit(contracts, legs, dz, n).0 == apart(dz, 0real) || exists|q: int|
            0 <= q < n && (#[trigger] volume_at(
                contracts[legs[q].0 as int],
                direction(dz, legs[q].1),
            ) == Some(fill_limit(contracts, legs, dz, n).0)),
        !fill_limit(contracts, legs, dz, n).1 ==> exists|q: int|
            0 <= q < n && !(#[trigger] side_quoted(
                contracts[legs[q].0 as int],
                direction(dz, legs[q].1),
            )),
    decreases n,
{
    lemma_whole(0);
    if n > 0 {
        law_fill_is_not_held_back(contracts, legs, dz, (n - 1) as nat);
        let c = contracts[legs[n - 1].0 as int];
        lemma_whole(c.a_v_eff as int);
        lemma_whole(c.b_v_eff as int);
        let way = direction(dz, legs[n - 1].1);
        let before = fill_limit(contracts, legs, dz, (n - 1) as nat);
        let now = fill_limit(contracts, legs, dz, n);
        if now.0 == before.0 {
            if before.0 != apart(dz, 0real) {
                let q = choose|q: int|
                    0 <= q < n - 1 && (#[trigger] volume_at(
                        contracts[legs[q].0 as int],
                        direction(dz, legs[q].1),
                    ) == Some(before.0));
                assert(volume_at(contracts[legs[q].0 as int], direction(dz, legs[q].1)) == Some(
                    now.0,
                ));
            }
        } else {
            assert(volume_at(c, way) == Some(now.0));
        }
        if !now.1 {
            if !before.1 {
                let q = choose|q: int|
                    0 <= q < n - 1 && !(#[trigger] side_quoted(
                        contracts[legs[q].0 as int],
                        direction(dz, legs[q].1),
                    ));
                assert(!side_quoted(contracts[legs[q].0 as int], direction(dz, legs[q].1)));
            } else {
                assert(!side_quoted(c, way));
            }
        }
    }
}

/// Whether the side that a leg needs, if it needs one, is quoted.
pub open spec fn side_quoted(c: OptionTick<real>, way: real) -> bool {
    &&& 0real < way ==> is_quoted(c.p_a)
    &&& way < 0real ==> is_quoted(c.p_b)
}

/// A position that is less than five structures from its target stays, and so does one whose legs
/// are not all quoted or can not fill one structure; any other moves by as much as can be filled,
/// five at most.
pub proof fn law_when_rebalancing_trades(
    account: Account<real>,
    positions: Seq<HoldingModel<real>>,
    a: StructureModel<real>,
    target: real,
    s: Scene<real>,
)
    ensures
        ({
            let before = held_qty(positions, a.name);
            let (limit, valid) = fill_limit(s.contracts, a.legs, target - before, a.legs.len());
            let (after, moved) = rebalanced(account, positions, a, target, s);
            if apart(target, before) < 5real || !valid || limit < 1real {
                after == account && moved == positions
            } else {
                apart(held_qty(moved, a.name), before) == if limit < 5real {
                    limit
                } else {
                    5real
                }
            }
        }),
{
    lemma_whole(5);
    lemma_whole(1);
    let dz = target - held_qty(positions, a.name);
    let limit = fill_limit(s.contracts, a.legs, dz, a.legs.len()).0;
    let qty = if dec::<real>(5, 0) < limit {
        dec::<real>(5, 0)
    } else {
        limit
    };
    assert(qty * 1real == qty);
    assert(qty * (-1real) == -qty);
    law_change_is_held(positions, a.name, qty, s.now);
    law_change_is_held(positions, a.name, -qty, s.now);
}

} // verus!
