//! What positions tie up and gain, in exact arithmetic: a structure ties up what its legs do.

use vstd::prelude::*;
use crate::calibration::CalibrationSurface;
use crate::exact::{exact, lemma_whole_value, pow10, real_decimal, real_max};
use crate::ingestion::OptionTick;
use crate::number::dec;
use crate::portfolio::{
    bought, buys, risk_of, sells, sold, structure_capital, structured_exposure, PortfolioConfig,
    RiskModel,
};
use crate::pricing::greeks_of;
use crate::structures::{fee_premium, leg_alpha, profitable_side, StructureModel};

verus! {

/// What a leg ties up on its own: a bought one what buying a unit does, a sold one what selling
/// a unit does.
pub open spec fn leg_ties(weight: real, to_buy: real, to_sell: real) -> real {
    if 0real < weight {
        weight * to_buy
    } else {
        (-weight) * to_sell
    }
}

/// What the first `m` legs tie up, each with its weight turned where the structure is sold.
pub open spec fn legs_tie<S>(
    value: spec_fn(S) -> real,
    legs: Seq<(usize, S)>,
    risk: RiskModel<S>,
    long: bool,
    m: nat,
) -> real
    decreases m,
{
    if m == 0 {
        0real
    } else {
        let i = legs[m - 1].0 as int;
        let weight = if long {
            value(legs[m - 1].1)
        } else {
            -value(legs[m - 1].1)
        };
        legs_tie(value, legs, risk, long, (m - 1) as nat) + leg_ties(
            weight,
            value(risk.long[i]),
            value(risk.short[i]),
        )
    }
}

/// Sum over the first `n` contracts of what the first `m` legs buy and sell of each, times what
/// that ties up.
spec fn held_ties<S: crate::number::Quantity>(
    value: spec_fn(S) -> real,
    legs: Seq<(usize, S)>,
    risk: RiskModel<S>,
    long: bool,
    m: nat,
    n: nat,
) -> real
    decreases n,
{
    if n == 0 {
        0real
    } else {
        let (b, s) = (value(bought(legs, n - 1, m)), value(sold(legs, n - 1, m)));
        let (l, h) = (value(risk.long[n - 1]), value(risk.short[n - 1]));
        held_ties(value, legs, risk, long, m, (n - 1) as nat) + if long {
            b * l + s * h
        } else {
            s * l + b * h
        }
    }
}

proof fn lemma_nothing_held<S: crate::number::Quantity>(
    value: spec_fn(S) -> real,
    legs: Seq<(usize, S)>,
    i: int,
    m: nat,
)
    requires
        exact(value),
    ensures
        !buys(legs, i, m) ==> value(bought(legs, i, m)) == 0real,
        !sells(legs, i, m) ==> value(sold(legs, i, m)) == 0real,
    decreases m,
{
    lemma_whole_value(value, 0);
    if m > 0 {
        lemma_nothing_held(value, legs, i, (m - 1) as nat);
    }
}

proof fn lemma_none_times(a: real)
    by (nonlinear_arith)
    ensures
        0real * a == 0real,
{
}

proof fn lemma_capital_is_held<S: crate::number::Quantity>(
    value: spec_fn(S) -> real,
    legs: Seq<(usize, S)>,
    risk: RiskModel<S>,
    long: bool,
    n: nat,
)
    requires
        exact(value),
    ensures
        value(structure_capital(legs, risk, long, n)) == held_ties(
            value,
            legs,
            risk,
            long,
            legs.len(),
            n,
        ),
    decreases n,
{
    lemma_whole_value(value, 0);
    if n > 0 {
        lemma_capital_is_held(value, legs, risk, long, (n - 1) as nat);
        lemma_nothing_held(value, legs, n - 1, legs.len());
        lemma_none_times(value(risk.long[n - 1]));
        lemma_none_times(value(risk.short[n - 1]));
    }
}

proof fn lemma_more_held(b: real, w: real, l: real)
    by (nonlinear_arith)
    ensures
        (b + w) * l == b * l + w * l,
{
}

proof fn lemma_held_leg<S: crate::number::Quantity>(
    value: spec_fn(S) -> real,
    legs: Seq<(usize, S)>,
    risk: RiskModel<S>,
    long: bool,
    m: nat,
    n: nat,
)
    requires
        exact(value),
        m > 0,
    ensures
        held_ties(value, legs, risk, long, m, n) == held_ties(
            value,
            legs,
            risk,
            long,
            (m - 1) as nat,
            n,
        ) + (if legs[m - 1].0 < n {
            leg_ties(
                if long {
                    value(legs[m - 1].1)
                } else {
                    -value(legs[m - 1].1)
                },
                value(risk.long[legs[m - 1].0 as int]),
                value(risk.short[legs[m - 1].0 as int]),
            )
        } else {
            0real
        }),
    decreases n,
{
    lemma_whole_value(value, 0);
    if n > 0 {
        lemma_held_leg(value, legs, risk, long, m, (n - 1) as nat);
        let w = value(legs[m - 1].1);
        let (b, s) = (
            value(bought(legs, n - 1, (m - 1) as nat)),
            value(sold(legs, n - 1, (m - 1) as nat)),
        );
        let (l, h) = (value(risk.long[n - 1]), value(risk.short[n - 1]));
        if legs[m - 1].0 == n - 1 {
            lemma_more_held(b, w, l);
            lemma_more_held(b, w, h);
            lemma_more_held(s, -w, l);
            lemma_more_held(s, -w, h);
            if w == 0real {
                lemma_none_times(l);
                lemma_none_times(h);
            }
        }
    }
}

proof fn lemma_held_none<S: crate::number::Quantity>(
    value: spec_fn(S) -> real,
    legs: Seq<(usize, S)>,
    risk: RiskModel<S>,
    long: bool,
    n: nat,
)
    requires
        exact(value),
    ensures
        held_ties(value, legs, risk, long, 0, n) == 0real,
    decreases n,
{
    lemma_whole_value(value, 0);
    if n > 0 {
        lemma_held_none(value, legs, risk, long, (n - 1) as nat);
        lemma_none_times(value(risk.long[n - 1]));
        lemma_none_times(value(risk.short[n - 1]));
    }
}

proof fn lemma_held_is_legs<S: crate::number::Quantity>(
    value: spec_fn(S) -> real,
    legs: Seq<(usize, S)>,
    risk: RiskModel<S>,
    long: bool,
    m: nat,
    n: nat,
)
    requires
        exact(value),
        m <= legs.len(),
        forall|q: int| 0 <= q < legs.len() ==> (#[trigger] legs[q]).0 < n,
    ensures
        held_ties(value, legs, risk, long, m, n) == legs_tie(value, legs, risk, long, m),
    decreases m,
{
    if m == 0 {
        lemma_held_none(value, legs, risk, long, n);
    } else {
        lemma_held_is_legs(value, legs, risk, long, (m - 1) as nat, n);
        lemma_held_leg(value, legs, risk, long, m, n);
        assert(legs[m - 1].0 < n);
    }
}

/// A structure ties up the sum of what its legs tie up on their own: bought, each leg as it is;
/// sold, each leg the other way round.
pub proof fn law_structure_ties_up_its_legs<S: crate::number::Quantity>(
    value: spec_fn(S) -> real,
    legs: Seq<(usize, S)>,
    risk: RiskModel<S>,
    long: bool,
    n: nat,
)
    requires
        exact(value),
        forall|q: int| 0 <= q < legs.len() ==> (#[trigger] legs[q]).0 < n,
    ensures
        value(structure_capital(legs, risk, long, n)) == legs_tie(
            value,
            legs,
            risk,
            long,
            legs.len(),
        ),
{
    lemma_capital_is_held(value, legs, risk, long, n);
    lemma_held_is_legs(value, legs, risk, long, legs.len(), n);
}

proof fn lemma_turned_legs<S: crate::number::Quantity>(
    value: spec_fn(S) -> real,
    legs: Seq<(usize, S)>,
    other: Seq<(usize, S)>,
    risk: RiskModel<S>,
    m: nat,
)
    requires
        m <= legs.len(),
        other.len() == legs.len(),
        forall|q: int|
            0 <= q < legs.len() ==> (#[trigger] other[q]).0 == legs[q].0 && value(other[q].1)
                == -value(legs[q].1),
    ensures
        legs_tie(value, other, risk, true, m) == legs_tie(value, legs, risk, false, m),
    decreases m,
{
    if m > 0 {
        lemma_turned_legs(value, legs, other, risk, (m - 1) as nat);
        assert(other[m - 1].0 == legs[m - 1].0);
    }
}

/// Selling a structure ties up what buying the structure with all weights turned does.
pub proof fn law_selling_is_buying_the_opposite<S: crate::number::Quantity>(
    value: spec_fn(S) -> real,
    legs: Seq<(usize, S)>,
    other: Seq<(usize, S)>,
    risk: RiskModel<S>,
    n: nat,
)
    requires
        exact(value),
        other.len() == legs.len(),
        forall|q: int|
            0 <= q < legs.len() ==> (#[trigger] other[q]).0 == legs[q].0 && value(other[q].1)
                == -value(legs[q].1),
        forall|q: int| 0 <= q < legs.len() ==> (#[trigger] legs[q]).0 < n,
    ensures
        value(structure_capital(legs, risk, false, n)) == value(
            structure_capital(other, risk, true, n),
        ),
{
    assert forall|q: int| 0 <= q < other.len() implies (#[trigger] other[q]).0 < n by {
        assert(other[q].0 == legs[q].0);
        assert(legs[q].0 < n);
    }
    law_structure_ties_up_its_legs(value, legs, risk, false, n);
    law_structure_ties_up_its_legs(value, other, risk, true, n);
    lemma_turned_legs(value, legs, other, risk, legs.len());
}

/// A bought contract ties up its ask price, or the least amount if that is more; a sold one its
/// bid price and the margin on the spot price.
pub proof fn law_capital_of_a_contract<S: crate::number::Quantity>(
    value: spec_fn(S) -> real,
    contracts: Seq<OptionTick<S>>,
    s_t: S,
    surface: CalibrationSurface<S>,
    config: PortfolioConfig<S>,
    i: int,
)
    requires
        exact(value),
        0 <= i < contracts.len(),
    ensures
        ({
            let risk = risk_of(contracts, s_t, surface, config);
            let c = contracts[i];
            &&& value(c.p_a) <= value(risk.long[i])
            &&& 1real / 10_000real <= value(risk.long[i])
            &&& value(risk.long[i]) == value(c.p_a) || value(risk.long[i]) == 1real / 10_000real
            &&& value(risk.short[i]) - value(c.p_b) == value(config.margin_ratio) * value(s_t)
        }),
{
    reveal_with_fuel(pow10, 5);
    assert(pow10(4) == 10_000);
    assert(real_decimal(1, 4) == (1int as real) / (10_000int as real));
    let risk = risk_of(contracts, s_t, surface, config);
    assert(risk.long[i] == contracts[i].p_a.spec_max(dec::<S>(1, 4)));
    assert(risk.short[i] == contracts[i].p_b + config.margin_ratio * s_t);
    assert(value(risk.long[i]) == real_max(value(contracts[i].p_a), real_decimal(1, 4)));
}

// ---- Gains ----

/// Buying and selling one of each structure loses its fee twice, a hundredth of it in points of
/// premium; the difference is twice what its legs score.
pub proof fn law_gain_of_structure<S: crate::number::Quantity>(
    value: spec_fn(S) -> real,
    list: Seq<StructureModel<S>>,
    risk: RiskModel<S>,
    scores: Seq<S>,
    p: int,
)
    requires
        exact(value),
        0 <= p < list.len(),
    ensures
        ({
            let e = structured_exposure(list, risk, scores);
            let alpha = value(leg_alpha(list[p].legs, scores, list[p].legs.len()));
            &&& (value(e.gain.plus[p]) + value(e.gain.minus[p])) * 100real == -(2real * value(
                list[p].expected_fee,
            ))
            &&& value(e.gain.plus[p]) - value(e.gain.minus[p]) == 2real * alpha
        }),
{
    lemma_fee(value, list[p].expected_fee);
}

proof fn lemma_fee<S: crate::number::Quantity>(value: spec_fn(S) -> real, fee: S)
    requires
        exact(value),
    ensures
        value(fee_premium(fee)) * 100real == value(fee),
{
    lemma_whole_value(value, 100);
    lemma_hundredth(value(fee));
}

proof fn lemma_hundredth(a: real)
    by (nonlinear_arith)
    ensures
        (a / 100real) * 100real == a,
{
}

/// A structure that is offered reaches the threshold on the side that it is offered on, bought
/// first: what its legs score, or the opposite where it is sold, less its fee. One that is not
/// offered reaches it on neither side.
pub proof fn law_profitable_side<S: crate::number::Quantity>(
    value: spec_fn(S) -> real,
    a: StructureModel<S>,
    scores: Seq<S>,
    threshold: S,
)
    requires
        exact(value),
    ensures
        ({
            let alpha = value(leg_alpha(a.legs, scores, a.legs.len()));
            let fee = value(a.expected_fee) / 100real;
            match profitable_side(a, scores, threshold) {
                Some((profit, side)) => {
                    &&& value(threshold) <= value(profit)
                    &&& value(side) == 1real && value(profit) == alpha - fee || value(side) == -1real
                        && value(profit) == -alpha - fee && alpha - fee < value(threshold)
                },
                None => alpha - fee < value(threshold) && -alpha - fee < value(threshold),
            }
        }),
{
    lemma_whole_value(value, 1);
    lemma_whole_value(value, -1);
    lemma_whole_value(value, 100);
}

/// Turned scores are turned round in what the legs score.
pub proof fn law_turned_scores<S: crate::number::Quantity>(
    value: spec_fn(S) -> real,
    legs: Seq<(usize, S)>,
    scores: Seq<S>,
    turned: Seq<S>,
    m: nat,
)
    requires
        exact(value),
        m <= legs.len(),
        turned.len() == scores.len(),
        forall|i: int| 0 <= i < scores.len() ==> value(#[trigger] turned[i]) == -value(scores[i]),
        forall|q: int| 0 <= q < legs.len() ==> (#[trigger] legs[q]).0 < scores.len(),
    ensures
        value(leg_alpha(legs, turned, m)) == -value(leg_alpha(legs, scores, m)),
    decreases m,
{
    lemma_whole_value(value, 0);
    if m > 0 {
        law_turned_scores(value, legs, scores, turned, (m - 1) as nat);
        assert(legs[m - 1].0 < scores.len());
        lemma_times_minus(value(legs[m - 1].1), value(scores[legs[m - 1].0 as int]));
    }
}

proof fn lemma_times_minus(a: real, b: real)
    by (nonlinear_arith)
    ensures
        a * (-b) == -(a * b),
{
}

/// The risk of a contract is that of its price on the surface, at the rate of the surface.
pub proof fn law_risk_of_a_contract<S: crate::number::Quantity>(
    contracts: Seq<OptionTick<S>>,
    s_t: S,
    surface: CalibrationSurface<S>,
    config: PortfolioConfig<S>,
    i: int,
)
    requires
        0 <= i < contracts.len(),
    ensures
        ({
            let c = contracts[i];
            let risk = risk_of(contracts, s_t, surface, config);
            let price = surface.spec_evaluate_contract(c);
            let g = greeks_of(s_t, c.strike, c.tau, surface.r, c.option_type, price);
            (risk.delta[i], risk.vega[i], risk.theta[i]) == (g.delta, g.vega, g.theta)
        }),
{
}

} // verus!
