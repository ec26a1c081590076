//! What holds of structures at expiry in exact arithmetic.

use vstd::prelude::*;
use crate::exact::lemma_whole;
use crate::ingestion::OptionTick;
use crate::number::dec;
use crate::pricing::{intrinsic_value, spec_bs_price};
use crate::structures::{
    box_possible, box_structure, condor_possible, condor_structure, fly_possible, fly_structure,
    leg_alpha, option_at, StrikeInfo,
};

verus! {

// ---- Structures at expiry ----

/// The price of every contract when no time is left.
pub open spec fn values_at_expiry(
    contracts: Seq<OptionTick<real>>,
    s_t: real,
    r: real,
    vol: real,
) -> Seq<real> {
    Seq::new(
        contracts.len(),
        |i: int|
            spec_bs_price(s_t, contracts[i].strike, 0real, r, vol, contracts[i].option_type),
    )
}

proof fn lemma_value_at_expiry(
    contracts: Seq<OptionTick<real>>,
    s_t: real,
    r: real,
    vol: real,
    i: int,
)
    requires
        0 <= i < contracts.len(),
    ensures
        values_at_expiry(contracts, s_t, r, vol)[i] == intrinsic_value(
            s_t,
            contracts[i].strike,
            contracts[i].option_type,
        ),
{
    lemma_whole(0);
}

/// The contract at a place is of the given type and strike.
pub open spec fn is_option(
    contracts: Seq<OptionTick<real>>,
    place: Option<usize>,
    call: bool,
    strike: real,
) -> bool {
    &&& place is Some
    &&& place->0 < contracts.len()
    &&& (contracts[place->0 as int].option_type == 'C') == call
    &&& contracts[place->0 as int].strike == strike
}

proof fn lemma_unit_weights(v: real)
    ensures
        dec::<real>(1, 0) * v == v,
        dec::<real>(-1, 0) * v == -v,
        dec::<real>(-2, 0) * v == -(v + v),
{
    lemma_whole(1);
    lemma_whole(-1);
    lemma_whole(-2);
    assert((-2real) * v == -(v + v)) by (nonlinear_arith);
    assert(-2int as real == -2real);
}

/// The legs of a structure with three or four legs, added up.
proof fn lemma_leg_sum(legs: Seq<(usize, real)>, v: Seq<real>)
    requires
        3 <= legs.len() <= 4,
    ensures
        leg_alpha(legs, v, legs.len()) == legs[0].1 * v[legs[0].0 as int] + legs[1].1
            * v[legs[1].0 as int] + legs[2].1 * v[legs[2].0 as int] + (if legs.len() == 4 {
            legs[3].1 * v[legs[3].0 as int]
        } else {
            0real
        }),
{
    lemma_whole(0);
    reveal_with_fuel(leg_alpha, 5);
}

/// A box pays the distance of its strikes, whatever the spot price at expiry.
pub proof fn law_box_pays_strike_distance(
    contracts: Seq<OptionTick<real>>,
    expiry: Seq<char>,
    fee: real,
    k1: StrikeInfo,
    k2: StrikeInfo,
    a: real,
    b: real,
    s_t: real,
    r: real,
    vol: real,
)
    requires
        is_option(contracts, k1.call_idx, true, a),
        is_option(contracts, k1.put_idx, false, a),
        is_option(contracts, k2.call_idx, true, b),
        is_option(contracts, k2.put_idx, false, b),
    ensures
        box_possible(k1, k2),
        leg_alpha(
            box_structure(expiry, fee, k1, k2).legs,
            values_at_expiry(contracts, s_t, r, vol),
            4,
        ) == b - a,
{
    lemma_whole(0);
    let legs = box_structure(expiry, fee, k1, k2).legs;
    let v = values_at_expiry(contracts, s_t, r, vol);
    assert(legs.len() == 4);
    lemma_leg_sum(legs, v);
    let (c1, c2, p2, p1) = (
        k1.call_idx->0 as int,
        k2.call_idx->0 as int,
        k2.put_idx->0 as int,
        k1.put_idx->0 as int,
    );
    lemma_value_at_expiry(contracts, s_t, r, vol, c1);
    lemma_value_at_expiry(contracts, s_t, r, vol, c2);
    lemma_value_at_expiry(contracts, s_t, r, vol, p2);
    lemma_value_at_expiry(contracts, s_t, r, vol, p1);
    lemma_unit_weights(v[c1]);
    lemma_unit_weights(v[c2]);
    lemma_unit_weights(v[p2]);
    lemma_unit_weights(v[p1]);
}

/// A butterfly over equally distant strikes never pays less than nothing, and never
/// more than the distance of its strikes: the loss is at most the premium.
pub proof fn law_butterfly_pays_within_strike_distance(
    contracts: Seq<OptionTick<real>>,
    expiry: Seq<char>,
    fee: real,
    call: bool,
    k1: StrikeInfo,
    k2: StrikeInfo,
    k3: StrikeInfo,
    a: real,
    b: real,
    c: real,
    s_t: real,
    r: real,
    vol: real,
)
    requires
        is_option(contracts, option_at(k1, call), call, a),
        is_option(contracts, option_at(k2, call), call, b),
        is_option(contracts, option_at(k3, call), call, c),
        fly_possible(call, k1, k2, k3),
        a <= b,
        b - a == c - b,
    ensures
        0real <= leg_alpha(
            fly_structure(expiry, fee, call, k1, k2, k3).legs,
            values_at_expiry(contracts, s_t, r, vol),
            3,
        ) <= b - a,
{
    lemma_whole(0);
    let legs = fly_structure(expiry, fee, call, k1, k2, k3).legs;
    let v = values_at_expiry(contracts, s_t, r, vol);
    assert(legs.len() == 3);
    lemma_leg_sum(legs, v);
    let (i, j, k) = (
        option_at(k1, call)->0 as int,
        option_at(k2, call)->0 as int,
        option_at(k3, call)->0 as int,
    );
    lemma_value_at_expiry(contracts, s_t, r, vol, i);
    lemma_value_at_expiry(contracts, s_t, r, vol, j);
    lemma_value_at_expiry(contracts, s_t, r, vol, k);
    lemma_unit_weights(v[i]);
    lemma_unit_weights(v[j]);
    lemma_unit_weights(v[k]);
}

/// An iron condor never pays more than nothing, and costs at most the larger
/// distance of its wings.
pub proof fn law_condor_cost_bounded(
    contracts: Seq<OptionTick<real>>,
    expiry: Seq<char>,
    fee: real,
    k1: StrikeInfo,
    k2: StrikeInfo,
    k3: StrikeInfo,
    k4: StrikeInfo,
    a: real,
    b: real,
    c: real,
    d: real,
    s_t: real,
    r: real,
    vol: real,
)
    requires
        is_option(contracts, k1.put_idx, false, a),
        is_option(contracts, k2.put_idx, false, b),
        is_option(contracts, k3.call_idx, true, c),
        is_option(contracts, k4.call_idx, true, d),
        a <= b <= c <= d,
    ensures
        condor_possible(k1, k2, k3, k4),
        ({
            let pays = leg_alpha(
                condor_structure(expiry, fee, k1, k2, k3, k4).legs,
                values_at_expiry(contracts, s_t, r, vol),
                4,
            );
            pays <= 0real && (a - b <= pays || c - d <= pays)
        }),
{
    lemma_whole(0);
    let legs = condor_structure(expiry, fee, k1, k2, k3, k4).legs;
    let v = values_at_expiry(contracts, s_t, r, vol);
    assert(legs.len() == 4);
    lemma_leg_sum(legs, v);
    let (p1, p2, c3, c4) = (
        k1.put_idx->0 as int,
        k2.put_idx->0 as int,
        k3.call_idx->0 as int,
        k4.call_idx->0 as int,
    );
    lemma_value_at_expiry(contracts, s_t, r, vol, p1);
    lemma_value_at_expiry(contracts, s_t, r, vol, p2);
    lemma_value_at_expiry(contracts, s_t, r, vol, c3);
    lemma_value_at_expiry(contracts, s_t, r, vol, c4);
    lemma_unit_weights(v[p1]);
    lemma_unit_weights(v[p2]);
    lemma_unit_weights(v[c3]);
    lemma_unit_weights(v[c4]);
}

} // verus!
