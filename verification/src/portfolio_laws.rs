//! What holds of an allocated portfolio in exact arithmetic.

use vstd::prelude::*;
use crate::calibration::CalibrationSurface;
use crate::exact::{exact, lemma_minus, lemma_right, lemma_whole, lemma_whole_value};
use crate::ingestion::OptionTick;
use crate::lp::{feasible, meets, weighed, within_bounds, VariableBounds};
use crate::number::dec;
use crate::portfolio::{
    allocation_program, bought, buys, contract_exposure, exposure_sides, net_positions,
    portfolio_program, risk_of, sells, side_terms, sold, structure_exposure, structured_exposure,
    structured_program, ExposureModel, PortfolioConfig, SidesModel,
};
use crate::structures::{leg_alpha, legs_below, StructureModel};

verus! {

/// Sum of the first `n` positions, each times what a unit of it adds.
pub open spec fn exposure(positions: Seq<real>, unit: Seq<real>, n: nat) -> real
    decreases n,
{
    if n == 0 {
        0real
    } else {
        exposure(positions, unit, (n - 1) as nat) + positions[n - 1] * unit[n - 1]
    }
}

/// Sum of the first `n` coefficients, each times the value that stands `from` places
/// further on.
pub open spec fn dot(a: Seq<real>, x: Seq<real>, from: int, n: nat) -> real
    decreases n,
{
    if n == 0 {
        0real
    } else {
        dot(a, x, from, (n - 1) as nat) + a[n - 1] * x[from + n - 1]
    }
}

pub proof fn lemma_side_terms(s: SidesModel<real>, x: Seq<real>, v: nat)
    requires
        v <= s.plus.len() + s.minus.len(),
        s.plus.len() + s.minus.len() <= usize::MAX,
    ensures
        weighed(side_terms(s).take(v as int), x) == if v <= s.plus.len() {
            dot(s.plus, x, 0, v)
        } else {
            dot(s.plus, x, 0, s.plus.len()) + dot(
                s.minus,
                x,
                s.plus.len() as int,
                (v - s.plus.len()) as nat,
            )
        },
    decreases v,
{
    let terms = side_terms(s);
    let n = s.plus.len();
    if v == 0 {
        lemma_whole(0);
    } else {
        lemma_side_terms(s, x, (v - 1) as nat);
        assert(terms.take(v as int).drop_last() =~= terms.take(v - 1));
        assert(terms.take(v as int).last() == terms[v - 1]);
        assert(terms[v - 1].0 == v - 1);
        if v == n + 1 {
            assert(dot(s.minus, x, n as int, 0) == 0real);
        }
        if v > n {
            assert(terms[v - 1].1 == s.minus[v - 1 - n]);
            assert(dot(s.minus, x, n as int, (v - n) as nat) == dot(
                s.minus,
                x,
                n as int,
                (v - n - 1) as nat,
            ) + s.minus[v - n - 1] * x[n + (v - n) - 1]);
        }
    }
}

proof fn lemma_dot_net(a: Seq<real>, b: Seq<real>, x: Seq<real>, count: nat, n: nat)
    requires
        n <= count,
        a.len() == count,
        b.len() == count,
        forall|i: int| 0 <= i < count ==> #[trigger] b[i] == -a[i],
    ensures
        dot(a, x, 0, n) + dot(b, x, count as int, n) == exposure(net_positions(x, count), a, n),
    decreases n,
{
    if n > 0 {
        lemma_dot_net(a, b, x, count, (n - 1) as nat);
        let (p, q, u) = (x[n - 1], x[count + n - 1], a[n - 1]);
        assert(b[n - 1] == -a[n - 1]);
        assert(net_positions(x, count)[n - 1] == p - q);
        lemma_right(p, -q, u);
        lemma_minus(q, u);
        lemma_minus(u, q);
        assert(p + -q == p - q);
        assert(dot(a, x, 0, n) == dot(a, x, 0, (n - 1) as nat) + u * p);
        assert(dot(b, x, count as int, n) == dot(b, x, count as int, (n - 1) as nat) + (-u) * q);
        assert(exposure(net_positions(x, count), a, n) == exposure(
            net_positions(x, count),
            a,
            (n - 1) as nat,
        ) + (p - q) * u);
    }
}

proof fn lemma_sides_exposure(s: SidesModel<real>, x: Seq<real>, count: nat)
    requires
        s.plus.len() == count,
        s.minus.len() == count,
        count + count <= usize::MAX,
        forall|i: int| 0 <= i < count ==> #[trigger] s.minus[i] == -s.plus[i],
    ensures
        weighed(side_terms(s), x) == exposure(net_positions(x, count), s.plus, count),
{
    lemma_side_terms(s, x, count + count);
    assert(side_terms(s).take((count + count) as int) =~= side_terms(s));
    if count > 0 {
        lemma_dot_net(s.plus, s.minus, x, count, count);
    }
}

/// What a feasible answer to a program of positions says of the net positions.
proof fn lemma_limits(
    count: nat,
    e: ExposureModel<real>,
    config: PortfolioConfig<real>,
    x: Seq<real>,
)
    requires
        count + count <= usize::MAX,
        turned(e.delta, count),
        turned(e.vega, count),
        turned(e.theta, count),
        feasible(allocation_program(count, e, config), x),
    ensures
        ({
            let positions = net_positions(x, count);
            let delta = exposure(positions, e.delta.plus, count);
            let vega = exposure(positions, e.vega.plus, count);
            &&& -config.epsilon_delta <= delta <= config.epsilon_delta
            &&& -config.epsilon_vega <= vega <= config.epsilon_vega
            &&& -config.epsilon_theta <= exposure(positions, e.theta.plus, count)
            &&& weighed(side_terms(e.capital), x) <= config.c_max
            &&& forall|i: int|
                0 <= i < count ==> -config.theta_max <= #[trigger] positions[i] <= config.theta_max
        }),
{
    let program = allocation_program(count, e, config);
    lemma_sides_exposure(e.delta, x, count);
    lemma_sides_exposure(e.vega, x, count);
    lemma_sides_exposure(e.theta, x, count);
    assert(meets(program.constraints[0], x));
    assert(meets(program.constraints[1], x));
    assert(meets(program.constraints[2], x));
    assert(meets(program.constraints[3], x));
    assert(meets(program.constraints[4], x));
    assert(meets(program.constraints[5], x));
    lemma_position_sizes(program.variables, config, x, count);
}

/// A sold unit adds the opposite of a bought one.
spec fn turned(s: SidesModel<real>, count: nat) -> bool {
    &&& s.plus.len() == count
    &&& s.minus.len() == count
    &&& forall|i: int| 0 <= i < count ==> #[trigger] s.minus[i] == -s.plus[i]
}

proof fn lemma_position_sizes(
    variables: Seq<VariableBounds<real>>,
    config: PortfolioConfig<real>,
    x: Seq<real>,
    n: nat,
)
    requires
        x.len() == n + n,
        variables.len() == n + n,
        forall|v: int| 0 <= v < x.len() ==> within_bounds(variables[v], #[trigger] x[v]),
        forall|v: int|
            0 <= v < n + n ==> (#[trigger] variables[v]).lower == Some(dec::<real>(0, 0))
                && variables[v].upper == Some(config.theta_max),
    ensures
        forall|i: int|
            0 <= i < n ==> -config.theta_max <= #[trigger] net_positions(x, n)[i]
                <= config.theta_max,
{
    lemma_whole(0);
    assert forall|i: int| 0 <= i < n implies -config.theta_max <= #[trigger] net_positions(x, n)[i]
        <= config.theta_max by {
        assert(within_bounds(variables[i], x[i]));
        assert(within_bounds(variables[n + i], x[n + i]));
        assert(variables[i].lower == Some(dec::<real>(0, 0)));
        assert(variables[n + i].lower == Some(dec::<real>(0, 0)));
    }
}

/// Sum over the first `n` contracts of what the first `m` legs hold of each, times
/// what a unit of it adds.
pub open spec fn held_sum(legs: Seq<(usize, real)>, unit: Seq<real>, m: nat, n: nat) -> real
    decreases n,
{
    if n == 0 {
        0real
    } else {
        held_sum(legs, unit, m, (n - 1) as nat) + (bought(legs, n - 1, m) - sold(legs, n - 1, m))
            * unit[n - 1]
    }
}

proof fn lemma_nothing_held(legs: Seq<(usize, real)>, i: int, m: nat)
    ensures
        !buys(legs, i, m) ==> bought(legs, i, m) == 0real,
        !sells(legs, i, m) ==> sold(legs, i, m) == 0real,
    decreases m,
{
    lemma_whole(0);
    if m > 0 {
        lemma_nothing_held(legs, i, (m - 1) as nat);
    }
}

pub proof fn lemma_exposure_is_held(legs: Seq<(usize, real)>, unit: Seq<real>, n: nat)
    ensures
        structure_exposure(legs, unit, true, n) == held_sum(legs, unit, legs.len(), n),
        structure_exposure(legs, unit, false, n) == -held_sum(legs, unit, legs.len(), n),
    decreases n,
{
    lemma_whole(0);
    if n > 0 {
        lemma_exposure_is_held(legs, unit, (n - 1) as nat);
        lemma_nothing_held(legs, n - 1, legs.len());
        let (b, s, u) = (
            bought(legs, n - 1, legs.len()),
            sold(legs, n - 1, legs.len()),
            unit[n - 1],
        );
        lemma_minus(b - s, u);
        assert(-(b - s) == s - b);
    }
}

proof fn lemma_held_leg(legs: Seq<(usize, real)>, unit: Seq<real>, m: nat, n: nat)
    requires
        m > 0,
    ensures
        held_sum(legs, unit, m, n) == held_sum(legs, unit, (m - 1) as nat, n) + (if legs[m - 1].0
            < n {
            legs[m - 1].1 * unit[legs[m - 1].0 as int]
        } else {
            0real
        }),
    decreases n,
{
    lemma_whole(0);
    if n > 0 {
        lemma_held_leg(legs, unit, m, (n - 1) as nat);
        let w = legs[m - 1].1;
        let (b, s, u) = (
            bought(legs, n - 1, (m - 1) as nat),
            sold(legs, n - 1, (m - 1) as nat),
            unit[n - 1],
        );
        if legs[m - 1].0 == n - 1 {
            lemma_right(b - s, w, u);
            assert((b - s) + w == b + w - s);
            assert((b - s) + w == b - (s + -w));
            if w == 0real {
                assert(w * u == 0real);
            }
        }
    }
}

proof fn lemma_held_is_leg_sum(legs: Seq<(usize, real)>, unit: Seq<real>, m: nat, n: nat)
    requires
        m <= legs.len(),
        forall|q: int| 0 <= q < legs.len() ==> (#[trigger] legs[q]).0 < n,
    ensures
        held_sum(legs, unit, m, n) == leg_alpha(legs, unit, m),
    decreases m,
{
    lemma_whole(0);
    if m == 0 {
        lemma_held_none(legs, unit, n);
    } else {
        lemma_held_is_leg_sum(legs, unit, (m - 1) as nat, n);
        lemma_held_leg(legs, unit, m, n);
        assert(legs[m - 1].0 < n);
    }
}

proof fn lemma_held_none(legs: Seq<(usize, real)>, unit: Seq<real>, n: nat)
    ensures
        held_sum(legs, unit, 0, n) == 0real,
    decreases n,
{
    lemma_whole(0);
    if n > 0 {
        lemma_held_none(legs, unit, (n - 1) as nat);
        assert(0real * unit[n - 1] == 0real);
    }
}

// ---- Values ----

/// The values of a list of numbers.
pub open spec fn values<S>(value: spec_fn(S) -> real, list: Seq<S>) -> Seq<real> {
    list.map_values(value)
}

spec fn terms_values<S>(value: spec_fn(S) -> real, terms: Seq<(usize, S)>) -> Seq<(usize, real)> {
    terms.map_values(|t: (usize, S)| (t.0, value(t.1)))
}

/// The values of the two sides of positions.
pub open spec fn sides_values<S>(value: spec_fn(S) -> real, s: SidesModel<S>) -> SidesModel<real> {
    SidesModel { plus: values(value, s.plus), minus: values(value, s.minus) }
}

/// The values of the coefficients of a program.
pub open spec fn exposure_values<S>(value: spec_fn(S) -> real, e: ExposureModel<S>) -> ExposureModel<
    real,
> {
    ExposureModel {
        gain: sides_values(value, e.gain),
        delta: sides_values(value, e.delta),
        vega: sides_values(value, e.vega),
        theta: sides_values(value, e.theta),
        capital: sides_values(value, e.capital),
    }
}

/// The values of the limits.
pub open spec fn config_values<S>(
    value: spec_fn(S) -> real,
    config: PortfolioConfig<S>,
) -> PortfolioConfig<real> {
    PortfolioConfig {
        epsilon_delta: value(config.epsilon_delta),
        epsilon_vega: value(config.epsilon_vega),
        epsilon_theta: value(config.epsilon_theta),
        c_max: value(config.c_max),
        theta_max: value(config.theta_max),
        margin_ratio: value(config.margin_ratio),
    }
}

proof fn lemma_weighed_values<S: crate::number::Quantity>(
    value: spec_fn(S) -> real,
    terms: Seq<(usize, S)>,
    x: Seq<S>,
)
    requires
        exact(value),
        forall|t: int| 0 <= t < terms.len() ==> (#[trigger] terms[t]).0 < x.len(),
    ensures
        value(weighed(terms, x)) == weighed(terms_values(value, terms), values(value, x)),
    decreases terms.len(),
{
    lemma_whole(0);
    lemma_whole_value(value, 0);
    if terms.len() > 0 {
        let fewer = terms.drop_last();
        assert forall|t: int| 0 <= t < fewer.len() implies (#[trigger] fewer[t]).0 < x.len() by {
            assert(fewer[t] == terms[t]);
        }
        lemma_weighed_values(value, fewer, x);
        assert(terms_values(value, terms).drop_last() =~= terms_values(value, fewer));
        assert(terms[terms.len() - 1] == terms.last());
    }
}

proof fn lemma_side_values<S: crate::number::Quantity>(
    value: spec_fn(S) -> real,
    s: SidesModel<S>,
    x: Seq<S>,
    count: nat,
)
    requires
        exact(value),
        s.plus.len() == count,
        s.minus.len() == count,
        count + count <= usize::MAX,
        x.len() == count + count,
    ensures
        value(weighed(side_terms(s), x)) == weighed(
            side_terms(sides_values(value, s)),
            values(value, x),
        ),
{
    let terms = side_terms(s);
    assert forall|t: int| 0 <= t < terms.len() implies (#[trigger] terms[t]).0 < x.len() by {
        assert(terms[t].0 == t);
    }
    lemma_weighed_values(value, terms, x);
    assert(terms_values(value, terms) =~= side_terms(sides_values(value, s)));
}

/// The coefficients are those of `count` positions.
pub open spec fn exposure_fits<S>(e: ExposureModel<S>, count: nat) -> bool {
    &&& e.gain.plus.len() == count && e.gain.minus.len() == count
    &&& e.delta.plus.len() == count && e.delta.minus.len() == count
    &&& e.vega.plus.len() == count && e.vega.minus.len() == count
    &&& e.theta.plus.len() == count && e.theta.minus.len() == count
    &&& e.capital.plus.len() == count && e.capital.minus.len() == count
}

/// In exact arithmetic, the values of an answer that keeps to a program keep to the program of
/// the values.
pub proof fn law_values_keep_to_program<S: crate::number::Quantity>(
    value: spec_fn(S) -> real,
    count: nat,
    e: ExposureModel<S>,
    config: PortfolioConfig<S>,
    x: Seq<S>,
)
    requires
        exact(value),
        count + count <= usize::MAX,
        exposure_fits(e, count),
        feasible(allocation_program(count, e, config), x),
    ensures
        feasible(
            allocation_program(count, exposure_values(value, e), config_values(value, config)),
            values(value, x),
        ),
        net_positions(values(value, x), count) == values(value, net_positions(x, count)),
{
    lemma_whole(0);
    lemma_whole_value(value, 0);
    let p = allocation_program(count, e, config);
    let q = allocation_program(count, exposure_values(value, e), config_values(value, config));
    let y = values(value, x);
    lemma_side_values(value, e.delta, x, count);
    lemma_side_values(value, e.vega, x, count);
    lemma_side_values(value, e.theta, x, count);
    lemma_side_values(value, e.capital, x, count);
    assert(meets(p.constraints[0], x));
    assert(meets(p.constraints[1], x));
    assert(meets(p.constraints[2], x));
    assert(meets(p.constraints[3], x));
    assert(meets(p.constraints[4], x));
    assert(meets(p.constraints[5], x));
    assert forall|v: int| 0 <= v < y.len() implies within_bounds(q.variables[v], #[trigger] y[v]) by {
        assert(within_bounds(p.variables[v], x[v]));
    }
    assert(net_positions(y, count) =~= values(value, net_positions(x, count)));
}

// ---- Limits ----

/// A feasible answer to the program of single contracts gives a portfolio within its
/// limits: neutral in delta and vega up to the tolerances, with no more decay than
/// allowed, no more capital than there is, and no position above the largest size.
pub proof fn law_portfolio_within_limits<S: crate::number::Quantity>(
    value: spec_fn(S) -> real,
    contracts: Seq<OptionTick<S>>,
    s_t: S,
    surface: CalibrationSurface<S>,
    scores: Seq<S>,
    config: PortfolioConfig<S>,
    x: Seq<S>,
)
    requires
        exact(value),
        contracts.len() + contracts.len() <= usize::MAX,
        scores.len() == contracts.len(),
        feasible(portfolio_program(contracts, s_t, surface, scores, config), x),
    ensures
        ({
            let n = contracts.len();
            let positions = values(value, net_positions(x, n));
            let limits = config_values(value, config);
            let risk = risk_of(contracts, s_t, surface, config);
            let delta = exposure(positions, values(value, risk.delta), n);
            let vega = exposure(positions, values(value, risk.vega), n);
            &&& -limits.epsilon_delta <= delta <= limits.epsilon_delta
            &&& -limits.epsilon_vega <= vega <= limits.epsilon_vega
            &&& -limits.epsilon_theta <= exposure(positions, values(value, risk.theta), n)
            &&& value(weighed(side_terms(contract_exposure(risk, scores).capital), x))
                <= limits.c_max
            &&& forall|i: int|
                0 <= i < n ==> -limits.theta_max <= #[trigger] positions[i] <= limits.theta_max
        }),
{
    let n = contracts.len();
    let e = contract_exposure(risk_of(contracts, s_t, surface, config), scores);
    law_values_keep_to_program(value, n, e, config, x);
    lemma_side_values(value, e.capital, x, n);
    lemma_limits(n, exposure_values(value, e), config_values(value, config), values(value, x));
}

/// What one unit of each structure adds, leg by leg.
pub open spec fn structure_units<S: crate::number::Quantity>(
    list: Seq<StructureModel<S>>,
    unit: Seq<S>,
) -> Seq<S> {
    Seq::new(list.len(), |p: int| leg_alpha(list[p].legs, unit, list[p].legs.len()))
}

proof fn lemma_legs_values<S: crate::number::Quantity>(
    value: spec_fn(S) -> real,
    legs: Seq<(usize, S)>,
    i: int,
    m: nat,
)
    requires
        exact(value),
        m <= legs.len(),
    ensures
        buys(terms_values(value, legs), i, m) == buys(legs, i, m),
        sells(terms_values(value, legs), i, m) == sells(legs, i, m),
        bought(terms_values(value, legs), i, m) == value(bought(legs, i, m)),
        sold(terms_values(value, legs), i, m) == value(sold(legs, i, m)),
    decreases m,
{
    lemma_whole(0);
    lemma_whole_value(value, 0);
    if m > 0 {
        lemma_legs_values(value, legs, i, (m - 1) as nat);
        assert(terms_values(value, legs)[m - 1] == (legs[m - 1].0, value(legs[m - 1].1)));
    }
}

proof fn lemma_exposure_values<S: crate::number::Quantity>(
    value: spec_fn(S) -> real,
    legs: Seq<(usize, S)>,
    unit: Seq<S>,
    long: bool,
    n: nat,
)
    requires
        exact(value),
        n <= unit.len(),
    ensures
        structure_exposure(terms_values(value, legs), values(value, unit), long, n) == value(
            structure_exposure(legs, unit, long, n),
        ),
    decreases n,
{
    lemma_whole(0);
    lemma_whole_value(value, 0);
    if n > 0 {
        lemma_exposure_values(value, legs, unit, long, (n - 1) as nat);
        lemma_legs_values(value, legs, n - 1, legs.len());
        assert(values(value, unit)[n - 1] == value(unit[n - 1]));
    }
}

proof fn lemma_leg_alpha_values<S: crate::number::Quantity>(
    value: spec_fn(S) -> real,
    legs: Seq<(usize, S)>,
    unit: Seq<S>,
    m: nat,
)
    requires
        exact(value),
        m <= legs.len(),
        forall|q: int| 0 <= q < legs.len() ==> (#[trigger] legs[q]).0 < unit.len(),
    ensures
        leg_alpha(terms_values(value, legs), values(value, unit), m) == value(
            leg_alpha(legs, unit, m),
        ),
    decreases m,
{
    lemma_whole(0);
    lemma_whole_value(value, 0);
    if m > 0 {
        lemma_leg_alpha_values(value, legs, unit, (m - 1) as nat);
        assert(terms_values(value, legs)[m - 1] == (legs[m - 1].0, value(legs[m - 1].1)));
        assert(legs[m - 1].0 < unit.len());
    }
}

proof fn lemma_structure_sides<S: crate::number::Quantity>(
    value: spec_fn(S) -> real,
    list: Seq<StructureModel<S>>,
    unit: Seq<S>,
)
    requires
        exact(value),
        legs_below(list, unit.len()),
    ensures
        turned(sides_values(value, exposure_sides(list, unit)), list.len()),
        sides_values(value, exposure_sides(list, unit)).plus == values(
            value,
            structure_units(list, unit),
        ),
{
    let sides = sides_values(value, exposure_sides(list, unit));
    let units = values(value, structure_units(list, unit));
    assert forall|p: int| 0 <= p < list.len() implies #[trigger] sides.minus[p] == -sides.plus[p]
        && sides.plus[p] == units[p] by {
        let legs = list[p].legs;
        let reals = terms_values(value, legs);
        assert forall|q: int| 0 <= q < legs.len() implies (#[trigger] legs[q]).0 < unit.len() by {
            assert(list[p].legs[q].0 < unit.len());
        }
        assert forall|q: int| 0 <= q < reals.len() implies (#[trigger] reals[q]).0 < unit.len() by {
            assert(legs[q].0 < unit.len());
        }
        lemma_exposure_values(value, legs, unit, true, unit.len());
        lemma_exposure_values(value, legs, unit, false, unit.len());
        lemma_exposure_is_held(reals, values(value, unit), unit.len());
        lemma_held_is_leg_sum(reals, values(value, unit), legs.len(), unit.len());
        lemma_leg_alpha_values(value, legs, unit, legs.len());
    }
    assert forall|p: int| 0 <= p < list.len() implies sides.plus[p] == units[p] by {
        assert(sides.minus[p] == -sides.plus[p]);
    }
    assert(sides.plus =~= units);
}

/// A feasible answer to the program of structures gives a portfolio within its
/// limits: the legs of all structures together are neutral in delta and vega up to
/// the tolerances, decay no more than allowed and tie up no more capital than there
/// is, and no position is above the largest size.
pub proof fn law_structured_portfolio_within_limits<S: crate::number::Quantity>(
    value: spec_fn(S) -> real,
    contracts: Seq<OptionTick<S>>,
    s_t: S,
    surface: CalibrationSurface<S>,
    scores: Seq<S>,
    list: Seq<StructureModel<S>>,
    config: PortfolioConfig<S>,
    x: Seq<S>,
)
    requires
        exact(value),
        list.len() + list.len() <= usize::MAX,
        legs_below(list, contracts.len()),
        feasible(structured_program(contracts, s_t, surface, scores, list, config), x),
    ensures
        ({
            let m = list.len();
            let positions = values(value, net_positions(x, m));
            let limits = config_values(value, config);
            let risk = risk_of(contracts, s_t, surface, config);
            let delta = exposure(positions, values(value, structure_units(list, risk.delta)), m);
            let vega = exposure(positions, values(value, structure_units(list, risk.vega)), m);
            let theta = exposure(positions, values(value, structure_units(list, risk.theta)), m);
            &&& -limits.epsilon_delta <= delta <= limits.epsilon_delta
            &&& -limits.epsilon_vega <= vega <= limits.epsilon_vega
            &&& -limits.epsilon_theta <= theta
            &&& value(weighed(side_terms(structured_exposure(list, risk, scores).capital), x))
                <= limits.c_max
            &&& forall|p: int|
                0 <= p < m ==> -limits.theta_max <= #[trigger] positions[p] <= limits.theta_max
        }),
{
    let m = list.len();
    let risk = risk_of(contracts, s_t, surface, config);
    let e = structured_exposure(list, risk, scores);
    law_values_keep_to_program(value, m, e, config, x);
    lemma_side_values(value, e.capital, x, m);
    lemma_structure_sides(value, list, risk.delta);
    lemma_structure_sides(value, list, risk.vega);
    lemma_structure_sides(value, list, risk.theta);
    lemma_limits(m, exposure_values(value, e), config_values(value, config), values(value, x));
}

} // verus!
