//! What the best answer to the program of a portfolio amounts to in exact arithmetic: the best net
//! positions within the limits.

use vstd::prelude::*;
use crate::calibration::CalibrationSurface;
use crate::exact::{lemma_whole, pow10, real_decimal, real_max};
use crate::ingestion::OptionTick;
use crate::lp::{feasible, meets, optimal, weighed, within_bounds};
use crate::portfolio::{
    allocation_program, bought, contract_exposure, exposure_sides, net_positions,
    portfolio_program, risk_of, side_terms, sold, structure_capital, structured_exposure,
    structured_program, ExposureModel, PortfolioConfig, RiskModel, SidesModel,
};
use crate::portfolio_laws::{dot, lemma_exposure_is_held, lemma_side_terms};
use crate::structures::{fee_premium, StructureModel};

verus! {

// ---- Net positions ----

/// What the first `n` positions add: those that are bought by what a bought unit adds, those
/// that are sold by what a sold unit adds.
pub open spec fn side_sum(s: SidesModel<real>, positions: Seq<real>, n: nat) -> real
    decreases n,
{
    if n == 0 {
        0real
    } else {
        side_sum(s, positions, (n - 1) as nat) + if positions[n - 1] >= 0real {
            positions[n - 1] * s.plus[n - 1]
        } else {
            (-positions[n - 1]) * s.minus[n - 1]
        }
    }
}

/// Net positions within the limits of a portfolio.
pub open spec fn net_within(
    count: nat,
    e: ExposureModel<real>,
    config: PortfolioConfig<real>,
    positions: Seq<real>,
) -> bool {
    &&& positions.len() == count
    &&& forall|i: int|
        0 <= i < count ==> -config.theta_max <= #[trigger] positions[i] <= config.theta_max
    &&& -config.epsilon_delta <= side_sum(e.delta, positions, count) <= config.epsilon_delta
    &&& -config.epsilon_vega <= side_sum(e.vega, positions, count) <= config.epsilon_vega
    &&& -config.epsilon_theta <= side_sum(e.theta, positions, count)
    &&& side_sum(e.capital, positions, count) <= config.c_max
}

/// A sold unit adds the opposite of a bought one.
pub open spec fn opposite(s: SidesModel<real>, count: nat) -> bool {
    &&& s.plus.len() == count
    &&& s.minus.len() == count
    &&& forall|i: int| 0 <= i < count ==> #[trigger] s.minus[i] == -s.plus[i]
}

/// A bought and a sold unit together add nothing negative.
pub open spec fn never_less(s: SidesModel<real>, count: nat) -> bool {
    &&& s.plus.len() == count
    &&& s.minus.len() == count
    &&& forall|i: int| 0 <= i < count ==> 0real <= #[trigger] s.plus[i] + s.minus[i]
}

/// A bought and a sold unit together add nothing positive.
pub open spec fn never_more(s: SidesModel<real>, count: nat) -> bool {
    &&& s.plus.len() == count
    &&& s.minus.len() == count
    &&& forall|i: int| 0 <= i < count ==> #[trigger] s.plus[i] + s.minus[i] <= 0real
}

/// The two sides of net positions.
spec fn split(positions: Seq<real>, count: nat) -> Seq<real> {
    Seq::new(
        count + count,
        |v: int|
            if v < count {
                if positions[v] >= 0real {
                    positions[v]
                } else {
                    0real
                }
            } else {
                if positions[v - count] >= 0real {
                    0real
                } else {
                    -positions[v - count]
                }
            },
    )
}

proof fn lemma_sides(s: SidesModel<real>, x: Seq<real>, count: nat)
    requires
        s.plus.len() == count,
        s.minus.len() == count,
        count + count <= usize::MAX,
    ensures
        weighed(side_terms(s), x) == dot(s.plus, x, 0, count) + dot(s.minus, x, count as int, count),
{
    lemma_side_terms(s, x, count + count);
    assert(side_terms(s).take((count + count) as int) =~= side_terms(s));
}

proof fn lemma_swapped(a: real, b: real)
    by (nonlinear_arith)
    ensures
        a * b == b * a,
        a * 0real == 0real,
{
}

proof fn lemma_split_sum(s: SidesModel<real>, positions: Seq<real>, count: nat, n: nat)
    requires
        n <= count,
    ensures
        dot(s.plus, split(positions, count), 0, n) + dot(
            s.minus,
            split(positions, count),
            count as int,
            n,
        ) == side_sum(s, positions, n),
    decreases n,
{
    if n > 0 {
        lemma_split_sum(s, positions, count, (n - 1) as nat);
        let x = split(positions, count);
        let (a, b) = (s.plus[n - 1], s.minus[n - 1]);
        lemma_swapped(a, positions[n - 1]);
        lemma_swapped(b, -positions[n - 1]);
        assert(x[0 + n - 1] == if positions[n - 1] >= 0real {
            positions[n - 1]
        } else {
            0real
        });
        assert(x[count + n - 1] == if positions[n - 1] >= 0real {
            0real
        } else {
            -positions[n - 1]
        });
    }
}

proof fn lemma_netted(p: real, q: real, a: real, b: real)
    by (nonlinear_arith)
    ensures
        a * p + b * q - (p - q) * a == q * (a + b),
        a * p + b * q - (q - p) * b == p * (a + b),
{
}

proof fn lemma_sign(p: real, a: real)
    by (nonlinear_arith)
    requires
        0real <= p,
    ensures
        0real <= a ==> 0real <= p * a,
        a <= 0real ==> p * a <= 0real,
{
}

/// Netting never adds where a pair of units never adds less than nothing, and never takes away
/// where it never adds more.
proof fn lemma_netting(s: SidesModel<real>, x: Seq<real>, count: nat, n: nat)
    requires
        n <= count,
        x.len() == count + count,
        forall|v: int| 0 <= v < x.len() ==> 0real <= #[trigger] x[v],
    ensures
        never_less(s, count) ==> side_sum(s, net_positions(x, count), n) <= dot(s.plus, x, 0, n)
            + dot(s.minus, x, count as int, n),
        never_more(s, count) ==> dot(s.plus, x, 0, n) + dot(s.minus, x, count as int, n)
            <= side_sum(s, net_positions(x, count), n),
    decreases n,
{
    if n > 0 {
        lemma_netting(s, x, count, (n - 1) as nat);
        let (p, q, a, b) = (x[n - 1], x[count + n - 1], s.plus[n - 1], s.minus[n - 1]);
        assert(x[0 + n - 1] == p);
        assert(net_positions(x, count)[n - 1] == p - q);
        lemma_netted(p, q, a, b);
        lemma_sign(p, a + b);
        lemma_sign(q, a + b);
        assert(-(p - q) == q - p);
        if never_less(s, count) {
            assert(0real <= s.plus[n - 1] + s.minus[n - 1]);
        }
        if never_more(s, count) {
            assert(s.plus[n - 1] + s.minus[n - 1] <= 0real);
        }
    }
}

proof fn lemma_net_sum(s: SidesModel<real>, x: Seq<real>, count: nat)
    requires
        s.plus.len() == count,
        s.minus.len() == count,
        count + count <= usize::MAX,
        x.len() == count + count,
        forall|v: int| 0 <= v < x.len() ==> 0real <= #[trigger] x[v],
    ensures
        never_less(s, count) ==> side_sum(s, net_positions(x, count), count) <= weighed(
            side_terms(s),
            x,
        ),
        never_more(s, count) ==> weighed(side_terms(s), x) <= side_sum(
            s,
            net_positions(x, count),
            count,
        ),
        opposite(s, count) ==> side_sum(s, net_positions(x, count), count) == weighed(
            side_terms(s),
            x,
        ),
{
    lemma_sides(s, x, count);
    lemma_netting(s, x, count, count);
    if opposite(s, count) {
        assert(never_less(s, count)) by {
            assert forall|i: int| 0 <= i < count implies 0real <= #[trigger] s.plus[i] + s.minus[i] by {
                assert(s.minus[i] == -s.plus[i]);
            }
        }
        assert(never_more(s, count)) by {
            assert forall|i: int| 0 <= i < count implies #[trigger] s.plus[i] + s.minus[i] <= 0real by {
                assert(s.minus[i] == -s.plus[i]);
            }
        }
    }
}

/// The coefficients of a program are those of positions that can be netted.
pub open spec fn nettable(e: ExposureModel<real>, count: nat) -> bool {
    &&& never_more(e.gain, count)
    &&& opposite(e.delta, count)
    &&& opposite(e.vega, count)
    &&& opposite(e.theta, count)
    &&& never_less(e.capital, count)
}

/// The net positions of an answer that keeps to the program are within the limits, their capital
/// included, and gain no less than the answer.
pub proof fn law_netting_stays_within(
    count: nat,
    e: ExposureModel<real>,
    config: PortfolioConfig<real>,
    x: Seq<real>,
)
    requires
        count + count <= usize::MAX,
        nettable(e, count),
        feasible(allocation_program(count, e, config), x),
    ensures
        net_within(count, e, config, net_positions(x, count)),
        weighed(side_terms(e.gain), x) <= side_sum(e.gain, net_positions(x, count), count),
{
    lemma_whole(0);
    let p = allocation_program(count, e, config);
    assert forall|v: int| 0 <= v < x.len() implies 0real <= #[trigger] x[v] && x[v]
        <= config.theta_max by {
        assert(within_bounds(p.variables[v], x[v]));
    }
    lemma_net_sum(e.gain, x, count);
    lemma_net_sum(e.delta, x, count);
    lemma_net_sum(e.vega, x, count);
    lemma_net_sum(e.theta, x, count);
    lemma_net_sum(e.capital, x, count);
    assert(meets(p.constraints[0], x));
    assert(meets(p.constraints[1], x));
    assert(meets(p.constraints[2], x));
    assert(meets(p.constraints[3], x));
    assert(meets(p.constraints[4], x));
    assert(meets(p.constraints[5], x));
    let z = net_positions(x, count);
    assert forall|i: int| 0 <= i < count implies -config.theta_max <= #[trigger] z[i]
        <= config.theta_max by {
        assert(0real <= x[i] <= config.theta_max);
        assert(0real <= x[count + i] <= config.theta_max);
    }
}

proof fn lemma_net_feasible(
    count: nat,
    e: ExposureModel<real>,
    config: PortfolioConfig<real>,
    z: Seq<real>,
)
    requires
        count + count <= usize::MAX,
        nettable(e, count),
        net_within(count, e, config, z),
    ensures
        feasible(allocation_program(count, e, config), split(z, count)),
        weighed(side_terms(e.gain), split(z, count)) == side_sum(e.gain, z, count),
{
    lemma_whole(0);
    let p = allocation_program(count, e, config);
    let x = split(z, count);
    assert forall|v: int| 0 <= v < x.len() implies within_bounds(p.variables[v], #[trigger] x[v]) by {
        let i = if v < count {
            v
        } else {
            v - count
        };
        assert(-config.theta_max <= z[i] <= config.theta_max);
    }
    lemma_sides(e.gain, x, count);
    lemma_sides(e.delta, x, count);
    lemma_sides(e.vega, x, count);
    lemma_sides(e.theta, x, count);
    lemma_sides(e.capital, x, count);
    lemma_split_sum(e.gain, z, count, count);
    lemma_split_sum(e.delta, z, count, count);
    lemma_split_sum(e.vega, z, count, count);
    lemma_split_sum(e.theta, z, count, count);
    lemma_split_sum(e.capital, z, count, count);
}

/// The net positions of a best answer are within the limits, their capital included, and no net
/// positions within the limits gain more.
pub proof fn law_best_answer_is_best_net(
    count: nat,
    e: ExposureModel<real>,
    config: PortfolioConfig<real>,
    x: Seq<real>,
    other: Seq<real>,
)
    requires
        count + count <= usize::MAX,
        nettable(e, count),
        optimal(allocation_program(count, e, config), x),
    ensures
        net_within(count, e, config, net_positions(x, count)),
        net_within(count, e, config, other) ==> side_sum(e.gain, other, count) <= side_sum(
            e.gain,
            net_positions(x, count),
            count,
        ),
{
    law_netting_stays_within(count, e, config, x);
    if net_within(count, e, config, other) {
        lemma_net_feasible(count, e, config, other);
    }
}

/// What a bought and a sold unit of each contract tie up is not negative.
pub open spec fn capital_not_negative(risk: RiskModel<real>) -> bool {
    &&& risk.long.len() == risk.short.len()
    &&& forall|i: int| 0 <= i < risk.short.len() ==> 0real <= #[trigger] risk.short[i]
    &&& forall|i: int| 0 <= i < risk.long.len() ==> 0real <= #[trigger] risk.long[i]
}

/// The prices and margins of the contracts tie up nothing negative where no bid price and no
/// margin is.
pub proof fn law_capital_not_negative(
    contracts: Seq<OptionTick<real>>,
    s_t: real,
    surface: CalibrationSurface<real>,
    config: PortfolioConfig<real>,
)
    requires
        0real <= config.margin_ratio * s_t,
        forall|i: int| 0 <= i < contracts.len() ==> 0real <= (#[trigger] contracts[i]).p_b,
    ensures
        capital_not_negative(risk_of(contracts, s_t, surface, config)),
{
    reveal_with_fuel(pow10, 5);
    assert(pow10(4) == 10_000);
    assert(real_decimal(1, 4) == (1int as real) / (10_000int as real));
    let risk = risk_of(contracts, s_t, surface, config);
    assert forall|i: int| 0 <= i < risk.short.len() implies 0real <= #[trigger] risk.short[i] by {
        assert(0real <= contracts[i].p_b);
    }
    assert forall|i: int| 0 <= i < risk.long.len() implies 0real <= #[trigger] risk.long[i] by {
        assert(risk.long[i] == real_max(contracts[i].p_a, real_decimal(1, 4)));
    }
}

/// The coefficients of a portfolio of contracts can be netted.
pub proof fn law_contracts_can_be_netted(
    contracts: Seq<OptionTick<real>>,
    s_t: real,
    surface: CalibrationSurface<real>,
    scores: Seq<real>,
    config: PortfolioConfig<real>,
)
    requires
        scores.len() == contracts.len(),
        capital_not_negative(risk_of(contracts, s_t, surface, config)),
    ensures
        nettable(
            contract_exposure(risk_of(contracts, s_t, surface, config), scores),
            contracts.len(),
        ),
{
    let risk = risk_of(contracts, s_t, surface, config);
    let e = contract_exposure(risk, scores);
    assert forall|i: int| 0 <= i < contracts.len() implies 0real <= #[trigger] e.capital.plus[i]
        + e.capital.minus[i] by {
        assert(0real <= risk.long[i]);
        assert(0real <= risk.short[i]);
    }
}

/// The best answer to the program of single contracts gives the best net positions within the
/// limits.
pub proof fn law_best_portfolio(
    contracts: Seq<OptionTick<real>>,
    s_t: real,
    surface: CalibrationSurface<real>,
    scores: Seq<real>,
    config: PortfolioConfig<real>,
    x: Seq<real>,
    other: Seq<real>,
)
    requires
        contracts.len() + contracts.len() <= usize::MAX,
        scores.len() == contracts.len(),
        capital_not_negative(risk_of(contracts, s_t, surface, config)),
        optimal(portfolio_program(contracts, s_t, surface, scores, config), x),
    ensures
        ({
            let n = contracts.len();
            let e = contract_exposure(risk_of(contracts, s_t, surface, config), scores);
            &&& net_within(n, e, config, net_positions(x, n))
            &&& net_within(n, e, config, other) ==> side_sum(e.gain, other, n) <= side_sum(
                e.gain,
                net_positions(x, n),
                n,
            )
        }),
{
    law_contracts_can_be_netted(contracts, s_t, surface, scores, config);
    law_best_answer_is_best_net(
        contracts.len(),
        contract_exposure(risk_of(contracts, s_t, surface, config), scores),
        config,
        x,
        other,
    );
}

proof fn lemma_bought_not_negative(legs: Seq<(usize, real)>, i: int, m: nat)
    ensures
        0real <= bought(legs, i, m),
        0real <= sold(legs, i, m),
    decreases m,
{
    lemma_whole(0);
    if m > 0 {
        lemma_bought_not_negative(legs, i, (m - 1) as nat);
    }
}

proof fn lemma_structure_capital(
    legs: Seq<(usize, real)>,
    risk: RiskModel<real>,
    long: bool,
    n: nat,
)
    requires
        capital_not_negative(risk),
        n <= risk.long.len(),
    ensures
        0real <= structure_capital(legs, risk, long, n),
    decreases n,
{
    lemma_whole(0);
    if n > 0 {
        lemma_structure_capital(legs, risk, long, (n - 1) as nat);
        lemma_bought_not_negative(legs, n - 1, legs.len());
        let (b, s) = (bought(legs, n - 1, legs.len()), sold(legs, n - 1, legs.len()));
        assert(0real <= risk.long[n - 1]);
        assert(0real <= risk.short[n - 1]);
        lemma_sign(b, risk.long[n - 1]);
        lemma_sign(b, risk.short[n - 1]);
        lemma_sign(s, risk.long[n - 1]);
        lemma_sign(s, risk.short[n - 1]);
    }
}

/// The coefficients of a portfolio of structures can be netted.
pub proof fn law_structures_can_be_netted(
    list: Seq<StructureModel<real>>,
    risk: RiskModel<real>,
    scores: Seq<real>,
)
    requires
        capital_not_negative(risk),
        forall|p: int| 0 <= p < list.len() ==> 0real <= fee_premium((#[trigger] list[p]).expected_fee),
    ensures
        nettable(structured_exposure(list, risk, scores), list.len()),
{
    let e = structured_exposure(list, risk, scores);
    let m = list.len();
    assert forall|p: int| 0 <= p < m implies #[trigger] e.gain.plus[p] + e.gain.minus[p]
        <= 0real by {
        assert(0real <= fee_premium(list[p].expected_fee));
    }
    assert forall|p: int| 0 <= p < m implies 0real <= #[trigger] e.capital.plus[p]
        + e.capital.minus[p] by {
        lemma_structure_capital(list[p].legs, risk, true, risk.long.len());
        lemma_structure_capital(list[p].legs, risk, false, risk.long.len());
    }
    lemma_exposure_opposite(list, risk.delta);
    lemma_exposure_opposite(list, risk.vega);
    lemma_exposure_opposite(list, risk.theta);
}

proof fn lemma_exposure_opposite(list: Seq<StructureModel<real>>, unit: Seq<real>)
    ensures
        opposite(exposure_sides(list, unit), list.len()),
{
    let s = exposure_sides(list, unit);
    assert forall|p: int| 0 <= p < list.len() implies #[trigger] s.minus[p] == -s.plus[p] by {
        lemma_exposure_is_held(list[p].legs, unit, unit.len());
    }
}

/// The best answer to the program of structures gives the best net positions within the limits.
pub proof fn law_best_structured_portfolio(
    contracts: Seq<OptionTick<real>>,
    s_t: real,
    surface: CalibrationSurface<real>,
    scores: Seq<real>,
    list: Seq<StructureModel<real>>,
    config: PortfolioConfig<real>,
    x: Seq<real>,
    other: Seq<real>,
)
    requires
        list.len() + list.len() <= usize::MAX,
        capital_not_negative(risk_of(contracts, s_t, surface, config)),
        forall|p: int| 0 <= p < list.len() ==> 0real <= fee_premium((#[trigger] list[p]).expected_fee),
        optimal(structured_program(contracts, s_t, surface, scores, list, config), x),
    ensures
        ({
            let m = list.len();
            let e = structured_exposure(list, risk_of(contracts, s_t, surface, config), scores);
            &&& net_within(m, e, config, net_positions(x, m))
            &&& net_within(m, e, config, other) ==> side_sum(e.gain, other, m) <= side_sum(
                e.gain,
                net_positions(x, m),
                m,
            )
        }),
{
    let risk = risk_of(contracts, s_t, surface, config);
    law_structures_can_be_netted(list, risk, scores);
    law_best_answer_is_best_net(
        list.len(),
        structured_exposure(list, risk, scores),
        config,
        x,
        other,
    );
}

/// The limits of a portfolio leave room for holding nothing.
pub open spec fn limits_not_negative(config: PortfolioConfig<real>) -> bool {
    &&& 0real <= config.theta_max
    &&& 0real <= config.epsilon_delta
    &&& 0real <= config.epsilon_vega
    &&& 0real <= config.epsilon_theta
    &&& 0real <= config.c_max
}

proof fn lemma_nothing_weighs_nothing(terms: Seq<(usize, real)>, x: Seq<real>)
    requires
        forall|t: int| 0 <= t < terms.len() ==> x[(#[trigger] terms[t]).0 as int] == 0real,
    ensures
        weighed(terms, x) == 0real,
    decreases terms.len(),
{
    lemma_whole(0);
    if terms.len() > 0 {
        let fewer = terms.drop_last();
        assert forall|t: int| 0 <= t < fewer.len() implies x[(#[trigger] fewer[t]).0 as int]
            == 0real by {
            assert(terms[t] == fewer[t]);
        }
        lemma_nothing_weighs_nothing(fewer, x);
        assert(terms[terms.len() - 1] == terms.last());
        lemma_swapped(terms.last().1, 0real);
    }
}

proof fn lemma_sides_of_nothing(s: SidesModel<real>, count: nat, x: Seq<real>)
    requires
        s.plus.len() == count,
        s.minus.len() == count,
        count + count <= usize::MAX,
        x == Seq::new(count + count, |v: int| 0real),
    ensures
        weighed(side_terms(s), x) == 0real,
{
    let terms = side_terms(s);
    assert forall|t: int| 0 <= t < terms.len() implies x[(#[trigger] terms[t]).0 as int]
        == 0real by {
        assert(terms[t].0 == t);
    }
    lemma_nothing_weighs_nothing(terms, x);
}

/// Holding nothing keeps to the program of a portfolio, of contracts or of structures, whose
/// limits are not negative.
pub proof fn law_holding_nothing_is_feasible(
    count: nat,
    e: ExposureModel<real>,
    config: PortfolioConfig<real>,
)
    requires
        count + count <= usize::MAX,
        limits_not_negative(config),
        e.delta.plus.len() == count && e.delta.minus.len() == count,
        e.vega.plus.len() == count && e.vega.minus.len() == count,
        e.theta.plus.len() == count && e.theta.minus.len() == count,
        e.capital.plus.len() == count && e.capital.minus.len() == count,
    ensures
        feasible(allocation_program(count, e, config), Seq::new(count + count, |v: int| 0real)),
{
    lemma_whole(0);
    let x = Seq::new(count + count, |v: int| 0real);
    lemma_sides_of_nothing(e.delta, count, x);
    lemma_sides_of_nothing(e.vega, count, x);
    lemma_sides_of_nothing(e.theta, count, x);
    lemma_sides_of_nothing(e.capital, count, x);
}

/// Holding no contract keeps to the program of single contracts.
pub proof fn law_no_contracts_is_feasible(
    contracts: Seq<OptionTick<real>>,
    s_t: real,
    surface: CalibrationSurface<real>,
    scores: Seq<real>,
    config: PortfolioConfig<real>,
)
    requires
        contracts.len() + contracts.len() <= usize::MAX,
        limits_not_negative(config),
    ensures
        feasible(
            portfolio_program(contracts, s_t, surface, scores, config),
            Seq::new(contracts.len() + contracts.len(), |v: int| 0real),
        ),
{
    law_holding_nothing_is_feasible(
        contracts.len(),
        contract_exposure(risk_of(contracts, s_t, surface, config), scores),
        config,
    );
}

/// Holding no structure keeps to the program of structures.
pub proof fn law_no_structures_is_feasible(
    contracts: Seq<OptionTick<real>>,
    s_t: real,
    surface: CalibrationSurface<real>,
    scores: Seq<real>,
    list: Seq<StructureModel<real>>,
    config: PortfolioConfig<real>,
)
    requires
        list.len() + list.len() <= usize::MAX,
        limits_not_negative(config),
    ensures
        feasible(
            structured_program(contracts, s_t, surface, scores, list, config),
            Seq::new(list.len() + list.len(), |v: int| 0real),
        ),
{
    law_holding_nothing_is_feasible(
        list.len(),
        structured_exposure(list, risk_of(contracts, s_t, surface, config), scores),
        config,
    );
}

} // verus!
