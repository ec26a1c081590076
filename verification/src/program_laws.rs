//! What holds of the linear programs whatever the numbers are.

use vstd::prelude::*;
use crate::calibration::{
    all_quote_rows, all_size_rows, fit_program, quote_rows, size_rows, CalibrationSurface, Quote,
};
use crate::ingestion::OptionTick;
use crate::lp::{closed_program, names_own, ConstraintModel};
use crate::number::Quantity;
use crate::portfolio::{
    allocation_program, contract_exposure, portfolio_program, risk_of, side_terms,
    structured_exposure, structured_program, ExposureModel, PortfolioConfig, SidesModel,
};
use crate::structures::StructureModel;

verus! {

/// Every variable that some constraints name is one of `count`.
spec fn rows_own<S>(rows: Seq<ConstraintModel<S>>, count: nat) -> bool {
    forall|c: int| 0 <= c < rows.len() ==> names_own((#[trigger] rows[c]).terms, count)
}

proof fn lemma_size_rows<S: Quantity>(n: nat, m: nat)
    requires
        m <= 6,
        n + 12 <= usize::MAX,
    ensures
        rows_own(all_size_rows::<S>(n as int, m), n + 12),
    decreases m,
{
    if m > 0 {
        lemma_size_rows::<S>(n, (m - 1) as nat);
        let rest = all_size_rows::<S>(n as int, (m - 1) as nat);
        let last = size_rows::<S>(n as int, m - 1);
        assert forall|c: int| 0 <= c < (rest + last).len() implies names_own(
            (#[trigger] (rest + last)[c]).terms,
            n + 12,
        ) by {
            if c < rest.len() {
                assert((rest + last)[c] == rest[c]);
            } else {
                assert((rest + last)[c] == last[c - rest.len()]);
            }
        }
    }
}

proof fn lemma_quote_rows<S: Quantity>(quotes: Seq<Quote<S>>, s_t: S, n: nat, count: nat)
    requires
        n <= count,
        count + 12 <= usize::MAX,
    ensures
        rows_own(all_quote_rows(quotes, s_t, n), count + 12),
    decreases n,
{
    if n > 0 {
        lemma_quote_rows(quotes, s_t, (n - 1) as nat, count);
        let rest = all_quote_rows(quotes, s_t, (n - 1) as nat);
        let last = quote_rows(quotes[n - 1], s_t, n - 1);
        assert forall|c: int| 0 <= c < (rest + last).len() implies names_own(
            (#[trigger] (rest + last)[c]).terms,
            count + 12,
        ) by {
            if c < rest.len() {
                assert((rest + last)[c] == rest[c]);
            } else {
                assert((rest + last)[c] == last[c - rest.len()]);
            }
        }
    }
}

/// The program that fits the surface names no variables but its own.
pub proof fn law_fit_program_is_closed<S: Quantity>(quotes: Seq<Quote<S>>, s_t: S, lambda: S)
    requires
        quotes.len() + 12 <= usize::MAX,
    ensures
        closed_program(fit_program(quotes, s_t, lambda)),
{
    let n = quotes.len();
    lemma_size_rows::<S>(n, 6);
    lemma_quote_rows(quotes, s_t, n, n);
    let p = fit_program(quotes, s_t, lambda);
    let sizes = all_size_rows::<S>(n as int, 6);
    let rows = all_quote_rows(quotes, s_t, n);
    assert forall|c: int| 0 <= c < p.constraints.len() implies names_own(
        (#[trigger] p.constraints[c]).terms,
        p.variables.len(),
    ) by {
        if c < sizes.len() {
            assert(p.constraints[c] == sizes[c]);
        } else {
            assert(p.constraints[c] == rows[c - sizes.len()]);
        }
    }
}

spec fn sides_fit<S>(s: SidesModel<S>, count: nat) -> bool {
    s.plus.len() == count && s.minus.len() == count
}

proof fn lemma_allocation_closed<S: Quantity>(
    count: nat,
    e: ExposureModel<S>,
    config: PortfolioConfig<S>,
)
    requires
        count + count <= usize::MAX,
        sides_fit(e.gain, count),
        sides_fit(e.delta, count),
        sides_fit(e.vega, count),
        sides_fit(e.theta, count),
        sides_fit(e.capital, count),
    ensures
        closed_program(allocation_program(count, e, config)),
{
    assert(names_own(side_terms(e.gain), count + count));
    assert(names_own(side_terms(e.delta), count + count));
    assert(names_own(side_terms(e.vega), count + count));
    assert(names_own(side_terms(e.theta), count + count));
    assert(names_own(side_terms(e.capital), count + count));
}

/// The program of a portfolio of contracts names no variables but its own.
pub proof fn law_portfolio_program_is_closed<S: Quantity>(
    contracts: Seq<OptionTick<S>>,
    s_t: S,
    surface: CalibrationSurface<S>,
    scores: Seq<S>,
    config: PortfolioConfig<S>,
)
    requires
        contracts.len() + contracts.len() <= usize::MAX,
        scores.len() == contracts.len(),
    ensures
        closed_program(portfolio_program(contracts, s_t, surface, scores, config)),
{
    lemma_allocation_closed(
        contracts.len(),
        contract_exposure(risk_of(contracts, s_t, surface, config), scores),
        config,
    );
}

/// The program of a portfolio of structures names no variables but its own.
pub proof fn law_structured_program_is_closed<S: Quantity>(
    contracts: Seq<OptionTick<S>>,
    s_t: S,
    surface: CalibrationSurface<S>,
    scores: Seq<S>,
    list: Seq<StructureModel<S>>,
    config: PortfolioConfig<S>,
)
    requires
        list.len() + list.len() <= usize::MAX,
    ensures
        closed_program(structured_program(contracts, s_t, surface, scores, list, config)),
{
    lemma_allocation_closed(
        list.len(),
        structured_exposure(list, risk_of(contracts, s_t, surface, config), scores),
        config,
    );
}

} // verus!
