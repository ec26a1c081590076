//! What the best answer to the program of a fit amounts to in exact arithmetic: the surface
//! without arbitrage that is nearest to the quotes.

use vstd::prelude::*;
use crate::calibration::{
    all_quote_rows, all_size_rows, calendar_terms, call_mid_of, curvature_terms, deviation_var,
    fit_objective, fit_program, negated_value_terms, quote_rows, quotes_of, size_rows, size_var,
    slope_terms, surface_of, usable, value_terms, CalibrationSurface, Quote,
};
use crate::exact::{exact, law_reals_are_exact, lemma_minus, lemma_whole, real_abs};
use crate::ingestion::OptionTick;
use crate::lp::{feasible, meets, optimal, weighed, within_bounds, ConstraintModel};
use crate::number::dec;
use crate::surface_laws::{
    law_fitted_surface_has_no_arbitrage, lemma_quote_rows_at, lemma_terms_are_surface,
    lemma_weighed_none, lemma_weighed_push,
};

verus! {

/// How far a surface is from the call price of a quote.
pub open spec fn quote_distance(surface: CalibrationSurface<real>, q: Quote<real>) -> real {
    real_abs(surface.spec_evaluate(q.strike, q.tau) - q.call_mid)
}

/// How far a surface is from the first `n` quotes together.
pub open spec fn distance(
    surface: CalibrationSurface<real>,
    quotes: Seq<Quote<real>>,
    n: nat,
) -> real
    decreases n,
{
    if n == 0 {
        0real
    } else {
        distance(surface, quotes, (n - 1) as nat) + quote_distance(surface, quotes[n - 1])
    }
}

/// The absolute values of the first `m` coefficients together.
pub open spec fn coefficient_size(surface: CalibrationSurface<real>, m: nat) -> real
    decreases m,
{
    if m == 0 {
        0real
    } else {
        coefficient_size(surface, (m - 1) as nat) + real_abs(surface.theta@[m - 1])
    }
}

/// What the fit makes small: the distance, and `lambda` times the size of the coefficients.
pub open spec fn misfit(
    surface: CalibrationSurface<real>,
    quotes: Seq<Quote<real>>,
    lambda: real,
) -> real {
    distance(surface, quotes, quotes.len()) + lambda * coefficient_size(surface, 6)
}

/// The surface leaves no arbitrage at a quote.
pub open spec fn sound_at(surface: CalibrationSurface<real>, q: Quote<real>) -> bool {
    &&& 0real <= surface.spec_evaluate(q.strike, q.tau) <= surface.s_t
    &&& surface.spec_d_k(q.strike, q.tau) <= 0real
    &&& 0real <= surface.spec_d_kk(q.tau)
    &&& 0real <= surface.spec_d_t(q.strike, q.tau)
}

/// The surface leaves no arbitrage at any of the quotes.
pub open spec fn sound_at_all(surface: CalibrationSurface<real>, quotes: Seq<Quote<real>>) -> bool {
    forall|i: int| 0 <= i < quotes.len() ==> sound_at(surface, #[trigger] quotes[i])
}

/// Every quote has a positive strike.
pub open spec fn strikes_positive(quotes: Seq<Quote<real>>) -> bool {
    forall|i: int| 0 <= i < quotes.len() ==> 0real < (#[trigger] quotes[i]).strike
}

/// The answer that a surface stands for: its coefficients, its distances and their sizes.
pub open spec fn answer_of(surface: CalibrationSurface<real>, quotes: Seq<Quote<real>>) -> Seq<
    real,
> {
    let n = quotes.len();
    Seq::new(
        6 + n + 6,
        |v: int|
            if v < 6 {
                surface.theta@[v]
            } else if v < 6 + n {
                quote_distance(surface, quotes[v - 6])
            } else {
                real_abs(surface.theta@[v - 6 - n])
            },
    )
}

proof fn lemma_push(terms: Seq<(usize, real)>, v: usize, a: real, x: Seq<real>)
    ensures
        weighed(terms.push((v, a)), x) == weighed(terms, x) + a * x[v as int],
{
    law_reals_are_exact();
    lemma_weighed_push(|r: real| r, terms, v, a, x);
}

proof fn lemma_none(x: Seq<real>)
    ensures
        weighed(Seq::<(usize, real)>::empty(), x) == 0real,
{
    law_reals_are_exact();
    lemma_weighed_none(|r: real| r, x);
}

proof fn lemma_surface_terms(
    surface: CalibrationSurface<real>,
    x: Seq<real>,
    k: real,
    t: real,
)
    requires
        x.len() >= 6,
        surface.theta@ == x.take(6),
    ensures
        surface.s_t + weighed(value_terms(k, t), x) == surface.spec_evaluate(k, t),
        weighed(slope_terms(k, t), x) == surface.spec_d_k(k, t),
        weighed(curvature_terms(t), x) == surface.spec_d_kk(t),
        weighed(calendar_terms(k, t), x) * k == surface.spec_d_t(k, t),
{
    law_reals_are_exact();
    lemma_terms_are_surface(|r: real| r, surface, x, k, t);
}

spec fn rows_met(rows: Seq<ConstraintModel<real>>, x: Seq<real>) -> bool {
    forall|c: int| 0 <= c < rows.len() ==> meets(#[trigger] rows[c], x)
}

proof fn lemma_rows_met_add(a: Seq<ConstraintModel<real>>, b: Seq<ConstraintModel<real>>, x: Seq<real>)
    requires
        rows_met(a, x),
        rows_met(b, x),
    ensures
        rows_met(a + b, x),
{
    assert forall|c: int| 0 <= c < (a + b).len() implies meets(#[trigger] (a + b)[c], x) by {
        if c < a.len() {
            assert(meets(a[c], x));
        } else {
            assert(meets(b[c - a.len()], x));
        }
    }
}

proof fn lemma_minus_one()
    ensures
        dec::<real>(-1, 0) == -1real,
{
    lemma_whole(-1);
}

/// The sum of a pair of terms.
proof fn lemma_pair(v: usize, a: real, w: usize, b: real, x: Seq<real>)
    ensures
        weighed(seq![(v, a), (w, b)], x) == a * x[v as int] + b * x[w as int],
{
    let none = Seq::<(usize, real)>::empty();
    lemma_none(x);
    lemma_push(none, v, a, x);
    lemma_push(none.push((v, a)), w, b, x);
    assert(seq![(v, a), (w, b)] =~= none.push((v, a)).push((w, b)));
}

proof fn lemma_size_rows_mean(n: nat, m: int, x: Seq<real>)
    requires
        0 <= m < 6,
        n + 12 <= usize::MAX,
    ensures
        rows_met(size_rows::<real>(n as int, m), x) == (real_abs(x[m]) <= x[size_var(
            n as int,
            m,
        )]),
{
    lemma_whole(0);
    lemma_whole(1);
    lemma_minus_one();
    let size = size_var(n as int, m) as usize;
    let rows = size_rows::<real>(n as int, m);
    lemma_pair(m as usize, dec::<real>(1, 0), size, dec::<real>(-1, 0), x);
    lemma_pair(m as usize, dec::<real>(-1, 0), size, dec::<real>(-1, 0), x);
    assert(rows[0].terms == seq![(m as usize, dec::<real>(1, 0)), (size, dec::<real>(-1, 0))]);
    assert(rows[1].terms == seq![(m as usize, dec::<real>(-1, 0)), (size, dec::<real>(-1, 0))]);
    assert(rows.len() == 2);
    if rows_met(rows, x) {
        assert(meets(rows[0], x) && meets(rows[1], x));
    }
}

proof fn lemma_negated_terms(k: real, t: real, x: Seq<real>)
    ensures
        weighed(negated_value_terms(k, t), x) == -weighed(value_terms(k, t), x),
{
    let none = Seq::<(usize, real)>::empty();
    lemma_none(x);
    let (a0, a1, a2, a3, a4, a5) = (k, k * t, k * t * t, k * k, k * k * t, k * k * t * t);
    let v0 = none.push((0usize, a0));
    let v1 = v0.push((1usize, a1));
    let v2 = v1.push((2usize, a2));
    let v3 = v2.push((3usize, a3));
    let v4 = v3.push((4usize, a4));
    lemma_push(none, 0, a0, x);
    lemma_push(v0, 1, a1, x);
    lemma_push(v1, 2, a2, x);
    lemma_push(v2, 3, a3, x);
    lemma_push(v3, 4, a4, x);
    lemma_push(v4, 5, a5, x);
    assert(value_terms(k, t) =~= v4.push((5usize, a5)));
    let w0 = none.push((0usize, -a0));
    let w1 = w0.push((1usize, -a1));
    let w2 = w1.push((2usize, -a2));
    let w3 = w2.push((3usize, -a3));
    let w4 = w3.push((4usize, -a4));
    lemma_push(none, 0, -a0, x);
    lemma_push(w0, 1, -a1, x);
    lemma_push(w1, 2, -a2, x);
    lemma_push(w2, 3, -a3, x);
    lemma_push(w3, 4, -a4, x);
    lemma_push(w4, 5, -a5, x);
    assert(negated_value_terms(k, t) =~= w4.push((5usize, -a5)));
    lemma_minus(a0, x[0]);
    lemma_minus(a1, x[1]);
    lemma_minus(a2, x[2]);
    lemma_minus(a3, x[3]);
    lemma_minus(a4, x[4]);
    lemma_minus(a5, x[5]);
}

proof fn lemma_factor(a: real, k: real)
    by (nonlinear_arith)
    requires
        0real < k,
        0real <= a * k,
    ensures
        0real <= a,
{
}

/// The constraints of a quote say that its deviation is no less than the distance, and that the
/// surface leaves no arbitrage there.
proof fn lemma_quote_rows_mean(
    surface: CalibrationSurface<real>,
    q: Quote<real>,
    i: int,
    x: Seq<real>,
)
    requires
        0 <= i,
        i + 12 <= usize::MAX,
        x.len() >= 6,
        surface.theta@ == x.take(6),
        0real < q.strike,
    ensures
        sound_at(surface, q) && quote_distance(surface, q) <= x[deviation_var(i)] ==> rows_met(
            quote_rows(q, surface.s_t, i),
            x,
        ),
        rows_met(quote_rows(q, surface.s_t, i), x) ==> quote_distance(surface, q)
            <= x[deviation_var(i)],
{
    lemma_whole(0);
    lemma_minus_one();
    let (k, t, s_t) = (q.strike, q.tau, surface.s_t);
    lemma_surface_terms(surface, x, k, t);
    lemma_negated_terms(k, t, x);
    let dev = deviation_var(i) as usize;
    lemma_push(value_terms(k, t), dev, dec::<real>(-1, 0), x);
    lemma_push(negated_value_terms(k, t), dev, dec::<real>(-1, 0), x);
    let rows = quote_rows(q, s_t, i);
    assert(rows.len() == 7);
    let v = weighed(value_terms(k, t), x);
    assert(meets(rows[0], x) == (v - x[dev as int] <= q.call_mid - s_t));
    assert(meets(rows[1], x) == (-v - x[dev as int] <= s_t - q.call_mid));
    if rows_met(rows, x) {
        assert(meets(rows[0], x) && meets(rows[1], x));
    }
    if sound_at(surface, q) && quote_distance(surface, q) <= x[deviation_var(i)] {
        lemma_factor(weighed(calendar_terms(k, t), x), k);
        assert(meets(rows[0], x) && meets(rows[1], x));
        assert(meets(rows[2], x) && meets(rows[3], x) && meets(rows[4], x) && meets(rows[5], x)
            && meets(rows[6], x));
        assert forall|c: int| 0 <= c < rows.len() implies meets(#[trigger] rows[c], x) by {
            assert(c == 0 || c == 1 || c == 2 || c == 3 || c == 4 || c == 5 || c == 6);
        }
    }
}

proof fn lemma_all_sizes(surface: CalibrationSurface<real>, quotes: Seq<Quote<real>>, m: nat)
    requires
        m <= 6,
        quotes.len() + 12 <= usize::MAX,
    ensures
        rows_met(all_size_rows::<real>(quotes.len() as int, m), answer_of(surface, quotes)),
    decreases m,
{
    if m > 0 {
        lemma_all_sizes(surface, quotes, (m - 1) as nat);
        let x = answer_of(surface, quotes);
        let n = quotes.len();
        lemma_size_rows_mean(n, m - 1, x);
        assert(x[m - 1] == surface.theta@[m - 1]);
        assert(x[size_var(n as int, m - 1)] == real_abs(surface.theta@[m - 1]));
        lemma_rows_met_add(
            all_size_rows::<real>(n as int, (m - 1) as nat),
            size_rows::<real>(n as int, m - 1),
            x,
        );
    }
}

proof fn lemma_all_quotes(surface: CalibrationSurface<real>, quotes: Seq<Quote<real>>, n: nat)
    requires
        n <= quotes.len(),
        quotes.len() + 12 <= usize::MAX,
        sound_at_all(surface, quotes),
        strikes_positive(quotes),
    ensures
        rows_met(all_quote_rows(quotes, surface.s_t, n), answer_of(surface, quotes)),
    decreases n,
{
    if n > 0 {
        lemma_all_quotes(surface, quotes, (n - 1) as nat);
        let x = answer_of(surface, quotes);
        assert(x.take(6) =~= surface.theta@);
        let q = quotes[n - 1];
        assert(sound_at(surface, q));
        assert(0real < quotes[n - 1].strike);
        assert(x[deviation_var(n - 1)] == quote_distance(surface, q));
        lemma_quote_rows_mean(surface, q, n - 1, x);
        lemma_rows_met_add(
            all_quote_rows(quotes, surface.s_t, (n - 1) as nat),
            quote_rows(q, surface.s_t, n - 1),
            x,
        );
    }
}

/// A surface that leaves no arbitrage at the quotes keeps to the program of their fit.
pub proof fn law_sound_surface_is_feasible(
    surface: CalibrationSurface<real>,
    quotes: Seq<Quote<real>>,
    lambda: real,
)
    requires
        quotes.len() + 12 <= usize::MAX,
        strikes_positive(quotes),
        sound_at_all(surface, quotes),
    ensures
        feasible(fit_program(quotes, surface.s_t, lambda), answer_of(surface, quotes)),
{
    lemma_whole(0);
    let n = quotes.len();
    let x = answer_of(surface, quotes);
    let p = fit_program(quotes, surface.s_t, lambda);
    lemma_all_sizes(surface, quotes, 6);
    lemma_all_quotes(surface, quotes, n);
    lemma_rows_met_add(
        all_size_rows::<real>(n as int, 6),
        all_quote_rows(quotes, surface.s_t, n),
        x,
    );
    assert forall|v: int| 0 <= v < x.len() implies within_bounds(p.variables[v], #[trigger] x[v]) by {
        if 6 <= v < 6 + n {
            assert(x[v] == quote_distance(surface, quotes[v - 6]));
        } else if v >= 6 + n {
            assert(x[v] == real_abs(surface.theta@[v - 6 - n]));
        }
    }
}

/// The surface that is the spot price everywhere keeps to the program of a fit.
pub proof fn law_flat_surface_is_feasible(
    surface: CalibrationSurface<real>,
    quotes: Seq<Quote<real>>,
    lambda: real,
)
    requires
        quotes.len() + 12 <= usize::MAX,
        strikes_positive(quotes),
        0real <= surface.s_t,
        forall|m: int| 0 <= m < 6 ==> #[trigger] surface.theta@[m] == 0real,
    ensures
        feasible(fit_program(quotes, surface.s_t, lambda), answer_of(surface, quotes)),
{
    lemma_whole(2);
    let c = surface.theta@;
    assert(c[0] == 0real && c[1] == 0real && c[2] == 0real && c[3] == 0real && c[4] == 0real && c[5]
        == 0real);
    assert forall|i: int| 0 <= i < quotes.len() implies sound_at(surface, #[trigger] quotes[i]) by {
        let (k, t) = (quotes[i].strike, quotes[i].tau);
        lemma_nothing(k);
        lemma_nothing(t);
        assert(surface.spec_evaluate(k, t) == surface.s_t);
        assert(surface.spec_d_k(k, t) == 0real);
        assert(surface.spec_d_kk(t) == 0real);
        assert(surface.spec_d_t(k, t) == 0real);
    }
    law_sound_surface_is_feasible(surface, quotes, lambda);
}

proof fn lemma_nothing(a: real)
    by (nonlinear_arith)
    ensures
        0real * a == 0real,
        2real * 0real == 0real,
{
}

/// The objective over the deviations and the first `m` sizes.
proof fn lemma_objective(n: nat, lambda: real, x: Seq<real>, v: nat)
    requires
        v <= n + 6,
        n + 12 <= usize::MAX,
    ensures
        weighed(fit_objective(n, lambda).take(v as int), x) == if v <= n {
            sum_from(x, 6, v)
        } else {
            sum_from(x, 6, n) + lambda * sum_from(x, 6 + n as int, (v - n) as nat)
        },
    decreases v,
{
    lemma_whole(0);
    lemma_whole(1);
    let terms = fit_objective(n, lambda);
    if v > 0 {
        lemma_objective(n, lambda, x, (v - 1) as nat);
        assert(terms.take(v as int).drop_last() =~= terms.take(v - 1));
        assert(terms.take(v as int).last() == terms[v - 1]);
        assert(terms[v - 1].0 == 6 + v - 1);
        if v == n + 1 {
            assert(sum_from(x, 6 + n as int, 0) == 0real);
            lemma_swap_zero(lambda);
        }
        if v > n {
            let j = (v - n) as nat;
            assert(sum_from(x, 6 + n as int, j) == sum_from(x, 6 + n as int, (j - 1) as nat) + x[6
                + n + j - 1]);
            lemma_spread(lambda, sum_from(x, 6 + n as int, (j - 1) as nat), x[6 + n + j - 1]);
        }
    } else {
        assert(terms.take(0) =~= Seq::empty());
        lemma_none(x);
    }
}

proof fn lemma_swap_zero(a: real)
    by (nonlinear_arith)
    ensures
        a * 0real == 0real,
{
}

proof fn lemma_spread(a: real, b: real, c: real)
    by (nonlinear_arith)
    ensures
        a * (b + c) == a * b + a * c,
{
}

/// Sum of `n` values from a place on.
spec fn sum_from(x: Seq<real>, from: int, n: nat) -> real
    decreases n,
{
    if n == 0 {
        0real
    } else {
        sum_from(x, from, (n - 1) as nat) + x[from + n - 1]
    }
}

proof fn lemma_objective_whole(n: nat, lambda: real, x: Seq<real>)
    requires
        n + 12 <= usize::MAX,
    ensures
        weighed(fit_objective(n, lambda), x) == sum_from(x, 6, n) + lambda * sum_from(
            x,
            6 + n as int,
            6,
        ),
{
    lemma_objective(n, lambda, x, n + 6);
    assert(fit_objective(n, lambda).take((n + 6) as int) =~= fit_objective(n, lambda));
}

proof fn lemma_answer_sums(surface: CalibrationSurface<real>, quotes: Seq<Quote<real>>, n: nat, m: nat)
    requires
        n <= quotes.len(),
        m <= 6,
    ensures
        sum_from(answer_of(surface, quotes), 6, n) == distance(surface, quotes, n),
        sum_from(answer_of(surface, quotes), 6 + quotes.len() as int, m) == coefficient_size(
            surface,
            m,
        ),
    decreases n + m,
{
    let x = answer_of(surface, quotes);
    if n > 0 {
        lemma_answer_sums(surface, quotes, (n - 1) as nat, m);
        assert(x[6 + n - 1] == quote_distance(surface, quotes[n - 1]));
    }
    if m > 0 {
        lemma_answer_sums(surface, quotes, n, (m - 1) as nat);
        assert(x[6 + quotes.len() as int + m - 1] == real_abs(surface.theta@[m - 1]));
    }
}

/// The two constraints of a coefficient stand at their places.
proof fn lemma_size_rows_at(n: int, m: nat, j: int)
    requires
        0 <= j < m,
    ensures
        all_size_rows::<real>(n, m).len() == 2 * m,
        all_size_rows::<real>(n, m)[2 * j] == size_rows::<real>(n, j)[0],
        all_size_rows::<real>(n, m)[2 * j + 1] == size_rows::<real>(n, j)[1],
    decreases m,
{
    let rest = all_size_rows::<real>(n, (m - 1) as nat);
    if m == 1 {
        assert(rest =~= Seq::empty());
    } else {
        lemma_size_rows_at(
            n,
            (m - 1) as nat,
            if j < m - 1 {
                j
            } else {
                0
            },
        );
    }
    assert(size_rows::<real>(n, m - 1).len() == 2);
}

proof fn lemma_sums_of_feasible(
    quotes: Seq<Quote<real>>,
    lambda: real,
    x: Seq<real>,
    surface: CalibrationSurface<real>,
    n: nat,
    m: nat,
)
    requires
        n <= quotes.len(),
        m <= 6,
        quotes.len() + 12 <= usize::MAX,
        strikes_positive(quotes),
        feasible(fit_program(quotes, surface.s_t, lambda), x),
        surface.theta@ == x.take(6),
    ensures
        distance(surface, quotes, n) <= sum_from(x, 6, n),
        coefficient_size(surface, m) <= sum_from(x, 6 + quotes.len() as int, m),
    decreases n + m,
{
    let all = quotes.len();
    let s_t = surface.s_t;
    let p = fit_program(quotes, s_t, lambda);
    let sizes = all_size_rows::<real>(all as int, 6);
    lemma_size_rows_at(all as int, 6, 0);
    if n > 0 {
        lemma_sums_of_feasible(quotes, lambda, x, surface, (n - 1) as nat, m);
        let i = n - 1;
        lemma_quote_rows_at(quotes, s_t, all, i);
        let rows = quote_rows(quotes[i], s_t, i);
        assert forall|j: int| 0 <= j < rows.len() implies meets(#[trigger] rows[j], x) by {
            let at = sizes.len() + 7 * i + j;
            assert(all_quote_rows(quotes, s_t, all)[7 * i + j] == rows[j]);
            assert(p.constraints[at] == rows[j]);
            assert(meets(p.constraints[at], x));
        }
        assert(0real < quotes[i].strike);
        lemma_quote_rows_mean(surface, quotes[i], i, x);
    }
    if m > 0 {
        lemma_sums_of_feasible(quotes, lambda, x, surface, n, (m - 1) as nat);
        let j = m - 1;
        lemma_size_rows_at(all as int, 6, j);
        let rows = size_rows::<real>(all as int, j);
        assert(p.constraints[2 * j] == rows[0]);
        assert(p.constraints[2 * j + 1] == rows[1]);
        assert(meets(p.constraints[2 * j], x));
        assert(meets(p.constraints[2 * j + 1], x));
        assert(rows_met(rows, x));
        lemma_size_rows_mean(all, j, x);
        assert(surface.theta@[j] == x[j]);
    }
}

proof fn lemma_grows(a: real, b: real, c: real)
    by (nonlinear_arith)
    requires
        0real <= a,
        b <= c,
    ensures
        a * b <= a * c,
{
}

/// The surface of a best answer leaves no arbitrage at the quotes, and among all surfaces from
/// the same spot price that leave none it has the least misfit: the sum of its absolute distances
/// from the quotes, with `lambda` times the sum of its absolute coefficients.
pub proof fn law_best_fit_is_nearest(
    quotes: Seq<Quote<real>>,
    s_t: real,
    r: real,
    lambda: real,
    x: Seq<real>,
    surface: CalibrationSurface<real>,
    other: CalibrationSurface<real>,
)
    requires
        quotes.len() + 12 <= usize::MAX,
        strikes_positive(quotes),
        0real <= lambda,
        optimal(fit_program(quotes, s_t, lambda), x),
        surface_of(s_t, r, x, surface),
    ensures
        sound_at_all(surface, quotes),
        other.s_t == s_t && sound_at_all(other, quotes) ==> misfit(surface, quotes, lambda)
            <= misfit(other, quotes, lambda),
{
    law_reals_are_exact();
    assert forall|i: int| 0 <= i < quotes.len() implies sound_at(surface, #[trigger] quotes[i]) by {
        law_fitted_surface_has_no_arbitrage(|a: real| a, quotes, s_t, r, lambda, x, surface, i);
    }
    if other.s_t == s_t && sound_at_all(other, quotes) {
        let n = quotes.len();
        let y = answer_of(other, quotes);
        law_sound_surface_is_feasible(other, quotes, lambda);
        lemma_objective_whole(n, lambda, x);
        lemma_objective_whole(n, lambda, y);
        lemma_answer_sums(other, quotes, n, 6);
        lemma_sums_of_feasible(quotes, lambda, x, surface, n, 6);
        lemma_grows(lambda, coefficient_size(surface, 6), sum_from(x, 6 + n as int, 6));
    }
}

// ---- Contracts as quotes ----

/// How far the price of a contract on a surface is from its mid price.
pub open spec fn mispriced(surface: CalibrationSurface<real>, c: OptionTick<real>) -> real {
    real_abs(surface.spec_evaluate_contract(c) - c.mid)
}

/// How far the first `n` contracts together are mispriced, of those that are liquid and have
/// time and a strike left.
pub open spec fn mispricing(
    surface: CalibrationSurface<real>,
    contracts: Seq<OptionTick<real>>,
    n: nat,
) -> real
    decreases n,
{
    if n == 0 {
        0real
    } else {
        let c = contracts[n - 1];
        let rest = mispricing(surface, contracts, (n - 1) as nat);
        if c.is_liquid && 0real < c.tau && 0real < c.strike {
            rest + mispriced(surface, c)
        } else {
            rest
        }
    }
}

/// The quote that a contract enters the fit with is undone by the pricing of the contract: the
/// surface is as far from the quote as the price of the contract, call or put, is from its mid.
pub proof fn law_quote_stands_for_contract<S: crate::number::Quantity>(
    value: spec_fn(S) -> real,
    c: OptionTick<S>,
    surface: CalibrationSurface<S>,
)
    requires
        exact(value),
    ensures
        value(surface.spec_evaluate(c.strike, c.tau)) - value(
            call_mid_of(c, surface.s_t, surface.r),
        ) == value(surface.spec_evaluate_contract(c)) - value(c.mid),
{
    lemma_same_distance(
        value,
        c,
        surface.s_t,
        surface.r,
        surface.spec_evaluate(c.strike, c.tau),
        surface,
    );
}

proof fn lemma_same_distance<S: crate::number::Quantity>(
    value: spec_fn(S) -> real,
    c: OptionTick<S>,
    s_t: S,
    r: S,
    call: S,
    surface: CalibrationSurface<S>,
)
    requires
        exact(value),
        call == surface.spec_evaluate(c.strike, c.tau),
        s_t == surface.s_t,
        r == surface.r,
    ensures
        value(call) - value(call_mid_of(c, s_t, r)) == value(surface.spec_evaluate_contract(c))
            - value(c.mid),
{
}

proof fn lemma_distance_is_mispricing(
    surface: CalibrationSurface<real>,
    contracts: Seq<OptionTick<real>>,
    n: nat,
)
    requires
        n <= contracts.len(),
    ensures
        ({
            let quotes = quotes_of(contracts, surface.s_t, surface.r, n);
            distance(surface, quotes, quotes.len()) == mispricing(surface, contracts, n)
        }),
    decreases n,
{
    lemma_whole(0);
    if n > 0 {
        lemma_distance_is_mispricing(surface, contracts, (n - 1) as nat);
        let c = contracts[n - 1];
        let quotes = quotes_of(contracts, surface.s_t, surface.r, n);
        let rest = quotes_of(contracts, surface.s_t, surface.r, (n - 1) as nat);
        if c.is_liquid && 0real < c.tau && 0real < c.strike {
            assert(usable(c));
            lemma_distance_prefix(surface, rest, quotes, rest.len());
            lemma_one_quote(surface, c, quotes[rest.len() as int]);
        } else {
            assert(!usable(c));
        }
    }
}

proof fn lemma_one_quote(
    surface: CalibrationSurface<real>,
    c: OptionTick<real>,
    q: Quote<real>,
)
    requires
        q.strike == c.strike,
        q.tau == c.tau,
        q.call_mid == call_mid_of(c, surface.s_t, surface.r),
    ensures
        quote_distance(surface, q) == mispriced(surface, c),
{
    law_reals_are_exact();
    law_quote_stands_for_contract(|a: real| a, c, surface);
}

proof fn lemma_distance_prefix(
    surface: CalibrationSurface<real>,
    a: Seq<Quote<real>>,
    b: Seq<Quote<real>>,
    n: nat,
)
    requires
        n <= a.len(),
        n <= b.len(),
        forall|i: int| 0 <= i < n ==> a[i] == #[trigger] b[i],
    ensures
        distance(surface, a, n) == distance(surface, b, n),
    decreases n,
{
    if n > 0 {
        lemma_distance_prefix(surface, a, b, (n - 1) as nat);
        assert(a[n - 1] == b[n - 1]);
    }
}

/// How far a surface is from the quotes of a grid is how far it misprices the contracts of the
/// grid together, calls and puts, each against its own mid price.
pub proof fn law_distance_is_mispricing(
    surface: CalibrationSurface<real>,
    contracts: Seq<OptionTick<real>>,
)
    ensures
        ({
            let quotes = quotes_of(contracts, surface.s_t, surface.r, contracts.len());
            distance(surface, quotes, quotes.len()) == mispricing(
                surface,
                contracts,
                contracts.len(),
            )
        }),
{
    lemma_distance_is_mispricing(surface, contracts, contracts.len());
}

} // verus!
