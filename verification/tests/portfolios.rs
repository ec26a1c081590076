use proarbitrage::calibration::CalibrationSurface;
use proarbitrage::ingestion::{OptionGrid, OptionTick};
use proarbitrage::lp::{Direction, Sense};
use proarbitrage::number::{Analytic, Number, Quantity};
use proarbitrage::portfolio::{
    optimize_portfolio, optimize_portfolio_structured, portfolio_problem,
    structured_portfolio_problem, PortfolioConfig, PortfolioError,
};
use proarbitrage::performance::{deltas_helper, score_by_gap_and_delta};
use proarbitrage::pricing::calculate_greeks;
use proarbitrage::structures::{generate_active_structures, ActiveStructure};

/// Double-precision numbers.
#[derive(Debug, Clone, Copy, PartialEq)]
struct F64(f64);

impl Quantity for F64 {}

impl Number for F64 {
    fn plus(self, other: Self) -> Self {
        F64(self.0 + other.0)
    }
    fn minus(self, other: Self) -> Self {
        F64(self.0 - other.0)
    }
    fn times(self, other: Self) -> Self {
        F64(self.0 * other.0)
    }
    fn over(self, other: Self) -> Self {
        F64(self.0 / other.0)
    }
    fn negated(self) -> Self {
        F64(-self.0)
    }
    fn lt(self, other: Self) -> bool {
        self.0 < other.0
    }
    fn le(self, other: Self) -> bool {
        self.0 <= other.0
    }
    fn abs(self) -> Self {
        F64(self.0.abs())
    }
    fn signum(self) -> Self {
        F64(self.0.signum())
    }
    fn max(self, other: Self) -> Self {
        F64(self.0.max(other.0))
    }
    fn min(self, other: Self) -> Self {
        F64(self.0.min(other.0))
    }
    fn is_nan(self) -> bool {
        self.0.is_nan()
    }
    fn is_finite(self) -> bool {
        self.0.is_finite()
    }
    fn nan() -> Self {
        F64(f64::NAN)
    }
    fn decimal(mantissa: i128, places: u32) -> Self {
        F64(mantissa as f64 / 10f64.powi(places as i32))
    }
    fn round_u64(self) -> u64 {
        self.0.round() as u64
    }
    fn round_i64(self) -> i64 {
        self.0.round() as i64
    }
    fn trunc_u64(self) -> u64 {
        self.0 as u64
    }
    fn text(self, places: u32) -> String {
        format!("{:.*}", places as usize, self.0)
    }
    fn parse(text: &str) -> Option<Self> {
        text.parse().ok().map(F64)
    }
}

impl Analytic for F64 {
    fn exp(self) -> Self {
        F64(self.0.exp())
    }
    fn ln(self) -> Self {
        F64(self.0.ln())
    }
    fn sqrt(self) -> Self {
        F64(self.0.sqrt())
    }
}

fn option(option_type: char, strike: f64) -> OptionTick<F64> {
    OptionTick {
        date: "d".to_string(),
        option_type,
        strike: F64(strike),
        expiry: "E".to_string(),
        days_to_maturity: F64(30.0),
        tau: F64(0.1),
        s_t: F64(3.0),
        moneyness: F64(strike - 3.0),
        p_a: F64(0.11),
        p_b: F64(0.09),
        mid: F64(0.10),
        spread: F64(0.02),
        a_v_eff: 5,
        b_v_eff: 5,
        is_liquid: true,
    }
}

fn grid() -> OptionGrid<F64> {
    OptionGrid {
        date: "d".to_string(),
        s_t: F64(3.0),
        contracts: vec![
            option('C', 3.0),
            option('P', 3.0),
            option('C', 3.1),
            option('P', 3.1),
        ],
    }
}

fn surface() -> CalibrationSurface<F64> {
    CalibrationSurface {
        s_t: F64(3.0),
        r: F64(0.02),
        theta: [F64(-1.5), F64(0.1), F64(0.0), F64(0.18), F64(0.01), F64(0.0)],
    }
}

#[test]
fn default_limits() {
    let c: PortfolioConfig<F64> = PortfolioConfig::default();
    assert_eq!(c.epsilon_delta, F64(0.5));
    assert_eq!(c.epsilon_vega, F64(2.0));
    assert_eq!(c.epsilon_theta, F64(10.0));
    assert_eq!(c.c_max, F64(50_000.0));
    assert_eq!(c.theta_max, F64(50.0));
    assert_eq!(c.margin_ratio, F64(0.15));
}

#[test]
fn program_of_contracts() {
    let g = grid();
    let s = surface();
    let config = PortfolioConfig::default();
    let scores = vec![F64(0.1), F64(0.2), F64(0.3), F64(0.4)];
    let p = portfolio_problem(&g, &s, &scores, &config).unwrap().unwrap();
    let count = p.variables.len();
    assert!(p.objective.iter().all(|t| t.0 < count));
    assert!(p.constraints.iter().all(|c| c.terms.iter().all(|t| t.0 < count)));
    // Holding nothing keeps to the limits, and selling what is bought frees no capital.
    assert!(p.constraints.iter().all(|c| match c.sense {
        Sense::AtMost => 0.0 <= c.bound.0,
        Sense::AtLeast => c.bound.0 <= 0.0,
    }));
    let tied = &p.constraints[5].terms;
    assert!((0..4).all(|i| tied[i].1 .0 + tied[4 + i].1 .0 >= 0.0));
    assert_eq!(p.direction, Direction::Maximise);
    assert_eq!(p.variables.len(), 8);
    assert_eq!((p.variables[7].lower, p.variables[7].upper), (Some(F64(0.0)), Some(F64(50.0))));
    assert_eq!(p.objective[1], (1, F64(0.2)));
    assert_eq!(p.objective[5], (5, F64(-0.2)));
    assert_eq!(p.constraints.len(), 6);
    let gk = calculate_greeks(
        F64(3.0),
        F64(3.1),
        F64(0.1),
        F64(0.02),
        'P',
        s.evaluate_contract(&g.contracts[3]),
    );
    assert_eq!(p.constraints[0].sense, Sense::AtLeast);
    assert_eq!(p.constraints[0].bound, F64(-0.5));
    assert_eq!(p.constraints[1].terms[3], (3, gk.delta));
    assert_eq!(p.constraints[1].terms[7], (7, gk.delta.negated()));
    assert_eq!(p.constraints[3].terms[3], (3, gk.vega));
    assert_eq!(p.constraints[4].terms[3], (3, gk.theta));
    assert_eq!(p.constraints[4].bound, F64(-10.0));
    assert_eq!(p.constraints[5].terms[0], (0, F64(0.11)));
    assert_eq!(p.constraints[5].terms[4], (4, F64(0.09 + 0.15 * 3.0)));
    assert_eq!(p.constraints[5].bound, F64(50_000.0));
}

#[test]
fn program_of_structures() {
    let g = grid();
    let s = surface();
    let config = PortfolioConfig::default();
    let list = generate_active_structures(&g, F64(2.0));
    assert_eq!(list.len(), 1);
    let scores = vec![F64(0.5), F64(0.1), F64(0.2), F64(0.3)];
    let p = structured_portfolio_problem(&g, &s, &scores, &list, &config).unwrap().unwrap();
    let count = p.variables.len();
    assert!(p.objective.iter().all(|t| t.0 < count));
    assert!(p.constraints.iter().all(|c| c.terms.iter().all(|t| t.0 < count)));
    assert_eq!(p.variables.len(), 2);
    // Long the lower call and the upper put, short the others; the fee is eight hundredths.
    let alpha = 0.0 + 0.5 + -1.0 * 0.2 + 0.3 + -1.0 * 0.1;
    assert_eq!(p.objective[0], (0, F64(alpha - 8.0 / 100.0)));
    assert_eq!(p.objective[1], (1, F64(-(alpha + 8.0 / 100.0))));
    let delta = |i: usize| {
        let c = &g.contracts[i];
        let fair = s.evaluate_contract(c);
        calculate_greeks(F64(3.0), c.strike, c.tau, F64(0.02), c.option_type, fair).delta.0
    };
    let long = 0.0 + delta(0) + -delta(1) + -delta(2) + delta(3);
    assert!((p.constraints[0].terms[0].1 .0 - long).abs() < 1e-12);
    assert!((p.constraints[0].terms[1].1 .0 + long).abs() < 1e-12);
    let tied = 0.11 + (0.09 + 0.15 * 3.0) + (0.09 + 0.15 * 3.0) + 0.11;
    assert!((p.constraints[5].terms[0].1 .0 - tied).abs() < 1e-12);
}

#[test]
fn what_an_allocation_can_lack() {
    let g = grid();
    let s = surface();
    let config = PortfolioConfig::default();
    let few = vec![F64(0.1)];
    assert!(matches!(portfolio_problem(&g, &s, &few, &config), Err(PortfolioError::SizeMismatch)));
    let empty = OptionGrid { date: "d".to_string(), s_t: F64(3.0), contracts: vec![] };
    assert!(matches!(portfolio_problem(&empty, &s, &few, &config), Ok(None)));
    assert_eq!(optimize_portfolio(&empty, &few, Ok(vec![])).unwrap(), vec![]);
    let list = generate_active_structures(&g, F64(2.0));
    assert!(matches!(
        structured_portfolio_problem(&g, &s, &few, &list, &config),
        Err(PortfolioError::SizeMismatch)
    ));
    let none: Vec<ActiveStructure<F64>> = vec![];
    assert!(matches!(structured_portfolio_problem(&g, &s, &few, &none, &config), Ok(None)));
    assert_eq!(
        optimize_portfolio_structured(&empty, &few, &list, Err("x".to_string())).unwrap(),
        vec![F64(0.0)]
    );
    match optimize_portfolio_structured(&g, &[F64(0.0); 4], &list, Err("x".to_string())) {
        Err(PortfolioError::SolverFailed(e)) => assert_eq!(e, "x"),
        _ => panic!("the solver failed"),
    }
    assert!(matches!(
        optimize_portfolio(&g, &few, Err("x".to_string())),
        Err(PortfolioError::SizeMismatch)
    ));
}

#[test]
fn net_positions() {
    let g = grid();
    let x: Vec<F64> = [5.0, 0.0, 1.0, 2.0, 1.0, 3.0, 0.0, 2.0].iter().map(|v| F64(*v)).collect();
    assert_eq!(
        optimize_portfolio(&g, &[F64(0.0); 4], Ok(x)).unwrap(),
        vec![F64(4.0), F64(-3.0), F64(1.0), F64(0.0)]
    );
    let list = generate_active_structures(&g, F64(2.0));
    assert_eq!(
        optimize_portfolio_structured(&g, &[F64(0.0); 4], &list, Ok(vec![F64(1.0), F64(4.0)]))
            .unwrap(),
        vec![F64(-3.0)]
    );
}

#[test]
fn scores_by_gap_and_delta() {
    let mut g = grid();
    let s = surface();
    let fair = s.evaluate_contract(&g.contracts[0]).0;
    g.contracts[0].p_a = F64(fair - 0.25);
    for i in 1..4 {
        let f = s.evaluate_contract(&g.contracts[i]).0;
        g.contracts[i].p_a = F64(f + 0.1);
        g.contracts[i].p_b = F64(f - 0.1);
    }
    let (scores, any) = score_by_gap_and_delta(&g, &s, F64(0.02), F64(0.0005));
    assert!(any);
    let delta = deltas_helper(&g.contracts[0], &s).0;
    assert_eq!(scores[0], F64(0.8 * (fair - (fair - 0.25)) + 0.2 * delta.abs() * 0.01));
    assert_eq!(scores[1], F64(0.0));
}
