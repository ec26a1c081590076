use good_lp::{constraint, default_solver, variable, Expression, ProblemVariables};
use good_lp::{Solution, SolverModel};
use proarbitrage::activation::{
    compute_activation_score, compute_shape_violations, extract_candidate_features,
    immediate_execution_gap, should_calibrate, ActivationConfig,
};
use proarbitrage::calibration::{
    calibrate_surface, calibration_problem, CalibrationError, CalibrationSurface,
};
use proarbitrage::ingestion::{OptionGrid, OptionTick};
use proarbitrage::lp::{Direction, LinearProgram, Sense};
use proarbitrage::number::{Analytic, Number, Quantity};

/// Double-precision numbers.
#[derive(Debug, Clone, Copy, PartialEq)]
struct F64(f64);

impl Quantity for F64 {}

impl Number for F64 {
    fn plus(self, other: Self) -> Self {
        F64(self.0 + other.0)
    }
    fn minus(self, other: Self) -> Self {
        F64(self.0 - other.0)
    }
    fn times(self, other: Self) -> Self {
        F64(self.0 * other.0)
    }
    fn over(self, other: Self) -> Self {
        F64(self.0 / other.0)
    }
    fn negated(self) -> Self {
        F64(-self.0)
    }
    fn lt(self, other: Self) -> bool {
        self.0 < other.0
    }
    fn le(self, other: Self) -> bool {
        self.0 <= other.0
    }
    fn abs(self) -> Self {
        F64(self.0.abs())
    }
    fn signum(self) -> Self {
        F64(self.0.signum())
    }
    fn max(self, other: Self) -> Self {
        F64(self.0.max(other.0))
    }
    fn min(self, other: Self) -> Self {
        F64(self.0.min(other.0))
    }
    fn is_nan(self) -> bool {
        self.0.is_nan()
    }
    fn is_finite(self) -> bool {
        self.0.is_finite()
    }
    fn nan() -> Self {
        F64(f64::NAN)
    }
    fn decimal(mantissa: i128, places: u32) -> Self {
        F64(mantissa as f64 / 10f64.powi(places as i32))
    }
    fn round_u64(self) -> u64 {
        self.0.round() as u64
    }
    fn round_i64(self) -> i64 {
        self.0.round() as i64
    }
    fn trunc_u64(self) -> u64 {
        self.0 as u64
    }
    fn text(self, places: u32) -> String {
        format!("{:.*}", places as usize, self.0)
    }
    fn parse(text: &str) -> Option<Self> {
        text.parse().ok().map(F64)
    }
}

impl Analytic for F64 {
    fn exp(self) -> Self {
        F64(self.0.exp())
    }
    fn ln(self) -> Self {
        F64(self.0.ln())
    }
    fn sqrt(self) -> Self {
        F64(self.0.sqrt())
    }
}

fn option(option_type: char, strike: f64, tau: f64, mid: f64) -> OptionTick<F64> {
    OptionTick {
        date: "2024-01-02 09:30:00.000".to_string(),
        option_type,
        strike: F64(strike),
        expiry: "2024-01-24".to_string(),
        days_to_maturity: F64(tau * 365.0),
        tau: F64(tau),
        s_t: F64(3.0),
        moneyness: F64(strike - 3.0),
        p_a: F64(mid + 0.001),
        p_b: F64(mid - 0.001),
        mid: F64(mid),
        spread: F64(0.002),
        a_v_eff: 10,
        b_v_eff: 10,
        is_liquid: true,
    }
}

fn grid(contracts: Vec<OptionTick<F64>>) -> OptionGrid<F64> {
    OptionGrid { date: "d".to_string(), s_t: F64(3.0), contracts }
}

fn surface() -> CalibrationSurface<F64> {
    CalibrationSurface {
        s_t: F64(3.0),
        r: F64(0.02),
        theta: [F64(-1.5), F64(0.1), F64(-0.02), F64(0.18), F64(0.01), F64(0.003)],
    }
}

fn close(a: f64, b: f64, eps: f64) -> bool {
    (a - b).abs() < eps
}

/// Hands a program to the solver.
fn solve(p: &LinearProgram<F64>) -> Result<Vec<F64>, String> {
    let mut vars = ProblemVariables::new();
    let xs: Vec<_> = p
        .variables
        .iter()
        .map(|b| {
            let mut v = variable().min(f64::NEG_INFINITY);
            if let Some(l) = b.lower {
                v = v.min(l.0);
            }
            if let Some(u) = b.upper {
                v = v.max(u.0);
            }
            vars.add(v)
        })
        .collect();
    let sum = |terms: &Vec<(usize, F64)>| {
        let mut e = Expression::from(0.0);
        for (v, c) in terms {
            e += xs[*v] * c.0;
        }
        e
    };
    let goal = sum(&p.objective);
    let unsolved = match p.direction {
        Direction::Minimise => vars.minimise(goal),
        Direction::Maximise => vars.maximise(goal),
    };
    let mut problem = unsolved.using(default_solver);
    for c in &p.constraints {
        let e = sum(&c.terms);
        problem = problem.with(match c.sense {
            Sense::AtMost => constraint::leq(e, c.bound.0),
            Sense::AtLeast => constraint::geq(e, c.bound.0),
        });
    }
    match problem.solve() {
        Ok(s) => Ok(xs.iter().map(|x| F64(s.value(*x))).collect()),
        Err(e) => Err(format!("{:?}", e)),
    }
}

#[test]
fn surface_starts_at_spot() {
    assert_eq!(surface().evaluate(F64(0.0), F64(0.7)), F64(3.0));
}

#[test]
fn surface_by_its_formula() {
    let s = surface();
    let (k, t) = (2.9f64, 0.25f64);
    let th = [-1.5f64, 0.1, -0.02, 0.18, 0.01, 0.003];
    let c = 3.0 + th[0] * k + th[1] * k * t + th[2] * k * t * t + th[3] * k * k + th[4] * k * k * t
        + th[5] * k * k * t * t;
    assert_eq!(s.evaluate(F64(k), F64(t)), F64(c));
    let d_k = th[0] + th[1] * t + th[2] * t * t + 2.0 * th[3] * k + 2.0 * th[4] * k * t
        + 2.0 * th[5] * k * t * t;
    assert_eq!(s.d_k(F64(k), F64(t)), F64(d_k));
    let d_kk = 2.0 * th[3] + 2.0 * th[4] * t + 2.0 * th[5] * t * t;
    assert_eq!(s.d_kk(F64(k), F64(t)), F64(d_kk));
    let d_t = th[1] * k + 2.0 * th[2] * k * t + th[4] * k * k + 2.0 * th[5] * k * k * t;
    assert_eq!(s.d_t(F64(k), F64(t)), F64(d_t));
}

#[test]
fn derivatives_by_steps() {
    let s = surface();
    let (k, t, h) = (2.9, 0.25, 0.01);
    let step = s.evaluate(F64(k + h), F64(t)).0;
    let expected = s.evaluate(F64(k), F64(t)).0 + s.d_k(F64(k), F64(t)).0 * h
        + s.d_kk(F64(k), F64(t)).0 * h * h / 2.0;
    assert!(close(step, expected, 1e-12));
    let back = s.evaluate(F64(k - h), F64(t)).0;
    assert!(close(step - back, 2.0 * h * s.d_k(F64(k), F64(t)).0, 1e-12));
    let bend = s.d_k(F64(k + h), F64(t)).0 - s.d_k(F64(k), F64(t)).0;
    assert!(close(bend, h * s.d_kk(F64(k), F64(t)).0, 1e-12));
    let later = s.evaluate(F64(k), F64(t + h)).0;
    let curve = s.theta[2].0 * k + s.theta[5].0 * k * k;
    let expected = s.evaluate(F64(k), F64(t)).0 + s.d_t(F64(k), F64(t)).0 * h + curve * h * h;
    assert!(close(later, expected, 1e-12));
}

#[test]
fn put_is_priced_by_parity() {
    let s = surface();
    let call = s.evaluate_contract(&option('C', 2.9, 0.25, 0.2)).0;
    let put = s.evaluate_contract(&option('P', 2.9, 0.25, 0.2)).0;
    assert!(close(call - put, 3.0 - 2.9 * (-0.02f64 * 0.25).exp(), 1e-12));
}

#[test]
fn program_of_one_quote() {
    let g = grid(vec![option('C', 2.0, 0.5, 1.1), option('C', 2.0, 0.0, 1.1)]);
    let p = calibration_problem(&g, F64(0.02), F64(0.0001)).unwrap();
    let count = p.variables.len();
    assert!(p.objective.iter().all(|t| t.0 < count));
    assert!(p.constraints.iter().all(|c| c.terms.iter().all(|t| t.0 < count)));
    // Six coefficients, one deviation, six sizes.
    assert_eq!(p.variables.len(), 13);
    assert!(p.variables[0].lower.is_none());
    assert_eq!(p.variables[6].lower, Some(F64(0.0)));
    assert_eq!(p.objective, vec![
        (6, F64(1.0)),
        (7, F64(0.0001)),
        (8, F64(0.0001)),
        (9, F64(0.0001)),
        (10, F64(0.0001)),
        (11, F64(0.0001)),
        (12, F64(0.0001)),
    ]);
    assert_eq!(p.constraints.len(), 12 + 7);
    let fit = &p.constraints[12];
    assert_eq!(fit.sense, Sense::AtMost);
    assert_eq!(fit.bound, F64(1.1 - 3.0));
    assert_eq!(fit.terms[0], (0, F64(2.0)));
    assert_eq!(fit.terms[5], (5, F64(2.0 * 2.0 * 0.5 * 0.5)));
    assert_eq!(fit.terms[6], (6, F64(-1.0)));
}

#[test]
fn errors_of_calibration() {
    let mut g = grid(vec![option('C', 2.0, 0.5, 1.1)]);
    g.s_t = F64(0.0);
    match calibration_problem(&g, F64(0.02), F64(0.0001)) {
        Err(CalibrationError::InvalidSpot(s)) => assert_eq!(s, F64(0.0)),
        _ => panic!("a spot price of nothing"),
    }
    let mut dry = grid(vec![option('C', 2.0, 0.5, 1.1)]);
    dry.contracts[0].is_liquid = false;
    match calibration_problem(&dry, F64(0.02), F64(0.0001)) {
        Err(CalibrationError::NoLiquidContracts) => {}
        _ => panic!("nothing is liquid"),
    }
    match calibrate_surface(&dry, F64(0.02), Ok(vec![F64(0.0); 6])) {
        Err(CalibrationError::NoLiquidContracts) => {}
        _ => panic!("nothing is liquid"),
    }
    let good = grid(vec![option('C', 2.0, 0.5, 1.1)]);
    match calibrate_surface(&good, F64(0.02), Err("unbounded".to_string())) {
        Err(CalibrationError::SolverFailed(e)) => assert_eq!(e, "unbounded"),
        _ => panic!("the solver failed"),
    }
}

#[test]
fn fitted_surface_has_no_arbitrage() {
    let g = grid(vec![
        option('C', 2.8, 0.1, 0.215),
        option('P', 2.8, 0.1, 0.012),
        option('C', 2.9, 0.1, 0.135),
        option('C', 3.0, 0.1, 0.075),
        option('P', 3.1, 0.1, 0.130),
        option('C', 3.0, 0.3, 0.125),
        option('C', 3.2, 0.3, 0.055),
    ]);
    let p = calibration_problem(&g, F64(0.02), F64(0.0001)).unwrap();
    let s = calibrate_surface(&g, F64(0.02), solve(&p)).unwrap();
    for c in &g.contracts {
        let v = s.evaluate(c.strike, c.tau).0;
        assert!(v >= -1e-7 && v <= 3.0 + 1e-7);
        assert!(s.d_k(c.strike, c.tau).0 <= 1e-7);
        assert!(s.d_kk(c.strike, c.tau).0 >= -1e-7);
        assert!(s.d_t(c.strike, c.tau).0 >= -1e-7);
    }
    // No nearer surface without arbitrage: neither the flat one nor a mixture with it.
    let misfit = |s: &CalibrationSurface<F64>| {
        let mut sum = 0.0;
        for c in &g.contracts {
            let put = c.option_type == 'P';
            let parity = if put { 3.0 - c.strike.0 * (-0.02 * c.tau.0).exp() } else { 0.0 };
            sum += (s.evaluate(c.strike, c.tau).0 - (c.mid.0 + parity)).abs();
        }
        sum + 0.0001 * s.theta.iter().map(|v| v.0.abs()).sum::<f64>()
    };
    for share in [0.0, 0.5, 0.99] {
        let theta = s.theta.map(|v| F64(share * v.0));
        let other = CalibrationSurface { s_t: s.s_t, r: s.r, theta };
        assert!(misfit(&s) <= misfit(&other) + 1e-7);
    }
    // The fit is near the quotes.
    let far = g
        .contracts
        .iter()
        .map(|c| (s.evaluate_contract(c).0 - c.mid.0).abs())
        .fold(0.0, f64::max);
    assert!(far < 0.1);
}

#[test]
fn violations_of_shape() {
    // A rising call costs its rise, and the bend that comes with it.
    let right = grid(vec![
        option('C', 2.8, 0.1, 0.30),
        option('C', 2.9, 0.1, 0.20),
        option('C', 3.0, 0.1, 0.12),
    ]);
    assert_eq!(compute_shape_violations(&right), F64(0.0));
    let rising = grid(vec![option('C', 2.8, 0.1, 0.20), option('C', 2.9, 0.1, 0.25)]);
    assert_eq!(compute_shape_violations(&rising), F64(0.25 - 0.20));
    let falling = grid(vec![option('P', 2.8, 0.1, 0.20), option('P', 2.9, 0.1, 0.15)]);
    assert_eq!(compute_shape_violations(&falling), F64(0.20 - 0.15));
    let bent = grid(vec![
        option('C', 1.0, 0.1, 0.5),
        option('C', 2.0, 0.1, 0.375),
        option('C', 3.0, 0.1, 0.125),
    ]);
    assert_eq!(compute_shape_violations(&bent), F64(-0.125 + 0.25));
    let empty = grid(vec![]);
    assert_eq!(compute_shape_violations(&empty), F64(0.0));
    // Contracts of different expiries are not compared.
    let mut apart = grid(vec![option('C', 2.8, 0.1, 0.20), option('C', 2.9, 0.1, 0.25)]);
    apart.contracts[1].expiry = "2024-02-28".to_string();
    assert_eq!(compute_shape_violations(&apart), F64(0.0));
}

#[test]
fn activation_without_a_surface() {
    let g = grid(vec![option('C', 2.8, 0.1, 0.20)]);
    let config = ActivationConfig::default();
    let quality = 1.0 / (1.0 + 10.0 * 0.002);
    let expected = 1.0 * 1.0 + 2.0 * 0.0 + 0.5 * quality + 1.5 * 1.0;
    assert_eq!(compute_activation_score(&g, &None, &config), F64(expected));
    assert!(should_calibrate(&g, &None, &config));
}

#[test]
fn activation_against_a_surface() {
    let s = surface();
    let fair = s.evaluate(F64(2.8), F64(0.1)).0;
    let g = grid(vec![option('C', 2.8, 0.1, fair)]);
    let config = ActivationConfig::default();
    let quality = 1.0 / (1.0 + 10.0 * 0.002);
    assert_eq!(compute_activation_score(&g, &Some(s), &config), F64(0.5 * quality));
    // No residual: the score stays below the level.
    assert!(!should_calibrate(&g, &Some(s), &config));
}

#[test]
fn features_of_a_candidate() {
    let s = surface();
    let fair = s.evaluate(F64(2.8), F64(0.1)).0;
    let mut cheap = option('C', 2.8, 0.1, fair - 0.5);
    cheap.p_a = F64(fair - 0.25);
    let f = extract_candidate_features(&cheap, &s, F64(0.0005)).unwrap();
    assert_eq!(f.immediate_execution_gap, F64(fair - (fair - 0.25)));
    assert_eq!(f.moneyness, F64(2.8 - 3.0));
    assert_eq!(f.is_put, F64(0.0));
    assert_eq!(f.raw_features.len(), 6);
    assert_eq!(f.raw_features[1], F64(3.0));
    assert_eq!(f.raw_features[5], F64(0.002));
    // The gap has to be above the threshold.
    assert!(extract_candidate_features(&cheap, &s, F64(0.25)).is_none());
    cheap.is_liquid = false;
    assert!(extract_candidate_features(&cheap, &s, F64(0.0005)).is_none());
}

#[test]
fn no_gap_inside_the_spread() {
    assert_eq!(immediate_execution_gap(F64(1.0), F64(1.1), F64(0.9)), F64(0.0));
    assert_eq!(immediate_execution_gap(F64(1.2), F64(1.1), F64(0.9)), F64(1.2 - 1.1));
    assert_eq!(immediate_execution_gap(F64(0.7), F64(1.1), F64(0.9)), F64(0.9 - 0.7));
}
