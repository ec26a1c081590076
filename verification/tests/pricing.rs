use proarbitrage::number::{Analytic, Number, Quantity};
use proarbitrage::pricing::{bs_price, calculate_greeks, cdf, compute_implied_vol, pdf};

/// Double-precision numbers.
#[derive(Debug, Clone, Copy, PartialEq)]
struct F64(f64);

impl Quantity for F64 {}

impl Number for F64 {
    fn plus(self, other: Self) -> Self {
        F64(self.0 + other.0)
    }
    fn minus(self, other: Self) -> Self {
        F64(self.0 - other.0)
    }
    fn times(self, other: Self) -> Self {
        F64(self.0 * other.0)
    }
    fn over(self, other: Self) -> Self {
        F64(self.0 / other.0)
    }
    fn negated(self) -> Self {
        F64(-self.0)
    }
    fn lt(self, other: Self) -> bool {
        self.0 < other.0
    }
    fn le(self, other: Self) -> bool {
        self.0 <= other.0
    }
    fn abs(self) -> Self {
        F64(self.0.abs())
    }
    fn signum(self) -> Self {
        F64(self.0.signum())
    }
    fn max(self, other: Self) -> Self {
        F64(self.0.max(other.0))
    }
    fn min(self, other: Self) -> Self {
        F64(self.0.min(other.0))
    }
    fn is_nan(self) -> bool {
        self.0.is_nan()
    }
    fn is_finite(self) -> bool {
        self.0.is_finite()
    }
    fn nan() -> Self {
        F64(f64::NAN)
    }
    fn decimal(mantissa: i128, places: u32) -> Self {
        F64(mantissa as f64 / 10f64.powi(places as i32))
    }
    fn round_u64(self) -> u64 {
        self.0.round() as u64
    }
    fn round_i64(self) -> i64 {
        self.0.round() as i64
    }
    fn trunc_u64(self) -> u64 {
        self.0 as u64
    }
    fn text(self, places: u32) -> String {
        format!("{:.*}", places as usize, self.0)
    }
    fn parse(text: &str) -> Option<Self> {
        text.parse().ok().map(F64)
    }
}

impl Analytic for F64 {
    fn exp(self) -> Self {
        F64(self.0.exp())
    }
    fn ln(self) -> Self {
        F64(self.0.ln())
    }
    fn sqrt(self) -> Self {
        F64(self.0.sqrt())
    }
}

const STRIKES: [f64; 9] = [80.0, 85.0, 90.0, 95.0, 100.0, 105.0, 110.0, 115.0, 120.0];
const DAYS: [f64; 4] = [10.0, 40.0, 70.0, 110.0];

const CALLS: [[f64; 4]; 9] = [
    [20.11, 20.44, 20.77, 21.25],
    [15.12, 15.48, 15.89, 16.50],
    [10.12, 10.61, 11.23, 12.06],
    [5.21, 6.22, 7.13, 8.20],
    [1.39, 2.92, 3.97, 5.13],
    [0.12, 1.04, 1.91, 2.95],
    [0.00, 0.28, 0.79, 1.55],
    [0.00, 0.06, 0.28, 0.75],
    [0.00, 0.01, 0.09, 0.33],
];

const PUTS: [[f64; 4]; 9] = [
    [0.00, 0.00, 0.01, 0.05],
    [0.00, 0.01, 0.07, 0.22],
    [0.00, 0.12, 0.37, 0.71],
    [0.08, 0.70, 1.22, 1.78],
    [1.25, 2.37, 3.02, 3.64],
    [4.97, 5.47, 5.91, 6.38],
    [9.85, 9.68, 9.74, 9.90],
    [14.84, 14.43, 14.18, 14.03],
    [19.84, 19.35, 18.94, 18.54],
];

fn price(strike: f64, days: f64, option_type: char) -> f64 {
    bs_price(F64(100.0), F64(strike), F64(days / 365.0), F64(0.05), F64(0.2), option_type).0
}

#[test]
fn call_and_put_tables() {
    for (i, k) in STRIKES.iter().enumerate() {
        for (j, t) in DAYS.iter().enumerate() {
            assert!((price(*k, *t, 'C') - CALLS[i][j]).abs() < 0.0101);
            assert!((price(*k, *t, 'P') - PUTS[i][j]).abs() < 0.0101);
        }
    }
}

#[test]
fn calls_rise_with_time_and_fall_with_strike() {
    for k in STRIKES {
        for w in DAYS.windows(2) {
            assert!(price(k, w[0], 'C') <= price(k, w[1], 'C') + 1e-6);
        }
    }
    for t in DAYS {
        for w in STRIKES.windows(2) {
            assert!(price(w[0], t, 'C') >= price(w[1], t, 'C') - 1e-6);
            assert!(price(w[0], t, 'P') <= price(w[1], t, 'P') + 1e-6);
        }
    }
}

#[test]
fn normal_distribution() {
    assert!((pdf(F64(0.0)).0 - 0.3989422804014327).abs() < 1e-15);
    assert!((cdf(F64(0.0)).0 - 0.5).abs() < 1e-7);
    assert!((cdf(F64(1.96)).0 - 0.9750021).abs() < 1e-6);
    for x in [0.3, 1.0, 2.5] {
        assert!((cdf(F64(x)).0 + cdf(F64(-x)).0 - 1.0).abs() < 1e-15);
    }
}

#[test]
fn constants_are_those_of_double_precision() {
    assert_eq!(F64::decimal(3_141_592_653_589_793, 15), F64(std::f64::consts::PI));
    assert_eq!(F64::decimal(3_989_422_804_014_327, 16), F64(0.3989422804014327));
    assert_eq!(F64::decimal(-356_563_782, 9), F64(-0.356563782));
    assert_eq!(F64::decimal(2_316_419, 7), F64(0.2316419));
    let x = 0.7f64;
    assert_eq!(
        pdf(F64(x)),
        F64((-0.5 * x * x).exp() / (2.0 * std::f64::consts::PI).sqrt())
    );
}

#[test]
fn parity_of_prices() {
    let c = price(95.0, 70.0, 'C');
    let p = price(95.0, 70.0, 'P');
    assert!((c - p - (100.0 - 95.0 * (-0.05f64 * 70.0 / 365.0).exp())).abs() < 1e-9);
}

#[test]
fn payoff_where_no_time_or_volatility_is_left() {
    let at = |tau: f64, vol: f64, k: f64, t: char| {
        bs_price(F64(100.0), F64(k), F64(tau), F64(0.05), F64(vol), t)
    };
    assert_eq!(at(0.0, 0.2, 90.0, 'C'), F64(10.0));
    assert_eq!(at(-1.0, 0.2, 110.0, 'C'), F64(0.0));
    assert_eq!(at(0.0, 0.2, 110.0, 'P'), F64(10.0));
    assert_eq!(at(0.5, 0.0, 110.0, 'P'), F64(10.0));
    assert_eq!(at(0.5, 0.0, 90.0, 'C'), F64(10.0));
}

#[test]
fn implied_volatility() {
    let iv = |tau: f64, price: f64| {
        compute_implied_vol(F64(100.0), F64(100.0), F64(tau), F64(0.05), 'C', F64(price)).0
    };
    assert_eq!(iv(0.0, 3.0), 0.20);
    assert_eq!(iv(0.5, 0.0), 0.05);
    let target = bs_price(F64(100.0), F64(100.0), F64(0.5), F64(0.05), F64(0.31), 'C').0;
    assert!((iv(0.5, target) - 0.31).abs() < 2e-4);
    // Beyond the range the upper end is approached.
    assert!((iv(0.5, 99.99) - 5.0).abs() < 1e-3);
}

#[test]
fn greeks() {
    let price = bs_price(F64(100.0), F64(100.0), F64(0.5), F64(0.05), F64(0.2), 'C');
    let c = calculate_greeks(F64(100.0), F64(100.0), F64(0.5), F64(0.05), 'C', price);
    assert!((c.delta.0 - 0.5977).abs() < 1e-3);
    assert!((c.vega.0 - 27.36).abs() < 0.05);
    assert!(c.theta.0 < 0.0);
    let put = bs_price(F64(100.0), F64(100.0), F64(0.5), F64(0.05), F64(0.2), 'P');
    let p = calculate_greeks(F64(100.0), F64(100.0), F64(0.5), F64(0.05), 'P', put);
    assert!((c.delta.0 - p.delta.0 - 1.0).abs() < 1e-3);
    // At expiry only the side of the strike counts.
    let at = |s: f64, t: char| calculate_greeks(F64(s), F64(100.0), F64(0.0), F64(0.05), t, F64(1.0));
    assert_eq!(at(100.0, 'C').delta, F64(1.0));
    assert_eq!(at(99.0, 'C').delta, F64(0.0));
    assert_eq!(at(99.0, 'P').delta, F64(-1.0));
    assert_eq!(at(100.0, 'P').delta, F64(0.0));
    assert_eq!(at(100.0, 'P').vega, F64(0.0));
}

#[test]
fn implied_volatility_undoes_the_price() {
    for v in [0.05, 0.2, 0.9, 3.0] {
        for kind in ['C', 'P'] {
            let (s, k, t, r) = (F64(100.0), F64(105.0), F64(0.5), F64(0.03));
            let price = bs_price(s, k, t, r, F64(v), kind);
            if price.0 > (if kind == 'C' { 0.0 } else { 5.0 }) {
                assert!((compute_implied_vol(s, k, t, r, kind, price).0 - v).abs() <= 1e-4);
            }
        }
    }
}

#[test]
fn parity_where_the_distribution_is_at_nothing() {
    // With this rate the first argument is nothing.
    let (s, k, t, r, v) = (F64(100.0), F64(100.0), F64(0.25), F64(-0.02), F64(0.2));
    let off = bs_price(s, k, t, r, v, 'C').0
        - bs_price(s, k, t, r, v, 'P').0
        - (100.0 - 100.0 * (0.02f64 * 0.25).exp());
    assert!(off.abs() <= 1e-8 * 200.0 * (0.02f64 * 0.25).exp());
    assert!((cdf(F64(0.0)).0 + cdf(F64(-0.0)).0 - 1.0).abs() <= 1e-8);
}
