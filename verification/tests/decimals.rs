use proarbitrage::decimal::Decimal;
use proarbitrage::number::{Analytic, Number};
use proarbitrage::text::{digits_text, find_char, padded_text, zero_filled_text};

fn d(m: i128, places: u32) -> Decimal {
    Decimal::decimal(m, places)
}

#[test]
fn arithmetic() {
    assert_eq!(d(1, 1).plus(d(2, 1)), d(3, 1));
    assert_eq!(d(1, 0).minus(d(25, 1)), d(-15, 1));
    assert_eq!(d(15, 1).times(d(-2, 0)), d(-3, 0));
    assert_eq!(d(1, 0).over(d(3, 0)), d(333_333_333, 9));
    assert_eq!(d(-1, 0).over(d(3, 0)), d(-333_333_333, 9));
    assert_eq!(d(1, 0).over(d(-3, 0)), d(-333_333_333, 9));
    assert!(d(1, 0).over(d(0, 0)).is_nan());
    assert_eq!(d(5, 0).negated(), d(-5, 0));
    assert_eq!(d(-5, 1).abs(), d(5, 1));
    assert_eq!(d(-5, 1).signum(), d(-1, 0));
    assert_eq!(d(0, 0).signum(), d(1, 0));
}

#[test]
fn undefined_values() {
    let none = Decimal::nan();
    assert!(none.plus(d(1, 0)).is_nan());
    assert!(!none.lt(d(1, 0)) && !d(1, 0).le(none));
    assert_eq!(none.max(d(1, 0)), d(1, 0));
    assert_eq!(d(1, 0).min(none), d(1, 0));
    assert!(!none.is_finite());
    let large = Decimal { units: Some(i128::MAX) };
    assert!(large.plus(d(1, 9)).is_nan());
    assert!(large.times(d(2, 0)).is_nan());
    assert!(Decimal { units: Some(i128::MIN) }.abs().is_nan());
    assert!(Decimal { units: Some(i128::MIN) }.negated().is_nan());
    assert_eq!(none.text(2), "NaN");
    assert_eq!(none.round_u64(), 0);
}

#[test]
fn order() {
    assert!(d(1, 0).lt(d(2, 0)) && !d(2, 0).lt(d(2, 0)) && d(2, 0).le(d(2, 0)));
    assert_eq!(d(1, 0).max(d(2, 0)), d(2, 0));
    assert_eq!(d(1, 0).min(d(2, 0)), d(1, 0));
}

#[test]
fn written_numbers() {
    assert_eq!(d(31, 1).text(3), "3.100");
    assert_eq!(d(-5, 3).text(2), "-0.00");
    assert_eq!(d(125, 3).text(2), "0.12");
    assert_eq!(d(135, 3).text(2), "0.14");
    assert_eq!(d(25, 1).text(0), "2");
    assert_eq!(d(1, 9).text(12), "0.000000001000");
    assert_eq!(d(-12_345, 0).text(1), "-12345.0");
}

#[test]
fn read_numbers() {
    assert_eq!(Decimal::parse("3.1"), Some(d(31, 1)));
    assert_eq!(Decimal::parse("-0.25"), Some(d(-25, 2)));
    assert_eq!(Decimal::parse("+7"), Some(d(7, 0)));
    assert_eq!(Decimal::parse("7."), Some(d(7, 0)));
    assert_eq!(Decimal::parse(""), None);
    assert_eq!(Decimal::parse("-"), None);
    assert_eq!(Decimal::parse(".5"), None);
    assert_eq!(Decimal::parse("1x"), None);
    assert_eq!(Decimal::parse("1.0000000001"), None);
    for m in [-12_345_678_901i128, 0, 1, 999_999_999] {
        let x = d(m, 9);
        assert_eq!(Decimal::parse(&x.text(9)), Some(x));
    }
}

#[test]
fn roundings() {
    assert_eq!(d(25, 1).round_u64(), 3);
    assert_eq!(d(-25, 1).round_i64(), -3);
    assert_eq!(d(-1, 0).round_u64(), 0);
    assert_eq!(d(29, 1).trunc_u64(), 2);
    assert_eq!(d(1, 10), d(0, 0));
    assert_eq!(d(5, 10), d(1, 9));
    assert_eq!(d(-5, 10), d(-1, 9));
    assert_eq!(d(3_141_592_653_589_793, 15), d(3_141_592_654, 9));
    assert_eq!(d(i128::MAX, 60), d(0, 0));
    assert!(d(i128::MAX, 0).is_nan());
}

#[test]
fn roots_and_exponentials() {
    assert_eq!(d(4, 0).sqrt(), d(2, 0));
    assert_eq!(d(2, 0).sqrt(), d(1_414_213_562, 9));
    assert_eq!(d(0, 0).sqrt(), d(0, 0));
    assert!(d(-1, 0).sqrt().is_nan());
    assert_eq!(d(0, 0).exp(), d(1, 0));
    assert!(d(1, 0).exp().is_nan());
    assert_eq!(d(1, 0).ln(), d(0, 0));
    assert!(d(2, 0).ln().is_nan());
}

#[test]
fn whole_numbers_as_text() {
    assert_eq!(digits_text(0), "0");
    assert_eq!(digits_text(u128::MAX), "340282366920938463463374607431768211455");
    assert_eq!(padded_text(7, 2), "07");
    assert_eq!(padded_text(-7, 4), "-007");
    assert_eq!(padded_text(12345, 4), "12345");
    assert_eq!(padded_text(i64::MIN, 0), "-9223372036854775808");
    assert_eq!(zero_filled_text(5, 3), "005");
    assert_eq!(find_char("510300.XSHG", '.'), 6);
    assert_eq!(find_char("none", '.'), 4);
}
