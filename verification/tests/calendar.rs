use proarbitrage::calendar::{
    fmt_ts, get_4th_wednesday, is_trading_hours, parse_date, CalendarDate, Moment, LOCAL_OFFSET,
};

fn at(hour: i64, minute: i64, second: i64) -> i64 {
    hour * 3600 + minute * 60 + second
}

#[test]
fn trading_hours() {
    assert!(!is_trading_hours(at(9, 15, 0)));
    assert!(!is_trading_hours(at(9, 29, 59)));
    assert!(is_trading_hours(at(9, 30, 0)));
    assert!(is_trading_hours(at(11, 29, 59)));
    assert!(!is_trading_hours(at(11, 30, 0)));
    assert!(!is_trading_hours(at(12, 59, 59)));
    assert!(is_trading_hours(at(13, 0, 0)));
    assert!(is_trading_hours(at(14, 59, 59)));
    assert!(!is_trading_hours(at(15, 0, 0)));
    // Days do not matter, before 1970 neither.
    assert!(is_trading_hours(19_000 * 86_400 + at(10, 0, 0)));
    assert!(is_trading_hours(-86_400 + at(10, 0, 0)));
    assert!(!is_trading_hours(i64::MIN));
}

#[test]
fn fourth_wednesdays() {
    let day = |year, month| get_4th_wednesday(year, month);
    assert_eq!(day(2024, 1), CalendarDate { year: 2024, month: 1, day: 24 });
    assert_eq!(day(2024, 2), CalendarDate { year: 2024, month: 2, day: 28 });
    assert_eq!(day(2025, 1), CalendarDate { year: 2025, month: 1, day: 22 });
    assert_eq!(day(2026, 5), CalendarDate { year: 2026, month: 5, day: 27 });
    // They are Wednesdays of the calendar.
    for year in [1899, 1970, 2000, 2023, 2100] {
        for month in 1..=12 {
            let d = get_4th_wednesday(year, month);
            let c = chrono::NaiveDate::from_ymd_opt(d.year, d.month, d.day).unwrap();
            let w = chrono::NaiveDate::from_weekday_of_month_opt(year, month, chrono::Weekday::Wed, 4);
            assert_eq!(Some(c), w);
        }
    }
}

#[test]
fn dates_with_fractions_and_zones() {
    let plain = parse_date("2024-01-02 09:30:01").unwrap();
    assert_eq!(plain, Moment { day: 19_724, second: 34_201, nano: 0 });
    let millis = parse_date("2024-01-02 09:30:01.500").unwrap();
    assert_eq!(millis.nano, 500_000_000);
    let micros = parse_date("2024-01-02 09:30:01.000250").unwrap();
    assert_eq!(micros.nano, 250_000);
    let zoned = parse_date("2024-01-02 09:30:01+08:00").unwrap();
    assert_eq!(zoned, plain);
    let zoned_millis = parse_date("2024-01-02 09:30:01.500+08:00").unwrap();
    assert_eq!(zoned_millis, millis);
    assert!(parse_date("2024-01-02").is_none());
    assert!(parse_date("").is_none());
    assert!(parse_date("yesterday+1").is_none());
}

#[test]
fn spans_between_moments() {
    let a = parse_date("2024-01-02 09:30:01.500").unwrap();
    let b = parse_date("2024-01-03 09:30:00").unwrap();
    assert_eq!(b.since(&a), 86_398_500_000_000);
    assert_eq!(a.since(&b), -86_398_500_000_000);
    assert!(a.is_before(&b) && !b.is_before(&a) && !a.is_before(&a));
    let later = a.plus_seconds(60);
    assert_eq!(later, parse_date("2024-01-02 09:31:01.500").unwrap());
    let night = parse_date("2024-01-02 23:59:30").unwrap();
    assert_eq!(night.plus_seconds(60), parse_date("2024-01-03 00:00:30").unwrap());
}

#[test]
fn leap_seconds_count_as_in_the_calendar() {
    let leap = parse_date("2016-12-31 23:59:60").unwrap();
    assert_eq!((leap.second, leap.nano), (86_399, 1_000_000_000));
    let to = |m: &Moment| {
        chrono::NaiveDate::from_ymd_opt(1970, 1, 1).unwrap()
            .checked_add_days(chrono::Days::new(m.day as u64)).unwrap()
            .and_time(
                chrono::NaiveTime::from_num_seconds_from_midnight_opt(m.second, m.nano).unwrap(),
            )
    };
    let others = [
        parse_date("2016-12-31 23:59:58.250").unwrap(),
        parse_date("2016-12-31 23:59:59").unwrap(),
        parse_date("2017-01-01 00:00:00").unwrap(),
        leap,
    ];
    for m in others {
        let span = to(&leap).signed_duration_since(to(&m));
        assert_eq!(leap.since(&m), span.num_nanoseconds().unwrap() as i128);
        let back = to(&m).signed_duration_since(to(&leap));
        assert_eq!(m.since(&leap), back.num_nanoseconds().unwrap() as i128);
        assert_eq!(m.is_before(&leap), to(&m) < to(&leap));
        assert_eq!(to(&m.plus_seconds(60)), to(&m) + chrono::Duration::seconds(60));
    }
}

#[test]
fn timestamps_as_text() {
    // The clocks of the exchange are eight hours ahead.
    assert_eq!(fmt_ts(0), "1970-01-01 08:00:00");
    let local = |second: i64| fmt_ts(second - LOCAL_OFFSET);
    assert_eq!(local(0), "1970-01-01 00:00:00");
    assert_eq!(local(34_201), "1970-01-01 09:30:01");
    assert_eq!(local(31 * 86_400), "1970-02-01 00:00:00");
    // The years are rough: cycles count from 1970.
    assert_eq!(local(364 * 86_400 + 86_399), "1970-12-31 23:59:59");
    assert_eq!(local(365 * 86_400), "1971-01-01 00:00:00");
    assert_eq!(local(1460 * 86_400), "1974-01-01 00:00:00");
    // Before 1970 the parts are negative.
    assert_eq!(local(-3_661), "1970-01-01 -1:-1:-1");
}
