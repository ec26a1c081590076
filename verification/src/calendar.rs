//! Trading hours, expiry dates and timestamps.

use chrono::{Datelike, NaiveDate, NaiveDateTime, Timelike};
use vstd::prelude::*;
use vstd::string::*;
use crate::text::{char_place, find_char, padded, padded_text};

verus! {

/// Seconds in a day.
pub const DAY_SECONDS: i64 = 86_400;

/// Seconds from midnight to the given time of day.
pub open spec fn time_of_day(hour: int, minute: int) -> int {
    hour * 3600 + minute * 60
}

/// The second of its day at which a timestamp lies.
pub open spec fn second_of_day(ts_sec: int) -> int {
    ts_sec % 86_400
}

/// Continuous trading: 09:30 to 11:30 and 13:00 to 15:00, the ends not counted.
pub open spec fn in_session(ts_sec: int) -> bool {
    let second = second_of_day(ts_sec);
    ||| time_of_day(9, 30) <= second < time_of_day(11, 30)
    ||| time_of_day(13, 0) <= second < time_of_day(15, 0)
}

/// Seconds from midnight to a time of day that is written as hours and minutes
/// in one number, such as 930.
fn hm(time: u32) -> (r: u32)
    requires
        time < 2400,
    ensures
        r == time_of_day(time as int / 100, time as int % 100),
{
    (time / 100) * 3600 + (time % 100) * 60
}

/// Whether a timestamp, in seconds of local time, falls within continuous trading
/// hours. The call auction from 09:15 to 09:25 lies outside.
pub fn is_trading_hours(ts_sec: i64) -> (r: bool)
    ensures
        r == in_session(ts_sec as int),
{
    let second: u32 = match ts_sec.checked_rem_euclid(DAY_SECONDS) {
        Some(rest) => rest as u32,
        None => 0,
    };
    (second >= hm(930) && second < hm(1130)) || (second >= hm(1300) && second < hm(1500))
}

// ---- Dates ----

/// A day of the proleptic Gregorian calendar.
#[derive(Debug, Clone, Copy, PartialEq, Eq, Structural)]
pub struct CalendarDate {
    pub year: i32,
    pub month: u32,
    pub day: u32,
}

/// The first year that dates are kept for.
pub const FIRST_YEAR: i32 = -262_143;

/// The last year that dates are kept for.
pub const LAST_YEAR: i32 = 262_142;

/// Whether a year has a leap day.
pub open spec fn is_leap(year: int) -> bool {
    (year % 4 == 0 && year % 100 != 0) || year % 400 == 0
}

/// The number of days of a month.
pub open spec fn month_length(year: int, month: int) -> int {
    if month == 2 {
        if is_leap(year) {
            29
        } else {
            28
        }
    } else if month == 4 || month == 6 || month == 9 || month == 11 {
        30
    } else {
        31
    }
}

/// The number of days of a year before a month.
pub open spec fn days_before(year: int, month: int) -> int
    decreases month,
{
    if month <= 1 {
        0
    } else {
        days_before(year, month - 1) + month_length(year, month - 1)
    }
}

/// Days from 1970-01-01 to a day.
pub open spec fn day_number(year: int, month: int, day: int) -> int {
    365 * (year - 1) + (year - 1) / 4 - (year - 1) / 100 + (year - 1) / 400 + days_before(
        year,
        month,
    ) + day - 719_163
}

/// The day of the week, from nothing for Monday to six for Sunday.
pub open spec fn weekday_number(year: int, month: int, day: int) -> int {
    (day_number(year, month, day) + 3) % 7
}

impl CalendarDate {
    /// Whether there is such a day.
    pub open spec fn exists_in_calendar(self) -> bool {
        &&& FIRST_YEAR <= self.year <= LAST_YEAR
        &&& 1 <= self.month <= 12
        &&& 1 <= self.day <= month_length(self.year as int, self.month as int)
    }

    /// Days from 1970-01-01.
    pub open spec fn number(self) -> int {
        day_number(self.year as int, self.month as int, self.day as int)
    }
}

/// The day of the week of a date, by `chrono::NaiveDate::weekday`: counted from Monday,
/// it is the number of days since 1970-01-01, a Thursday, in weeks.
#[verifier::external_body]
fn weekday(date: CalendarDate) -> (r: u32)
    requires
        date.exists_in_calendar(),
    ensures
        r == weekday_number(date.year as int, date.month as int, date.day as int),
{
    NaiveDate::from_ymd_opt(date.year, date.month, date.day)
        .unwrap()
        .weekday()
        .num_days_from_monday()
}

/// The days from one date to another, by `chrono::NaiveDate::signed_duration_since`:
/// the difference of their numbers in the proleptic Gregorian calendar.
#[verifier::external_body]
pub(crate) fn days_between(later: CalendarDate, earlier: CalendarDate) -> (r: i64)
    requires
        later.exists_in_calendar(),
        earlier.exists_in_calendar(),
    ensures
        r == later.number() - earlier.number(),
{
    let from = NaiveDate::from_ymd_opt(earlier.year, earlier.month, earlier.day).unwrap();
    let to = NaiveDate::from_ymd_opt(later.year, later.month, later.day).unwrap();
    to.signed_duration_since(from).num_days()
}

/// The year, month and day that `chrono::NaiveDate::parse_from_str` reads from a text in
/// a format, if it reads any.
pub uninterp spec fn date_in_text(text: Seq<char>, format: Seq<char>) -> Option<(i32, u32, u32)>;

/// Reads a date by `chrono::NaiveDate::parse_from_str`. What is read is named by
/// [`date_in_text`]; it is a day of the calendar.
#[verifier::external_body]
pub(crate) fn parse_date_text(text: &str, format: &str) -> (r: Option<CalendarDate>)
    ensures
        r matches Some(date) ==> date.exists_in_calendar(),
        date_in_text(text@, format@) == match r {
            Some(date) => Some((date.year, date.month, date.day)),
            None => None,
        },
{
    match NaiveDate::parse_from_str(text, format) {
        Ok(d) => Some(CalendarDate { year: d.year(), month: d.month(), day: d.day() }),
        Err(_) => None,
    }
}

/// The day of the month of its fourth Wednesday: three weeks after the first.
pub open spec fn fourth_wednesday(year: int, month: int) -> int {
    22 + (9 - weekday_number(year, month, 1)) % 7
}

/// The fourth Wednesday of a month, on which its options expire.
pub fn get_4th_wednesday(year: i32, month: u32) -> (r: CalendarDate)
    requires
        FIRST_YEAR <= year <= LAST_YEAR,
        1 <= month <= 12,
    ensures
        r.year == year,
        r.month == month,
        r.day == fourth_wednesday(year as int, month as int),
        22 <= r.day <= 28,
        weekday_number(year as int, month as int, r.day as int) == 2,
        r.exists_in_calendar(),
{
    let first = CalendarDate { year, month, day: 1 };
    let offset: u32 = (2 + 7 - weekday(first)) % 7;
    CalendarDate { year, month, day: 1 + offset + 21 }
}

/// The fourth Wednesday is the only one from the 22nd to the 28th of the month, and
/// there are just three before it.
pub proof fn law_fourth_wednesday(year: int, month: int, day: int)
    requires
        22 <= day <= 28,
        weekday_number(year, month, day) == 2,
    ensures
        forall|d: int|
            1 <= d <= 28 ==> (#[trigger] weekday_number(year, month, d) == 2 <==> d == day || d == day
                - 7 || d == day - 14 || d == day - 21),
{
    assert forall|d: int| 1 <= d <= 28 implies (#[trigger] weekday_number(year, month, d) == 2 <==> d
        == day || d == day - 7 || d == day - 14 || d == day - 21) by {
        assert(day_number(year, month, d) - d == day_number(year, month, day) - day);
    }
}

// ---- Moments ----

/// A point in local time.
#[derive(Debug, Clone, Copy, PartialEq, Eq, Structural)]
pub struct Moment {
    /// Days since 1970-01-01.
    pub day: i64,
    /// Seconds since midnight.
    pub second: u32,
    /// Nanoseconds since the whole second; a thousand million or more in a leap second.
    pub nano: u32,
}

/// Nanoseconds in a second.
pub const SECOND_NANOS: i128 = 1_000_000_000;

impl Moment {
    /// A second of the day, and nanoseconds of at most two seconds.
    pub open spec fn wf(self) -> bool {
        &&& -100_000_000 <= self.day <= 100_000_000
        &&& self.second < 86_400
        &&& self.nano < 2_000_000_000
    }

    /// Whether the moment lies in a leap second.
    pub open spec fn in_leap_second(self) -> bool {
        self.nano >= 1_000_000_000
    }

    /// The seconds from an earlier time of day to a later one; a leap second between
    /// them counts.
    pub open spec fn seconds_after(self, earlier: Moment) -> int {
        self.second - earlier.second + (if self.second > earlier.second
            && earlier.in_leap_second() {
            1int
        } else if self.second < earlier.second && self.in_leap_second() {
            -1
        } else {
            0
        })
    }

    /// The nanoseconds from another moment to this one.
    pub open spec fn nanos_since(self, other: Moment) -> int {
        ((self.day - other.day) * 86_400 + self.seconds_after(other)) * 1_000_000_000 + self.nano
            - other.nano
    }

    /// Whether this moment comes before another.
    pub open spec fn before(self, other: Moment) -> bool {
        ||| self.day < other.day
        ||| self.day == other.day && self.second < other.second
        ||| self.day == other.day && self.second == other.second && self.nano < other.nano
    }

    /// The moment a positive number of seconds later. A leap second is left at once.
    pub open spec fn later(self, seconds: int) -> Moment {
        let total = self.second + seconds;
        Moment {
            day: (self.day + total / 86_400) as i64,
            second: (total % 86_400) as u32,
            nano: if self.in_leap_second() {
                (self.nano - 1_000_000_000) as u32
            } else {
                self.nano
            },
        }
    }

    /// The nanoseconds from another moment to this one.
    pub fn since(&self, other: &Moment) -> (r: i128)
        requires
            self.wf(),
            other.wf(),
        ensures
            r == self.nanos_since(*other),
    {
        let mut seconds: i128 = self.second as i128 - other.second as i128;
        if self.second > other.second && other.nano >= 1_000_000_000 {
            seconds = seconds + 1;
        } else if self.second < other.second && self.nano >= 1_000_000_000 {
            seconds = seconds - 1;
        }
        let days: i128 = self.day as i128 - other.day as i128;
        (days * 86_400 + seconds) * SECOND_NANOS + self.nano as i128 - other.nano as i128
    }

    /// Whether this moment comes before another.
    pub fn is_before(&self, other: &Moment) -> (r: bool)
        ensures
            r == self.before(*other),
    {
        self.day < other.day || (self.day == other.day && (self.second < other.second || (
        self.second == other.second && self.nano < other.nano)))
    }

    /// The moment a positive number of seconds, at most a day, later.
    pub fn plus_seconds(&self, seconds: u32) -> (r: Moment)
        requires
            self.wf(),
            0 < seconds <= 86_400,
        ensures
            r == self.later(seconds as int),
    {
        let total: u32 = self.second + seconds;
        Moment {
            day: self.day + (total / 86_400) as i64,
            second: total % 86_400,
            nano: if self.nano >= 1_000_000_000 {
                self.nano - 1_000_000_000
            } else {
                self.nano
            },
        }
    }
}

/// The seconds of a time span, its fraction dropped, without sign.
pub open spec fn whole_seconds(nanos: int) -> int {
    if nanos < 0 {
        (-nanos) / 1_000_000_000
    } else {
        nanos / 1_000_000_000
    }
}

/// The day, second and nanosecond that `chrono::NaiveDateTime::parse_from_str` reads from a
/// text in a format, if it reads any.
pub uninterp spec fn moment_in_text(text: Seq<char>, format: Seq<char>) -> Option<
    (i64, u32, u32),
>;

/// Reads a date and a time of day by `chrono::NaiveDateTime::parse_from_str`. What is read
/// is named by [`moment_in_text`]; the time is one of its day, and the day, which
/// `chrono` ends with the year 262142, is less than a hundred million days after 1970-01-01.
#[verifier::external_body]
fn parse_moment_text(text: &str, format: &str) -> (r: Option<Moment>)
    ensures
        r matches Some(m) ==> m.wf() && m.day < 100_000_000,
        moment_in_text(text@, format@) == match r {
            Some(m) => Some((m.day, m.second, m.nano)),
            None => None,
        },
{
    match NaiveDateTime::parse_from_str(text, format) {
        Ok(t) => Some(
            Moment {
                day: t.date().to_epoch_days() as i64,
                second: t.num_seconds_from_midnight(),
                nano: t.nanosecond(),
            },
        ),
        Err(_) => None,
    }
}

/// The format with milliseconds.
pub open spec fn millis_format() -> Seq<char> {
    "%Y-%m-%d %H:%M:%S%.3f"@
}

/// The format with microseconds.
pub open spec fn micros_format() -> Seq<char> {
    "%Y-%m-%d %H:%M:%S%.6f"@
}

/// The format with whole seconds.
pub open spec fn seconds_format() -> Seq<char> {
    "%Y-%m-%d %H:%M:%S"@
}

/// The first of two results that is there.
pub open spec fn first_of<T>(a: Option<T>, b: Option<T>) -> Option<T> {
    match a {
        Some(v) => Some(v),
        None => b,
    }
}

/// The moment that a date text writes: milliseconds, microseconds or whole seconds, and
/// the same without a time zone that follows a `+`, but for microseconds.
pub open spec fn moment_of_date(text: Seq<char>) -> Option<(i64, u32, u32)> {
    let plain = first_of(
        moment_in_text(text, millis_format()),
        first_of(
            moment_in_text(text, micros_format()),
            moment_in_text(text, seconds_format()),
        ),
    );
    let plus = char_place(text, '+', 0);
    if plus < text.len() {
        let local = text.take(plus);
        first_of(
            plain,
            first_of(
                moment_in_text(local, millis_format()),
                moment_in_text(local, seconds_format()),
            ),
        )
    } else {
        plain
    }
}

/// Reads the moment that a date text writes, with or without fractions of a second and a
/// time zone.
pub fn parse_date(text: &str) -> (r: Option<Moment>)
    ensures
        r matches Some(m) ==> m.wf() && m.day < 100_000_000,
        moment_of_date(text@) == match r {
            Some(m) => Some((m.day, m.second, m.nano)),
            None => None,
        },
{
    let first = parse_moment_text(text, "%Y-%m-%d %H:%M:%S%.3f");
    if first.is_some() {
        return first;
    }
    let second = parse_moment_text(text, "%Y-%m-%d %H:%M:%S%.6f");
    if second.is_some() {
        return second;
    }
    let third = parse_moment_text(text, "%Y-%m-%d %H:%M:%S");
    if third.is_some() {
        return third;
    }
    let plus = find_char(text, '+');
    if plus < text.unicode_len() {
        let local = text.substring_char(0, plus);
        assert(local@ =~= text@.take(plus as int));
        let fourth = parse_moment_text(local, "%Y-%m-%d %H:%M:%S%.3f");
        if fourth.is_some() {
            return fourth;
        }
        return parse_moment_text(local, "%Y-%m-%d %H:%M:%S");
    }
    None
}

// ---- Timestamps as text ----

/// Seconds that the clocks of the exchange are ahead of Unix time.
pub const LOCAL_OFFSET: i64 = 28_800;

/// Division that drops the fraction.
pub open spec fn quotient(a: int, b: int) -> int {
    if a < 0 {
        -((-a) / b)
    } else {
        a / b
    }
}

/// What division that drops the fraction leaves.
pub open spec fn remainder(a: int, b: int) -> int {
    if a < 0 {
        -((-a) % b)
    } else {
        a % b
    }
}

/// The year of a day, and the place of the day in it. The cycles of the calendar count
/// from 1970 as if it began one, which is good enough for display.
pub open spec fn rough_year(days: int) -> (int, int) {
    let y400 = quotient(days, 146_097);
    let r400 = remainder(days, 146_097);
    let y100 = quotient(r400, 36_524);
    let r100 = remainder(r400, 36_524);
    let y4 = quotient(r100, 1461);
    let r4 = remainder(r100, 1461);
    let y1 = quotient(r4, 365);
    (1970 + y400 * 400 + y100 * 100 + y4 * 4 + y1, remainder(r4, 365))
}

/// The day of its month that a day of the year is, with the month; month nothing where
/// the months up to December do not reach it.
pub open spec fn month_and_day(year: int, day: int, month: int) -> (int, int)
    decreases 13 - month,
{
    if month > 12 {
        (0, day)
    } else if day <= month_length(year, month) {
        (month, day)
    } else {
        month_and_day(year, day - month_length(year, month), month + 1)
    }
}

/// A day of the year as an unsigned number of 32 bits, counted from one.
pub open spec fn day_of_year(place: int) -> int {
    if place < 0 {
        place + 0x1_0000_0000 + 1
    } else {
        place + 1
    }
}

/// The text of a second of local time: date, and hours, minutes and seconds.
pub open spec fn timestamp_text(ts_sec: int) -> Seq<char> {
    let secs = remainder(ts_sec, 86_400);
    let (year, place) = rough_year(quotient(ts_sec, 86_400));
    let (month, day) = month_and_day(year, day_of_year(place), 1);
    padded(year, 4) + "-"@ + padded(month, 2) + "-"@ + padded(day, 2) + " "@ + padded(
        quotient(secs, 3600),
        2,
    ) + ":"@ + padded(quotient(remainder(secs, 3600), 60), 2) + ":"@ + padded(
        remainder(secs, 60),
        2,
    )
}

fn length_of_month(leap: bool, month: u32) -> (r: u32)
    requires
        1 <= month <= 12,
    ensures
        forall|year: int| is_leap(year) == leap ==> r == month_length(year, month as int),
        28 <= r <= 31,
{
    if month == 2 {
        if leap {
            29
        } else {
            28
        }
    } else if month == 4 || month == 6 || month == 9 || month == 11 {
        30
    } else {
        31
    }
}

proof fn lemma_leap(year: int)
    requires
        year >= 0,
    ensures
        is_leap(-year) == ((remainder(-year, 4) == 0 && remainder(-year, 100) != 0) || remainder(
            -year,
            400,
        ) == 0),
{
}

fn year_and_place(days: i64) -> (r: (i64, i64))
    requires
        -200_000_000_000_000 <= days <= 200_000_000_000_000,
    ensures
        (r.0 as int, r.1 as int) == rough_year(days as int),
        -365 < r.1 < 365,
        -1_000_000_000_000 <= r.0 <= 1_000_000_000_000,
{
    let y400: i64 = days / 146_097;
    let r400: i64 = days % 146_097;
    let y100: i64 = r400 / 36_524;
    let r100: i64 = r400 % 36_524;
    let y4: i64 = r100 / 1461;
    let r4: i64 = r100 % 1461;
    (1970 + y400 * 400 + y100 * 100 + y4 * 4 + r4 / 365, r4 % 365)
}

fn leap_year(year: i64) -> (r: bool)
    ensures
        r == is_leap(year as int),
{
    proof {
        if year < 0 {
            lemma_leap(-(year as int));
        }
    }
    (year % 4 == 0 && year % 100 != 0) || year % 400 == 0
}

fn find_month(year: i64, first: u32) -> (r: (u32, u32))
    ensures
        (r.0 as int, r.1 as int) == month_and_day(year as int, first as int, 1),
{
    let leap = leap_year(year);
    let mut day: u32 = first;
    let mut month: u32 = 1;
    while month <= 12 && day > length_of_month(leap, month)
        invariant
            1 <= month <= 13,
            leap == is_leap(year as int),
            month_and_day(year as int, first as int, 1) == month_and_day(
                year as int,
                day as int,
                month as int,
            ),
        decreases 13 - month,
    {
        day = day - length_of_month(leap, month);
        month = month + 1;
    }
    if month > 12 {
        (0, day)
    } else {
        (month, day)
    }
}

fn local_text(local: i64) -> (r: String)
    requires
        rough_year(quotient(local as int, 86_400)).1 != -1,
    ensures
        r@ == timestamp_text(local as int),
{
    let secs: i64 = local % 86_400;
    let (year, place) = year_and_place(local / 86_400);
    let first: u32 = if place < 0 {
        (0x1_0000_0000i64 + place + 1) as u32
    } else {
        place as u32 + 1
    };
    let (month, day) = find_month(year, first);
    let mut text = padded_text(year, 4);
    text.append("-");
    text.append(padded_text(month as i64, 2).as_str());
    text.append("-");
    text.append(padded_text(day as i64, 2).as_str());
    text.append(" ");
    text.append(padded_text(secs / 3600, 2).as_str());
    text.append(":");
    text.append(padded_text((secs % 3600) / 60, 2).as_str());
    text.append(":");
    text.append(padded_text(secs % 60, 2).as_str());
    text
}

/// Formats a Unix timestamp as the date and time that the clocks of the exchange show,
/// eight hours ahead.
pub fn fmt_ts(ts_sec: i64) -> (r: String)
    requires
        ts_sec + LOCAL_OFFSET <= i64::MAX,
        rough_year(quotient(ts_sec + LOCAL_OFFSET, 86_400)).1 != -1,
    ensures
        r@ == timestamp_text(ts_sec + LOCAL_OFFSET),
{
    local_text(ts_sec + LOCAL_OFFSET)
}

} // verus!
