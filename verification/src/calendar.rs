//! Calendar values held as plain numbers: dates of the proleptic Gregorian
//! calendar, instants on the UTC time line and spans of whole seconds.
//!
//! The calendar arithmetic itself is done by `chrono`; the functions that
//! call it state what it returns over the calendar defined here.
use vstd::prelude::*;
use crate::models::time::MilitaryTime;

verus! {

/// The first year that holds calendar dates.
pub const MIN_YEAR: i32 = -262_143;

/// The last year that holds calendar dates.
pub const MAX_YEAR: i32 = 262_142;

/// Seconds from 1970-01-01T00:00:00 to the first instant, the start of
/// `MIN_YEAR`.
pub const MIN_TIMESTAMP: i64 = -8_334_601_228_800;

/// Seconds from 1970-01-01T00:00:00 to the last second of `MAX_YEAR`.
pub const MAX_TIMESTAMP: i64 = 8_210_266_876_799;

/// The most seconds, in either direction, that a `TimeSpan` holds.
pub const MAX_SPAN_SECONDS: i64 = 9_223_372_036_854_775;

/// The most days, in either direction, that a `TimeSpan` holds.
pub const MAX_SPAN_DAYS: i64 = 106_751_991_167;

/// The day number of 1970-01-01.
pub const UNIX_EPOCH_DAY: i64 = 719_163;

/// A leap year of the Gregorian calendar.
pub open spec fn is_leap_year(year: int) -> bool {
    year % 4 == 0 && (year % 100 != 0 || year % 400 == 0)
}

/// The number of days of `month` in `year`.
pub open spec fn days_in_month(year: int, month: int) -> int {
    if month == 2 {
        if is_leap_year(year) {
            29
        } else {
            28
        }
    } else if month == 4 || month == 6 || month == 9 || month == 11 {
        30
    } else {
        31
    }
}

/// `year`, `month` and `day` name a date of the calendar.
pub open spec fn is_calendar_date(year: int, month: int, day: int) -> bool {
    &&& MIN_YEAR <= year <= MAX_YEAR
    &&& 1 <= month <= 12
    &&& 1 <= day <= days_in_month(year, month)
}

/// The days from the start of year 1 to the start of `year`.
pub open spec fn days_before_year(year: int) -> int {
    let y = year - 1;
    365 * y + y / 4 - y / 100 + y / 400
}

/// The days from the start of `year` to the start of its `month`.
pub open spec fn days_before_month(year: int, month: int) -> int
    decreases month,
{
    if month <= 1 {
        0
    } else {
        days_before_month(year, month - 1) + days_in_month(year, month - 1)
    }
}

/// The number of a day, counted so that 0001-01-01 is day 1.
pub open spec fn day_number(year: int, month: int, day: int) -> int {
    days_before_year(year) + days_before_month(year, month) + day
}

/// The number of days of `year`.
pub open spec fn days_in_year(year: int) -> int {
    if is_leap_year(year) {
        366
    } else {
        365
    }
}

/// The day after the day `day` of `month` in `year`, as year, month and
/// day.
pub open spec fn next_day(year: int, month: int, day: int) -> (int, int, int) {
    if day < days_in_month(year, month) {
        (year, month, day + 1)
    } else if month < 12 {
        (year, month + 1, 1)
    } else {
        (year + 1, 1, 1)
    }
}

/// The days before a month, and the twelve months together, for each
/// month of a year.
pub proof fn lemma_days_before_month(year: int)
    ensures
        days_before_month(year, 1) == 0,
        days_before_month(year, 2) == 31,
        days_before_month(year, 3) == 31 + days_in_month(year, 2),
        days_before_month(year, 4) == 62 + days_in_month(year, 2),
        days_before_month(year, 5) == 92 + days_in_month(year, 2),
        days_before_month(year, 6) == 123 + days_in_month(year, 2),
        days_before_month(year, 7) == 153 + days_in_month(year, 2),
        days_before_month(year, 8) == 184 + days_in_month(year, 2),
        days_before_month(year, 9) == 215 + days_in_month(year, 2),
        days_before_month(year, 10) == 245 + days_in_month(year, 2),
        days_before_month(year, 11) == 276 + days_in_month(year, 2),
        days_before_month(year, 12) == 306 + days_in_month(year, 2),
        days_before_month(year, 13) == days_in_year(year),
{
    reveal_with_fuel(days_before_month, 14);
}

/// A year is as long as its months together: the next year starts
/// `days_in_year` days after the year.
pub proof fn lemma_year_length(year: int)
    ensures
        days_before_year(year + 1) - days_before_year(year) == days_in_year(year),
        day_number(year + 1, 1, 1) - day_number(year, 1, 1) == days_in_year(year),
{
    lemma_days_before_month(year);
    lemma_days_before_month(year + 1);
}

/// Day numbers count the days of the calendar one by one: the day after
/// a date has the next number.
pub proof fn lemma_next_day(year: int, month: int, day: int)
    requires
        1 <= month <= 12,
        1 <= day <= days_in_month(year, month),
    ensures
        ({
            let next = next_day(year, month, day);
            &&& 1 <= next.1 <= 12
            &&& 1 <= next.2 <= days_in_month(next.0, next.1)
            &&& day_number(next.0, next.1, next.2) == day_number(year, month, day) + 1
        }),
{
    lemma_days_before_month(year);
    lemma_year_length(year);
    lemma_days_before_month(year + 1);
}

/// The limits of the time line are the limits of the calendar, counted
/// in seconds from the first day of 1970: the first instant is the start
/// of the first day of `MIN_YEAR`, the last one lies in the last second
/// of the last day of `MAX_YEAR`.
pub proof fn lemma_time_line_bounds()
    ensures
        day_number(1, 1, 1) == 1,
        day_number(1970, 1, 1) == UNIX_EPOCH_DAY,
        MIN_TIMESTAMP == (day_number(MIN_YEAR as int, 1, 1) - UNIX_EPOCH_DAY) * 86_400,
        MAX_TIMESTAMP == (day_number(MAX_YEAR as int, 12, 31) - UNIX_EPOCH_DAY) * 86_400
            + 86_399,
        MAX_SPAN_DAYS * 86_400 <= MAX_SPAN_SECONDS < (MAX_SPAN_DAYS + 1) * 86_400,
        MAX_SPAN_SECONDS == i64::MAX / 1000,
{
    lemma_days_before_month(1);
    lemma_days_before_month(1970);
    lemma_days_before_month(MIN_YEAR as int);
    lemma_days_before_month(MAX_YEAR as int);
}

/// `NaiveDate::from_ymd_opt`: tells whether `year`, `month` and `day` name
/// a date. chrono holds the dates of the proleptic Gregorian calendar from
/// `MIN_YEAR` to `MAX_YEAR`.
#[verifier::external_body]
fn date_exists(year: i32, month: u32, day: u32) -> (b: bool)
    ensures
        b == is_calendar_date(year as int, month as int, day as int),
{
    chrono::NaiveDate::from_ymd_opt(year, month, day).is_some()
}

/// `NaiveDate::signed_duration_since`, read with `num_days`: the number
/// of days from one date to another, negative when `to` is the earlier.
#[verifier::external_body]
fn days_between(from: &CalendarDate, to: &CalendarDate) -> (days: i64)
    requires
        from.is_valid(),
        to.is_valid(),
    ensures
        days == to.day_number() - from.day_number(),
{
    let start = chrono::NaiveDate::from_ymd_opt(from.year, from.month, from.day).unwrap();
    let end = chrono::NaiveDate::from_ymd_opt(to.year, to.month, to.day).unwrap();
    end.signed_duration_since(start).num_days()
}

/// `TimeDelta::try_days`, read with `num_seconds`: the seconds of a span
/// of `days` days, or nothing where chrono cannot hold such a span.
#[verifier::external_body]
fn span_seconds_of_days(days: i64) -> (secs: Option<i64>)
    ensures
        secs is Some <==> -MAX_SPAN_DAYS <= days <= MAX_SPAN_DAYS,
        secs matches Some(s) ==> s == days * 86_400,
{
    chrono::TimeDelta::try_days(days).map(|d| d.num_seconds())
}

/// `DateTime::checked_add_signed` on a UTC instant given as seconds and
/// nanoseconds since 1970-01-01T00:00:00: the instant `delta` seconds
/// later, or nothing where it lies outside the calendar.
#[verifier::external_body]
fn instant_plus_seconds(secs: i64, nanos: u32, delta: i64) -> (out: Option<(i64, u32)>)
    requires
        MIN_TIMESTAMP <= secs <= MAX_TIMESTAMP,
        nanos < 1_000_000_000,
        -MAX_SPAN_SECONDS <= delta <= MAX_SPAN_SECONDS,
    ensures
        out is Some <==> MIN_TIMESTAMP <= secs + delta <= MAX_TIMESTAMP,
        out matches Some(t) ==> t.0 == secs + delta && t.1 == nanos,
{
    let start = chrono::DateTime::from_timestamp(secs, nanos)?;
    let end = start.checked_add_signed(chrono::TimeDelta::try_seconds(delta)?)?;
    Some((end.timestamp(), end.timestamp_subsec_nanos()))
}

/// `Utc::now`: the current instant as seconds and nanoseconds since
/// 1970-01-01T00:00:00.
#[verifier::external_body]
fn utc_now() -> (now: (i64, u32))
    ensures
        MIN_TIMESTAMP <= now.0 <= MAX_TIMESTAMP,
        now.1 < 1_000_000_000,
{
    let now = chrono::Utc::now();
    (now.timestamp(), now.timestamp_subsec_nanos())
}

/// A date of the proleptic Gregorian calendar.
#[derive(Debug, Clone, Copy, PartialEq, Eq, Structural)]
pub struct CalendarDate {
    pub year: i32,
    pub month: u32,
    pub day: u32,
}

impl CalendarDate {
    /// The fields name a date of the calendar.
    pub open spec fn is_valid(&self) -> bool {
        is_calendar_date(self.year as int, self.month as int, self.day as int)
    }

    /// The number of the day, counted so that 0001-01-01 is day 1.
    pub open spec fn day_number(&self) -> int {
        day_number(self.year as int, self.month as int, self.day as int)
    }

    /// The date `year`-`month`-`day`, where the calendar holds it.
    pub fn new(year: i32, month: u32, day: u32) -> (out: Option<CalendarDate>)
        ensures
            out is Some <==> is_calendar_date(year as int, month as int, day as int),
            out matches Some(d) ==> d == (CalendarDate { year, month, day }),
    {
        if date_exists(year, month, day) {
            Some(CalendarDate { year, month, day })
        } else {
            None
        }
    }

    /// The number of days from `self` to `other`, negative when `other`
    /// is the earlier date.
    pub fn days_until(&self, other: &CalendarDate) -> (days: i64)
        requires
            self.is_valid(),
            other.is_valid(),
        ensures
            days == other.day_number() - self.day_number(),
    {
        days_between(self, other)
    }
}

/// A date with a time of day, free of any time zone.
#[derive(Debug, Clone, Copy, PartialEq, Eq, Structural)]
pub struct CalendarDateTime {
    pub date: CalendarDate,
    pub time: MilitaryTime,
}

impl CalendarDateTime {
    /// The date is on the calendar and the time is on the clock.
    pub open spec fn is_valid(&self) -> bool {
        self.date.is_valid() && self.time.is_valid()
    }

    /// The given time of day on the given date, where both exist.
    pub fn new(year: i32, month: u32, day: u32, hour: u32, minute: u32, second: u32) -> (out:
        Option<CalendarDateTime>)
        ensures
            out is Some <==> is_calendar_date(year as int, month as int, day as int) && hour < 24
                && minute < 60 && second < 60,
            out matches Some(d) ==> d == (CalendarDateTime {
                date: CalendarDate { year, month, day },
                time: MilitaryTime { hour, minute, seconds: second },
            }),
    {
        let time = MilitaryTime::new(hour, minute, second);
        match CalendarDate::new(year, month, day) {
            Some(date) => if time.is_on_clock() {
                Some(CalendarDateTime { date, time })
            } else {
                None
            },
            None => None,
        }
    }
}

/// A span of whole seconds, forwards or backwards in time.
#[derive(Debug, Clone, Copy, PartialEq, Eq, Structural)]
pub struct TimeSpan {
    pub seconds: i64,
}

impl TimeSpan {
    /// The span is one that the calendar arithmetic can hold.
    pub open spec fn is_valid(&self) -> bool {
        -MAX_SPAN_SECONDS <= self.seconds <= MAX_SPAN_SECONDS
    }

    /// A span of `days` days of 86 400 seconds each, where it can be held.
    pub fn try_days(days: i64) -> (out: Option<TimeSpan>)
        ensures
            out is Some <==> -MAX_SPAN_DAYS <= days <= MAX_SPAN_DAYS,
            out matches Some(s) ==> s.seconds == days * 86_400 && s.is_valid(),
    {
        match span_seconds_of_days(days) {
            Some(seconds) => Some(TimeSpan { seconds }),
            None => None,
        }
    }

    /// The whole days in the span, rounded towards zero.
    pub fn num_days(&self) -> (days: i64)
        ensures
            self.seconds >= 0 ==> days == self.seconds / 86_400,
            self.seconds < 0 ==> days == -((-self.seconds) / 86_400),
    {
        self.seconds / 86_400
    }
}

/// An instant on the UTC time line, to the nanosecond.
#[derive(Debug, Clone, Copy, PartialEq, Eq, Structural)]
pub struct UtcInstant {
    /// Whole seconds since 1970-01-01T00:00:00, leap seconds not counted.
    pub secs: i64,
    /// Nanoseconds since the last whole second.
    pub nanos: u32,
}

impl UtcInstant {
    /// The instant lies within the calendar.
    pub open spec fn is_valid(&self) -> bool {
        MIN_TIMESTAMP <= self.secs <= MAX_TIMESTAMP && self.nanos < 1_000_000_000
    }

    /// The instant `seconds` later than `self`; earlier, where `seconds`
    /// is negative.
    pub open spec fn plus(&self, seconds: int) -> UtcInstant {
        UtcInstant { secs: (self.secs + seconds) as i64, nanos: self.nanos }
    }

    /// The instant `secs` seconds and `nanos` nanoseconds after
    /// 1970-01-01T00:00:00, where the calendar holds it.
    pub fn new(secs: i64, nanos: u32) -> (out: Option<UtcInstant>)
        ensures
            out is Some <==> (UtcInstant { secs, nanos }).is_valid(),
            out matches Some(t) ==> t == (UtcInstant { secs, nanos }),
    {
        if MIN_TIMESTAMP <= secs && secs <= MAX_TIMESTAMP && nanos < 1_000_000_000 {
            Some(UtcInstant { secs, nanos })
        } else {
            None
        }
    }

    /// The current instant, by the system clock.
    pub fn now() -> (out: UtcInstant)
        ensures
            out.is_valid(),
    {
        let (secs, nanos) = utc_now();
        UtcInstant { secs, nanos }
    }

    /// The instant `span` later than `self`, or nothing where that lies
    /// outside the calendar.
    pub fn checked_add(&self, span: TimeSpan) -> (out: Option<UtcInstant>)
        requires
            self.is_valid(),
            span.is_valid(),
        ensures
            out is Some <==> self.plus(span.seconds as int).is_valid(),
            out matches Some(t) ==> t == self.plus(span.seconds as int),
    {
        match instant_plus_seconds(self.secs, self.nanos, span.seconds) {
            Some((secs, nanos)) => Some(UtcInstant { secs, nanos }),
            None => None,
        }
    }
}

} // verus!
