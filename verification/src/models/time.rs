//! The 24-hour clock and the step from an instant to a later one.
use vstd::prelude::*;
use vstd::pervasive::unreached;
use chrono::NaiveTime;
use crate::calendar::{TimeSpan, UtcInstant};
use crate::error::{outcome, AppError, AppErrorView};
use crate::text::{
    chars_of, parse_integer, parse_u32, split, split_range, trim, trim_range,
};

verus! {

broadcast use vstd::string::group_string_axioms;

/// A time of day of `chrono`, carried as it is.
#[verifier::external_type_specification]
#[verifier::external_body]
pub struct ExNaiveTime(NaiveTime);

/// The time of day that `NaiveTime::from_hms_opt` makes of an hour, a
/// minute and a second that a clock shows.
pub uninterp spec fn naive_time_of(hour: u32, minute: u32, second: u32) -> NaiveTime;

/// `NaiveTime::from_hms_opt`: the time of day with the given hour, minute
/// and second, where the clock shows such a time.
#[verifier::external_body]
fn naive_time_from_hms(hour: u32, minute: u32, second: u32) -> (out: Option<NaiveTime>)
    ensures
        out is Some <==> (hour < 24 && minute < 60 && second < 60),
        out matches Some(time) ==> time == naive_time_of(hour, minute, second),
{
    NaiveTime::from_hms_opt(hour, minute, second)
}

/// `Timelike::hour`: the hour of a time of day, from 0 to 23; of a time
/// made of hour, minute and second, the hour it was made of.
#[verifier::external_body]
fn naive_time_hour(time: &NaiveTime) -> (hour: u32)
    ensures
        hour < 24,
        forall|h: u32, m: u32, s: u32|
            (h < 24 && m < 60 && s < 60 && *time == naive_time_of(h, m, s)) ==> hour == h,
{
    chrono::Timelike::hour(time)
}

/// `Timelike::minute`: the minute of a time of day, from 0 to 59; of a
/// time made of hour, minute and second, the minute it was made of.
#[verifier::external_body]
fn naive_time_minute(time: &NaiveTime) -> (minute: u32)
    ensures
        minute < 60,
        forall|h: u32, m: u32, s: u32|
            (h < 24 && m < 60 && s < 60 && *time == naive_time_of(h, m, s)) ==> minute == m,
{
    chrono::Timelike::minute(time)
}

/// `Timelike::second`: the second of a time of day, from 0 to 59; of a
/// time made of hour, minute and second, the second it was made of.
#[verifier::external_body]
fn naive_time_second(time: &NaiveTime) -> (second: u32)
    ensures
        second < 60,
        forall|h: u32, m: u32, s: u32|
            (h < 24 && m < 60 && s < 60 && *time == naive_time_of(h, m, s)) ==> second == s,
{
    chrono::Timelike::second(time)
}

/// 24-Hour clock also known as military time
#[derive(Debug, Clone, Copy, PartialEq, Eq, Structural)]
pub struct MilitaryTime {
    /// Represents 24-Hour time format (hour, minute, seconds)
    pub hour: u32,
    pub minute: u32,
    pub seconds: u32,
}

/// What the text of a military time stands for: three fields between
/// colons, each an unsigned decimal number, with white space around the
/// whole left out. The fields are not held to the range of a clock.
pub open spec fn parse_military_time(s: Seq<char>) -> Result<MilitaryTime, AppErrorView> {
    let parts = split(trim(s), seq![':']);
    if parts.len() != 3 {
        Err(AppErrorView::InvalidInputString("Invalid military time format"@))
    } else {
        match parse_integer(parts[0], false, 0, u32::MAX as int) {
            None => Err(AppErrorView::ParseError("Failed to parse military time hour"@)),
            Some(hour) => match parse_integer(parts[1], false, 0, u32::MAX as int) {
                None => Err(AppErrorView::ParseError("Failed to parse military time minute"@)),
                Some(minute) => match parse_integer(parts[2], false, 0, u32::MAX as int) {
                    None => Err(
                        AppErrorView::ParseError("Failed to parse military time seconds"@),
                    ),
                    Some(seconds) => Ok(
                        MilitaryTime {
                            hour: hour as u32,
                            minute: minute as u32,
                            seconds: seconds as u32,
                        },
                    ),
                },
            },
        }
    }
}

impl MilitaryTime {
    /// The time is one that a 24-hour clock shows.
    pub open spec fn is_valid(&self) -> bool {
        self.hour < 24 && self.minute < 60 && self.seconds < 60
    }

    /// Constructs a new `MilitaryTime`.
    pub fn new(hour: u32, minute: u32, seconds: u32) -> (out: Self)
        ensures
            out == (MilitaryTime { hour, minute, seconds }),
    {
        MilitaryTime { hour, minute, seconds }
    }

    /// Tells whether the time is one that a 24-hour clock shows.
    pub fn is_on_clock(&self) -> (b: bool)
        ensures
            b == self.is_valid(),
    {
        self.hour < 24 && self.minute < 60 && self.seconds < 60
    }

    /// Reads the military time written in `v[start..end]`.
    pub fn parse_range(v: &Vec<char>, start: usize, end: usize) -> (out: Result<
        MilitaryTime,
        AppError,
    >)
        requires
            start <= end <= v.len(),
        ensures
            outcome(out) == parse_military_time(v@.subrange(start as int, end as int)),
    {
        let (lo, hi) = trim_range(v, start, end);
        let mut colon: Vec<char> = Vec::new();
        colon.push(':');
        assert(colon@ =~= seq![':']);
        let parts = split_range(v, lo, hi, &colon);
        if parts.len() != 3 {
            return Err(AppError::InvalidInputString("Invalid military time format".to_owned()));
        }
        let hour = match parse_u32(v, parts[0].0, parts[0].1) {
            Some(n) => n,
            None => {
                return Err(AppError::ParseError("Failed to parse military time hour".to_owned()));
            },
        };
        let minute = match parse_u32(v, parts[1].0, parts[1].1) {
            Some(n) => n,
            None => {
                return Err(
                    AppError::ParseError("Failed to parse military time minute".to_owned()),
                );
            },
        };
        let seconds = match parse_u32(v, parts[2].0, parts[2].1) {
            Some(n) => n,
            None => {
                return Err(
                    AppError::ParseError("Failed to parse military time seconds".to_owned()),
                );
            },
        };
        Ok(MilitaryTime { hour, minute, seconds })
    }

    /// Parses a string representation of military time into a
    /// `MilitaryTime` instance.
    ///
    /// The input string should be formatted as "HH:MM:SS", where:
    /// - `HH` represents the hour component in 24-hour format.
    /// - `MM` represents the minute component.
    /// - `SS` represents the second component.
    ///
    /// A text that does not hold exactly three fields gives
    /// `InvalidInputString`; a field that is no unsigned 32-bit decimal
    /// number gives `ParseError`, the first such field from the left.
    pub fn from_str(input: &str) -> (out: Result<MilitaryTime, AppError>)
        ensures
            outcome(out) == parse_military_time(input@),
    {
        let v = chars_of(input);
        assert(v@.subrange(0, v@.len() as int) =~= v@);
        MilitaryTime::parse_range(&v, 0, v.len())
    }

    /// Converts `MilitaryTime` to `chrono::NaiveTime`, where the clock
    /// shows such a time: the bounds of hour, minute and second are held
    /// here, not when the time is parsed.
    pub fn to_naive_time(&self) -> (out: Option<NaiveTime>)
        ensures
            out is Some <==> self.is_valid(),
            out matches Some(time) ==> time == naive_time_of(
                self.hour,
                self.minute,
                self.seconds,
            ),
    {
        naive_time_from_hms(self.hour, self.minute, self.seconds)
    }

    /// Converts `chrono::NaiveTime` to `MilitaryTime`, taking its hour,
    /// minute and second. This is the inverse of `to_naive_time`: the
    /// time of day made of a military time gives that military time back.
    pub fn from_naive_time(time: NaiveTime) -> (out: Self)
        ensures
            out.is_valid(),
            forall|h: u32, m: u32, s: u32|
                h < 24 && m < 60 && s < 60 && time == naive_time_of(h, m, s) ==> out == (
                MilitaryTime { hour: h, minute: m, seconds: s }),
    {
        MilitaryTime {
            hour: naive_time_hour(&time),
            minute: naive_time_minute(&time),
            seconds: naive_time_second(&time),
        }
    }
}

/// Adds a span of time to an instant and returns the result.
pub fn from_duration_to_datetime(datetime: UtcInstant, duration: TimeSpan) -> (out: UtcInstant)
    requires
        datetime.is_valid(),
        duration.is_valid(),
        datetime.plus(duration.seconds as int).is_valid(),
    ensures
        out == datetime.plus(duration.seconds as int),
{
    match datetime.checked_add(duration) {
        Some(t) => t,
        None => unreached(),
    }
}

} // verus!
