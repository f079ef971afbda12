//! Signal triggers: a time of day to fire at and the seconds between
//! firings.
use vstd::prelude::*;
use vstd::string::StringExecFns;
use crate::error::{outcome, AppError, AppErrorView};
use crate::models::time::{parse_military_time, MilitaryTime};
use crate::text::{
    chars_of, parse_i64, parse_integer, split, split_range, strip_leading, strip_leading_range,
    trim, trim_range,
};

verus! {

broadcast use vstd::string::group_string_axioms;

/// Defines a designated point-in-time (MilitaryTime) and the sleep duration
/// measured in seconds. A `SignalTrigger` stores a time-scale, useful to
/// trigger an event or notification alert.
#[derive(Debug, Clone, Copy, PartialEq, Eq, Structural)]
pub struct SignalTrigger {
    /// The time of day at which the trigger fires.
    pub time: MilitaryTime,
    /// The time-span in-between triggers, measured in seconds.
    pub interval_seconds: i64,
}

/// What the text of a signal trigger stands for.
///
/// With white space around it left out, the text is cut at each `::I`
/// and must fall into exactly two pieces. The first, without its leading
/// `M` markers, is read as a military time. The second is read as a
/// decimal number of seconds, which may carry a sign and must not be
/// negative.
pub open spec fn parse_signal_trigger(s: Seq<char>) -> Result<SignalTrigger, AppErrorView> {
    let parts = split(trim(s), seq![':', ':', 'I']);
    if parts.len() != 2 {
        Err(AppErrorView::InvalidInputString("Invalid signal trigger format"@))
    } else {
        match parse_military_time(strip_leading(parts[0], 'M')) {
            Err(e) => Err(
                AppErrorView::ParseError("Failed to parse signal trigger time: "@ + e.display()),
            ),
            Ok(time) => match parse_integer(parts[1], true, 0, i64::MAX as int) {
                None => Err(AppErrorView::ParseError("Failed to parse signal trigger interval"@)),
                Some(seconds) => Ok(SignalTrigger { time, interval_seconds: seconds as i64 }),
            },
        }
    }
}

impl SignalTrigger {
    /// Creates a new SignalTrigger with the specified `time` and `interval`.
    pub fn new(time: MilitaryTime, interval_seconds: i64) -> (out: Self)
        ensures
            out == (SignalTrigger { time, interval_seconds }),
    {
        Self { time, interval_seconds }
    }

    /// Parses a string representation of a signal trigger into a
    /// `SignalTrigger` instance.
    ///
    /// The input string should be formatted as "MHH:MM:SS::Ii64", where:
    /// - `M` is a `char` delimiter indicating the start of the time part.
    /// - `HH` represents the hour component in 24-hour format.
    /// - `MM` represents the minute component.
    /// - `SS` represents the second component.
    /// - `::` is a delimiter to separate end of time string and start of
    ///   interval string.
    /// - `I` is a `char` delimiter to indicate start of interval.
    /// - `i64` represents the interval between signals, in seconds.
    ///
    /// A text that does not fall into two pieces at `::I` gives
    /// `InvalidInputString`; a time or an interval that cannot be read
    /// gives `ParseError`.
    pub fn from_str(input: &str) -> (out: Result<SignalTrigger, AppError>)
        ensures
            outcome(out) == parse_signal_trigger(input@),
    {
        let v = chars_of(input);
        assert(v@.subrange(0, v@.len() as int) =~= v@);
        let (lo, hi) = trim_range(&v, 0, v.len());
        let mut delimiter: Vec<char> = Vec::new();
        delimiter.push(':');
        delimiter.push(':');
        delimiter.push('I');
        assert(delimiter@ =~= seq![':', ':', 'I']);
        let parts = split_range(&v, lo, hi, &delimiter);
        if parts.len() != 2 {
            return Err(AppError::InvalidInputString("Invalid signal trigger format".to_owned()));
        }
        let time_start = strip_leading_range(&v, parts[0].0, parts[0].1, 'M');
        let time = match MilitaryTime::parse_range(&v, time_start, parts[0].1) {
            Ok(time) => time,
            Err(err) => {
                let message = "Failed to parse signal trigger time: ".to_owned().concat(
                    err.to_string().as_str(),
                );
                return Err(AppError::ParseError(message));
            },
        };
        let interval_seconds = match parse_i64(&v, parts[1].0, parts[1].1) {
            Some(n) => n,
            None => {
                return Err(
                    AppError::ParseError("Failed to parse signal trigger interval".to_owned()),
                );
            },
        };
        if interval_seconds < 0 {
            return Err(AppError::ParseError("Failed to parse signal trigger interval".to_owned()));
        }
        Ok(SignalTrigger::new(time, interval_seconds))
    }
}

} // verus!
