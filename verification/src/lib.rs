//! Recurring, time-triggered events: recurrence grammar, calendar-exact
//! durations, trigger points and the identifiers that name every entity.
use vstd::prelude::*;

pub mod calendar;
pub mod error;
pub mod models;
pub mod text;
pub mod utils;

verus! {

/// Days in a single week.
pub const DAYS_IN_WEEK: i64 = 7;

/// Days in a year. (Approximation)
pub const DAYS_IN_YEAR: i64 = 365;

/// Days in a month. (Approximation)
pub const DAYS_IN_MONTH: i64 = 30;

/// Number of seconds in a day.
pub const SECS_IN_DAY: i64 = 86_400;

/// Number of seconds in a week.
pub const SECS_IN_WEEK: i64 = 604_800;

/// Number of seconds in a bi-weekly period (two weeks).
pub const SECS_IN_BI_WEEKLY: i64 = 1_209_600;

/// Number of seconds in a month. (Approximation of thirty days)
pub const SECS_IN_MONTH: i64 = 2_592_000;

/// Number of seconds in a quarter. (Approximation of ninety days)
pub const SECS_IN_QUARTER: i64 = 7_776_000;

} // verus!
