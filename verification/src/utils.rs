//! Readings of the system clock.
use vstd::prelude::*;
use crate::calendar::UtcInstant;

verus! {

/// Returns the current timestamp in microseconds since the Unix epoch, as
/// `SystemTime::now` reports it. Nothing is promised of the reading: the
/// system clock may be set to any time, and may be set back between two
/// calls.
#[verifier::external_body]
pub fn timestamp() -> u64 {
    std::time::SystemTime::now()
        .duration_since(std::time::UNIX_EPOCH)
        .expect("SystemTime before UNIX EPOCH!")
        .as_micros() as u64
}

/// Gets the current instant on the UTC time line.
pub fn get_current_datetime_utc() -> (out: UtcInstant)
    ensures
        out.is_valid(),
{
    UtcInstant::now()
}

} // verus!
