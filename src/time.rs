use vstd::prelude::*;

use crate::key::Timestamp;

verus! {

/// Counts above this are taken as milliseconds, at or below it as seconds.
pub const MILLISECOND_THRESHOLD: u64 = 1_000_000_000_000;

/// The instant `timestamp` seconds after the Unix epoch.
pub fn to_datetime(timestamp: u64) -> (r: Timestamp)
    requires
        timestamp <= i64::MAX / 1000,
    ensures
        r == timestamp * 1000,
{
    (timestamp * 1000) as i64
}

/// The instant `timestamp` milliseconds after the Unix epoch.
pub fn to_datetime_ms(timestamp: u64) -> (r: Timestamp)
    requires
        timestamp <= i64::MAX,
    ensures
        r == timestamp,
{
    timestamp as i64
}

/// The instant of a count that may be in seconds or in milliseconds: counts
/// above `MILLISECOND_THRESHOLD` are milliseconds, the others seconds.
pub fn determine_timestamp(timestamp: u64) -> (r: Timestamp)
    requires
        timestamp <= i64::MAX,
    ensures
        r == if timestamp > MILLISECOND_THRESHOLD {
            timestamp as int
        } else {
            timestamp * 1000
        },
{
    if timestamp > MILLISECOND_THRESHOLD {
        to_datetime_ms(timestamp)
    } else {
        to_datetime(timestamp)
    }
}

} // verus!
