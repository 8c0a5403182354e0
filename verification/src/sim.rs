//! The fixed simulation schedule: how often the world steps and how often a
//! snapshot goes out.

use std::time::Duration;
use vstd::prelude::*;

verus! {

/// Simulation steps per second.
pub const TICK_RATE_HZ: u64 = 60;

/// Snapshots sent to the player per second.
pub const SNAPSHOT_RATE_HZ: u64 = 20;

/// Nanoseconds in one second.
pub const NANOS_PER_SECOND: u64 = 1_000_000_000;

/// `n` is the whole number of nanoseconds nearest to one second divided by `rate`.
pub open spec fn is_nearest_period_nanos(n: int, rate: int) -> bool {
    &&& 2 * (n * rate - NANOS_PER_SECOND) <= rate
    &&& 2 * (NANOS_PER_SECOND - n * rate) <= rate
}

/// The length of one simulation step in whole nanoseconds: one second divided
/// by the tick rate, rounded to the nearest nanosecond.
pub fn tick_duration_nanos() -> (n: u64)
    ensures
        is_nearest_period_nanos(n as int, TICK_RATE_HZ as int),
        n == 16_666_667,
{
    (2 * NANOS_PER_SECOND + TICK_RATE_HZ) / (2 * TICK_RATE_HZ)
}

/// The `Duration` that std's `Duration::from_nanos` builds from `nanos`: by
/// std's documentation, a duration of exactly `nanos` nanoseconds.
pub uninterp spec fn duration_of_nanos(nanos: u64) -> Duration;

/// Wraps `Duration::from_nanos` from std: the result is the duration that
/// std builds from `nanos`, named `duration_of_nanos(nanos)`.
#[verifier::external_body]
fn duration_from_nanos(nanos: u64) -> (d: Duration)
    ensures
        d == duration_of_nanos(nanos),
{
    Duration::from_nanos(nanos)
}

/// The wall-clock length of one simulation step: the duration of
/// `tick_duration_nanos()` nanoseconds, one second divided by the tick rate
/// rounded to the nearest nanosecond.
pub fn tick_duration() -> (d: Duration)
    ensures
        exists|n: u64|
            is_nearest_period_nanos(n as int, TICK_RATE_HZ as int) && d == duration_of_nanos(n),
        d == duration_of_nanos(16_666_667),
{
    let nanos: u64 = tick_duration_nanos();
    duration_from_nanos(nanos)
}

/// How many simulation steps lie between two snapshots.
pub fn snapshot_interval_ticks() -> (n: u64)
    ensures
        n == TICK_RATE_HZ / SNAPSHOT_RATE_HZ,
        n == 3,
{
    TICK_RATE_HZ / SNAPSHOT_RATE_HZ
}

} // verus!
