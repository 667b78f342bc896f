//! Units of time.

use vstd::prelude::*;

verus! {

/// A span of time in nanoseconds.
pub type Nanos = u128;

/// One millisecond.
pub const MILLISECOND: Nanos = 1_000_000;

/// The longest span of time that the system clock interfaces can represent:
/// the largest 64-bit number of seconds and 999,999,999 nanoseconds.
pub const LONGEST: Nanos = 18_446_744_073_709_551_615_999_999_999;

/// The longest sleep between two looks at the stop flag.
pub const SLEEP_SLICE: Nanos = 100_000_000;

/// How long to sleep before the next look at the stop flag, when `elapsed` has
/// passed of an interval; None when the interval is over.
pub fn wait_slice(elapsed: Nanos, interval: Nanos) -> (r: Option<Nanos>)
    ensures
        r == (if elapsed >= interval {
            None
        } else if interval - elapsed < SLEEP_SLICE {
            Some((interval - elapsed) as Nanos)
        } else {
            Some(SLEEP_SLICE)
        }),
{
    if elapsed >= interval {
        None
    } else if interval - elapsed < SLEEP_SLICE {
        Some(interval - elapsed)
    } else {
        Some(SLEEP_SLICE)
    }
}

/// Times are counted in billionths of a second: a millisecond has a million of
/// them, a wait is cut into tenths of a second, and the longest time is that of
/// 64 bits of seconds.
pub proof fn law_units()
    ensures
        1000 * MILLISECOND == 1_000_000_000,
        10 * SLEEP_SLICE == 1_000_000_000,
        LONGEST + 1 == 0x1_0000_0000_0000_0000 * 1_000_000_000,
{
}

} // verus!
