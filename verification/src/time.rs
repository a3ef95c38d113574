//! Spans of time as numbers of nanoseconds.
use core::time::Duration;
use vstd::prelude::*;

verus! {

/// The length of a span in nanoseconds, as `Duration::as_nanos` gives it.
pub uninterp spec fn duration_nanos(duration: Duration) -> nat;

/// `Duration::as_nanos` of std: the whole span in nanoseconds. The number is
/// given a name, `duration_nanos`.
pub assume_specification[ Duration::as_nanos ](duration: &Duration) -> (nanos: u128)
    ensures
        nanos == duration_nanos(*duration),
;

/// `Duration::from_millis` of std: a span of that many milliseconds, each of
/// them a million nanoseconds.
pub assume_specification[ Duration::from_millis ](millis: u64) -> (duration: Duration)
    ensures
        duration_nanos(duration) == millis * 1_000_000,
;

/// The longest wait that may be asked for, in nanoseconds: as many seconds as a
/// 32-bit number counts.
pub const LONGEST_WAIT: u128 = 4_294_967_295_000_000_000;

/// A wait of this length ends at an instant that the clock can name.
pub open spec fn is_waitable(duration: Duration) -> bool {
    duration_nanos(duration) <= LONGEST_WAIT
}

/// Whether a wait of this length may be asked for.
pub fn can_wait(duration: Duration) -> (yes: bool)
    ensures
        yes == is_waitable(duration),
{
    duration.as_nanos() <= LONGEST_WAIT
}

/// As much of a wait as may be asked for: all of it, or the longest one.
pub fn waitable_part(duration: Duration) -> (part: Duration)
    ensures
        is_waitable(part),
        is_waitable(duration) ==> part == duration,
        !is_waitable(duration) ==> duration_nanos(part) == LONGEST_WAIT,
{
    if can_wait(duration) {
        duration
    } else {
        Duration::from_millis(4_294_967_295_000)
    }
}

/// The length of a span in nanoseconds, or the largest number where it is longer.
pub open spec fn nanos_of(duration: Duration) -> u64 {
    if duration_nanos(duration) <= u64::MAX {
        duration_nanos(duration) as u64
    } else {
        u64::MAX
    }
}

/// The length of a span in nanoseconds, or the largest number where it is longer.
pub fn duration_nanos_u64(duration: Duration) -> (nanos: u64)
    ensures
        nanos == nanos_of(duration),
{
    let nanos: u128 = duration.as_nanos();
    if nanos <= u64::MAX as u128 {
        nanos as u64
    } else {
        u64::MAX
    }
}

/// A wait may be asked for up to so many nanoseconds, and what is left of a longer one
/// is the longest that may.
pub proof fn law_long_wait_is_cut(duration: Duration, yes: bool, part: Duration)
    requires
        call_ensures(can_wait, (duration,), yes),
        call_ensures(waitable_part, (duration,), part),
    ensures
        yes <==> duration_nanos(duration) <= 4_294_967_295_000_000_000,
        yes ==> part == duration,
        !yes ==> duration_nanos(part) == 4_294_967_295_000_000_000,
{
}

/// A span is told in nanoseconds as far as the number can hold them.
pub proof fn law_span_is_told_in_nanoseconds(duration: Duration, nanos: u64)
    requires
        call_ensures(duration_nanos_u64, (duration,), nanos),
    ensures
        duration_nanos(duration) <= u64::MAX ==> nanos == duration_nanos(duration),
        duration_nanos(duration) > u64::MAX ==> nanos == u64::MAX,
{
}

} // verus!
