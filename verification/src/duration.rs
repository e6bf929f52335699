//! Spans of time, as numbers of nanoseconds.

use std::time::Duration;
use vstd::prelude::*;

verus! {

/// How many nanoseconds `d` lasts: what `Duration::as_nanos` returns.
pub uninterp spec fn duration_nanos(d: Duration) -> nat;

/// `Duration::as_nanos` returns the whole span in nanoseconds.
pub assume_specification [ Duration::as_nanos ](d: &Duration) -> (r: u128)
    ensures
        r == duration_nanos(*d),
;

/// `Duration::from_millis` makes the span of that many milliseconds, each a
/// million nanoseconds.
pub assume_specification [ Duration::from_millis ](millis: u64) -> (r: Duration)
    ensures
        duration_nanos(r) == millis * 1_000_000,
;

/// `Duration` is a plain copyable value, and its `clone` copies it.
pub assume_specification [ <Duration as Clone>::clone ](d: &Duration) -> (r: Duration)
    ensures
        r == *d,
;

/// The whole milliseconds in `d`.
pub open spec fn duration_millis(d: Duration) -> nat {
    duration_nanos(d) / 1_000_000
}

/// The whole milliseconds in `d`.
pub fn whole_millis(d: Duration) -> (r: u128)
    ensures
        r == duration_millis(d),
{
    d.as_nanos() / 1_000_000
}

} // verus!
