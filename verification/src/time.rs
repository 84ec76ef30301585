//! Clocks and spans of time of std, described in nanoseconds.
use std::time::{Duration, Instant};
use vstd::prelude::*;

verus! {

#[verifier::external_type_specification]
#[verifier::external_body]
pub struct ExInstant(Instant);

/// The nanoseconds in a span of time.
pub uninterp spec fn nanos(d: Duration) -> nat;

/// The time from the moment `earlier` to the moment `later`.
pub uninterp spec fn span(later: Instant, earlier: Instant) -> Duration;

/// The nanoseconds in the longest span of time: all seconds that 64 bits can count, and a fraction.
pub const MAX_NANOS: u128 = 18446744073709551615999999999;

/// `Instant::now` reads the clock. Nothing can be said of what it shows.
pub assume_specification[ Instant::now ]() -> (r: Instant)
;

/// `Instant::duration_since` gives the time from one moment to another. It depends on the two moments
/// alone; how long it is, is left unsaid.
pub assume_specification[ Instant::duration_since ](i: &Instant, earlier: Instant) -> (r: Duration)
    ensures
        r == span(*i, earlier),
;

/// `Duration::as_nanos` gives the nanoseconds, of which there are no more than in the longest span.
pub assume_specification[ Duration::as_nanos ](d: &Duration) -> (r: u128)
    ensures
        r == nanos(*d),
        r <= MAX_NANOS,
;

/// `Duration::as_millis` gives the whole milliseconds.
pub assume_specification[ Duration::as_millis ](d: &Duration) -> (r: u128)
    ensures
        r == nanos(*d) / 1_000_000,
;

} // verus!
