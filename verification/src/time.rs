//! What the library relies on of the standard library's clocks and spans of
//! time.

use std::time::{Duration, Instant};
use vstd::prelude::*;

verus! {

/// The length of a span of time in nanoseconds.
pub uninterp spec fn duration_nanos(d: Duration) -> nat;

/// `Duration::from_secs` makes the span of the given number of whole seconds.
pub assume_specification[ Duration::from_secs ](secs: u64) -> (d: Duration)
    ensures
        duration_nanos(d) == secs * 1_000_000_000,
;

/// `Duration::as_secs` is the number of whole seconds in the span.
pub assume_specification[ Duration::as_secs ](d: &Duration) -> (res: u64)
    ensures
        res == duration_nanos(*d) / 1_000_000_000,
;

/// `Duration::as_millis` is the number of whole milliseconds in the span.
pub assume_specification[ Duration::as_millis ](d: &Duration) -> (res: u128)
    ensures
        res == duration_nanos(*d) / 1_000_000,
;

/// Two spans are equal, by `==`, exactly if they are equally long.
pub assume_specification[ <Duration as PartialEq>::eq ](a: &Duration, b: &Duration) -> (res: bool)
    ensures
        res == (duration_nanos(*a) == duration_nanos(*b)),
;

/// A reading of the monotonic clock.
#[verifier::external_type_specification]
#[verifier::external_body]
pub struct ExInstant(Instant);

/// `Instant::now` reads the clock. Nothing is known of the reading.
pub assume_specification[ Instant::now ]() -> Instant
;

/// `Instant::elapsed` is the time since the reading was taken. Nothing is
/// known of its length.
pub assume_specification[ Instant::elapsed ](start: &Instant) -> Duration
;

} // verus!
