//! Time: durations as they stand in a service's configuration, and the monotonic clock.

use std::time::Duration;
use std::time::Instant;
use vstd::prelude::*;

verus! {

/// One second, in nanoseconds.
pub const NANOS_PER_SEC: u64 = 1_000_000_000;

/// `std::time::Instant`, a reading of the monotonic clock.
#[verifier::external_type_specification]
#[verifier::external_body]
pub struct ExInstant(Instant);

/// The length of a duration, in nanoseconds: what `Duration::as_nanos` returns.
pub uninterp spec fn duration_nanos(d: Duration) -> nat;

/// The whole seconds that a duration holds.
pub open spec fn whole_secs(d: Duration) -> nat {
    duration_nanos(d) / (NANOS_PER_SEC as nat)
}

/// The longest duration there is: `u64::MAX` seconds and 999,999,999 nanoseconds.
pub open spec fn max_nanos() -> nat {
    (u64::MAX as nat) * (NANOS_PER_SEC as nat) + 999_999_999
}

/// `Duration::from_secs` makes a duration of that many seconds.
pub assume_specification[ Duration::from_secs ](secs: u64) -> (d: Duration)
    ensures
        duration_nanos(d) == secs * NANOS_PER_SEC,
;

/// `Duration::as_secs` returns the whole seconds of a duration, the fraction dropped.
pub assume_specification[ Duration::as_secs ](d: &Duration) -> (secs: u64)
    ensures
        secs == whole_secs(*d),
;

/// `Duration::checked_mul` multiplies a duration, and returns `None` exactly where the
/// product is longer than a duration can be.
pub assume_specification[ Duration::checked_mul ](d: Duration, n: u32) -> (product: Option<
    Duration,
>)
    ensures
        product is Some <==> duration_nanos(d) * n <= max_nanos(),
        product matches Some(p) ==> duration_nanos(p) == duration_nanos(d) * n,
;

/// Some call of `Instant::now` came back with this reading.
pub uninterp spec fn now_returned(now: Instant) -> bool;

/// Some call of `Instant::elapsed` on this reading came back with this duration. A relation,
/// not a function: a later call comes back with a longer one.
pub uninterp spec fn elapsed_returned(start: Instant, elapsed: Duration) -> bool;

/// `Instant::now` reads the monotonic clock. What it shows is not stated: it depends on when
/// the call is made.
#[verifier::external_body]
pub(crate) fn now() -> (now: Instant)
    ensures
        now_returned(now),
{
    Instant::now()
}

/// `Instant::elapsed` tells how much time has passed since a reading of the clock. How much
/// it is is not stated: it depends on when the call is made.
#[verifier::external_body]
pub(crate) fn elapsed(start: &Instant) -> (elapsed: Duration)
    ensures
        elapsed_returned(*start, elapsed),
{
    start.elapsed()
}

} // verus!
