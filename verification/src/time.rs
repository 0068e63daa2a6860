//! Clocks and spans of time.

use std::time::Duration;
use vstd::prelude::*;
use web_time::{Instant, SystemTime};

verus! {

/// `web_time::Instant`: a reading of the monotonic clock.
#[verifier::external_type_specification]
#[verifier::external_body]
pub struct ExInstant(Instant);

/// `web_time::SystemTime`: a reading of the wall clock.
#[verifier::external_type_specification]
#[verifier::external_body]
pub struct ExSystemTime(SystemTime);

/// The number of nanoseconds in a span, which is what `Duration::as_nanos` returns.
pub uninterp spec fn duration_nanos(d: Duration) -> nat;

/// Calls `Duration::as_nanos`.
#[verifier::external_body]
pub(crate) fn duration_as_nanos(d: &Duration) -> (r: u128)
    ensures
        r == duration_nanos(*d),
{
    d.as_nanos()
}

/// Calls `Duration::from_secs`, which makes a span of whole seconds.
#[verifier::external_body]
pub(crate) fn duration_from_secs(secs: u64) -> (r: Duration)
    ensures
        duration_nanos(r) == secs * 1_000_000_000,
{
    Duration::from_secs(secs)
}

/// Calls `Duration::from_millis`, which makes a span of whole milliseconds.
#[verifier::external_body]
pub(crate) fn duration_from_millis(millis: u64) -> (r: Duration)
    ensures
        duration_nanos(r) == millis * 1_000_000,
{
    Duration::from_millis(millis)
}

/// Some reading of the wall clock is `t`.
pub uninterp spec fn wall_read(t: SystemTime) -> bool;

/// Calls `SystemTime::now`. What the clock reads depends on when it is asked, so all that is said
/// of the answer is that it is a reading.
#[verifier::external_body]
pub(crate) fn system_now() -> (r: SystemTime)
    ensures
        wall_read(r),
{
    SystemTime::now()
}

/// How many nanoseconds after the Unix epoch a reading of the wall clock lies, which is what
/// `SystemTime::duration_since` returns for the two; `None` where it lies before.
pub uninterp spec fn epoch_nanos(t: SystemTime) -> Option<nat>;

/// Calls `SystemTime::duration_since` with the Unix epoch. `None` where the reading lies before
/// it.
#[verifier::external_body]
pub(crate) fn since_epoch(t: &SystemTime) -> (r: Option<Duration>)
    ensures
        epoch_nanos(*t) == (match r {
            Some(d) => Some(duration_nanos(d)),
            None => None,
        }),
{
    t.duration_since(web_time::UNIX_EPOCH).ok()
}

/// Some reading of the monotonic clock is `t`.
pub uninterp spec fn monotonic_read(t: Instant) -> bool;

/// Calls `Instant::now`. What the clock reads depends on when it is asked, so all that is said of
/// the answer is that it is a reading.
#[verifier::external_body]
pub(crate) fn instant_now() -> (r: Instant)
    ensures
        monotonic_read(r),
{
    Instant::now()
}

/// How many nanoseconds lie between two readings of the monotonic clock, which is what
/// `Instant::duration_since` returns.
pub uninterp spec fn instant_gap(later: Instant, earlier: Instant) -> nat;

/// Calls `Instant::duration_since`.
#[verifier::external_body]
pub(crate) fn instant_since(later: &Instant, earlier: &Instant) -> (r: Duration)
    ensures
        duration_nanos(r) == instant_gap(*later, *earlier),
{
    later.duration_since(*earlier)
}

/// So many nanoseconds lie between `t` and some reading of the monotonic clock.
pub open spec fn passed_since(t: Instant, nanos: nat) -> bool {
    exists|now: Instant| monotonic_read(now) && nanos == #[trigger] instant_gap(now, t)
}

/// Calls `Instant::elapsed`, which is the time from a reading to one that is taken now. What the
/// clock reads now is left open.
#[verifier::external_body]
pub(crate) fn instant_elapsed(t: &Instant) -> (r: Duration)
    ensures
        passed_since(*t, duration_nanos(r)),
{
    t.elapsed()
}

} // verus!
