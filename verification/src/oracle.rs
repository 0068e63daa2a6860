//! The source of versions: the highest version handed out, and a clock that is read off an anchor
//! of wall-clock time and a monotonic reading taken together.

use std::time::Duration;
use vstd::prelude::*;
use web_time::{Instant, SystemTime};

use crate::time::{
    duration_as_nanos, epoch_nanos, instant_elapsed, instant_now, monotonic_read, passed_since,
    since_epoch, system_now, wall_read,
};

verus! {

/// A reading in nanoseconds as far as 64 bits hold it.
pub open spec fn low_nanos(nanos: u128) -> u64 {
    nanos as u64
}

/// The time that an anchor and the nanoseconds since then give. It stops at the greatest `u64`.
pub open spec fn derived_time(reference_unix: u64, elapsed: u128) -> u64 {
    if reference_unix + low_nanos(elapsed) > u64::MAX {
        u64::MAX
    } else {
        (reference_unix + low_nanos(elapsed)) as u64
    }
}

/// A reading of the wall clock in nanoseconds since the Unix epoch, as far as 64 bits hold it; 0
/// where it lies before.
pub open spec fn unix_nanos(t: SystemTime) -> u64 {
    match epoch_nanos(t) {
        Some(nanos) => low_nanos(nanos as u128),
        None => 0,
    }
}

/// The wall clock was read, and gave this many nanoseconds.
pub open spec fn is_wall_time(nanos: u64) -> bool {
    exists|t: SystemTime| #[trigger] wall_read(t) && nanos == unix_nanos(t)
}

/// Hands out versions.
pub struct Oracle {
    /// The highest version handed out so far.
    pub(crate) timestamp: u64,
    reference_unix: u64,
    reference_time: Instant,
    resync_interval: Duration,
}

impl Oracle {
    /// The highest version handed out so far.
    pub closed spec fn high_water(&self) -> u64 {
        self.timestamp
    }

    /// The wall-clock time of the anchor.
    pub closed spec fn anchor(&self) -> u64 {
        self.reference_unix
    }

    /// The reading of the monotonic clock that goes with the anchor.
    pub closed spec fn reference(&self) -> Instant {
        self.reference_time
    }

    /// The anchor was read off the two clocks.
    pub open spec fn is_anchored(&self) -> bool {
        is_wall_time(self.anchor()) && monotonic_read(self.reference())
    }

    /// The clock reads `now`: the anchor, and the time from then to a reading of the monotonic
    /// clock.
    pub open spec fn reads(&self, now: u64) -> bool {
        exists|elapsed: u128|
            passed_since(self.reference(), elapsed as nat) && now == #[trigger] derived_time(
                self.anchor(),
                elapsed,
            )
    }

    /// Both have the same anchor.
    pub open spec fn same_anchor(&self, other: Oracle) -> bool {
        self.anchor() == other.anchor() && self.reference() == other.reference()
    }

    /// How often the anchor is to be renewed.
    pub closed spec fn interval(&self) -> Duration {
        self.resync_interval
    }

    /// An oracle that is anchored to the present. Versions start at the anchor.
    pub fn new(resync_interval: Duration) -> (r: Self)
        ensures
            r.high_water() == r.anchor(),
            r.is_anchored(),
            r.interval() == resync_interval,
    {
        let reference_unix: u64 = Self::current_unix_ns();
        let reference_time = instant_now();
        Oracle::anchored(reference_unix, reference_time, resync_interval)
    }

    /// An oracle with a given anchor. Versions start at the anchor.
    pub fn anchored(reference_unix: u64, reference_time: Instant, resync_interval: Duration) -> (r:
        Self)
        ensures
            r.high_water() == reference_unix,
            r.anchor() == reference_unix,
            r.reference() == reference_time,
            r.interval() == resync_interval,
    {
        Oracle { timestamp: reference_unix, reference_unix, reference_time, resync_interval }
    }

    /// The wall-clock time in nanoseconds since the Unix epoch; 0 where the clock is set before
    /// it. It may go backwards, so it serves as an anchor and not as a version.
    pub fn current_unix_ns() -> (r: u64)
        ensures
            is_wall_time(r),
    {
        let now = system_now();
        let r: u64 = match since_epoch(&now) {
            Some(d) => Self::truncate_nanos(duration_as_nanos(&d)),
            None => 0,
        };
        assert(wall_read(now) && r == unix_nanos(now));
        r
    }

    /// Keeps the low 64 bits of a number of nanoseconds.
    fn truncate_nanos(nanos: u128) -> (r: u64)
        ensures
            r == low_nanos(nanos),
    {
        #[verifier::truncate]
        (nanos as u64)
    }

    /// The time that an anchor and the nanoseconds since then give.
    pub fn time_at(reference_unix: u64, elapsed: u128) -> (r: u64)
        ensures
            r == derived_time(reference_unix, elapsed),
    {
        reference_unix.saturating_add(Self::truncate_nanos(elapsed))
    }

    /// The present time in nanoseconds, read off the anchor. It may step back when the anchor is
    /// renewed; those who need versions to ascend compare it with the highest one.
    pub fn current_time_ns(&self) -> (r: u64)
        ensures
            self.reads(r),
    {
        let elapsed: u128 = duration_as_nanos(&instant_elapsed(&self.reference_time));
        let r: u64 = Self::time_at(self.reference_unix, elapsed);
        assert(r == derived_time(self.anchor(), elapsed));
        r
    }

    /// Takes a new anchor. The highest version stays.
    pub fn resync_at(&mut self, reference_unix: u64, reference_time: Instant)
        ensures
            final(self).high_water() == old(self).high_water(),
            final(self).anchor() == reference_unix,
            final(self).reference() == reference_time,
            final(self).interval() == old(self).interval(),
    {
        self.reference_unix = reference_unix;
        self.reference_time = reference_time;
    }

    /// Renews the anchor, so that the clock follows the wall clock. The highest version stays.
    pub fn resync(&mut self)
        ensures
            final(self).high_water() == old(self).high_water(),
            final(self).is_anchored(),
            final(self).interval() == old(self).interval(),
    {
        let reference_unix: u64 = Self::current_unix_ns();
        let reference_time = instant_now();
        self.resync_at(reference_unix, reference_time);
    }

    /// How often the anchor is to be renewed.
    pub fn resync_interval(&self) -> (r: Duration)
        ensures
            r == self.interval(),
    {
        self.resync_interval
    }

    /// The highest version handed out so far.
    pub fn current_timestamp(&self) -> (r: u64)
        ensures
            r == self.high_water(),
    {
        self.timestamp
    }

    /// Raises the highest version to `version`; it never falls.
    pub fn advance(&mut self, version: u64)
        ensures
            final(self).high_water() == (if version > old(self).high_water() {
                version
            } else {
                old(self).high_water()
            }),
            final(self).same_anchor(*old(self)),
            final(self).interval() == old(self).interval(),
    {
        if version > self.timestamp {
            self.timestamp = version;
        }
    }
}

/// The time is the anchor and the nanoseconds since then, as long as both fit in 64 bits; beyond
/// that it stands at the greatest number.
pub proof fn law_time_passes(reference_unix: u64, elapsed: u128)
    requires
        elapsed <= u64::MAX,
    ensures
        reference_unix + elapsed <= u64::MAX ==> derived_time(reference_unix, elapsed)
            == reference_unix + elapsed,
        reference_unix + elapsed > u64::MAX ==> derived_time(reference_unix, elapsed) == u64::MAX,
{
}

/// Of a number of nanoseconds the low 64 bits are kept.
pub proof fn law_low_bits_are_kept(nanos: u128)
    ensures
        low_nanos(nanos) == nanos % 0x1_0000_0000_0000_0000,
{
    assert(nanos as u64 == nanos % 0x1_0000_0000_0000_0000) by (bit_vector);
}

/// What the clock reads is the anchor and the time from its reference to some reading of the
/// monotonic clock. The anchor is renewed from a reading of each clock.
pub proof fn law_clock_goes_by_its_anchor(o: Oracle, now: u64)
    ensures
        o.reads(now) ==> exists|t: Instant, elapsed: u128|
            monotonic_read(t) && elapsed == #[trigger] crate::time::instant_gap(t, o.reference())
                && now == #[trigger] derived_time(o.anchor(), elapsed),
        o.is_anchored() ==> monotonic_read(o.reference()) && exists|t: SystemTime|
            #[trigger] wall_read(t) && match epoch_nanos(t) {
                Some(nanos) => o.anchor() == low_nanos(nanos as u128),
                None => o.anchor() == 0,
            },
{
    if o.reads(now) {
        let elapsed = choose|elapsed: u128|
            passed_since(o.reference(), elapsed as nat) && now == #[trigger] derived_time(
                o.anchor(),
                elapsed,
            );
        let t = choose|t: Instant|
            monotonic_read(t) && elapsed as nat == #[trigger] crate::time::instant_gap(
                t,
                o.reference(),
            );
        assert(monotonic_read(t) && elapsed == crate::time::instant_gap(t, o.reference()) && now
            == derived_time(o.anchor(), elapsed));
    }
    if o.is_anchored() {
        let t = choose|t: SystemTime| #[trigger] wall_read(t) && o.anchor() == unix_nanos(t);
        assert(wall_read(t));
    }
}

} // verus!
