//! Monotonic nanosecond clocks.

use std::time::Instant;
use vstd::prelude::*;

verus! {

/// `std::time::Instant`, carried through as it is.
#[verifier::external_type_specification]
#[verifier::external_body]
pub struct ExInstant(std::time::Instant);

/// `std::time::Instant::now` reads the clock. Nothing is claimed of the result,
/// which depends on the time.
pub assume_specification[ std::time::Instant::now ]() -> Instant;

/// Calls `std::time::Instant::elapsed` and gives the time that has passed in
/// whole nanoseconds. Nothing is claimed of the result, which depends on the time.
#[verifier::external_body]
fn elapsed_nanos(since: &Instant) -> (r: u128) {
    since.elapsed().as_nanos()
}

/// A reading of the clock can give this many nanoseconds since an instant.
pub closed spec fn can_elapse(since: Instant, nanos: u128) -> bool {
    call_ensures(elapsed_nanos, (&since,), nanos)
}

/// A count of nanoseconds as the clocks give it: the low 64 bits, signed.
pub fn truncated_nanos(nanos: u128) -> (r: i64)
    ensures
        r == nanos as i64,
        nanos <= i64::MAX ==> r == nanos,
{
    #[verifier::truncate]
    let r: i64 = nanos as i64;
    r
}

/// Milliseconds of a time given in seconds and nanoseconds.
pub fn millis_of(seconds: i64, nanos: i64) -> (r: i64)
    requires
        0 <= seconds <= 9_000_000_000_000_000,
        0 <= nanos < 1_000_000_000,
    ensures
        r == seconds * 1000 + nanos as int / 1_000_000,
{
    seconds * 1000 + nanos / 1_000_000
}

/// Clock that counts nanoseconds from its creation.
#[derive(Clone, Copy, Debug)]
pub struct NanoClock {
    pub epoch: Instant,
}

impl NanoClock {
    /// The clock can be one that was just made: its epoch is a reading of
    /// `std::time::Instant::now`.
    pub open spec fn starts_now(self) -> bool {
        call_ensures(Instant::now, (), self.epoch)
    }

    /// The clock can read this time: that many nanoseconds since its epoch,
    /// truncated.
    pub open spec fn can_read(self, time: i64) -> bool {
        exists|nanos: u128| #[trigger] can_elapse(self.epoch, nanos) && time == nanos as i64
    }

    /// A clock that starts now.
    pub fn new() -> (r: Self)
        ensures
            r.starts_now(),
    {
        NanoClock { epoch: Instant::now() }
    }

    /// Nanoseconds since the clock was made.
    pub fn nano_time(&self) -> (r: i64)
        ensures
            self.can_read(r),
    {
        let nanos: u128 = elapsed_nanos(&self.epoch);
        assert(can_elapse(self.epoch, nanos));
        truncated_nanos(nanos)
    }
}

impl Default for NanoClock {
    /// A clock that starts now.
    fn default() -> (r: Self)
        ensures
            r.starts_now(),
    {
        NanoClock::new()
    }
}

/// Clock that keeps the last reading, for loops that read the time once per
/// cycle.
#[derive(Debug)]
pub struct CachedNanoClock {
    pub inner: NanoClock,
    pub cached: i64,
}

impl CachedNanoClock {
    /// A clock that starts now, with a first reading.
    pub fn new() -> (r: Self)
        ensures
            r.inner.starts_now(),
            r.inner.can_read(r.cached),
    {
        let inner = NanoClock::new();
        let cached: i64 = inner.nano_time();
        CachedNanoClock { inner, cached }
    }

    /// The clock after it was read like this.
    pub open spec fn updated(self, reading: i64) -> CachedNanoClock {
        CachedNanoClock { inner: self.inner, cached: reading }
    }

    /// Reads the clock and keeps the reading.
    pub fn update(&mut self) -> (r: i64)
        ensures
            *final(self) == old(self).updated(r),
            old(self).inner.can_read(r),
    {
        self.cached = self.inner.nano_time();
        self.cached
    }

    /// The last reading.
    pub fn cached(&self) -> (r: i64)
        ensures
            r == self.cached,
    {
        self.cached
    }
}

impl Default for CachedNanoClock {
    /// A clock that starts now, with a first reading.
    fn default() -> (r: Self)
        ensures
            r.inner.starts_now(),
            r.inner.can_read(r.cached),
    {
        CachedNanoClock::new()
    }
}

/// The clock after the first `k` of a sequence of readings.
pub open spec fn updated_all(clock: CachedNanoClock, readings: Seq<i64>, k: int) -> CachedNanoClock
    decreases k,
{
    if k <= 0 {
        clock
    } else {
        updated_all(clock, readings, k - 1).updated(readings[k - 1])
    }
}

/// No reading is smaller than the time that was cached before, or than an earlier
/// reading.
pub open spec fn never_falls(clock: CachedNanoClock, readings: Seq<i64>) -> bool {
    &&& forall|i: int| 0 <= i < readings.len() ==> clock.cached <= #[trigger] readings[i]
    &&& forall|i: int, j: int|
        0 <= i <= j < readings.len() ==> #[trigger] readings[i] <= #[trigger] readings[j]
}

/// The cached time is the last reading until the next one is taken, and it never
/// falls as long as the readings do not.
pub proof fn law_cached_time_never_falls(
    clock: CachedNanoClock,
    readings: Seq<i64>,
    i: int,
    j: int,
)
    requires
        never_falls(clock, readings),
        0 <= i <= j <= readings.len(),
    ensures
        j > 0 ==> updated_all(clock, readings, j).cached == readings[j - 1],
        updated_all(clock, readings, j).inner == clock.inner,
        updated_all(clock, readings, i).cached <= updated_all(clock, readings, j).cached,
    decreases j,
{
    if j > 0 {
        law_cached_time_never_falls(clock, readings, 0, j - 1);
        if 0 < i {
            law_cached_time_never_falls(clock, readings, 0, i - 1);
        }
    }
}

/// Of two times since a clock's epoch that count no more nanoseconds than a reading
/// can hold, the later is read as no smaller number.
pub proof fn law_readings_grow_with_time(earlier: u128, later: u128)
    requires
        earlier <= later <= i64::MAX,
    ensures
        0 <= earlier as i64 <= later as i64,
{
}

/// A reading is the time since the clock was made, in nanoseconds.
pub proof fn law_reading_is_the_elapsed_time(clock: &NanoClock, r: i64)
    requires
        call_ensures(NanoClock::nano_time, (clock,), r),
    ensures
        exists|nanos: u128| #[trigger]
            can_elapse(clock.epoch, nanos) && r == nanos as i64 && (nanos <= i64::MAX ==> r
                == nanos),
{
}

/// An update reads the clock, keeps the reading and gives it back; what was kept
/// is given until the next update.
pub proof fn law_update_keeps_the_reading(
    before: CachedNanoClock,
    after: CachedNanoClock,
    r: i64,
    kept: i64,
)
    requires
        exists|clock: &mut CachedNanoClock|
            *clock == before && *final(clock) == after && #[trigger] call_ensures(
                CachedNanoClock::update,
                (clock,),
                r,
            ),
        call_ensures(CachedNanoClock::cached, (&after,), kept),
    ensures
        kept == r,
        after.cached == r,
        after.inner == before.inner,
        exists|nanos: u128| #[trigger]
            can_elapse(before.inner.epoch, nanos) && r == nanos as i64,
{
}

/// Seconds count a thousand milliseconds each, and nanoseconds are rounded down.
pub proof fn law_milliseconds_are_rounded_down(seconds: i64, nanos: i64, r: i64)
    requires
        0 <= nanos < 1_000_000_000,
        call_ensures(millis_of, (seconds, nanos), r),
    ensures
        1_000_000 * r <= 1_000_000_000 * seconds + nanos < 1_000_000 * (r + 1),
{
}

/// Nanoseconds that fit into 64 bits with a sign are kept as they are.
pub proof fn law_nanoseconds_are_kept(nanos: u128, r: i64)
    requires
        call_ensures(truncated_nanos, (nanos,), r),
    ensures
        nanos <= i64::MAX ==> r == nanos,
        r == nanos as i64,
{
}

} // verus!
