//! Time: what the two clocks say, as plain numbers.

use std::time::Duration;

use vstd::prelude::*;

verus! {

/// The declaration of `tokio::time::Instant`.
#[verifier::external_type_specification]
#[verifier::external_body]
pub struct ExInstant(tokio::time::Instant);

/// `tokio::time::Instant::now`: a point on the runtime's monotonic clock. Which one is up to the
/// clock.
pub assume_specification[ tokio::time::Instant::now ]() -> tokio::time::Instant
;

/// The number of nanoseconds in a duration.
pub uninterp spec fn duration_nanos(d: Duration) -> nat;

/// `std::time::Duration::as_nanos`: the total number of nanoseconds.
pub assume_specification[ Duration::as_nanos ](d: &Duration) -> (r: u128)
    ensures
        r == duration_nanos(*d),
;

/// The nanoseconds from one point of the monotonic clock to another.
pub uninterp spec fn instant_span(later: tokio::time::Instant, earlier: tokio::time::Instant) -> nat;

/// `tokio::time::Instant::saturating_duration_since`: the time from the earlier point to the later
/// one, the same for the same two points. How much it is is left to the name.
pub assume_specification[ tokio::time::Instant::saturating_duration_since ](
    later: &tokio::time::Instant,
    earlier: tokio::time::Instant,
) -> (r: Duration)
    ensures
        duration_nanos(r) == instant_span(*later, earlier),
;

/// `std::time::Duration::from_secs`: so many whole seconds.
pub assume_specification[ Duration::from_secs ](secs: u64) -> (r: Duration)
    ensures
        duration_nanos(r) == secs * 1_000_000_000,
;

/// `std::time::SystemTime::elapsed` of the Unix epoch: the time since then, or nothing where the
/// system's clock stands before it. How much it is is up to the clock.
#[verifier::external_body]
fn since_unix_epoch() -> Option<Duration> {
    std::time::UNIX_EPOCH.elapsed().ok()
}

/// Whole milliseconds in so many nanoseconds, in 64 bits: what does not fit is cut off on the
/// left.
pub open spec fn millis(nanos: nat) -> u64 {
    ((nanos / 1_000_000) % 0x1_0000_0000_0000_0000) as u64
}

/// Whole milliseconds in so many nanoseconds.
pub fn whole_millis(nanos: u128) -> (r: u64)
    ensures
        r == millis(nanos as nat),
{
    let ms: u128 = nanos / 1_000_000;
    assert(ms as u64 == ms % 0x1_0000_0000_0000_0000) by (bit_vector);
    ms as u64
}

/// The time since the Unix epoch in milliseconds, 0 where it is unknown.
pub open spec fn epoch_millis(since: Option<Duration>) -> u64 {
    match since {
        Some(d) => millis(duration_nanos(d)),
        None => 0,
    }
}

/// The time since the Unix epoch in milliseconds, 0 where it is unknown.
pub fn epoch_ms_of(since: Option<Duration>) -> (r: u64)
    ensures
        r == epoch_millis(since),
{
    match since {
        Some(d) => whole_millis(d.as_nanos()),
        None => 0,
    }
}

/// The system's clock can say so: some time since the Unix epoch comes to so many milliseconds.
pub open spec fn epoch_shows(ms: u64) -> bool {
    exists|since: Option<Duration>| ms == epoch_millis(since)
}

/// The system's clock, in milliseconds since the Unix epoch; 0 where it stands before it.
pub fn epoch_ms() -> (r: u64)
    ensures
        epoch_shows(r),
{
    epoch_ms_of(since_unix_epoch())
}

/// What the clocks say at one moment.
#[derive(Clone, Copy, Debug)]
pub struct Reading {
    /// Nanoseconds on a monotonic clock.
    pub at: u128,
    /// Milliseconds since the Unix epoch.
    pub epoch_ms: u64,
}

/// A monotonic clock that counts from its own start.
pub struct Clock {
    origin: tokio::time::Instant,
}

impl View for Clock {
    type V = tokio::time::Instant;

    /// The point from which the clock counts.
    closed spec fn view(&self) -> tokio::time::Instant {
        self.origin
    }
}

impl Clock {
    /// The clock can say so: it is the way from its start to some point, in nanoseconds.
    pub open spec fn shows(self, at: u128) -> bool {
        exists|point: tokio::time::Instant| at == #[trigger] instant_span(point, self@)
    }

    /// Both clocks can say so.
    pub open spec fn reads(self, r: Reading) -> bool {
        self.shows(r.at) && epoch_shows(r.epoch_ms)
    }

    /// A clock that starts now. Which point that is is up to the runtime's clock.
    pub fn start() -> Clock {
        Clock { origin: tokio::time::Instant::now() }
    }

    /// Nanoseconds since the start.
    pub fn now(&self) -> (r: u128)
        ensures
            self.shows(r),
    {
        let point = tokio::time::Instant::now();
        let at: u128 = point.saturating_duration_since(self.origin).as_nanos();
        assert(at == instant_span(point, self@));
        at
    }

    /// Both clocks at once.
    pub fn read(&self) -> (r: Reading)
        ensures
            self.reads(r),
    {
        Reading { at: self.now(), epoch_ms: epoch_ms() }
    }
}

} // verus!
