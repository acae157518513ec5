//! The monotonic clock.

use vstd::prelude::*;

verus! {

/// A point on the monotonic clock of the machine.
#[verifier::external_type_specification]
#[verifier::external_body]
pub struct ExInstant(std::time::Instant);

/// `std::time::Instant::now`: nothing is known of the time.
pub assume_specification[ std::time::Instant::now ]() -> std::time::Instant;

/// The time from one point on the clock to another.
pub uninterp spec fn time_between(
    earlier: std::time::Instant,
    later: std::time::Instant,
) -> std::time::Duration;

/// `std::time::Instant::saturating_duration_since`: the time from `earlier` to `instant`. A point
/// on the clock is opaque, so it is left unsaid how two of them compare, and that the time is zero
/// where `earlier` is not the earlier one.
pub assume_specification[ std::time::Instant::saturating_duration_since ](
    instant: &std::time::Instant,
    earlier: std::time::Instant,
) -> (r: std::time::Duration)
    ensures
        r == time_between(earlier, *instant),
;

/// The length of a duration in nanoseconds.
pub uninterp spec fn duration_nanos(duration: std::time::Duration) -> u128;

/// `std::time::Duration::as_nanos`.
pub assume_specification[ std::time::Duration::as_nanos ](
    duration: &std::time::Duration,
) -> (r: u128)
    ensures
        r == duration_nanos(*duration),
;

/// Measures the time since it was started.
pub struct Clock {
    origin: std::time::Instant,
}

impl Clock {
    /// The point at which the clock was started.
    pub closed spec fn started(self) -> std::time::Instant {
        self.origin
    }

    /// What the clock shows at a point in time: the nanoseconds since its start.
    pub open spec fn shown_at(self, at: std::time::Instant) -> u128 {
        duration_nanos(time_between(self.started(), at))
    }

    /// A clock that starts now.
    pub fn start() -> (r: Clock) {
        Clock { origin: std::time::Instant::now() }
    }

    /// What the clock shows at a point in time: the nanoseconds since its start.
    pub fn reading(&self, at: std::time::Instant) -> (r: u128)
        ensures
            r == self.shown_at(at),
    {
        let since = at.saturating_duration_since(self.origin);
        since.as_nanos()
    }

    /// What the clock shows now: the nanoseconds since its start. Which point in time now is, is
    /// not known.
    pub fn now(&self) -> (r: u128)
        ensures
            exists|at: std::time::Instant| r == #[trigger] self.shown_at(at),
    {
        self.reading(std::time::Instant::now())
    }
}

} // verus!
