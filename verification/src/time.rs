//! A stopwatch on the machine's monotonic clock.

use std::time::{Duration, Instant};
use vstd::prelude::*;

verus! {

/// `std::time::Instant`: a point on the monotonic clock, opaque to proofs.
#[verifier::external_type_specification]
#[verifier::external_body]
pub struct ExInstant(Instant);

/// Trusted: `Instant::now` reads the clock, so nothing is claimed of it.
pub assume_specification[ Instant::now ]() -> Instant;

/// Trusted: `Instant::elapsed` reads the clock again, so nothing is claimed
/// of the duration it returns.
pub assume_specification[ Instant::elapsed ](start: &Instant) -> Duration;

/// A stopwatch that starts when it is made and is never paused.
pub struct Timer {
    start_time: Instant,
}

impl Timer {
    /// Starts the stopwatch now.
    pub fn new() -> Self {
        Self { start_time: Instant::now() }
    }

    /// The time since the stopwatch was started.
    pub fn elapsed(&self) -> Duration {
        self.start_time.elapsed()
    }
}

/// Minutes and seconds of a whole number of seconds, for a clock display.
pub fn minutes_seconds(secs: u64) -> (clock: (u64, u64))
    ensures
        clock.0 == secs / 60,
        clock.1 == secs % 60,
        clock.0 * 60 + clock.1 == secs,
{
    (secs / 60, secs % 60)
}

} // verus!
