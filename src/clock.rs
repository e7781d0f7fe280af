use vstd::prelude::*;
use std::time::{Duration, Instant};

verus! {

#[verifier::external_type_specification]
#[verifier::external_body]
pub struct ExInstant(Instant);

/// Relies on `Instant::now`: a reading of the monotonic clock.
#[verifier::external_body]
fn now() -> (r: Instant) {
    Instant::now()
}

/// Relies on `Instant::elapsed`: the time since `start`.
#[verifier::external_body]
fn elapsed(start: &Instant) -> (r: Duration) {
    start.elapsed()
}

/// Relies on `Duration::as_micros`: the whole microseconds in `d`.
#[verifier::external_body]
fn as_micros(d: &Duration) -> (r: u128) {
    d.as_micros()
}

/// A stopwatch for one execution.
pub struct Stopwatch {
    start: Instant,
}

impl Stopwatch {
    /// Starts timing now.
    pub fn start() -> (r: Stopwatch) {
        Stopwatch { start: now() }
    }

    /// The whole microseconds since the start, saturated to `u64`.
    pub fn micros(&self) -> (r: u64) {
        let m = as_micros(&elapsed(&self.start));
        if m > u64::MAX as u128 {
            u64::MAX
        } else {
            m as u64
        }
    }
}

} // verus!
