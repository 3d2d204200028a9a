use std::time::{Duration, Instant};
use vstd::prelude::*;

verus! {

/// Measures the time since it was created or last reset.
pub struct Timer {
    start_time: Instant,
}

impl Timer {
    /// Starts measuring now.
    pub fn new() -> Self {
        Timer { start_time: Instant::now() }
    }

    /// Starts measuring again from now.
    pub fn reset(&mut self) {
        self.start_time = Instant::now();
    }

    /// The time since the timer was started or last reset.
    pub fn elapsed(&self) -> Duration {
        self.start_time.elapsed()
    }
}

} // verus!
