use std::time::{Duration, Instant};
use vstd::prelude::*;

verus! {

/// A named timer: it measures the time since it was created.
pub struct Timer {
    name: String,
    start: Instant,
}

impl Timer {
    /// The name given at creation.
    pub closed spec fn spec_name(&self) -> Seq<char> {
        self.name@
    }

    /// Starts measuring now, under `name`.
    pub fn new(name: String) -> (t: Timer)
        ensures
            t.spec_name() == name@,
    {
        Timer { name, start: Instant::now() }
    }

    /// The name given at creation.
    pub fn name(&self) -> (s: &str)
        ensures
            s@ == self.spec_name(),
    {
        self.name.as_str()
    }

    /// The time since the timer was created.
    pub fn elapsed(&self) -> Duration {
        self.start.elapsed()
    }
}

} // verus!
