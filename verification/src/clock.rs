//! Time as data: milliseconds since the epoch, supplied by the host's clock.

use vstd::prelude::*;

verus! {

/// A point in time, in milliseconds since the epoch.
#[derive(Debug, Clone, Copy, PartialEq, Eq, PartialOrd, Ord, Hash, Structural)]
pub struct Timestamp {
    millis: u64,
}

impl View for Timestamp {
    type V = u64;

    closed spec fn view(&self) -> u64 {
        self.millis
    }
}

impl Timestamp {
    /// Wraps a millisecond count.
    pub fn from_millis(millis: u64) -> (ts: Self)
        ensures
            ts@ == millis,
    {
        Timestamp { millis }
    }

    /// The millisecond count.
    pub fn as_millis(self) -> (millis: u64)
        ensures
            millis == self@,
    {
        self.millis
    }
}

} // verus!
