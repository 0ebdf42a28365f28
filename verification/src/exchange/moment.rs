//! Moments of a clock that only goes forward, and the time between them, in nanoseconds.

use vstd::prelude::*;

verus! {

/// A stretch of time.
#[derive(Clone, Copy, Debug, PartialEq, Eq, PartialOrd, Ord, Hash, Structural)]
pub struct Duration {
    pub nanos: u64,
}

impl Duration {
    pub fn zero() -> (d: Duration)
        ensures
            d.nanos == 0,
    {
        Duration { nanos: 0 }
    }

    pub fn from_millis(ms: u64) -> (d: Duration)
        requires
            ms * 1_000_000 <= u64::MAX,
        ensures
            d.nanos == ms * 1_000_000,
    {
        Duration { nanos: ms * 1_000_000 }
    }

    pub fn from_secs(secs: u64) -> (d: Duration)
        requires
            secs * 1_000_000_000 <= u64::MAX,
        ensures
            d.nanos == secs * 1_000_000_000,
    {
        Duration { nanos: secs * 1_000_000_000 }
    }

    pub fn is_zero(self) -> (r: bool)
        ensures
            r == (self.nanos == 0),
    {
        self.nanos == 0
    }
}

/// A moment, counted from a fixed origin of the process.
#[derive(Clone, Copy, Debug, PartialEq, Eq, PartialOrd, Ord, Hash, Structural)]
pub struct Instant {
    pub nanos: u64,
}

impl Instant {
    /// The moment a stretch of time later.
    pub fn plus(self, d: Duration) -> (r: Instant)
        requires
            self.nanos + d.nanos <= u64::MAX,
        ensures
            r.nanos == self.nanos + d.nanos,
    {
        Instant { nanos: self.nanos + d.nanos }
    }

    /// The time since an earlier moment, none where it is not earlier.
    pub fn duration_since(self, earlier: Instant) -> (d: Duration)
        ensures
            d.nanos == if self.nanos >= earlier.nanos {
                self.nanos - earlier.nanos
            } else {
                0
            },
    {
        Duration {
            nanos: if self.nanos >= earlier.nanos {
                self.nanos - earlier.nanos
            } else {
                0
            },
        }
    }
}

} // verus!
