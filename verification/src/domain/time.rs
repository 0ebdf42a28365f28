//! Exchange time, in milliseconds since the Unix epoch.

use crate::decimal;
use crate::text;
use vstd::prelude::*;

verus! {

/// A stamp in milliseconds since the Unix epoch.
#[derive(Clone, Copy, Debug, PartialEq, Eq, PartialOrd, Ord, Hash, Structural)]
pub struct Timestamp(pub i64);

impl Default for Timestamp {
    fn default() -> (t: Self)
        ensures
            t == Timestamp(0),
    {
        Timestamp(0)
    }
}

impl Timestamp {
    /// The epoch itself, which also stands for "no stamp".
    pub fn zero() -> (t: Timestamp)
        ensures
            t == Timestamp(0),
    {
        Timestamp(0)
    }

    pub fn from_millis(ms: i64) -> (t: Timestamp)
        ensures
            t == Timestamp(ms),
    {
        Timestamp(ms)
    }

    pub fn millis(self) -> (ms: i64)
        ensures
            ms == self.0,
    {
        self.0
    }

    pub fn is_zero(self) -> (r: bool)
        ensures
            r == (self == Timestamp(0)),
    {
        self.0 == 0
    }

    /// Signed age against a reference clock; negative means the stamp is in the future, which
    /// happens routinely when local time drifts ahead of the venue.
    pub fn age_millis_from(self, now: Timestamp) -> (age: i64)
        requires
            i64::MIN <= now.0 - self.0 <= i64::MAX,
        ensures
            age == now.0 - self.0,
    {
        now.0 - self.0
    }

    pub fn to_string(&self) -> (r: String)
        ensures
            r@ == decimal::integer_text(self.0 as int),
    {
        text::signed(self.0)
    }
}

} // verus!
