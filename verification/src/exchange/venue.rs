//! What a venue's connector says of itself, and where it puts its events.

use crate::domain::ids::{ExchangeId, MarketKind};
use vstd::prelude::*;

verus! {

/// A fully capable connector.
pub trait Exchange {
    fn id(&self) -> ExchangeId;

    /// Markets this connector implements. Callers check here before asking for a market.
    fn markets(&self) -> &[MarketKind];

    /// Whether a market is among those that the connector names.
    fn supports(&self, market: MarketKind) -> (r: bool)
        ensures
            exists|markets: &[MarketKind]| #[trigger]
                call_ensures(Self::markets, (self,), markets) && r == markets@.contains(market),
    {
        let markets = self.markets();
        offers(markets, market)
    }
}

/// Whether a market is in a list of them.
pub fn offers(markets: &[MarketKind], market: MarketKind) -> (r: bool)
    ensures
        r == markets@.contains(market),
{
    let mut i: usize = 0;
    while i < markets.len()
        invariant
            i <= markets@.len(),
            forall|j: int| 0 <= j < i ==> markets@[j] != market,
        decreases markets@.len() - i,
    {
        if markets[i] == market {
            return true;
        }
        i += 1;
    }
    false
}

/// The count that a connector's sink keeps: events that nobody was there to receive. They are
/// counted rather than logged one by one, which would itself become the bottleneck.
#[derive(Clone, Copy, Debug, PartialEq, Eq, Structural)]
pub struct EventSink {
    pub dropped: u64,
}

impl EventSink {
    pub fn new() -> (s: EventSink)
        ensures
            s.dropped == 0,
    {
        EventSink { dropped: 0 }
    }

    /// An event was handed over, or there was no one to take it. False once the receiver is
    /// gone; a connector goes on all the same.
    pub fn send(&mut self, taken: bool) -> (r: bool)
        ensures
            r == taken,
            final(self).dropped == if taken {
                old(self).dropped
            } else {
                old(self).dropped.wrapping_add(1)
            },
    {
        if taken {
            return true;
        }
        self.dropped = self.dropped.wrapping_add(1);
        false
    }

    /// How many events were dropped because no receiver was listening.
    pub fn dropped(&self) -> (r: u64)
        ensures
            r == self.dropped,
    {
        self.dropped
    }
}

} // verus!
