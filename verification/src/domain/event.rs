//! The event bus vocabulary.
//!
//! The core publishes events, and every consumer is just a subscriber. The terminal is one, a
//! strategy is another; neither knows about the other.

use crate::domain::account::{Balance, Position};
use crate::domain::ids::{Symbol, SymbolView};
use crate::domain::instrument::Instrument;
use crate::domain::market::{
    BookDelta, BookDeltaView, Candle, OrderBook, OrderBookView, PublicTrade,
};
use crate::domain::order::{Fill, Order};
use crate::domain::time::Timestamp;
use vstd::prelude::*;

verus! {

/// Public data, identical for every consumer and safe to fan out widely.
#[derive(Clone, Debug, PartialEq, Eq)]
pub enum MarketEvent {
    Trade(PublicTrade),
    /// Full book state. Also emitted after a resync, so consumers must treat it as a reset.
    BookSnapshot(OrderBook),
    BookDelta(BookDelta),
    Candle(Candle),
    /// Instrument metadata refreshed; cached tick/step sizes should be re-read.
    Instruments { exchange_market: Symbol, instruments: Vec<Instrument> },
}

impl MarketEvent {
    /// The instrument an event concerns, where it concerns exactly one.
    pub open spec fn concerns(self) -> Option<Symbol> {
        match self {
            MarketEvent::Trade(t) => Some(t.symbol),
            MarketEvent::BookSnapshot(b) => b.symbol,
            MarketEvent::BookDelta(d) => Some(d.symbol),
            MarketEvent::Candle(c) => Some(c.symbol),
            MarketEvent::Instruments { .. } => None,
        }
    }

    /// The instrument this event concerns, when it concerns exactly one.
    ///
    /// `None` means it is not per-instrument (an instrument-list refresh), so it is broadcast
    /// rather than filtered by subscription.
    pub fn symbol(&self) -> (r: Option<&Symbol>)
        ensures
            match r {
                Some(s) => self.concerns() == Some(*s),
                None => self.concerns() is None,
            },
    {
        match self {
            MarketEvent::Trade(t) => Some(&t.symbol),
            MarketEvent::BookSnapshot(b) => match &b.symbol {
                Some(s) => Some(s),
                None => None,
            },
            MarketEvent::BookDelta(d) => Some(&d.symbol),
            MarketEvent::Candle(c) => Some(&c.symbol),
            MarketEvent::Instruments { .. } => None,
        }
    }
}

/// Private data. Never leaves the core except over an authenticated connection.
#[derive(Clone, Debug, PartialEq, Eq)]
pub enum AccountEvent {
    OrderUpdate(Order),
    Fill(Fill),
    Balances(Vec<Balance>),
    Positions(Vec<Position>),
}

/// Connector health. The terminal renders it; the risk engine acts on it.
#[derive(Clone, Debug, PartialEq, Eq)]
pub enum ConnectionEvent {
    Connecting,
    /// Streams are live and state has been reconciled.
    Ready,
    /// Book sequence gap or stream drop; a resync is under way and data is stale until the next
    /// `BookSnapshot`.
    Resyncing { reason: String },
    Disconnected { reason: String },
}

/// Everything the core publishes, stamped with when it was produced.
#[derive(Clone, Debug, PartialEq, Eq)]
pub struct Event {
    pub at: Timestamp,
    pub payload: Payload,
}

#[derive(Clone, Debug, PartialEq, Eq)]
pub enum Payload {
    Market(MarketEvent),
    Account(AccountEvent),
    Connection(ConnectionEvent),
}

/// What a payload says.
pub enum PayloadView {
    Trade(PublicTrade),
    BookSnapshot(OrderBookView),
    BookDelta(BookDeltaView),
    Candle(Candle),
    Instruments(SymbolView, Seq<Instrument>),
    Account(AccountEvent),
    Connecting,
    Ready,
    Resyncing(Seq<char>),
    Disconnected(Seq<char>),
}

/// What an [`Event`] says.
pub struct EventView {
    pub at: Timestamp,
    pub payload: PayloadView,
}

impl View for Event {
    type V = EventView;

    open spec fn view(&self) -> EventView {
        EventView {
            at: self.at,
            payload: match self.payload {
                Payload::Market(m) => match m {
                    MarketEvent::Trade(t) => PayloadView::Trade(t),
                    MarketEvent::BookSnapshot(b) => PayloadView::BookSnapshot(b@),
                    MarketEvent::BookDelta(d) => PayloadView::BookDelta(d@),
                    MarketEvent::Candle(c) => PayloadView::Candle(c),
                    MarketEvent::Instruments { exchange_market, instruments } => {
                        PayloadView::Instruments(exchange_market@, instruments@)
                    },
                },
                Payload::Account(a) => PayloadView::Account(a),
                Payload::Connection(c) => match c {
                    ConnectionEvent::Connecting => PayloadView::Connecting,
                    ConnectionEvent::Ready => PayloadView::Ready,
                    ConnectionEvent::Resyncing { reason } => PayloadView::Resyncing(reason@),
                    ConnectionEvent::Disconnected { reason } => PayloadView::Disconnected(reason@),
                },
            },
        }
    }
}

impl Event {
    pub fn market(at: Timestamp, event: MarketEvent) -> (r: Event)
        ensures
            r == (Event { at, payload: Payload::Market(event) }),
    {
        Event { at, payload: Payload::Market(event) }
    }

    pub fn account(at: Timestamp, event: AccountEvent) -> (r: Event)
        ensures
            r == (Event { at, payload: Payload::Account(event) }),
    {
        Event { at, payload: Payload::Account(event) }
    }

    pub fn connection(at: Timestamp, event: ConnectionEvent) -> (r: Event)
        ensures
            r == (Event { at, payload: Payload::Connection(event) }),
    {
        Event { at, payload: Payload::Connection(event) }
    }

    /// True for events that must not be sent to an unauthenticated consumer.
    pub fn is_private(&self) -> (r: bool)
        ensures
            r == (self.payload is Account),
    {
        match &self.payload {
            Payload::Account(_) => true,
            Payload::Market(_) => false,
            Payload::Connection(_) => false,
        }
    }
}

} // verus!
