//! Venue-agnostic market-data state: what has to be maintained between messages.
pub mod books;
pub mod candles;
pub mod ring;
