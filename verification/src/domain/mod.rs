//! Exchange-agnostic trading vocabulary.
//!
//! Two conventions are load-bearing:
//!
//! * Money is [`crate::decimal::Decimal`]. Exchange prices and quantities sit on decimal grids,
//!   and a value off the grid is rejected by the venue.
//! * Spot is the reduced case of a derivatives market. [`ids::MarketKind`] is present on every
//!   identifier.
pub mod ids;
pub mod time;
pub mod order;
pub mod account;
pub mod instrument;
pub mod scaled;
pub mod market;
pub mod registry;
pub mod event;
