//! Durable state: closed deals, the orders that made them, fills, candles and the audit trail.

pub mod maintenance;
pub mod orders;
pub mod read;
pub mod retention;
pub mod schema;
pub mod store;
pub mod writer;
