//! Binance connector.
//!
//! One implementation serves spot and USD-M perpetuals: the market is a field, not a fork.
//! Everything that differs between them, hosts, path prefixes and the book sequencing scheme, is
//! isolated in [`endpoints`] and [`wire`].
pub mod endpoints;
pub mod streams;
pub mod wire;
pub mod frames;
pub mod connector;
pub mod rest;
