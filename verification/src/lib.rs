//! The logic of a trading core and of the terminals that connect to it.
//!
//! Books and candles built from what a venue streams, the budgets its requests are held to, the
//! sessions a core grants, what is written to disk and what is shown on screen. Sockets, files,
//! clocks and windows are elsewhere: they say what happened, and this says what to do about it.

pub mod binance;
pub mod decimal;
pub mod domain;
pub mod exchange;
pub mod marketdata;
pub mod service;
pub mod storage;
pub mod table;
pub mod terminal;
pub mod text;
