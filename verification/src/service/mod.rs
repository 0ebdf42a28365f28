//! The headless core: the read-model, the sessions of terminals, and the operational surface.
pub mod state;
pub mod session;
pub mod config;
pub mod metrics;
pub mod tls;
pub mod pipeline;
