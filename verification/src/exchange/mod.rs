//! The contract every venue connector fulfils.
pub mod caps;
pub mod error;
pub mod limits;
pub mod moment;
pub mod venue;
