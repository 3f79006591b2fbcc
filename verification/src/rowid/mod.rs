//! Durable, device-scoped allocation of positive SQLite rowids.

pub mod device;
pub mod laws;
pub mod lease;
pub mod state;
