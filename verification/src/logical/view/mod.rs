//! Metadata-only synchronized SQLite views.

pub mod codec;
pub mod error;
pub mod frame;
pub mod operation;
pub mod laws;
pub mod lower;
pub mod reads;
pub mod steps;
