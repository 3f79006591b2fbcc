//! Metadata-only table destruction with local-only rejection repair.

pub mod codec;
pub mod error;
pub mod frame;
pub mod laws;
pub mod lower;
pub mod operation;
pub mod prepare;
pub mod steps;
