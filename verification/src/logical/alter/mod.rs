//! Identity-resolved table and column schema deltas.

pub mod codec;
pub mod error;
pub mod frame;
pub mod operation;
pub mod prepare;
pub mod lower;
pub mod steps;
pub mod rebuild;
pub mod record;
pub mod laws;
pub mod outcome;
pub mod space;
