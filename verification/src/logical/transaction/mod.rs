//! Durable ordered transactions and the batches that the authority admits.

pub mod codec;
pub mod compile;
pub mod envelope;
pub mod laws;
