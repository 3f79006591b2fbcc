//! Logical Multilite operations and their durable representation.

pub mod codec;
pub mod compile;
pub mod laws;
