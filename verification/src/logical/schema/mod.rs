//! Table definitions: what a table is, whatever its names are at the moment.

pub mod codec;
pub mod columns;
pub mod create;
pub mod definition;
pub mod depend;
pub mod described;
pub mod error;
pub mod evolve;
pub mod laws;
pub mod lower;
pub mod part;
pub mod space;
pub mod statement;
pub mod table;
