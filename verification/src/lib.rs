//! The logical core of a replicated SQLite database.
//!
//! Every durable change is an operation: a frame of tagged byte fields, a list
//! of mutations against an ordered key space, and the guards that decide which
//! concurrent changes conflict with it. This crate holds those operations,
//! their codecs, and the rules that bind them together. Running SQL and talking
//! to the network happen elsewhere; they meet this crate through plain values.

pub mod agreement;
pub mod attempt;
pub mod bindings;
pub mod bytes;
pub mod catalog;
pub mod codec;
pub mod digest;
pub mod double;
pub mod each;
pub mod error;
pub mod footprint;
pub mod identity;
pub mod key;
pub mod logical;
pub mod metastore;
pub mod name;
pub mod physical;
pub mod repair;
pub mod rowid;
pub mod runtime;
pub mod shape;
pub mod snapshot;
pub mod sqlite;
pub mod text;
pub mod value;
