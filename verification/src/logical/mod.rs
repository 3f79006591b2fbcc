//! Durable operations, schema, guards, and transaction compilation.
//!
//! This layer holds the objects shared by local capture, canonical application,
//! authority replay, and rejection repair.

pub mod alter;
pub mod apart;
pub mod charter;
pub mod codes;
pub mod drop_table;
pub mod isolation;
pub mod contract;
pub mod target;
pub mod guard;
pub mod index;
pub mod layout;
pub mod lowering;
pub mod operation;
pub mod row;
pub mod schema;
pub mod space;
pub mod transaction;
pub mod types;
pub mod user_version;
pub mod view;
