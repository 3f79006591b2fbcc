//! Local durable sidecars for repairing rejected destructive operations.
//!
//! Logical operations and pending frames contain only replicated metadata. The
//! originating replica keeps destroyed SQLite values in two tables of its own
//! until the authority accepts the operation or its rejection consumes them.

pub mod capture;
pub mod laws;
pub mod sidecar;
pub mod tuple;
