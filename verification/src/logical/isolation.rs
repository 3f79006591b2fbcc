//! Isolation policy for managed transactions.

use vstd::prelude::*;

verus! {

/// Conflict guarantees requested for admitted transactions.
#[derive(Clone, Copy, Debug, PartialEq, Eq, Structural)]
pub enum IsolationLevel {
    /// Validate writes and mandatory constraints, but not ordinary reads.
    Snapshot,
    /// Additionally validate every logical read range observed by the update.
    Serializable,
}

impl Default for IsolationLevel {
    fn default() -> (r: Self)
        ensures
            r == IsolationLevel::Snapshot,
    {
        IsolationLevel::Snapshot
    }
}

/// Options that override one managed update's open-time defaults.
#[derive(Clone, Copy, Debug, PartialEq, Eq, Structural)]
pub struct UpdateOptions {
    isolation: IsolationLevel,
}

impl UpdateOptions {
    /// The isolation level of these options.
    pub closed spec fn level(&self) -> IsolationLevel {
        self.isolation
    }

    /// Configure one managed update with an explicit isolation level.
    pub fn new(isolation: IsolationLevel) -> (r: Self)
        ensures
            r.level() == isolation,
    {
        UpdateOptions { isolation }
    }

    /// Isolation level used to plan this update's conflict assertions.
    pub fn isolation_level(self) -> (r: IsolationLevel)
        ensures
            r == self.level(),
    {
        self.isolation
    }
}

} // verus!
