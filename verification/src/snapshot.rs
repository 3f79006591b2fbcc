//! Where a transaction starts, apart from SQLite's own state.

use crate::footprint::AdmissionSeq;
use vstd::prelude::*;

verus! {

/// The place of a commit among those of this replica. Later commits have greater
/// ones.
#[derive(Clone, Copy, Debug, PartialEq, Eq, PartialOrd, Ord, Hash, Structural)]
pub struct LocalGeneration(pub u64);

/// The place of an operation among those of one device.
#[derive(Clone, Copy, Debug, PartialEq, Eq, PartialOrd, Ord, Hash, Structural)]
pub struct DeviceSeq(pub u64);

/// How far a device's operations were acknowledged, sent and recorded.
#[derive(Clone, Copy, Debug, PartialEq, Eq, Structural)]
pub struct OplogCursors {
    pub head: DeviceSeq,
    pub neck: DeviceSeq,
    pub tail: DeviceSeq,
}

/// What a transaction sees of the local state, of the authority's and of the
/// operations that are on their way.
#[derive(Clone, Copy, Debug, PartialEq, Eq, Structural)]
pub struct SnapshotDescriptor {
    pub local_generation: LocalGeneration,
    pub authority_applied_through: AdmissionSeq,
    pub submit_cursors: OplogCursors,
}

} // verus!
