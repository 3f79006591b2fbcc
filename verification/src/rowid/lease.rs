//! Slots, and the ranges of rowids that are leased from them.

use super::device::RANDOM_SLOTS;
use crate::error::{Error, ErrorView, Result};
use crate::name::{fold_bytes, folded};
use vstd::prelude::*;
use vstd::string::*;
use vstd::utf8::*;

verus! {

/// How many rowids a slot holds.
pub const SLOT_CAPACITY: u32 = 1_048_576;

/// How many rowids a lease holds.
pub const LEASE_SIZE: u32 = 1_024;

/// The greatest slot.
pub const MAX_SLOT: u64 = 8_796_093_022_207;

/// How often an unused slot is looked for.
pub const MAX_SLOT_ATTEMPTS: usize = 1_024;

/// The rowid at an offset of a slot.
pub open spec fn rowid_at(slot: int, offset: int) -> int {
    slot * SLOT_CAPACITY + offset
}

/// The slot of a device with a random part.
pub open spec fn slot_of(tag: int, suffix: int) -> int {
    tag * RANDOM_SLOTS + suffix % RANDOM_SLOTS as int
}

/// The tag of a slot.
pub open spec fn tag_of(slot: int) -> int {
    (slot / RANDOM_SLOTS as int) % 65536
}

/// The rowid at an offset of a slot.
pub fn compose(slot: u64, offset: u32) -> (r: i64)
    requires
        0 < slot <= MAX_SLOT,
        offset < SLOT_CAPACITY,
    ensures
        r == rowid_at(slot as int, offset as int),
        r > 0,
{
    let low: u64 = slot * 1_048_576;
    (low + offset as u64) as i64
}

/// The slot of a device with a random part.
pub fn tagged_slot(tag: u16, suffix: u32) -> (r: u64)
    ensures
        r == slot_of(tag as int, suffix as int),
        r <= MAX_SLOT,
        tag > 0 ==> r > 0,
{
    tag as u64 * 134_217_728 + (suffix % 134_217_728) as u64
}

/// The tag of a slot.
pub fn slot_tag(slot: u64) -> (r: u16)
    ensures
        r == tag_of(slot as int),
{
    ((slot / 134_217_728) % 65_536) as u16
}

/// A half-open range of rowids of one slot.
#[derive(Clone, Copy, Debug, PartialEq, Eq)]
pub struct RowidLease {
    slot: u64,
    next: u32,
    end: u32,
}

/// A lease as a mathematical value.
pub struct LeaseView {
    pub slot: int,
    pub next: int,
    pub end: int,
}

impl View for RowidLease {
    type V = LeaseView;

    closed spec fn view(&self) -> LeaseView {
        LeaseView { slot: self.slot as int, next: self.next as int, end: self.end as int }
    }
}

/// Whether a lease lies within its slot.
pub open spec fn lease_sound(lease: LeaseView) -> bool {
    &&& 0 < lease.slot <= MAX_SLOT
    &&& 0 <= lease.next <= lease.end <= SLOT_CAPACITY
}

impl RowidLease {
    #[verifier::type_invariant]
    spec fn well_formed(self) -> bool {
        lease_sound(self@)
    }

    /// The lease of a range of a slot.
    pub fn new(slot: u64, next: u32, end: u32) -> (r: RowidLease)
        requires
            0 < slot <= MAX_SLOT,
            next <= end <= SLOT_CAPACITY,
        ensures
            r@ == (LeaseView { slot: slot as int, next: next as int, end: end as int }),
    {
        RowidLease { slot, next, end }
    }

    /// The slot.
    pub fn slot(&self) -> (r: u64)
        ensures
            r == self@.slot,
    {
        self.slot
    }

    /// The offsets that are left.
    pub fn offsets(&self) -> (r: (u32, u32))
        ensures
            r.0 == self@.next,
            r.1 == self@.end,
            lease_sound(self@),
    {
        proof {
            use_type_invariant(self);
        }
        (self.next, self.end)
    }

    /// Take the next rowid, where one is left.
    pub fn next_rowid(&mut self) -> (r: Option<i64>)
        ensures
            if old(self)@.next == old(self)@.end {
                r is None && final(self)@ == old(self)@
            } else {
                r matches Some(rowid) && rowid == rowid_at(old(self)@.slot, old(self)@.next)
                    && rowid > 0 && final(self)@ == (LeaseView {
                    next: old(self)@.next + 1,
                    ..old(self)@
                })
            },
    {
        proof {
            use_type_invariant(&*self);
        }
        if self.next == self.end {
            return None;
        }
        let offset: u32 = self.next;
        let lease = RowidLease { slot: self.slot, next: offset + 1, end: self.end };
        *self = lease;
        Some(compose(self.slot, offset))
    }
}

/// The lease that the writable branches of one database share.
#[derive(Debug, PartialEq, Eq)]
pub struct LeaseCursor {
    lease: Option<RowidLease>,
}

impl View for LeaseCursor {
    type V = Option<LeaseView>;

    closed spec fn view(&self) -> Option<LeaseView> {
        match self.lease {
            Some(lease) => Some(lease@),
            None => None,
        }
    }
}

impl LeaseCursor {
    /// No lease yet.
    pub fn new() -> (r: LeaseCursor)
        ensures
            r@ is None,
    {
        LeaseCursor { lease: None }
    }

    /// Go on with another lease.
    pub fn refill(&mut self, lease: RowidLease)
        ensures
            final(self)@ == Some(lease@),
    {
        self.lease = Some(lease);
    }

    /// Take the next rowid, where the lease has one left.
    pub fn take(&mut self) -> (r: Option<i64>)
        ensures
            match old(self)@ {
                None => r is None && final(self)@ is None,
                Some(lease) => if lease.next == lease.end {
                    r is None && final(self)@ == old(self)@
                } else {
                    r matches Some(rowid) && rowid == rowid_at(lease.slot, lease.next)
                        && final(self)@ == Some(LeaseView { next: lease.next + 1, ..lease })
                },
            },
    {
        match self.lease {
            None => None,
            Some(lease) => {
                let mut lease = lease;
                let r = lease.next_rowid();
                self.lease = Some(lease);
                r
            },
        }
    }
}

/// The search for a slot that was never used.
#[derive(Debug, PartialEq, Eq)]
pub struct SlotSearch {
    tag: u16,
    tried: usize,
}

/// A search as a mathematical value.
pub struct SearchView {
    pub tag: int,
    pub tried: int,
}

impl View for SlotSearch {
    type V = SearchView;

    closed spec fn view(&self) -> SearchView {
        SearchView { tag: self.tag as int, tried: self.tried as int }
    }
}

impl SlotSearch {
    #[verifier::type_invariant]
    spec fn well_formed(self) -> bool {
        self.tag > 0 && self.tried <= MAX_SLOT_ATTEMPTS
    }

    /// Begin a search among the slots of a device.
    pub fn new(tag: u16) -> (r: SlotSearch)
        requires
            tag > 0,
        ensures
            r@ == (SearchView { tag: tag as int, tried: 0 }),
    {
        SlotSearch { tag, tried: 0 }
    }

    /// Refuse to go on after the last attempt.
    pub fn check(&self) -> (r: Result<()>)
        ensures
            crate::error::refusal(r) == (if self@.tried < MAX_SLOT_ATTEMPTS {
                None
            } else {
                Some(ErrorView::Entropy("could not allocate an unused rowid slot"@))
            }),
    {
        proof {
            use_type_invariant(self);
        }
        if self.tried < MAX_SLOT_ATTEMPTS {
            Ok(())
        } else {
            Err(Error::Entropy("could not allocate an unused rowid slot".to_owned()))
        }
    }

    /// The slot to try next, given a random part.
    pub fn candidate(&mut self, suffix: u32) -> (r: u64)
        requires
            old(self)@.tried < MAX_SLOT_ATTEMPTS,
        ensures
            r == slot_of(old(self)@.tag, suffix as int),
            0 < r <= MAX_SLOT,
            final(self)@ == (SearchView { tried: old(self)@.tried + 1, ..old(self)@ }),
    {
        proof {
            use_type_invariant(&*self);
        }
        let search = SlotSearch { tag: self.tag, tried: self.tried + 1 };
        *self = search;
        tagged_slot(self.tag, suffix)
    }
}

/// The prefix of the tables that the library keeps for itself.
pub const INTERNAL_PREFIX: &'static str = "__multilite__";

/// Bytes with ASCII letters folded.
pub open spec fn folded_bytes(bytes: Seq<u8>) -> Seq<u8> {
    bytes.map_values(|b: u8| folded(b))
}

/// Whether a table is one that the library keeps for itself, in any case of its
/// letters.
pub open spec fn internal(table: Seq<u8>) -> bool {
    let prefix = encode_utf8(INTERNAL_PREFIX@);
    prefix.len() <= table.len() && folded_bytes(table.subrange(0, prefix.len() as int))
        == folded_bytes(prefix)
}

/// Whether rowids of a table are allocated: it is a user's table of the main
/// schema.
pub open spec fn allocated(schema: Seq<u8>, table: Seq<u8>) -> bool {
    folded_bytes(schema) == folded_bytes(encode_utf8("main"@)) && !internal(table)
}

/// Whether a table is one that the library keeps for itself.
pub fn has_internal_prefix(table: &[u8]) -> (r: bool)
    ensures
        r == internal(table@),
{
    let prefix = INTERNAL_PREFIX.as_bytes();
    if table.len() < prefix.len() {
        return false;
    }
    let head = vstd::slice::slice_subrange(table, 0, prefix.len());
    crate::bytes::same_bytes(fold_bytes(head).as_slice(), fold_bytes(prefix).as_slice())
}

/// Whether rowids of a table are allocated.
pub fn allocates(schema: &[u8], table: &[u8]) -> (r: bool)
    ensures
        r == allocated(schema@, table@),
{
    crate::bytes::same_bytes(
        fold_bytes(schema).as_slice(),
        fold_bytes("main".as_bytes()).as_slice(),
    ) && !has_internal_prefix(table)
}

} // verus!
