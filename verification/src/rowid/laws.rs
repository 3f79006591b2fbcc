//! What holds of every allocated rowid.

use super::device::{first_tag, tag_at, RANDOM_SLOTS};
use super::lease::{
    allocated, folded_bytes, internal, lease_sound, rowid_at, slot_of, tag_of, LeaseView,
    INTERNAL_PREFIX, LEASE_SIZE, MAX_SLOT, SLOT_CAPACITY,
};
use super::state::{
    allocator_fault, next_lease, state_read, Allocator, StateView, SLOTS_TABLE, STATE_TABLE,
};
use crate::codec::views;
use crate::shape::without_rowid;
use vstd::prelude::*;
use vstd::utf8::encode_utf8;

verus! {

/// Whether a rowid is one of a lease.
pub open spec fn leased(lease: LeaseView, rowid: int) -> bool {
    exists|offset: int| lease.next <= offset < lease.end && #[trigger] rowid_at(lease.slot, offset)
        == rowid
}

/// Different offsets or different slots give different rowids.
pub proof fn rowids_are_unique(a: int, x: int, b: int, y: int)
    requires
        0 <= x < SLOT_CAPACITY,
        0 <= y < SLOT_CAPACITY,
        rowid_at(a, x) == rowid_at(b, y),
    ensures
        a == b,
        x == y,
{
    assert(a == b) by (nonlinear_arith)
        requires
            0 <= x < 1_048_576,
            0 <= y < 1_048_576,
            a * 1_048_576 + x == b * 1_048_576 + y,
    ;
}

/// Every rowid is a positive 64-bit integer.
pub proof fn rowids_are_positive(slot: int, offset: int)
    requires
        0 < slot <= MAX_SLOT,
        0 <= offset < SLOT_CAPACITY,
    ensures
        0 < rowid_at(slot, offset) <= i64::MAX,
{
}

/// The rowids of a device's slots leave the lower ones to rows that were there
/// before it.
pub proof fn rowids_stay_out_of_the_lower_range(tag: int, suffix: int, offset: int)
    requires
        0 < tag <= u16::MAX,
        0 <= suffix,
        0 <= offset < SLOT_CAPACITY,
    ensures
        rowid_at(slot_of(tag, suffix), offset) >= 140_737_488_355_328,
{
    assert(slot_of(tag, suffix) >= RANDOM_SLOTS);
}

/// A slot has the tag of its device, so that two devices with different tags
/// share no rowid.
pub proof fn slots_keep_their_tags(tag: int, suffix: int)
    requires
        0 <= tag <= u16::MAX,
        0 <= suffix,
    ensures
        tag_of(slot_of(tag, suffix)) == tag,
        slot_of(tag, suffix) <= MAX_SLOT,
{
    let s = suffix % RANDOM_SLOTS as int;
    assert((tag * 134_217_728 + s) / 134_217_728 == tag) by (nonlinear_arith)
        requires
            0 <= s < 134_217_728,
            0 <= tag,
    ;
}

/// Two leases of one state share no rowid: the second begins where the first
/// ends, or in another slot.
pub proof fn consecutive_leases_are_disjoint(
    state: StateView,
    first: Option<int>,
    second: Option<int>,
    rowid: int,
)
    requires
        0 < state.active_slot <= MAX_SLOT,
        0 <= state.leased_through <= SLOT_CAPACITY,
        first is Some == (state.leased_through == SLOT_CAPACITY),
        first matches Some(slot) ==> 0 < slot <= MAX_SLOT,
        ({
            let lease = next_lease(state, first);
            &&& second is Some == (lease.end == SLOT_CAPACITY)
            &&& second matches Some(slot) ==> 0 < slot <= MAX_SLOT && slot != lease.slot
            &&& leased(lease, rowid)
        }),
    ensures
        ({
            let lease = next_lease(state, first);
            let after = StateView {
                device: state.device,
                active_slot: lease.slot,
                leased_through: lease.end,
            };
            lease_sound(next_lease(after, second)) && !leased(next_lease(after, second), rowid)
        }),
{
    let lease = next_lease(state, first);
    let after = StateView {
        device: state.device,
        active_slot: lease.slot,
        leased_through: lease.end,
    };
    let next = next_lease(after, second);
    let x = choose|x: int| lease.next <= x < lease.end && #[trigger] rowid_at(lease.slot, x)
        == rowid;
    if leased(next, rowid) {
        let y = choose|y: int| next.next <= y < next.end && #[trigger] rowid_at(next.slot, y)
            == rowid;
        rowids_are_unique(lease.slot, x, next.slot, y);
    }
}

/// A lease is never empty while its slot has rowids left, stays within its slot,
/// is no longer than a lease may be, and goes on where the one before it ended,
/// or begins a fresh slot.
pub proof fn leases_go_on_where_they_ended(state: StateView, fresh: Option<int>)
    requires
        0 <= state.leased_through <= SLOT_CAPACITY,
        fresh is None ==> state.leased_through < SLOT_CAPACITY,
    ensures
        ({
            let lease = next_lease(state, fresh);
            &&& lease.next < lease.end <= SLOT_CAPACITY
            &&& lease.end - lease.next <= LEASE_SIZE
            &&& lease.end - lease.next < LEASE_SIZE ==> lease.end == SLOT_CAPACITY
            &&& fresh is None ==> lease.slot == state.active_slot && lease.next
                == state.leased_through
            &&& fresh matches Some(slot) ==> lease.slot == slot && lease.next == 0
        }),
{
}

/// The tag of a device is that of the first counter that gives one other than
/// zero.
pub proof fn device_tags_are_the_first_nonzero(device: Seq<u8>, counter: nat)
    requires
        counter <= 4294967296,
    ensures
        first_tag(device, counter) matches Some(tag) ==> tag != 0 && exists|at: nat|
            counter <= at < 4294967296 && #[trigger] tag_at(device, at) == tag && forall|
                before: nat,
            |
                counter <= before < at ==> #[trigger] tag_at(device, before) == 0,
        first_tag(device, counter) is None ==> forall|at: nat|
            counter <= at < 4294967296 ==> #[trigger] tag_at(device, at) == 0,
    decreases 4294967296 - counter,
{
    if counter < 4294967296 {
        if tag_at(device, counter) == 0 {
            device_tags_are_the_first_nonzero(device, counter + 1);
            if let Some(tag) = first_tag(device, counter) {
                let at = choose|at: nat|
                    counter + 1 <= at < 4294967296 && #[trigger] tag_at(device, at) == tag
                        && forall|before: nat|
                        counter + 1 <= before < at ==> #[trigger] tag_at(device, before) == 0;
                assert(tag_at(device, at) == tag);
                assert forall|before: nat| counter <= before < at implies #[trigger] tag_at(
                    device,
                    before,
                ) == 0 by {
                    if before > counter {
                        assert(counter + 1 <= before);
                    }
                }
            }
        } else {
            assert(tag_at(device, counter) == first_tag(device, counter)->Some_0);
        }
    }
}

/// An accepted allocator has both tables and no other; its state is that of a
/// device, whose tag every slot has, the active one among them, and has leased
/// no more than a slot holds.
pub proof fn accepted_allocators_keep_to_their_device(allocator: Allocator)
    requires
        allocator_fault(allocator) is None,
    ensures
        views(allocator.tables@) == seq![SLOTS_TABLE@, STATE_TABLE@],
        without_rowid(allocator.state_sql@),
        without_rowid(allocator.slot_sql@),
        allocator.state is Some,
        state_read(allocator.state) matches Ok(state) && {
            &&& state.device.len() == 16
            &&& 0 <= state.leased_through <= SLOT_CAPACITY
            &&& first_tag(state.device, 0) == Some(tag_of(state.active_slot) as nat)
            &&& exists|i: int|
                0 <= i < allocator.slots@.len() && #[trigger] allocator.slots@[i]
                    == state.active_slot
            &&& forall|i: int|
                0 <= i < allocator.slots@.len() ==> 0 < (#[trigger] allocator.slots@[i]) <= MAX_SLOT
                    && first_tag(state.device, 0) == Some(
                    tag_of(allocator.slots@[i] as int) as nat,
                )
        },
{
}

/// Rowids are allocated for the tables of the main schema, in any case of its
/// letters, but for those whose names begin with the library's own prefix, in
/// any case of theirs.
pub proof fn only_user_tables_are_allocated(schema: Seq<u8>, table: Seq<u8>, other: Seq<u8>)
    requires
        folded_bytes(table) == folded_bytes(other),
    ensures
        allocated(schema, table) == allocated(schema, other),
        internal(table) ==> !allocated(schema, table),
{
    let prefix = encode_utf8(INTERNAL_PREFIX@);
    assert(folded_bytes(table).len() == table.len());
    assert(folded_bytes(other).len() == other.len());
    if prefix.len() <= table.len() {
        let n = prefix.len() as int;
        assert(folded_bytes(table.subrange(0, n)) =~= folded_bytes(table).subrange(0, n));
        assert(folded_bytes(other.subrange(0, n)) =~= folded_bytes(other).subrange(0, n));
    }
}

} // verus!
