//! The allocator's durable state.

use super::device::{device_tag, first_tag};
use super::lease::{
    slot_tag, tag_of, LeaseView, RowidLease, LEASE_SIZE, MAX_SLOT, SLOT_CAPACITY,
};
use crate::bytes::same_bytes;
use crate::codec::views;
use crate::error::{refusal, verdict, Error, ErrorView, Result};
use crate::name::same_text;
use crate::shape::{
    column_is, described, is_without_rowid, without_rowid, ColumnInfo, ColumnInfoView,
};
use vstd::prelude::*;

verus! {

/// The table that holds the allocator's state.
pub const STATE_TABLE: &'static str = "__multilite__rowid_state";

/// The table that holds every slot that was ever used.
pub const SLOTS_TABLE: &'static str = "__multilite__rowid_slots";

/// What the names of the allocator's tables begin with.
pub const NAMESPACE: &'static str = "__multilite__rowid";

/// The statements that create the tables.
pub const CREATE_TABLES: &'static str =
    "CREATE TABLE __multilite__rowid_state (singleton INTEGER PRIMARY KEY NOT NULL CHECK(singleton = 1), device_id BLOB NOT NULL CHECK(length(device_id) = 16), active_slot INTEGER NOT NULL CHECK(active_slot > 0 AND active_slot <= 8796093022207), leased_through INTEGER NOT NULL CHECK(leased_through >= 0 AND leased_through <= 1048576)) WITHOUT ROWID; CREATE TABLE __multilite__rowid_slots (slot INTEGER PRIMARY KEY NOT NULL CHECK(slot > 0 AND slot <= 8796093022207)) WITHOUT ROWID";

/// What adds a slot unless it was used before.
pub const INSERT_SLOT: &'static str =
    "INSERT OR IGNORE INTO __multilite__rowid_slots (slot) VALUES (?1)";

/// What records a device's first slot.
pub const INSERT_STATE: &'static str =
    "INSERT INTO __multilite__rowid_state (singleton, device_id, active_slot, leased_through) VALUES (1, ?1, ?2, 0)";

/// What reads the state.
pub const SELECT_STATE: &'static str =
    "SELECT device_id, active_slot, leased_through FROM __multilite__rowid_state WHERE singleton = 1";

/// What reads the slots.
pub const SELECT_SLOTS: &'static str = "SELECT slot FROM __multilite__rowid_slots ORDER BY slot";

/// What records a lease, unless the state changed since it was read.
pub const UPDATE_STATE: &'static str =
    "UPDATE __multilite__rowid_state SET active_slot = ?1, leased_through = ?2 WHERE singleton = 1 AND active_slot = ?3 AND leased_through = ?4";

/// The state as it is stored.
#[derive(Debug, PartialEq, Eq)]
pub struct StateRow {
    pub device: Vec<u8>,
    pub active_slot: i64,
    pub leased_through: i64,
}

/// The allocator's state: its device, the slot that leases come from, and how
/// much of the slot was leased.
#[derive(Clone, Copy, Debug, PartialEq, Eq)]
pub struct DurableState {
    pub device: [u8; 16],
    pub active_slot: u64,
    pub leased_through: u32,
}

/// A state as a mathematical value.
pub struct StateView {
    pub device: Seq<u8>,
    pub active_slot: int,
    pub leased_through: int,
}

impl View for DurableState {
    type V = StateView;

    open spec fn view(&self) -> StateView {
        StateView {
            device: self.device@,
            active_slot: self.active_slot as int,
            leased_through: self.leased_through as int,
        }
    }
}

/// The state that a stored row holds.
pub open spec fn state_read(row: Option<StateRow>) -> std::result::Result<StateView, ErrorView> {
    match row {
        None => Err(ErrorView::InvalidDatabase("rowid allocator state row is missing"@)),
        Some(row) => if row.device@.len() != 16 {
            Err(ErrorView::InvalidDatabase("rowid allocator device id is malformed"@))
        } else if row.active_slot < 0 {
            Err(ErrorView::InvalidDatabase("rowid allocator active slot is malformed"@))
        } else if !(0 <= row.leased_through <= u32::MAX) {
            Err(ErrorView::InvalidDatabase("rowid allocator lease is malformed"@))
        } else {
            Ok(
                StateView {
                    device: row.device@,
                    active_slot: row.active_slot as int,
                    leased_through: row.leased_through as int,
                },
            )
        },
    }
}

/// Everything that a database holds of the allocator. The tables are those whose
/// names begin with the allocator's namespace, in order.
#[derive(Debug, PartialEq, Eq)]
pub struct Allocator {
    pub tables: Vec<String>,
    pub state_columns: Vec<ColumnInfo>,
    pub slot_columns: Vec<ColumnInfo>,
    pub state_sql: String,
    pub slot_sql: String,
    pub state: Option<StateRow>,
    pub slots: Vec<i64>,
}

/// Whether the tables are there: both or none.
pub open spec fn namespace(tables: Seq<Seq<char>>) -> std::result::Result<bool, ErrorView> {
    if tables.len() == 0 {
        Ok(false)
    } else if tables == seq![SLOTS_TABLE@, STATE_TABLE@] {
        Ok(true)
    } else {
        Err(
            ErrorView::InvalidDatabase("rowid allocator namespace contains unexpected tables"@),
        )
    }
}

/// The columns of the state's table.
pub open spec fn state_shape() -> Seq<ColumnInfoView> {
    seq![
        described("singleton"@, "INTEGER"@, 1),
        described("device_id"@, "BLOB"@, 0),
        described("active_slot"@, "INTEGER"@, 0),
        described("leased_through"@, "INTEGER"@, 0),
    ]
}

/// The columns of the slots' table.
pub open spec fn slot_shape() -> Seq<ColumnInfoView> {
    seq![described("slot"@, "INTEGER"@, 1)]
}

/// Whether slots are those of a device: there is one, each is within bounds and
/// has the device's tag, and the active one is among them.
pub open spec fn slots_sound(slots: Seq<i64>, active: int, tag: Option<nat>) -> bool {
    &&& slots.len() > 0
    &&& exists|i: int| 0 <= i < slots.len() && #[trigger] slots[i] == active
    &&& forall|i: int|
        0 <= i < slots.len() ==> 0 < (#[trigger] slots[i]) <= MAX_SLOT && tag == Some(
            tag_of(slots[i] as int) as nat,
        )
}

/// Why the allocator of a database is refused.
pub open spec fn allocator_fault(allocator: Allocator) -> Option<ErrorView> {
    match namespace(views(allocator.tables@)) {
        Err(error) => Some(error),
        Ok(false) => Some(ErrorView::InvalidDatabase("rowid allocator tables are missing"@)),
        Ok(true) => if views(allocator.state_columns@) != state_shape() {
            Some(ErrorView::InvalidDatabase("rowid allocator state table schema is invalid"@))
        } else if views(allocator.slot_columns@) != slot_shape() {
            Some(ErrorView::InvalidDatabase("rowid allocator slot table schema is invalid"@))
        } else if !without_rowid(allocator.state_sql@) || !without_rowid(allocator.slot_sql@) {
            Some(ErrorView::InvalidDatabase("rowid allocator tables must use WITHOUT ROWID"@))
        } else {
            match state_read(allocator.state) {
                Err(error) => Some(error),
                Ok(state) => {
                    let tag = first_tag(state.device, 0);
                    if tag != Some(tag_of(state.active_slot) as nat) || state.leased_through
                        > SLOT_CAPACITY {
                        Some(ErrorView::InvalidDatabase("rowid allocator state is malformed"@))
                    } else if exists|i: int|
                        0 <= i < allocator.slots@.len() && #[trigger] allocator.slots@[i] < 0 {
                        Some(ErrorView::InvalidDatabase("rowid allocator slot is malformed"@))
                    } else if !slots_sound(allocator.slots@, state.active_slot, tag) {
                        Some(ErrorView::InvalidDatabase("rowid allocator slots are malformed"@))
                    } else {
                        None
                    }
                },
            }
        },
    }
}

/// Whether the tables are there.
pub fn is_initialized(tables: &[String]) -> (r: Result<bool>)
    ensures
        match r {
            Ok(found) => namespace(views(tables@)) == Ok::<bool, ErrorView>(found),
            Err(error) => namespace(views(tables@)) == Err::<bool, ErrorView>(error@),
        },
{
    let ghost all = views(tables@);
    assert(all.len() == tables@.len());
    if tables.len() == 0 {
        return Ok(false);
    }
    if tables.len() == 2 {
        assert(all[0] == tables@[0]@ && all[1] == tables@[1]@);
        if same_text(tables[0].as_str(), SLOTS_TABLE) && same_text(
            tables[1].as_str(),
            STATE_TABLE,
        ) {
            assert(all =~= seq![SLOTS_TABLE@, STATE_TABLE@]);
            return Ok(true);
        }
    }
    Err(Error::InvalidDatabase("rowid allocator namespace contains unexpected tables"))
}

/// The state that a stored row holds.
pub fn load_state(row: &Option<StateRow>) -> (r: Result<DurableState>)
    ensures
        verdict(r) == state_read(*row),
{
    let row = match row {
        None => {
            return Err(Error::InvalidDatabase("rowid allocator state row is missing"));
        },
        Some(row) => row,
    };
    if row.device.len() != 16 {
        return Err(Error::InvalidDatabase("rowid allocator device id is malformed"));
    }
    let bytes = &row.device;
    let device: [u8; 16] = [
        bytes[0],
        bytes[1],
        bytes[2],
        bytes[3],
        bytes[4],
        bytes[5],
        bytes[6],
        bytes[7],
        bytes[8],
        bytes[9],
        bytes[10],
        bytes[11],
        bytes[12],
        bytes[13],
        bytes[14],
        bytes[15],
    ];
    assert(device@ =~= row.device@);
    if row.active_slot < 0 {
        return Err(Error::InvalidDatabase("rowid allocator active slot is malformed"));
    }
    if row.leased_through < 0 || row.leased_through > u32::MAX as i64 {
        return Err(Error::InvalidDatabase("rowid allocator lease is malformed"));
    }
    Ok(
        DurableState {
            device,
            active_slot: row.active_slot as u64,
            leased_through: row.leased_through as u32,
        },
    )
}

/// Whether columns are those of the state's table.
fn has_state_shape(columns: &[ColumnInfo]) -> (r: bool)
    ensures
        r == (views(columns@) == state_shape()),
{
    let ghost all = views(columns@);
    assert(all.len() == columns@.len());
    if columns.len() != 4 {
        return false;
    }
    assert(all[0] == columns@[0]@ && all[1] == columns@[1]@);
    assert(all[2] == columns@[2]@ && all[3] == columns@[3]@);
    let r = column_is(&columns[0], "singleton", "INTEGER", 1) && column_is(
        &columns[1],
        "device_id",
        "BLOB",
        0,
    ) && column_is(&columns[2], "active_slot", "INTEGER", 0) && column_is(
        &columns[3],
        "leased_through",
        "INTEGER",
        0,
    );
    proof {
        if r {
            assert(all =~= state_shape());
        } else if all == state_shape() {
            assert(all[0] == state_shape()[0] && all[1] == state_shape()[1]);
            assert(all[2] == state_shape()[2] && all[3] == state_shape()[3]);
        }
    }
    r
}

/// Whether columns are those of the slots' table.
fn has_slot_shape(columns: &[ColumnInfo]) -> (r: bool)
    ensures
        r == (views(columns@) == slot_shape()),
{
    let ghost all = views(columns@);
    assert(all.len() == columns@.len());
    if columns.len() != 1 {
        return false;
    }
    assert(all[0] == columns@[0]@);
    let r = column_is(&columns[0], "slot", "INTEGER", 1);
    proof {
        if r {
            assert(all =~= slot_shape());
        } else if all == slot_shape() {
            assert(all[0] == slot_shape()[0]);
        }
    }
    r
}

/// Whether a number is negative.
fn any_negative(slots: &[i64]) -> (r: bool)
    ensures
        r == exists|i: int| 0 <= i < slots@.len() && #[trigger] slots@[i] < 0,
{
    let mut i: usize = 0;
    while i < slots.len()
        invariant
            i <= slots@.len(),
            forall|j: int| 0 <= j < i ==> #[trigger] slots@[j] >= 0,
        decreases slots.len() - i,
    {
        if slots[i] < 0 {
            return true;
        }
        i += 1;
    }
    false
}

/// Whether slots are those of a device.
fn check_slots(slots: &[i64], active: u64, tag: Option<u16>) -> (r: bool)
    ensures
        r == slots_sound(
            slots@,
            active as int,
            match tag {
                Some(tag) => Some(tag as nat),
                None => None,
            },
        ),
{
    let ghost want = match tag {
        Some(tag) => Some(tag as nat),
        None => None,
    };
    let mut found = false;
    let mut i: usize = 0;
    while i < slots.len()
        invariant
            i <= slots@.len(),
            want == (match tag {
                Some(tag) => Some(tag as nat),
                None => None,
            }),
            found == exists|j: int| 0 <= j < i && #[trigger] slots@[j] == active,
            forall|j: int|
                0 <= j < i ==> 0 < (#[trigger] slots@[j]) <= MAX_SLOT && want == Some(
                    tag_of(slots@[j] as int) as nat,
                ),
        decreases slots.len() - i,
    {
        let slot: i64 = slots[i];
        if slot <= 0 || slot as u64 > MAX_SLOT {
            return false;
        }
        match tag {
            None => {
                return false;
            },
            Some(tag) => {
                if slot_tag(slot as u64) != tag {
                    return false;
                }
            },
        }
        if slot as u64 == active {
            found = true;
        }
        i += 1;
    }
    slots.len() > 0 && found
}

impl Allocator {
    /// Refuse an allocator whose tables or state cannot be its own.
    pub fn validate(&self) -> (r: Result<()>)
        ensures
            refusal(r) == allocator_fault(*self),
    {
        match is_initialized(self.tables.as_slice()) {
            Err(error) => {
                return Err(error);
            },
            Ok(found) => if !found {
                return Err(Error::InvalidDatabase("rowid allocator tables are missing"));
            },
        }
        if !has_state_shape(self.state_columns.as_slice()) {
            return Err(Error::InvalidDatabase("rowid allocator state table schema is invalid"));
        }
        if !has_slot_shape(self.slot_columns.as_slice()) {
            return Err(Error::InvalidDatabase("rowid allocator slot table schema is invalid"));
        }
        if !is_without_rowid(self.state_sql.as_str()) || !is_without_rowid(
            self.slot_sql.as_str(),
        ) {
            return Err(Error::InvalidDatabase("rowid allocator tables must use WITHOUT ROWID"));
        }
        let state = match load_state(&self.state) {
            Err(error) => {
                return Err(error);
            },
            Ok(state) => state,
        };
        let tag = device_tag(state.device);
        if tag != Some(slot_tag(state.active_slot)) || state.leased_through > SLOT_CAPACITY {
            return Err(Error::InvalidDatabase("rowid allocator state is malformed"));
        }
        if any_negative(self.slots.as_slice()) {
            return Err(Error::InvalidDatabase("rowid allocator slot is malformed"));
        }
        if !check_slots(self.slots.as_slice(), state.active_slot, tag) {
            return Err(Error::InvalidDatabase("rowid allocator slots are malformed"));
        }
        Ok(())
    }
}

/// Refuse the allocator of another device.
pub fn validate_device(state: &DurableState, device: [u8; 16]) -> (r: Result<()>)
    ensures
        refusal(r) == (if state@.device == device@ {
            None
        } else {
            Some(ErrorView::InvalidDatabase("rowid allocator belongs to another device"@))
        }),
{
    if !same_bytes(&state.device, &device) {
        return Err(Error::InvalidDatabase("rowid allocator belongs to another device"));
    }
    Ok(())
}

/// A lease, and the state that it is recorded over.
pub struct LeasePlan {
    pub lease: RowidLease,
    pub expected_slot: u64,
    pub expected_through: u32,
}

/// The next lease of a state. A slot that is used up is left for another.
pub open spec fn next_lease(state: StateView, fresh: Option<int>) -> LeaseView {
    let (slot, start) = match fresh {
        Some(slot) => (slot, 0int),
        None => (state.active_slot, state.leased_through),
    };
    LeaseView {
        slot,
        next: start,
        end: if start + LEASE_SIZE < SLOT_CAPACITY {
            start + LEASE_SIZE
        } else {
            SLOT_CAPACITY as int
        },
    }
}

impl DurableState {
    /// Whether the slot is used up, so that the next lease needs another.
    pub fn is_exhausted(&self) -> (r: bool)
        ensures
            r == (self@.leased_through == SLOT_CAPACITY),
    {
        self.leased_through == SLOT_CAPACITY
    }

    /// Plan the next lease, from a fresh slot where the slot is used up.
    pub fn plan_lease(&self, fresh: Option<u64>) -> (r: LeasePlan)
        requires
            0 < self@.active_slot <= MAX_SLOT,
            self@.leased_through <= SLOT_CAPACITY,
            fresh is Some == (self@.leased_through == SLOT_CAPACITY),
            fresh matches Some(slot) ==> 0 < slot <= MAX_SLOT,
        ensures
            r.lease@ == next_lease(
                self@,
                match fresh {
                    Some(slot) => Some(slot as int),
                    None => None,
                },
            ),
            r.expected_slot == self@.active_slot,
            r.expected_through == self@.leased_through,
    {
        let (slot, start): (u64, u32) = match fresh {
            Some(slot) => (slot, 0),
            None => (self.active_slot, self.leased_through),
        };
        let end: u32 = if start + LEASE_SIZE < SLOT_CAPACITY {
            start + LEASE_SIZE
        } else {
            SLOT_CAPACITY
        };
        LeasePlan {
            lease: RowidLease::new(slot, start, end),
            expected_slot: self.active_slot,
            expected_through: self.leased_through,
        }
    }
}

/// Refuse a lease that was recorded over another state than the one it was
/// planned from.
pub fn check_leased(changed: usize) -> (r: Result<()>)
    ensures
        refusal(r) == (if changed == 1 {
            None
        } else {
            Some(ErrorView::InvalidDatabase("rowid allocator state changed while leasing"@))
        }),
{
    if changed != 1 {
        return Err(Error::InvalidDatabase("rowid allocator state changed while leasing"));
    }
    Ok(())
}

} // verus!
