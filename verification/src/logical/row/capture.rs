//! Row events as SQLite reports them, and the memory that they may take.

use super::changes::{capture_limit, MAX_CAPTURED_CHANGES, MAX_ROW_OPERATION_BYTES};
use crate::codec::views;
use crate::error::Error;
use crate::value::{value_frame, StoredValue, ValueView};
use vstd::prelude::*;
use vstd::utf8::encode_utf8;

verus! {

/// Bytes that a captured rowid takes.
pub const ROWID_BYTES: usize = 8;

/// One complete SQLite row image observed after affinity and generated values ran.
#[derive(Debug, PartialEq, Eq)]
pub struct CapturedRow {
    pub table: String,
    pub rowid: i64,
    pub values: Vec<StoredValue>,
}

/// A captured row as a mathematical value.
#[verifier::ext_equal]
pub struct CapturedRowView {
    pub table: Seq<char>,
    pub rowid: i64,
    pub values: Seq<ValueView>,
}

impl View for CapturedRow {
    type V = CapturedRowView;

    open spec fn view(&self) -> CapturedRowView {
        CapturedRowView { table: self.table@, rowid: self.rowid, values: views(self.values@) }
    }
}

/// A copy of values.
fn copy_values(values: &[StoredValue]) -> (r: Vec<StoredValue>)
    ensures
        views(r@) == views(values@),
{
    let mut r: Vec<StoredValue> = Vec::new();
    let mut i: usize = 0;
    while i < values.len()
        invariant
            i <= values@.len(),
            r@.len() == i,
            forall|j: int| 0 <= j < i ==> (#[trigger] r@[j])@ == values@[j]@,
        decreases values.len() - i,
    {
        r.push(values[i].clone());
        i += 1;
    }
    assert(views(r@) =~= views(values@));
    r
}

impl Clone for CapturedRow {
    fn clone(&self) -> (r: Self)
        ensures
            r@ == self@,
    {
        CapturedRow {
            table: self.table.clone(),
            rowid: self.rowid,
            values: copy_values(self.values.as_slice()),
        }
    }
}

/// One application-row change observed by SQLite's preupdate hook, including
/// nested foreign-key and trigger effects.
///
/// SQLite selects and executes referential actions on the writable branch. The
/// resulting direct and indirect row events are compiled; replay and repair
/// therefore never dispatch foreign-key actions a second time.
#[derive(Debug, PartialEq, Eq)]
pub enum CapturedChange {
    Insert(CapturedRow),
    Delete(CapturedRow),
    Update { before: CapturedRow, after: CapturedRow },
}

/// A captured change as a mathematical value.
pub enum CapturedChangeView {
    Insert(CapturedRowView),
    Delete(CapturedRowView),
    Update { before: CapturedRowView, after: CapturedRowView },
}

impl View for CapturedChange {
    type V = CapturedChangeView;

    open spec fn view(&self) -> CapturedChangeView {
        match self {
            CapturedChange::Insert(row) => CapturedChangeView::Insert(row@),
            CapturedChange::Delete(row) => CapturedChangeView::Delete(row@),
            CapturedChange::Update { before, after } => CapturedChangeView::Update {
                before: before@,
                after: after@,
            },
        }
    }
}

/// The encoded bytes of values together.
pub open spec fn values_bytes(values: Seq<ValueView>) -> nat
    decreases values.len(),
{
    if values.len() == 0 {
        0
    } else {
        values_bytes(values.drop_last()) + value_frame(values.last()).len()
    }
}

/// The bytes that a captured row retains: its table's name, its rowid, and its
/// encoded values.
pub open spec fn row_retains(row: CapturedRowView) -> nat {
    encode_utf8(row.table).len() + ROWID_BYTES as nat + values_bytes(row.values)
}

/// The bytes that a captured change retains.
pub open spec fn change_retains(change: CapturedChangeView) -> nat {
    match change {
        CapturedChangeView::Insert(row) => row_retains(row),
        CapturedChangeView::Delete(row) => row_retains(row),
        CapturedChangeView::Update { before, after } => row_retains(before) + row_retains(after),
    }
}

/// A number of retained bytes, or the error where it exceeds a `usize`.
pub open spec fn retained(bytes: nat) -> Result<usize, Error> {
    if bytes <= usize::MAX {
        Ok(bytes as usize)
    } else {
        Err(
            Error::CaptureLimitExceeded {
                resource: "row-capture bytes",
                limit: MAX_ROW_OPERATION_BYTES,
            },
        )
    }
}

/// Values take bytes one by one.
proof fn lemma_values_bytes(values: Seq<ValueView>, i: int)
    requires
        0 <= i <= values.len(),
    ensures
        values_bytes(values.subrange(0, i)) <= values_bytes(values),
    decreases values.len() - i,
{
    if i == values.len() {
        assert(values.subrange(0, i) =~= values);
    } else {
        lemma_values_bytes(values, i + 1);
        assert(values.subrange(0, i + 1).drop_last() =~= values.subrange(0, i));
    }
}

impl CapturedRow {
    /// The bytes that the row retains.
    pub fn retained_bytes(&self) -> (r: Result<usize, Error>)
        ensures
            r == retained(row_retains(self@)),
    {
        let ghost values = self@.values;
        let name: usize = self.table.as_str().as_bytes().len();
        let mut bytes: usize = match name.checked_add(ROWID_BYTES) {
            Some(bytes) => bytes,
            None => {
                return Err(capture_limit("row-capture bytes", MAX_ROW_OPERATION_BYTES));
            },
        };
        let ghost start = bytes as nat;
        let mut i: usize = 0;
        assert(values.subrange(0, 0) =~= Seq::<ValueView>::empty());
        while i < self.values.len()
            invariant
                i <= self.values@.len(),
                values == views(self.values@),
                values == self@.values,
                start == encode_utf8(self@.table).len() + ROWID_BYTES,
                bytes == start + values_bytes(values.subrange(0, i as int)),
            decreases self.values.len() - i,
        {
            proof {
                assert(values[i as int] == self.values@[i as int]@);
                assert(values.subrange(0, i as int + 1).drop_last() =~= values.subrange(0, i as int));
                lemma_values_bytes(values, i as int + 1);
            }
            let length: usize = match self.values[i].encoded_len() {
                Some(length) => length,
                None => {
                    return Err(capture_limit("row-capture bytes", MAX_ROW_OPERATION_BYTES));
                },
            };
            bytes = match bytes.checked_add(length) {
                Some(bytes) => bytes,
                None => {
                    return Err(capture_limit("row-capture bytes", MAX_ROW_OPERATION_BYTES));
                },
            };
            i += 1;
        }
        assert(values.subrange(0, i as int) =~= values);
        Ok(bytes)
    }
}

impl CapturedChange {
    /// The bytes that the change retains.
    pub fn retained_bytes(&self) -> (r: Result<usize, Error>)
        ensures
            r == retained(change_retains(self@)),
    {
        match self {
            CapturedChange::Insert(row) => row.retained_bytes(),
            CapturedChange::Delete(row) => row.retained_bytes(),
            CapturedChange::Update { before, after } => {
                let before: usize = match before.retained_bytes() {
                    Err(error) => {
                        return Err(error);
                    },
                    Ok(bytes) => bytes,
                };
                let after: usize = match after.retained_bytes() {
                    Err(error) => {
                        return Err(error);
                    },
                    Ok(bytes) => bytes,
                };
                match before.checked_add(after) {
                    Some(bytes) => Ok(bytes),
                    None => Err(capture_limit("row-capture bytes", MAX_ROW_OPERATION_BYTES)),
                }
            },
        }
    }
}

/// Per-statement memory fence applied inside the SQLite preupdate hook.
#[derive(Debug, PartialEq, Eq)]
pub struct CaptureBudget {
    changes: usize,
    bytes: usize,
    max_changes: usize,
    max_bytes: usize,
}

/// A budget as a mathematical value.
pub struct BudgetView {
    pub changes: nat,
    pub bytes: nat,
    pub max_changes: nat,
    pub max_bytes: nat,
}

/// What recording a change gives: the budget behind it, or the resource that
/// it exceeds.
pub open spec fn recorded(budget: BudgetView, change: CapturedChangeView) -> Result<
    BudgetView,
    Error,
> {
    if budget.changes + 1 > budget.max_changes {
        Err(
            Error::CaptureLimitExceeded {
                resource: "row-change count",
                limit: budget.max_changes as usize,
            },
        )
    } else {
        match retained(change_retains(change)) {
            Err(error) => Err(error),
            Ok(bytes) => if budget.bytes + bytes > budget.max_bytes {
                Err(
                    Error::CaptureLimitExceeded {
                        resource: "row-capture bytes",
                        limit: budget.max_bytes as usize,
                    },
                )
            } else {
                Ok(
                    BudgetView {
                        changes: budget.changes + 1,
                        bytes: budget.bytes + change_retains(change),
                        ..budget
                    },
                )
            },
        }
    }
}

impl Default for CaptureBudget {
    fn default() -> (r: Self)
        ensures
            r@ == (BudgetView {
                changes: 0,
                bytes: 0,
                max_changes: MAX_CAPTURED_CHANGES as nat,
                max_bytes: MAX_ROW_OPERATION_BYTES as nat,
            }),
    {
        CaptureBudget {
            changes: 0,
            bytes: 0,
            max_changes: MAX_CAPTURED_CHANGES,
            max_bytes: MAX_ROW_OPERATION_BYTES,
        }
    }
}

impl CaptureBudget {
    /// The budget as a mathematical value.
    pub closed spec fn view(&self) -> BudgetView {
        BudgetView {
            changes: self.changes as nat,
            bytes: self.bytes as nat,
            max_changes: self.max_changes as nat,
            max_bytes: self.max_bytes as nat,
        }
    }

    /// An unused budget with these limits.
    pub fn with_limits(max_changes: usize, max_bytes: usize) -> (r: Self)
        ensures
            r@ == (BudgetView {
                changes: 0,
                bytes: 0,
                max_changes: max_changes as nat,
                max_bytes: max_bytes as nat,
            }),
    {
        CaptureBudget { changes: 0, bytes: 0, max_changes, max_bytes }
    }

    /// Forget what was recorded.
    pub fn reset(&mut self)
        ensures
            final(self)@ == (BudgetView { changes: 0, bytes: 0, ..old(self)@ }),
    {
        self.changes = 0;
        self.bytes = 0;
    }

    /// Record a change. One that does not fit leaves the budget as it was.
    pub fn record(&mut self, change: &CapturedChange) -> (r: Result<(), Error>)
        ensures
            match recorded(old(self)@, change@) {
                Ok(budget) => r == Ok::<(), Error>(()) && final(self)@ == budget,
                Err(error) => r == Err::<(), Error>(error) && final(self)@ == old(self)@,
            },
    {
        let changes: usize = match self.changes.checked_add(1) {
            Some(changes) => changes,
            None => {
                return Err(capture_limit("row-change count", self.max_changes));
            },
        };
        if changes > self.max_changes {
            return Err(capture_limit("row-change count", self.max_changes));
        }
        let retained: usize = match change.retained_bytes() {
            Err(error) => {
                return Err(error);
            },
            Ok(bytes) => bytes,
        };
        let bytes: usize = match self.bytes.checked_add(retained) {
            Some(bytes) => bytes,
            None => {
                return Err(capture_limit("row-capture bytes", self.max_bytes));
            },
        };
        if bytes > self.max_bytes {
            return Err(capture_limit("row-capture bytes", self.max_bytes));
        }
        self.changes = changes;
        self.bytes = bytes;
        Ok(())
    }
}

/// A budget that recorded a change within its limits is within them still.
pub proof fn recording_stays_within_limits(budget: BudgetView, change: CapturedChangeView)
    requires
        recorded(budget, change) is Ok,
    ensures
        recorded(budget, change)->Ok_0.changes <= budget.max_changes,
        recorded(budget, change)->Ok_0.bytes <= budget.max_bytes,
        recorded(budget, change)->Ok_0.bytes > budget.bytes,
{
}

} // verus!
