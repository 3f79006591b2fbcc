//! Changes of one table that are all of one kind.

use super::capture::{CapturedChange, CapturedChangeView, CapturedRow, CapturedRowView};
use super::cells::{DeltaView, Row, RowDelta, RowView};
use super::changes::{
    row_changes_decoded, row_changes_fits, row_changes_frame, RowChanges, RowChangesView,
    TableChanges, TableChangesView,
};
use super::error::RowCodecError;
use super::fold::changes_folded;
use super::lower::{lowered_result, operation_error, RowHomebaseOp};
use super::set::{RowSet, RowSetView};
use crate::attempt::{lemma_try_map_ok, lemma_try_map_total, try_map};
use crate::catalog::CatalogSnapshot;
use crate::codec::{outcome, views};
use crate::each::{each, try_each};
use crate::error::{Error, ErrorView};
use vstd::prelude::*;

verus! {

/// The insertion of a row.
pub open spec fn insertion() -> spec_fn(RowView) -> DeltaView {
    |row: RowView| DeltaView { before: None, after: Some(row) }
}

/// The deletion of a row.
pub open spec fn deletion() -> spec_fn(RowView) -> DeltaView {
    |row: RowView| DeltaView { before: Some(row), after: None }
}

/// The changes that insert rows.
pub open spec fn insertions(set: RowSetView) -> RowChangesView {
    RowChangesView {
        tables: seq![
            TableChangesView { rules: set.rules, rows: set.rows.map_values(insertion()) },
        ],
    }
}

/// The changes that delete rows.
pub open spec fn deletions(set: RowSetView) -> RowChangesView {
    RowChangesView {
        tables: seq![
            TableChangesView { rules: set.rules, rows: set.rows.map_values(deletion()) },
        ],
    }
}

/// The changes that turn rows into others, one for one.
pub open spec fn updates(before: RowSetView, after: RowSetView) -> RowChangesView {
    RowChangesView {
        tables: seq![
            TableChangesView {
                rules: before.rules,
                rows: Seq::new(
                    if before.rows.len() < after.rows.len() {
                        before.rows.len()
                    } else {
                        after.rows.len()
                    },
                    |i: int|
                        DeltaView { before: Some(before.rows[i]), after: Some(after.rows[i]) },
                ),
            },
        ],
    }
}

/// The row that a change deletes.
pub open spec fn deleted_row() -> spec_fn(DeltaView) -> Result<RowView, RowCodecError> {
    |delta: DeltaView|
        match (delta.before, delta.after) {
            (Some(before), None) => Ok(before),
            _ => Err(RowCodecError::InvalidRow),
        }
}

/// The rows that changes delete, where they delete rows of one table and do
/// nothing else.
pub open spec fn deleted_rows(changes: RowChangesView) -> Result<RowSetView, RowCodecError> {
    if changes.tables.len() != 1 {
        Err(RowCodecError::InvalidRow)
    } else {
        match try_map(changes.tables[0].rows, deleted_row()) {
            Err(error) => Err(error),
            Ok(rows) => Ok(RowSetView { rules: changes.tables[0].rules, rows }),
        }
    }
}

/// The rows that a change starts from and ends in, where there are both.
pub open spec fn updated_row() -> spec_fn(DeltaView) -> Result<(RowView, RowView), RowCodecError> {
    |delta: DeltaView|
        match (delta.before, delta.after) {
            (Some(before), Some(after)) => Ok((before, after)),
            _ => Err(RowCodecError::InvalidRow),
        }
}

/// The rows that changes update, where they update rows of one table and do
/// nothing else.
pub open spec fn updated_rows(changes: RowChangesView) -> Result<
    (RowSetView, RowSetView),
    RowCodecError,
> {
    if changes.tables.len() != 1 {
        Err(RowCodecError::InvalidRow)
    } else {
        let rules = changes.tables[0].rules;
        match try_map(changes.tables[0].rows, updated_row()) {
            Err(error) => Err(error),
            Ok(pairs) => Ok(
                (
                    RowSetView { rules, rows: pairs.map_values(|p: (RowView, RowView)| p.0) },
                    RowSetView { rules, rows: pairs.map_values(|p: (RowView, RowView)| p.1) },
                ),
            ),
        }
    }
}

/// Whether an error is that of folded changes, or that of reading them.
pub open spec fn refused_as(
    changes: Result<Option<RowChangesView>, ErrorView>,
    error: Error,
    fault: spec_fn(RowChangesView) -> Option<RowCodecError>,
) -> bool {
    match changes {
        Err(refused) => error@ == refused,
        Ok(Some(changes)) => fault(changes) is Some && operation_error(
            error,
            fault(changes)->Some_0,
        ),
        Ok(None) => false,
    }
}

/// Changes of one table.
fn of_table(table: TableChanges) -> (r: RowChanges)
    ensures
        r@ == (RowChangesView { tables: seq![table@] }),
{
    let mut tables: Vec<TableChanges> = Vec::new();
    tables.push(table);
    assert(views(tables@) =~= seq![table@]);
    RowChanges { tables }
}

impl RowChanges {
    /// The changes that insert rows.
    pub fn inserted(inserted: RowSet) -> (r: RowChanges)
        ensures
            r@ == insertions(inserted@),
    {
        let insert = |row: &Row| -> (r: RowDelta)
            ensures
                r@ == insertion()(row@),
            { RowDelta { before: None, after: Some(row.clone()) } };
        let rows = each(inserted.rows.as_slice(), insert, Ghost(insertion()));
        of_table(TableChanges { rules: inserted.rules, rows })
    }

    /// The changes that delete rows.
    pub fn deleted(deleted: &DeletedRowsFixture) -> (r: RowChanges)
        ensures
            r@ == deletions(deleted.deleted@),
    {
        let delete = |row: &Row| -> (r: RowDelta)
            ensures
                r@ == deletion()(row@),
            { RowDelta { before: Some(row.clone()), after: None } };
        let rows = each(deleted.deleted.rows.as_slice(), delete, Ghost(deletion()));
        of_table(TableChanges { rules: deleted.deleted.rules.clone(), rows })
    }

    /// The changes that turn rows into others, one for one.
    pub fn updated(updated: &UpdatedRowsFixture) -> (r: RowChanges)
        ensures
            r@ == updates(updated.before@, updated.after@),
    {
        let before = &updated.before.rows;
        let after = &updated.after.rows;
        let mut rows: Vec<RowDelta> = Vec::new();
        let mut i: usize = 0;
        while i < before.len() && i < after.len()
            invariant
                i <= before@.len(),
                i <= after@.len(),
                rows@.len() == i,
                forall|j: int|
                    0 <= j < i ==> (#[trigger] rows@[j])@ == (DeltaView {
                        before: Some(before@[j]@),
                        after: Some(after@[j]@),
                    }),
            decreases before.len() - i,
        {
            rows.push(RowDelta { before: Some(before[i].clone()), after: Some(after[i].clone()) });
            i += 1;
        }
        assert(views(rows@) =~= updates(updated.before@, updated.after@).tables[0].rows);
        of_table(TableChanges { rules: updated.before.rules.clone(), rows })
    }
}

/// Rows of one table that a statement deletes.
#[derive(Debug, PartialEq, Eq)]
pub struct DeletedRowsFixture {
    pub deleted: RowSet,
}

impl DeletedRowsFixture {
    /// The rows that changes delete.
    pub fn from_changes(changes: &RowChanges) -> (r: Result<DeletedRowsFixture, RowCodecError>)
        ensures
            match r {
                Ok(fixture) => deleted_rows(changes@) == Ok::<RowSetView, RowCodecError>(
                    fixture.deleted@,
                ),
                Err(error) => deleted_rows(changes@) == Err::<RowSetView, RowCodecError>(error),
            },
    {
        assert(changes@.tables.len() == changes.tables@.len());
        if changes.tables.len() != 1 {
            return Err(RowCodecError::InvalidRow);
        }
        let table = &changes.tables[0];
        assert(changes@.tables[0] == table@);
        let row = |delta: &RowDelta| -> (r: Result<Row, RowCodecError>)
            ensures
                outcome(r) == deleted_row()(delta@),
            {
                match (&delta.before, &delta.after) {
                    (Some(before), None) => Ok(before.clone()),
                    _ => Err(RowCodecError::InvalidRow),
                }
            };
        match try_each(table.rows.as_slice(), row, Ghost(deleted_row())) {
            Err(error) => Err(error),
            Ok(rows) => Ok(DeletedRowsFixture { deleted: table.rules.with_rows(rows) }),
        }
    }

    /// The rows that captured images show as deleted.
    pub fn from_catalog(catalog: &CatalogSnapshot, captured: &[CapturedRow]) -> (r: crate::error::Result<
        Option<DeletedRowsFixture>,
    >)
        ensures
            ({
                let changes = changes_folded(
                    catalog@,
                    views(captured@).map_values(|row: CapturedRowView| CapturedChangeView::Delete(row)),
                );
                match r {
                    Ok(Some(fixture)) => changes matches Ok(Some(changes)) && deleted_rows(changes)
                        == Ok::<RowSetView, RowCodecError>(fixture.deleted@),
                    Ok(None) => changes == Ok::<Option<RowChangesView>, ErrorView>(None),
                    Err(error) => refused_as(changes, error, |c: RowChangesView|
                        match deleted_rows(c) {
                            Err(error) => Some(error),
                            Ok(_) => None,
                        }),
                }
            }),
    {
        let delete = |row: &CapturedRow| -> (r: CapturedChange)
            ensures
                r@ == CapturedChangeView::Delete(row@),
            { CapturedChange::Delete(row.clone()) };
        let events = each(
            captured,
            delete,
            Ghost(|row: CapturedRowView| CapturedChangeView::Delete(row)),
        );
        match RowChanges::from_catalog(catalog, events.as_slice()) {
            Err(error) => Err(error),
            Ok(None) => Ok(None),
            Ok(Some(changes)) => match DeletedRowsFixture::from_changes(&changes) {
                Err(error) => Err(error.into_operation()),
                Ok(fixture) => Ok(Some(fixture)),
            },
        }
    }

    /// Lower the deletion.
    pub fn to_homebase(&self) -> (r: Result<RowHomebaseOp, Error>)
        ensures
            lowered_result(deletions(self.deleted@), r),
    {
        RowChanges::deleted(self).to_homebase()
    }

    /// The frame of the deletion.
    pub fn encode(&self) -> (r: Vec<u8>)
        requires
            row_changes_fits(deletions(self.deleted@)),
        ensures
            r@ == row_changes_frame(deletions(self.deleted@)),
    {
        RowChanges::deleted(self).encode()
    }

    /// Read the frame of a deletion.
    pub fn decode(frame: &[u8]) -> (r: Result<DeletedRowsFixture, RowCodecError>)
        ensures
            ({
                let read = match row_changes_decoded(frame@) {
                    Err(error) => Err(error),
                    Ok(changes) => deleted_rows(changes),
                };
                match r {
                    Ok(fixture) => read == Ok::<RowSetView, RowCodecError>(fixture.deleted@),
                    Err(error) => read == Err::<RowSetView, RowCodecError>(error),
                }
            }),
    {
        match RowChanges::decode(frame) {
            Err(error) => Err(error),
            Ok(changes) => DeletedRowsFixture::from_changes(&changes),
        }
    }
}

/// Rows of one table before and after a statement updates them.
#[derive(Debug, PartialEq, Eq)]
pub struct UpdatedRowsFixture {
    pub before: RowSet,
    pub after: RowSet,
}

impl UpdatedRowsFixture {
    /// The rows that changes update.
    pub fn from_changes(changes: &RowChanges) -> (r: Result<UpdatedRowsFixture, RowCodecError>)
        ensures
            match r {
                Ok(fixture) => updated_rows(changes@) == Ok::<
                    (RowSetView, RowSetView),
                    RowCodecError,
                >((fixture.before@, fixture.after@)),
                Err(error) => updated_rows(changes@) == Err::<
                    (RowSetView, RowSetView),
                    RowCodecError,
                >(error),
            },
    {
        assert(changes@.tables.len() == changes.tables@.len());
        if changes.tables.len() != 1 {
            return Err(RowCodecError::InvalidRow);
        }
        let table = &changes.tables[0];
        assert(changes@.tables[0] == table@);
        let pair = |delta: &RowDelta| -> (r: Result<(Row, Row), RowCodecError>)
            ensures
                outcome(r) == updated_row()(delta@),
            {
                match (&delta.before, &delta.after) {
                    (Some(before), Some(after)) => Ok((before.clone(), after.clone())),
                    _ => Err(RowCodecError::InvalidRow),
                }
            };
        match try_each(table.rows.as_slice(), pair, Ghost(updated_row())) {
            Err(error) => Err(error),
            Ok(pairs) => {
                let first = |pair: &(Row, Row)| -> (r: Row)
                    ensures
                        r@ == pair@.0,
                    { pair.0.clone() };
                let second = |pair: &(Row, Row)| -> (r: Row)
                    ensures
                        r@ == pair@.1,
                    { pair.1.clone() };
                let before = each(pairs.as_slice(), first, Ghost(|p: (RowView, RowView)| p.0));
                let after = each(pairs.as_slice(), second, Ghost(|p: (RowView, RowView)| p.1));
                Ok(
                    UpdatedRowsFixture {
                        before: table.rules.with_rows(before),
                        after: table.rules.with_rows(after),
                    },
                )
            },
        }
    }

    /// The rows that captured images show as updated.
    pub fn from_catalog(catalog: &CatalogSnapshot, captured: &[(CapturedRow, CapturedRow)]) -> (r: crate::error::Result<
        Option<UpdatedRowsFixture>,
    >)
        ensures
            ({
                let changes = changes_folded(
                    catalog@,
                    views(captured@).map_values(
                        |row: (CapturedRowView, CapturedRowView)|
                            CapturedChangeView::Update { before: row.0, after: row.1 },
                    ),
                );
                match r {
                    Ok(Some(fixture)) => changes matches Ok(Some(changes)) && updated_rows(changes)
                        == Ok::<(RowSetView, RowSetView), RowCodecError>(
                        (fixture.before@, fixture.after@),
                    ),
                    Ok(None) => changes == Ok::<Option<RowChangesView>, ErrorView>(None),
                    Err(error) => refused_as(changes, error, |c: RowChangesView|
                        match updated_rows(c) {
                            Err(error) => Some(error),
                            Ok(_) => None,
                        }),
                }
            }),
    {
        let update = |row: &(CapturedRow, CapturedRow)| -> (r: CapturedChange)
            ensures
                r@ == (CapturedChangeView::Update { before: row@.0, after: row@.1 }),
            { CapturedChange::Update { before: row.0.clone(), after: row.1.clone() } };
        let events = each(
            captured,
            update,
            Ghost(
                |row: (CapturedRowView, CapturedRowView)|
                    CapturedChangeView::Update { before: row.0, after: row.1 },
            ),
        );
        match RowChanges::from_catalog(catalog, events.as_slice()) {
            Err(error) => Err(error),
            Ok(None) => Ok(None),
            Ok(Some(changes)) => match UpdatedRowsFixture::from_changes(&changes) {
                Err(error) => Err(error.into_operation()),
                Ok(fixture) => Ok(Some(fixture)),
            },
        }
    }

    /// Lower the update.
    pub fn to_homebase(&self) -> (r: Result<RowHomebaseOp, Error>)
        ensures
            lowered_result(updates(self.before@, self.after@), r),
    {
        RowChanges::updated(self).to_homebase()
    }

    /// The frame of the update.
    pub fn encode(&self) -> (r: Vec<u8>)
        requires
            row_changes_fits(updates(self.before@, self.after@)),
        ensures
            r@ == row_changes_frame(updates(self.before@, self.after@)),
    {
        RowChanges::updated(self).encode()
    }

    /// Read the frame of an update.
    pub fn decode(frame: &[u8]) -> (r: Result<UpdatedRowsFixture, RowCodecError>)
        ensures
            ({
                let read = match row_changes_decoded(frame@) {
                    Err(error) => Err(error),
                    Ok(changes) => updated_rows(changes),
                };
                match r {
                    Ok(fixture) => read == Ok::<(RowSetView, RowSetView), RowCodecError>(
                        (fixture.before@, fixture.after@),
                    ),
                    Err(error) => read == Err::<(RowSetView, RowSetView), RowCodecError>(error),
                }
            }),
    {
        match RowChanges::decode(frame) {
            Err(error) => Err(error),
            Ok(changes) => UpdatedRowsFixture::from_changes(&changes),
        }
    }
}

/// The rows of a deletion are read back from its changes.
pub proof fn deletions_read_back(set: RowSetView)
    ensures
        deleted_rows(deletions(set)) == Ok::<RowSetView, RowCodecError>(set),
{
    let rows = set.rows.map_values(deletion());
    assert forall|i: int| 0 <= i < rows.len() implies deleted_row()(#[trigger] rows[i]) is Ok by {}
    lemma_try_map_total(rows, deleted_row());
    lemma_try_map_ok(rows, deleted_row());
    assert(try_map(rows, deleted_row())->Ok_0 =~= set.rows);
}

/// The rows of an update are read back from its changes.
pub proof fn updates_read_back(before: RowSetView, after: RowSetView)
    requires
        before.rows.len() == after.rows.len(),
        before.rules == after.rules,
    ensures
        updated_rows(updates(before, after)) == Ok::<(RowSetView, RowSetView), RowCodecError>(
            (before, after),
        ),
{
    let rows = updates(before, after).tables[0].rows;
    assert forall|i: int| 0 <= i < rows.len() implies updated_row()(#[trigger] rows[i]) is Ok by {}
    lemma_try_map_total(rows, updated_row());
    lemma_try_map_ok(rows, updated_row());
    let pairs = try_map(rows, updated_row())->Ok_0;
    assert forall|i: int| 0 <= i < pairs.len() implies #[trigger] pairs[i] == (
        before.rows[i],
        after.rows[i],
    ) by {
        assert(updated_row()(rows[i]) == Ok::<(RowView, RowView), RowCodecError>(pairs[i]));
    }
    assert(pairs.map_values(|p: (RowView, RowView)| p.0) =~= before.rows);
    assert(pairs.map_values(|p: (RowView, RowView)| p.1) =~= after.rows);
}

} // verus!
