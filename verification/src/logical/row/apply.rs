//! How the changes of a table are carried out on its stored rows.

use super::accept::{rows_accepted, set_refusal};
use super::capture::{CapturedRow, CapturedRowView};
use super::cells::{Cell, CellView, DeltaView, Row, RowDelta, RowView};
use super::changes::{afters, befores, RowChanges, TableChanges, TableChangesView};
use super::error::row_error_text;
use super::keys::row_key_of;
use super::rules::RulesView;
use super::set::{RowSet, RowSetView};
use super::statement::{
    bind_columns, bound_columns, choose_columns, chosen, column_texts, column_values, delete_plan,
    insert_plan, key_condition, key_values, select_plan, statement_of, table_text, RowStatement,
    RowStatementView, Values,
};
use crate::attempt::{
    lemma_try_fold_start, lemma_try_fold_step, lemma_try_fold_stop, try_fold, try_map,
};
use crate::catalog::{current_name, table_by_id, CatalogEntryView, CatalogSnapshot};
use crate::codec::{view_of, views};
use crate::each::{any, attempt_each, each};
use crate::error::{list_verdict, refusal, verdict, Error, ErrorView, Result};
use crate::identity::ColumnId;
use crate::logical::schema::definition::{
    definition_sound, Column, ColumnView, CreateTable, TableView,
};
use crate::logical::schema::table::{primary_ids, rowid_alias};
use crate::logical::types::TableStorage;
use crate::name::SqlName;
use crate::sqlite::{list_texts, listed};
use crate::text::joined;
use crate::value::{StoredValue, ValueView};
use vstd::prelude::*;
use vstd::string::*;

verus! {

/// What is said of stored rows that are not those that changes start from.
pub const DIVERGED: &'static str = "row changes no longer match SQLite state";

/// What is said of stored rows that are not those that pending changes led to.
pub const PENDING_DIVERGED: &'static str = "pending row changes no longer match SQLite state";

/// What is said of inserted rows that are no longer there as they were.
pub const INSERT_DIVERGED: &'static str = "pending INSERT row no longer matches SQLite state";

/// What is said of stored rows that are not those that changes lead to.
pub const AFTER_DIVERGED: &'static str =
    "canonical row changes diverged from captured after-images";

/// What is said where the rows that changes start from are not there.
pub fn start_mismatch(reverse: bool) -> (r: &'static str)
    ensures
        r@ == (if reverse {
            PENDING_DIVERGED@
        } else {
            DIVERGED@
        }),
{
    if reverse {
        PENDING_DIVERGED
    } else {
        DIVERGED
    }
}

/// Hold a statement to the one row that it changes.
pub fn check_changed(changed: usize, mismatch: &'static str) -> (r: Result<()>)
    ensures
        refusal(r) == (if changed == 1 {
            None
        } else {
            Some(ErrorView::InvalidDatabase(mismatch@))
        }),
{
    if changed == 1 {
        Ok(())
    } else {
        Err(Error::InvalidDatabase(mismatch))
    }
}

/// Hold a key that changes retire to being gone.
pub fn check_retired_key(found: bool) -> (r: Result<()>)
    ensures
        refusal(r) == (if found {
            Some(
                ErrorView::InvalidDatabase(
                    "canonical row changes retained a retired primary-key image"@,
                ),
            )
        } else {
            None
        }),
{
    if found {
        Err(
            Error::InvalidDatabase("canonical row changes retained a retired primary-key image"),
        )
    } else {
        Ok(())
    }
}

/// Hold the rows after changes to the references between them.
pub fn check_references(violations: bool) -> (r: Result<()>)
    ensures
        refusal(r) == (if violations {
            Some(ErrorView::CommitConflict("FOREIGN KEY constraint failed"@))
        } else {
            None
        }),
{
    if violations {
        Err(Error::CommitConflict("FOREIGN KEY constraint failed".to_owned()))
    } else {
        Ok(())
    }
}

/// A change in the given direction.
pub open spec fn turned(reverse: bool) -> spec_fn(DeltaView) -> DeltaView {
    |delta: DeltaView|
        if reverse {
            DeltaView { before: delta.after, after: delta.before }
        } else {
            delta
        }
}

/// The table that a row set is of, as the catalog knows it.
pub open spec fn set_definition(tables: Seq<CatalogEntryView>, set: RowSetView) -> std::result::Result<
    TableView,
    ErrorView,
> {
    match table_by_id(tables, set.rules.table) {
        None => Err(ErrorView::InvalidDatabase("row operation references an unknown table"@)),
        Some(table) => match set_refusal(tables, table, set) {
            Some(error) => Err(error),
            None => Ok(table),
        },
    }
}

/// The table that changes are of, checked with the rows that they start from, or
/// where there is none, with those that they end in.
pub open spec fn changes_definition(
    tables: Seq<CatalogEntryView>,
    changes: TableChangesView,
    reverse: bool,
) -> std::result::Result<TableView, ErrorView> {
    let rows = changes.rows.map_values(turned(reverse));
    set_definition(
        tables,
        RowSetView {
            rules: changes.rules,
            rows: if befores(rows).len() > 0 {
                befores(rows)
            } else {
                afters(rows)
            },
        },
    )
}

/// Whether a stored row has another value than a row has.
pub open spec fn disagrees(row: RowView, actual: RowView) -> bool {
    exists|i: int|
        0 <= i < row.values.len() && actual.value((#[trigger] row.values[i]).column) is Some
            && actual.value(row.values[i].column) != Some(row.values[i].value)
}

/// The stored rows, in the order of the rows that they match. They were read in
/// the opposite order.
pub open spec fn rows_matched(
    rows: Seq<RowView>,
    found: Seq<Option<RowView>>,
    mismatch: Seq<char>,
) -> std::result::Result<Seq<RowView>, ErrorView> {
    let stored = found.reverse();
    if exists|i: int|
        0 <= i < rows.len() && ((#[trigger] stored[i]) is None || disagrees(
            rows[i],
            stored[i]->Some_0,
        )) {
        Err(ErrorView::InvalidDatabase(mismatch))
    } else {
        Ok(Seq::new(rows.len(), |i: int| stored[i]->Some_0))
    }
}

/// Rows that were found, or not.
pub open spec fn optional_rows(found: Seq<Option<Row>>) -> Seq<Option<RowView>> {
    Seq::new(found.len(), |i: int| view_of(found[i]))
}

/// A cell with the value that another row has for its column.
pub open spec fn overlaid_cell(after: RowView) -> spec_fn(CellView) -> CellView {
    |cell: CellView|
        match after.value(cell.column) {
            Some(value) => CellView { column: cell.column, value },
            None => cell,
        }
}

/// A stored row with the values of another.
pub open spec fn overlaid(current: RowView, after: RowView) -> RowView {
    RowView { values: current.values.map_values(overlaid_cell(after)) }
}

/// Changes by how they are carried out: rows that keep their keys, stored rows
/// to remove, and rows to insert. `next` counts the stored rows that were used.
#[verifier::ext_equal]
pub struct ArrangementView {
    pub stable: Seq<DeltaView>,
    pub removed: Seq<RowView>,
    pub inserted: Seq<RowView>,
    pub next: int,
}

/// One more change by how it is carried out.
pub open spec fn arrange_step(rules: RulesView, current: Seq<RowView>) -> spec_fn(
    ArrangementView,
    DeltaView,
) -> std::result::Result<ArrangementView, ErrorView> {
    |done: ArrangementView, delta: DeltaView|
        match (delta.before, delta.after) {
            (Some(before), Some(after)) => match (
                row_key_of(rules, before),
                row_key_of(rules, after),
            ) {
                (Err(error), _) => Err(ErrorView::InvalidMultiliteOp(row_error_text(error))),
                (_, Err(error)) => Err(ErrorView::InvalidMultiliteOp(row_error_text(error))),
                (Ok(old), Ok(new)) => if old == new {
                    Ok(
                        ArrangementView {
                            stable: done.stable.push(delta),
                            next: done.next + 1,
                            ..done
                        },
                    )
                } else {
                    Ok(
                        ArrangementView {
                            removed: done.removed.push(current[done.next]),
                            inserted: done.inserted.push(overlaid(current[done.next], after)),
                            next: done.next + 1,
                            ..done
                        },
                    )
                },
            },
            (Some(_), None) => Ok(
                ArrangementView {
                    removed: done.removed.push(current[done.next]),
                    next: done.next + 1,
                    ..done
                },
            ),
            (None, Some(after)) => Ok(
                ArrangementView { inserted: done.inserted.push(after), ..done },
            ),
            (None, None) => Err(
                ErrorView::CaptureInvariant("invalid row delta while applying"@),
            ),
        }
}

/// Nothing to carry out.
pub open spec fn nothing_arranged() -> ArrangementView {
    ArrangementView {
        stable: Seq::empty(),
        removed: Seq::empty(),
        inserted: Seq::empty(),
        next: 0,
    }
}

/// Changes by how they are carried out, given the stored rows that they start
/// from.
pub open spec fn arranged(
    changes: TableChangesView,
    reverse: bool,
    current: Seq<RowView>,
) -> std::result::Result<ArrangementView, ErrorView> {
    try_fold(
        nothing_arranged(),
        changes.rows.map_values(turned(reverse)),
        arrange_step(changes.rules, current),
    )
}

/// The rowid that a row's primary key stands for.
pub open spec fn declared_rowid(table: TableView, row: RowView) -> std::result::Result<
    i64,
    ErrorView,
> {
    if table.storage == TableStorage::WithoutRowid {
        Ok(0)
    } else if !(primary_ids(table.columns).len() > 0 && rowid_alias(
        table,
        primary_ids(table.columns)[0],
    )) {
        Err(
            ErrorView::InvalidDatabase("rowid table has no declared INTEGER PRIMARY KEY alias"@),
        )
    } else {
        match row.value(primary_ids(table.columns)[0]) {
            Some(ValueView::Integer(rowid)) => Ok(rowid),
            _ => Err(
                ErrorView::InvalidDatabase("rowid table has a non-integer primary key value"@),
            ),
        }
    }
}

/// The value of a column of a stored row.
pub open spec fn stored_value(row: RowView) -> spec_fn(ColumnView) -> std::result::Result<
    ValueView,
    ErrorView,
> {
    |column: ColumnView|
        match row.value(column.id) {
            Some(value) => Ok(value),
            None => Err(
                ErrorView::InvalidDatabase("materialized row is missing a current schema column"@),
            ),
        }
}

/// A stored row as a captured one.
pub open spec fn recaptured(table: TableView, name: Seq<char>) -> spec_fn(
    RowView,
) -> std::result::Result<CapturedRowView, ErrorView> {
    |row: RowView|
        match try_map(table.columns, stored_value(row)) {
            Err(error) => Err(error),
            Ok(values) => match declared_rowid(table, row) {
                Err(error) => Err(error),
                Ok(rowid) => Ok(CapturedRowView { table: name, rowid, values }),
            },
        }
}

/// Stored rows as a row set under the table's current rules.
pub open spec fn projected(
    tables: Seq<CatalogEntryView>,
    table: TableView,
    rows: Seq<RowView>,
) -> std::result::Result<RowSetView, ErrorView> {
    match current_name(tables, table.table) {
        None => Err(
            ErrorView::InvalidDatabase(
                "row operation references a table without a current name binding"@,
            ),
        ),
        Some(name) => match try_map(rows, recaptured(table, name)) {
            Err(error) => Err(error),
            Ok(captured) => match rows_accepted(tables, captured) {
                Err(error) => Err(error),
                Ok(Some(set)) => Ok(set),
                Ok(None) => Err(
                    ErrorView::CaptureInvariant(
                        "materialized row projection unexpectedly became empty"@,
                    ),
                ),
            },
        },
    }
}

/// The rows to remove, the query that reads them once more, and the statement
/// that deletes them.
pub struct RemovalView {
    pub rows: RowSetView,
    pub select: RowStatementView,
    pub delete: RowStatementView,
}

/// How stored rows are removed.
pub open spec fn removal_plan(
    tables: Seq<CatalogEntryView>,
    table: TableView,
    removed: Seq<RowView>,
) -> std::result::Result<RemovalView, ErrorView> {
    match projected(tables, table, removed) {
        Err(error) => Err(error),
        Ok(rows) => match set_definition(tables, rows) {
            Err(error) => Err(error),
            Ok(table) => match select_plan(tables, table, rows) {
                Err(error) => Err(error),
                Ok(select) => match delete_plan(tables, table, rows) {
                    Err(error) => Err(error),
                    Ok(delete) => Ok(RemovalView { rows, select, delete }),
                },
            },
        },
    }
}

/// Whether some of the changes give a column another value.
pub open spec fn altered(stable: Seq<DeltaView>) -> spec_fn(ColumnView) -> bool {
    |column: ColumnView|
        exists|i: int|
            0 <= i < stable.len() && differs(column.id)(#[trigger] stable[i])
}

/// Whether a change gives a column another value.
pub open spec fn differs(column: Seq<u8>) -> spec_fn(DeltaView) -> bool {
    |delta: DeltaView|
        delta.before->Some_0.value(column) != delta.after->Some_0.value(column)
}

/// The values that one update binds: those of the changed columns, then those of
/// the key.
pub open spec fn update_values(rules: RulesView, columns: Seq<Seq<u8>>) -> spec_fn(
    DeltaView,
) -> std::result::Result<Seq<ValueView>, ErrorView> {
    |delta: DeltaView|
        match column_values(columns)(delta.after->Some_0) {
            Err(error) => Err(error),
            Ok(values) => match key_values(rules)(delta.before->Some_0) {
                Err(error) => Err(error),
                Ok(key) => Ok(values + key),
            },
        }
}

/// How rows that keep their keys are updated: not at all where no column changes.
pub open spec fn update_plan(
    tables: Seq<CatalogEntryView>,
    table: TableView,
    rules: RulesView,
    stable: Seq<DeltaView>,
) -> std::result::Result<Option<RowStatementView>, ErrorView> {
    let columns = chosen(table.columns, altered(stable));
    if columns.len() == 0 {
        Ok(None)
    } else {
        match (
            column_texts(tables, table.table, columns),
            key_condition(tables, table),
            table_text(tables, rules.table),
        ) {
            (Err(error), _, _) => Err(error),
            (_, Err(error), _) => Err(error),
            (_, _, Err(error)) => Err(error),
            (Ok(names), Ok(condition), Ok(name)) => match statement_of(
                "UPDATE "@ + name + " SET "@ + listed(bound_columns(names), ", "@) + " WHERE "@
                    + condition,
                try_map(stable, update_values(rules, columns)),
            ) {
                Err(error) => Err(error),
                Ok(statement) => Ok(Some(statement)),
            },
        }
    }
}

/// Whether a row has a value for every column of a table.
pub open spec fn complete(table: TableView, row: RowView) -> bool {
    forall|i: int| 0 <= i < table.columns.len() ==> row.value(#[trigger] table.columns[i].id) is Some
}

/// How rows are inserted: under the table's current rules where they are
/// complete, else under the rules that they came with.
pub open spec fn insertion_plan(
    tables: Seq<CatalogEntryView>,
    table: TableView,
    rules: RulesView,
    inserted: Seq<RowView>,
) -> std::result::Result<RowStatementView, ErrorView> {
    let rows = if forall|i: int|
        0 <= i < inserted.len() ==> complete(table, #[trigger] inserted[i]) {
        projected(tables, table, inserted)
    } else {
        Ok(RowSetView { rules, rows: inserted })
    };
    match rows {
        Err(error) => Err(error),
        Ok(rows) => match set_definition(tables, rows) {
            Err(error) => Err(error),
            Ok(table) => insert_plan(tables, table, rows),
        },
    }
}

/// The changes in the given direction.
fn turn(rows: &[RowDelta], reverse: bool) -> (r: Vec<RowDelta>)
    ensures
        views(r@) == views(rows@).map_values(turned(reverse)),
{
    let one = |delta: &RowDelta| -> (r: RowDelta)
        ensures
            r@ == turned(reverse)(delta@),
        {
            let copy = delta.clone();
            if reverse {
                RowDelta { before: copy.after, after: copy.before }
            } else {
                copy
            }
        };
    each(rows, one, Ghost(turned(reverse)))
}

impl RowSet {
    /// The table that the rows are of, as the catalog knows it.
    pub fn definition<'a>(&self, catalog: &'a CatalogSnapshot) -> (r: Result<&'a CreateTable>)
        ensures
            verdict(r) == set_definition(catalog@, self@),
            r matches Ok(created) ==> definition_sound(created@),
    {
        match catalog.by_id(self.rules.table) {
            None => Err(Error::InvalidDatabase("row operation references an unknown table")),
            Some(created) => match self.validate_against_catalog(catalog, created) {
                Err(error) => Err(error),
                Ok(()) => Ok(created),
            },
        }
    }

    /// The stored rows in the order of the rows that they match, given as they
    /// were read: the last one first.
    pub fn match_rows(&self, found: &[Option<Row>], mismatch: &'static str) -> (r: Result<
        Vec<Row>,
    >)
        requires
            found@.len() == self@.rows.len(),
        ensures
            list_verdict(r) == rows_matched(self@.rows, optional_rows(found@), mismatch@),
    {
        let ghost stored = optional_rows(found@).reverse();
        let mut rows: Vec<Row> = Vec::new();
        let mut i: usize = 0;
        while i < self.rows.len()
            invariant
                i <= self.rows@.len(),
                found@.len() == self.rows@.len(),
                stored == optional_rows(found@).reverse(),
                rows@.len() == i,
                forall|j: int|
                    0 <= j < i ==> (#[trigger] stored[j]) == Some(rows@[j]@) && !disagrees(
                        self@.rows[j],
                        rows@[j]@,
                    ),
            decreases self.rows.len() - i,
        {
            let at: usize = found.len() - 1 - i;
            assert(self@.rows[i as int] == self.rows@[i as int]@);
            assert(stored[i as int] == view_of(found@[at as int]));
            match &found[at] {
                Some(actual) => {
                    if self.rows[i].disagrees(actual) {
                        return Err(Error::InvalidDatabase(mismatch));
                    }
                    rows.push(actual.clone());
                },
                None => {
                    return Err(Error::InvalidDatabase(mismatch));
                },
            }
            i += 1;
        }
        assert(views(rows@) =~= Seq::new(self@.rows.len(), |i: int| stored[i]->Some_0));
        Ok(rows)
    }

    /// The statement that deletes rows as they were inserted, given how they were
    /// found: the last one first.
    pub fn delete_materialized(
        &self,
        catalog: &CatalogSnapshot,
        created: &CreateTable,
        found: &[Option<Row>],
    ) -> (r: Result<RowStatement>)
        requires
            definition_sound(created@),
            found@.len() == self@.rows.len(),
        ensures
            verdict(r) == (match rows_matched(
                self@.rows,
                optional_rows(found@),
                INSERT_DIVERGED@,
            ) {
                Err(error) => Err(error),
                Ok(_) => delete_plan(catalog@, created@, self@),
            }),
    {
        match self.match_rows(found, INSERT_DIVERGED) {
            Err(error) => Err(error),
            Ok(_) => self.delete_plan(catalog, created),
        }
    }

    /// Stored rows as a row set under the table's current rules.
    pub fn for_current_rows(catalog: &CatalogSnapshot, created: &CreateTable, rows: &[Row]) -> (r:
        Result<RowSet>)
        requires
            definition_sound(created@),
        ensures
            verdict(r) == projected(catalog@, created@, views(rows@)),
    {
        let name = match catalog.name_by_id(created.table) {
            None => {
                return Err(
                    Error::InvalidDatabase(
                        "row operation references a table without a current name binding",
                    ),
                );
            },
            Some(name) => name,
        };
        let capture = |row: &Row| -> (r: Result<CapturedRow>)
            requires
                definition_sound(created@),
            ensures
                verdict(r) == recaptured(created@, name@)(row@),
            { row.recapture(created, name) };
        let captured = match attempt_each(rows, capture, Ghost(recaptured(created@, name@))) {
            Err(error) => {
                return Err(error);
            },
            Ok(captured) => captured,
        };
        match RowSet::from_catalog(catalog, captured.as_slice()) {
            Err(error) => Err(error),
            Ok(Some(set)) => Ok(set),
            Ok(None) => Err(
                Error::CaptureInvariant("materialized row projection unexpectedly became empty"),
            ),
        }
    }
}

impl Row {
    /// Whether a stored row has another value than this row has.
    pub fn disagrees(&self, actual: &Row) -> (r: bool)
        ensures
            r == disagrees(self@, actual@),
    {
        let differs = |cell: &Cell| -> (r: bool)
            ensures
                r == (actual@.value(cell@.column) is Some && actual@.value(cell@.column) != Some(
                    cell@.value,
                )),
            {
                match actual.value(cell.column) {
                    Some(value) => !value.same(&cell.value),
                    None => false,
                }
            };
        any(
            self.values.as_slice(),
            differs,
            Ghost(
                |cell: CellView|
                    actual@.value(cell.column) is Some && actual@.value(cell.column) != Some(
                        cell.value,
                    ),
            ),
        )
    }

    /// The row with the values of another.
    pub fn overlay(&self, after: &Row) -> (r: Row)
        ensures
            r@ == overlaid(self@, after@),
    {
        let one = |cell: &Cell| -> (r: Cell)
            ensures
                r@ == overlaid_cell(after@)(cell@),
            {
                match after.value(cell.column) {
                    Some(value) => Cell { column: cell.column, value: value.clone() },
                    None => cell.clone(),
                }
            };
        Row { values: each(self.values.as_slice(), one, Ghost(overlaid_cell(after@))) }
    }

    /// The rowid that the row's primary key stands for.
    pub fn declared_rowid(&self, created: &CreateTable) -> (r: Result<i64>)
        requires
            definition_sound(created@),
        ensures
            match r {
                Ok(rowid) => declared_rowid(created@, self@) == Ok::<i64, ErrorView>(rowid),
                Err(error) => declared_rowid(created@, self@) == Err::<i64, ErrorView>(error@),
            },
    {
        if created.storage == TableStorage::WithoutRowid {
            return Ok(0);
        }
        let primary = created.primary_column_ids();
        assert(primary@.len() > 0 ==> views(primary@)[0] == primary@[0]@);
        assert(views(primary@).len() == primary@.len());
        if primary.len() == 0 || !created.is_rowid_alias(primary[0]) {
            return Err(
                Error::InvalidDatabase("rowid table has no declared INTEGER PRIMARY KEY alias"),
            );
        }
        match self.value(primary[0]) {
            Some(StoredValue::Integer(rowid)) => Ok(*rowid),
            _ => Err(Error::InvalidDatabase("rowid table has a non-integer primary key value")),
        }
    }

    /// The stored row as a captured one.
    fn recapture(&self, created: &CreateTable, name: &SqlName) -> (r: Result<CapturedRow>)
        requires
            definition_sound(created@),
        ensures
            verdict(r) == recaptured(created@, name@)(self@),
    {
        assert(created@.columns == views(created.columns@));
        let value = |column: &Column| -> (r: Result<StoredValue>)
            ensures
                verdict(r) == stored_value(self@)(column@),
            {
                match self.value(column.id) {
                    Some(value) => Ok(value.clone()),
                    None => Err(
                        Error::InvalidDatabase(
                            "materialized row is missing a current schema column",
                        ),
                    ),
                }
            };
        let values = match attempt_each(
            created.columns.as_slice(),
            value,
            Ghost(stored_value(self@)),
        ) {
            Err(error) => {
                return Err(error);
            },
            Ok(values) => values,
        };
        match self.declared_rowid(created) {
            Err(error) => Err(error),
            Ok(rowid) => Ok(CapturedRow { table: name.value().to_owned(), rowid, values }),
        }
    }
}

/// Changes by how they are carried out: rows that keep their keys, stored rows
/// to remove, and rows to insert.
pub struct Arrangement {
    pub stable: Vec<RowDelta>,
    pub removed: Vec<Row>,
    pub inserted: Vec<Row>,
}

impl Arrangement {
    /// Whether an arrangement holds these changes.
    pub open spec fn holds(&self, arrangement: ArrangementView) -> bool {
        &&& views(self.stable@) == arrangement.stable
        &&& views(self.removed@) == arrangement.removed
        &&& views(self.inserted@) == arrangement.inserted
    }
}

/// The rows to remove, the query that reads them once more, and the statement
/// that deletes them.
pub struct Removal {
    pub rows: RowSet,
    pub select: RowStatement,
    pub delete: RowStatement,
}

impl View for Removal {
    type V = RemovalView;

    open spec fn view(&self) -> RemovalView {
        RemovalView { rows: self.rows@, select: self.select@, delete: self.delete@ }
    }
}

/// The stored rows that changes use are those that they start from.
proof fn lemma_next(
    rules: RulesView,
    current: Seq<RowView>,
    rows: Seq<DeltaView>,
)
    ensures
        try_fold(nothing_arranged(), rows, arrange_step(rules, current)) matches Ok(done) ==> done.next
            == befores(rows).len(),
    decreases rows.len(),
{
    if rows.len() > 0 {
        lemma_next(rules, current, rows.drop_last());
    }
}

/// Fewer changes start from fewer rows.
proof fn lemma_befores_prefix(rows: Seq<DeltaView>, i: int)
    requires
        0 <= i <= rows.len(),
    ensures
        befores(rows.subrange(0, i)).len() <= befores(rows).len(),
    decreases rows.len() - i,
{
    if i == rows.len() {
        assert(rows.subrange(0, i) =~= rows);
    } else {
        lemma_befores_prefix(rows, i + 1);
        assert(rows.subrange(0, i + 1).drop_last() =~= rows.subrange(0, i));
    }
}

impl TableChanges {
    /// The rows that the changes start from in the given direction.
    pub fn start_set(&self, reverse: bool) -> (r: RowSet)
        ensures
            r@ == (RowSetView {
                rules: self@.rules,
                rows: befores(self@.rows.map_values(turned(reverse))),
            }),
    {
        let changes = TableChanges {
            rules: self.rules.clone(),
            rows: turn(self.rows.as_slice(), reverse),
        };
        changes.before_set()
    }

    /// The table that the changes are of, as the catalog knows it.
    pub fn definition<'a>(&self, catalog: &'a CatalogSnapshot, reverse: bool) -> (r: Result<
        &'a CreateTable,
    >)
        ensures
            verdict(r) == changes_definition(catalog@, self@, reverse),
            r matches Ok(created) ==> definition_sound(created@),
    {
        let changes = TableChanges {
            rules: self.rules.clone(),
            rows: turn(self.rows.as_slice(), reverse),
        };
        match changes.before_rows() {
            Some(set) => set.definition(catalog),
            None => changes.after_set().definition(catalog),
        }
    }

    /// Arrange the changes by how they are carried out, given the stored rows
    /// that they start from.
    pub fn arrange(&self, reverse: bool, current: &[Row]) -> (r: Result<Arrangement>)
        requires
            current@.len() == befores(self@.rows.map_values(turned(reverse))).len(),
        ensures
            match r {
                Ok(done) => arranged(self@, reverse, views(current@)) is Ok && done.holds(
                    arranged(self@, reverse, views(current@))->Ok_0,
                ),
                Err(error) => arranged(self@, reverse, views(current@)) == Err::<
                    ArrangementView,
                    ErrorView,
                >(error@),
            },
    {
        let rows = turn(self.rows.as_slice(), reverse);
        let ghost all = views(rows@);
        let ghost stored = views(current@);
        let ghost step = arrange_step(self@.rules, stored);
        let ghost none = nothing_arranged();
        let ghost mut state = none;
        let mut stable: Vec<RowDelta> = Vec::new();
        let mut removed: Vec<Row> = Vec::new();
        let mut inserted: Vec<Row> = Vec::new();
        let count: usize = current.len();
        let mut next: usize = 0;
        let mut i: usize = 0;
        proof {
            lemma_try_fold_start(none, all, step);
            assert(views(stable@) =~= state.stable);
            assert(views(removed@) =~= state.removed);
            assert(views(inserted@) =~= state.inserted);
        }
        while i < rows.len()
            invariant
                i <= rows@.len(),
                all == views(rows@),
                all == self@.rows.map_values(turned(reverse)),
                stored == views(current@),
                step == arrange_step(self@.rules, stored),
                none == nothing_arranged(),
                count == current@.len(),
                count == befores(all).len(),
                try_fold(none, all.subrange(0, i as int), step) == Ok::<
                    ArrangementView,
                    ErrorView,
                >(state),
                views(stable@) == state.stable,
                views(removed@) == state.removed,
                views(inserted@) == state.inserted,
                next == state.next,
            decreases rows.len() - i,
        {
            let delta = &rows[i];
            proof {
                assert(all[i as int] == delta@);
                lemma_try_fold_step(none, all, i as int, step);
                if try_fold(none, all.subrange(0, i as int + 1), step) is Err {
                    lemma_try_fold_stop(none, all, i as int + 1, step);
                }
                lemma_next(self@.rules, stored, all.subrange(0, i as int));
                lemma_befores_prefix(all, i as int + 1);
                assert(all.subrange(0, i as int + 1).drop_last() =~= all.subrange(0, i as int));
                if delta.before is Some {
                    assert(all.subrange(0, i as int + 1).last() == delta@);
                    assert(next < current@.len());
                    assert(stored[next as int] == current@[next as int]@);
                }
            }
            match (&delta.before, &delta.after) {
                (Some(before), Some(after)) => {
                    assert(next < count);
                    let old = match self.rules.row_key(before) {
                        Err(error) => {
                            return Err(error.into_operation());
                        },
                        Ok(key) => key,
                    };
                    let new = match self.rules.row_key(after) {
                        Err(error) => {
                            return Err(error.into_operation());
                        },
                        Ok(key) => key,
                    };
                    if old.same(&new) {
                        let kept = delta.clone();
                        stable.push(kept);
                        assert(views(stable@) =~= state.stable.push(delta@));
                    } else {
                        let gone = current[next].clone();
                        let come = current[next].overlay(after);
                        removed.push(gone);
                        inserted.push(come);
                        assert(views(removed@) =~= state.removed.push(gone@));
                        assert(views(inserted@) =~= state.inserted.push(come@));
                    }
                    next += 1;
                },
                (Some(_), None) => {
                    let gone = current[next].clone();
                    removed.push(gone);
                    assert(views(removed@) =~= state.removed.push(gone@));
                    next += 1;
                },
                (None, Some(after)) => {
                    let come = after.clone();
                    inserted.push(come);
                    assert(views(inserted@) =~= state.inserted.push(come@));
                },
                (None, None) => {
                    return Err(Error::CaptureInvariant("invalid row delta while applying"));
                },
            }
            proof {
                state = step(state, delta@)->Ok_0;
            }
            i += 1;
        }
        assert(all.subrange(0, i as int) =~= all);
        Ok(Arrangement { stable, removed, inserted })
    }

    /// How stored rows are removed.
    pub fn removal_plan(
        &self,
        catalog: &CatalogSnapshot,
        created: &CreateTable,
        removed: &[Row],
    ) -> (r: Result<Removal>)
        requires
            definition_sound(created@),
        ensures
            verdict(r) == removal_plan(catalog@, created@, views(removed@)),
    {
        let rows = match RowSet::for_current_rows(catalog, created, removed) {
            Err(error) => {
                return Err(error);
            },
            Ok(rows) => rows,
        };
        let current = match rows.definition(catalog) {
            Err(error) => {
                return Err(error);
            },
            Ok(current) => current,
        };
        let select = match rows.select_plan(catalog, current) {
            Err(error) => {
                return Err(error);
            },
            Ok(select) => select,
        };
        match rows.delete_plan(catalog, current) {
            Err(error) => Err(error),
            Ok(delete) => Ok(Removal { rows, select, delete }),
        }
    }

    /// How rows that keep their keys are updated.
    pub fn update_plan(
        &self,
        catalog: &CatalogSnapshot,
        created: &CreateTable,
        stable: &[RowDelta],
    ) -> (r: Result<Option<RowStatement>>)
        requires
            definition_sound(created@),
            forall|i: int|
                0 <= i < stable@.len() ==> (#[trigger] stable@[i]).before is Some
                    && stable@[i].after is Some,
        ensures
            match r {
                Ok(statement) => update_plan(
                    catalog@,
                    created@,
                    self@.rules,
                    views(stable@),
                ) == Ok::<Option<RowStatementView>, ErrorView>(view_of(statement)),
                Err(error) => update_plan(
                    catalog@,
                    created@,
                    self@.rules,
                    views(stable@),
                ) == Err::<Option<RowStatementView>, ErrorView>(error@),
            },
    {
        assert(created@.columns == views(created.columns@));
        let changed = |column: &Column| -> (r: bool)
            requires
                forall|i: int|
                    0 <= i < stable@.len() ==> (#[trigger] stable@[i]).before is Some
                        && stable@[i].after is Some,
            ensures
                r == altered(views(stable@))(column@),
            { column_changes(stable, column.id) };
        let columns = choose_columns(
            created.columns.as_slice(),
            changed,
            Ghost(altered(views(stable@))),
        );
        assert(views(columns@).len() == columns@.len());
        if columns.len() == 0 {
            return Ok(None);
        }
        let names = match catalog.column_texts(created.table, columns.as_slice()) {
            Err(error) => {
                return Err(error);
            },
            Ok(names) => names,
        };
        let condition = match catalog.key_condition(created) {
            Err(error) => {
                return Err(error);
            },
            Ok(condition) => condition,
        };
        let name = match catalog.table_text(self.rules.table) {
            Err(error) => {
                return Err(error);
            },
            Ok(name) => name,
        };
        let mut sql = joined("UPDATE ", name.as_str());
        sql.append(" SET ");
        sql.append(list_texts(bind_columns(names.as_slice()).as_slice(), ", ").as_str());
        sql.append(" WHERE ");
        sql.append(condition.as_str());
        let rules = &self.rules;
        let values = |delta: &RowDelta| -> (r: Result<Values>)
            requires
                delta.before is Some,
                delta.after is Some,
            ensures
                verdict(r) == update_values(rules@, views(columns@))(delta@),
            {
                match (&delta.before, &delta.after) {
                    (Some(before), Some(after)) => match after.column_values(columns.as_slice()) {
                        Err(error) => Err(error),
                        Ok(values) => match rules.key_values(before) {
                            Err(error) => Err(error),
                            Ok(key) => Ok(concatenated(values, key)),
                        },
                    },
                    _ => Err(Error::CaptureInvariant("invalid row delta while applying")),
                }
            };
        match attempt_each(stable, values, Ghost(update_values(self@.rules, views(columns@)))) {
            Err(error) => Err(error),
            Ok(parameters) => Ok(Some(RowStatement { sql, parameters })),
        }
    }

    /// How rows are inserted.
    pub fn insertion_plan(
        &self,
        catalog: &CatalogSnapshot,
        created: &CreateTable,
        inserted: &[Row],
    ) -> (r: Result<RowStatement>)
        requires
            definition_sound(created@),
            inserted@.len() > 0,
        ensures
            verdict(r) == insertion_plan(catalog@, created@, self@.rules, views(inserted@)),
    {
        let lacks = |row: &Row| -> (r: bool)
            ensures
                r == !complete(created@, row@),
            { !row.is_complete(created) };
        let rows = if !any(inserted, lacks, Ghost(|row: RowView| !complete(created@, row))) {
            match RowSet::for_current_rows(catalog, created, inserted) {
                Err(error) => {
                    return Err(error);
                },
                Ok(rows) => rows,
            }
        } else {
            self.rules.with_rows(copy_rows(inserted))
        };
        match rows.definition(catalog) {
            Err(error) => Err(error),
            Ok(current) => {
                assert(rows@.rows.len() > 0);
                rows.insert_plan(catalog, current)
            },
        }
    }
}

/// Two lists of values behind each other.
fn concatenated(a: Values, b: Values) -> (r: Values)
    ensures
        r@ == a@ + b@,
{
    let mut values = a.values;
    let mut more = b.values;
    let ghost x = views(values@);
    let ghost y = views(more@);
    values.append(&mut more);
    assert(views(values@) =~= x + y);
    Values { values }
}

/// A copy of rows.
fn copy_rows(rows: &[Row]) -> (r: Vec<Row>)
    ensures
        views(r@) == views(rows@),
{
    let copy = |row: &Row| -> (r: Row)
        ensures
            r@ == row@,
        { row.clone() };
    let r = each(rows, copy, Ghost(|row: RowView| row));
    assert(views(r@) =~= views(rows@));
    r
}

/// Whether some of the changes give a column another value.
fn column_changes(stable: &[RowDelta], column: ColumnId) -> (r: bool)
    requires
        forall|i: int|
            0 <= i < stable@.len() ==> (#[trigger] stable@[i]).before is Some
                && stable@[i].after is Some,
    ensures
        r == exists|i: int|
            0 <= i < views(stable@).len() && differs(column@)(#[trigger] views(stable@)[i]),
{
    let changes = |delta: &RowDelta| -> (r: bool)
        requires
            delta.before is Some,
            delta.after is Some,
        ensures
            r == differs(column@)(delta@),
        {
            match (&delta.before, &delta.after) {
                (Some(before), Some(after)) => match (before.value(column), after.value(column)) {
                    (Some(a), Some(b)) => !a.same(b),
                    (None, None) => false,
                    _ => true,
                },
                _ => false,
            }
        };
    any(stable, changes, Ghost(differs(column@)))
}

impl Row {
    /// Whether the row has a value for every column of a table.
    fn is_complete(&self, created: &CreateTable) -> (r: bool)
        ensures
            r == complete(created@, self@),
    {
        assert(created@.columns == views(created.columns@));
        let missing = |column: &Column| -> (r: bool)
            ensures
                r == (self@.value(column@.id) is None),
            { self.value(column.id).is_none() };
        let r = !any(
            created.columns.as_slice(),
            missing,
            Ghost(|column: ColumnView| self@.value(column.id) is None),
        );
        r
    }
}

/// One table whose changes are carried out, or undone.
pub struct TableReplay<'a> {
    pub changes: &'a TableChanges,
    pub reverse: bool,
}

impl RowChanges {
    /// The tables in the order in which their changes are carried out.
    pub fn apply(&self) -> (r: Vec<TableReplay<'_>>)
        ensures
            r@.len() == self@.tables.len(),
            forall|i: int|
                0 <= i < r@.len() ==> (#[trigger] r@[i]).changes@ == self@.tables[i]
                    && !r@[i].reverse,
    {
        let mut order: Vec<TableReplay<'_>> = Vec::new();
        let mut i: usize = 0;
        while i < self.tables.len()
            invariant
                i <= self.tables@.len(),
                order@.len() == i,
                forall|j: int|
                    0 <= j < i ==> (#[trigger] order@[j]).changes@ == self@.tables[j]
                        && !order@[j].reverse,
            decreases self.tables.len() - i,
        {
            assert(self@.tables[i as int] == self.tables@[i as int]@);
            order.push(TableReplay { changes: &self.tables[i], reverse: false });
            i += 1;
        }
        order
    }

    /// The tables in the order in which their changes are undone: the last one
    /// first.
    pub fn restore_materialized(&self) -> (r: Vec<TableReplay<'_>>)
        ensures
            r@.len() == self@.tables.len(),
            forall|i: int|
                0 <= i < r@.len() ==> (#[trigger] r@[i]).changes@ == self@.tables[r@.len() - 1 - i]
                    && r@[i].reverse,
    {
        let mut order: Vec<TableReplay<'_>> = Vec::new();
        let mut left: usize = self.tables.len();
        while left > 0
            invariant
                left <= self.tables@.len(),
                order@.len() + left == self.tables@.len(),
                forall|j: int|
                    0 <= j < order@.len() ==> (#[trigger] order@[j]).changes@
                        == self@.tables[self.tables@.len() - 1 - j] && order@[j].reverse,
            decreases left,
        {
            left -= 1;
            assert(self@.tables[left as int] == self.tables@[left as int]@);
            order.push(TableReplay { changes: &self.tables[left], reverse: true });
        }
        order
    }
}

} // verus!
