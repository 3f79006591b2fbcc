//! Captured rows, checked against the table that they belong to.

use super::capture::{CapturedRow, CapturedRowView};
use super::cells::{Cell, CellView, Row, RowView};
use super::derive::{
    foreign_key_rules, incoming_foreign_key_rules, incoming_rules_of, index_rules_of,
    known_index_rules_of, outgoing_rules_of, primary_parts, rules_of,
};
use super::error::{row_error_text, RowCodecError};
use super::image::{normalize_captured_value, normalized};
use super::keys::{images_of, index_entries_of, references_of};
use super::rules::{
    same_foreign_keys, same_incoming_keys, same_key_parts, ForeignKeyView, IncomingView,
    IndexRules, IndexView, RowRules, RulesView,
};
use super::set::{row_set_fault, RowSet, RowSetView};
use crate::attempt::try_map;
use crate::catalog::{table_named, CatalogEntryView, CatalogSnapshot};
use crate::codec::views;
use crate::each::{any, attempt_each, check_each, first_fault};
use crate::error::{refusal, verdict, Error, ErrorView, Result};
use crate::logical::schema::definition::{
    definition_sound, Column, ColumnView, CreateTable, TableView,
};
use crate::logical::schema::table::{column_affinity, primary_ids, rowid_alias};
use crate::logical::types::{StrictType, TableMode, TableStorage};
use crate::name::same_text;
use crate::text::joined;
use crate::value::{StoredValue, ValueView};
use vstd::prelude::*;
use vstd::string::*;

verus! {

/// Whether a strict column can hold a value.
pub open spec fn strict_matches(column: ColumnView, value: ValueView) -> bool {
    match (value, column.strict) {
        (ValueView::Null, _) => !column.not_null,
        (_, Some(StrictType::Any)) => true,
        (ValueView::Integer(_), strict) => strict == Some(StrictType::Integer),
        (ValueView::Real(_), strict) => strict == Some(StrictType::Real),
        (ValueView::Text(_), strict) => strict == Some(StrictType::Text),
        (ValueView::Blob(_), strict) => strict == Some(StrictType::Blob),
    }
}

/// Whether a row has a value that its strict column cannot hold.
pub open spec fn breaks_column(row: RowView) -> spec_fn(ColumnView) -> bool {
    |column: ColumnView|
        row.value(column.id) matches Some(value) && !strict_matches(column, value)
}

/// Why the values of a row are refused by its table.
pub open spec fn row_refusal(rules: RulesView, table: TableView, row: RowView) -> Option<
    ErrorView,
> {
    if table.mode == TableMode::Strict && exists|i: int|
        0 <= i < table.columns.len() && breaks_column(row)(#[trigger] table.columns[i]) {
        Some(ErrorView::InvalidMultiliteOp("row value has an invalid STRICT storage class"@))
    } else if let Err(error) = images_of(row, rules.key_parts) {
        Some(ErrorView::InvalidMultiliteOp("invalid primary key image: "@ + row_error_text(error)))
    } else if let Err(error) = index_entries_of(rules, row) {
        Some(ErrorView::InvalidMultiliteOp("invalid UNIQUE key image: "@ + row_error_text(error)))
    } else if let Err(error) = references_of(rules, row) {
        Some(ErrorView::InvalidMultiliteOp("invalid foreign-key image: "@ + row_error_text(error)))
    } else {
        None
    }
}

/// The fault of each row of a table.
pub open spec fn row_refusals(rules: RulesView, table: TableView) -> spec_fn(RowView) -> Option<
    ErrorView,
> {
    |row: RowView| row_refusal(rules, table, row)
}

/// The values of a captured row as its columns hold them.
pub open spec fn captured_values(table: TableView, captured: CapturedRowView) -> Seq<CellView> {
    Seq::new(
        table.columns.len(),
        |i: int|
            CellView {
                column: table.columns[i].id,
                value: normalized(
                    captured.values[i],
                    column_affinity(table.columns[i], table.mode),
                ),
            },
    )
}

/// The row that a captured image makes.
pub open spec fn captured_row(
    rules: RulesView,
    table: TableView,
    captured: CapturedRowView,
) -> std::result::Result<RowView, ErrorView> {
    let row = RowView { values: captured_values(table, captured) };
    let keys = primary_ids(table.columns);
    if captured.values.len() != table.columns.len() {
        Err(
            ErrorView::CaptureInvariant("captured row width does not match its schema catalog"@),
        )
    } else if rules.storage == TableStorage::Rowid && !(keys.len() > 0 && rowid_alias(
        table,
        keys[0],
    )) {
        Err(
            ErrorView::CaptureInvariant("rowid table is missing its INTEGER PRIMARY KEY alias"@),
        )
    } else if rules.storage == TableStorage::Rowid && !row.values.contains(
        CellView { column: keys[0], value: ValueView::Integer(captured.rowid) },
    ) {
        Err(ErrorView::CaptureInvariant("captured rowid contradicts its INTEGER PRIMARY KEY"@))
    } else {
        match row_refusal(rules, table, row) {
            Some(error) => Err(error),
            None => Ok(row),
        }
    }
}

/// The row that each captured image of a table makes.
pub open spec fn captures(rules: RulesView, table: TableView) -> spec_fn(
    CapturedRowView,
) -> std::result::Result<RowView, ErrorView> {
    |captured: CapturedRowView| captured_row(rules, table, captured)
}

/// Whether rules are those of a table, as far as rows written earlier can tell:
/// an index that is no longer active may still be among them.
pub open spec fn rules_agree(
    rules: RulesView,
    table: TableView,
    outgoing: Seq<ForeignKeyView>,
    incoming: Seq<IncomingView>,
) -> bool {
    &&& rules.table == table.table
    &&& rules.primary_index == table.primary_index
    &&& rules.storage == table.storage
    &&& rules.key_parts == primary_parts(table)
    &&& forall|i: int|
        0 <= i < index_rules_of(table).len() ==> rules.indexes.contains(
            #[trigger] index_rules_of(table)[i],
        )
    &&& forall|i: int|
        0 <= i < rules.indexes.len() ==> known_index_rules_of(table).contains(
            #[trigger] rules.indexes[i],
        )
    &&& rules.foreign_keys == outgoing
    &&& rules.incoming_foreign_keys == incoming
}

/// Why a row set is refused by a table.
pub open spec fn set_refusal(
    tables: Seq<CatalogEntryView>,
    table: TableView,
    set: RowSetView,
) -> Option<ErrorView> {
    if let Some(error) = row_set_fault(set) {
        Some(ErrorView::InvalidMultiliteOp(row_error_text(error)))
    } else {
        match (outgoing_rules_of(tables, table), incoming_rules_of(tables, table)) {
            (Err(error), _) => Some(error),
            (_, Err(error)) => Some(error),
            (Ok(outgoing), Ok(incoming)) => if !rules_agree(set.rules, table, outgoing, incoming) {
                Some(
                    ErrorView::InvalidMultiliteOp(
                        "row operation contradicts the local schema catalog"@,
                    ),
                )
            } else {
                first_fault(set.rows, row_refusals(set.rules, table))
            },
        }
    }
}

/// Whether a captured image belongs to another table than the given one.
pub open spec fn elsewhere(name: Seq<char>) -> spec_fn(CapturedRowView) -> bool {
    |captured: CapturedRowView| captured.table != name
}

/// The row set that captured images make: none where there is no image, or where
/// the catalog does not know the table.
pub open spec fn rows_accepted(
    tables: Seq<CatalogEntryView>,
    captured: Seq<CapturedRowView>,
) -> std::result::Result<Option<RowSetView>, ErrorView> {
    if captured.len() == 0 {
        Ok(None)
    } else if exists|i: int|
        0 <= i < captured.len() && elsewhere(captured[0].table)(#[trigger] captured[i]) {
        Err(ErrorView::CaptureInvariant("one row operation changed more than one table"@))
    } else {
        match table_named(tables, captured[0].table) {
            None => Ok(None),
            Some(table) => match rules_of(tables, table) {
                Err(error) => Err(error),
                Ok(rules) => match try_map(captured, captures(rules, table)) {
                    Err(error) => Err(error),
                    Ok(rows) => match set_refusal(tables, table, RowSetView { rules, rows }) {
                        Some(error) => Err(error),
                        None => Ok(Some(RowSetView { rules, rows })),
                    },
                },
            },
        }
    }
}

/// An optional row set over views.
pub open spec fn optional_set(r: Result<Option<RowSet>>) -> std::result::Result<
    Option<RowSetView>,
    ErrorView,
> {
    match r {
        Ok(Some(set)) => Ok(Some(set@)),
        Ok(None) => Ok(None),
        Err(error) => Err(error@),
    }
}

/// Whether a strict column can hold a value.
pub fn strict_value_matches(column: &Column, value: &StoredValue) -> (r: bool)
    ensures
        r == strict_matches(column@, value@),
{
    match (value, column.strict) {
        (StoredValue::Null, _) => !column.not_null,
        (_, Some(StrictType::Any)) => true,
        (StoredValue::Integer(_), Some(StrictType::Integer)) => true,
        (StoredValue::Real(_), Some(StrictType::Real)) => true,
        (StoredValue::Text(_), Some(StrictType::Text)) => true,
        (StoredValue::Blob(_), Some(StrictType::Blob)) => true,
        _ => false,
    }
}

/// Whether rules are among others.
fn lists_index(list: &[IndexRules], index: &IndexRules) -> (r: bool)
    ensures
        r == views(list@).contains(index@),
{
    let equal = |other: &IndexRules| -> (r: bool)
        ensures
            r == (other@ == index@),
        { other.same(index) };
    let r = any(list, equal, Ghost(|other: IndexView| other == index@));
    proof {
        let all = views(list@);
        if all.contains(index@) {
            let k = choose|k: int| 0 <= k < all.len() && all[k] == index@;
            assert(all[k] == index@);
        }
    }
    r
}

/// Whether every rule of a list is among others.
fn lists_every_index(list: &[IndexRules], indexes: &[IndexRules]) -> (r: bool)
    ensures
        r == forall|i: int|
            0 <= i < views(indexes@).len() ==> views(list@).contains(
                #[trigger] views(indexes@)[i],
            ),
{
    let missing = |index: &IndexRules| -> (r: bool)
        ensures
            r == !views(list@).contains(index@),
        { !lists_index(list, index) };
    !any(indexes, missing, Ghost(|index: IndexView| !views(list@).contains(index)))
}

/// The error of a malformed operation, with its cause behind a text.
fn malformed(what: &str, error: RowCodecError) -> (r: Error)
    ensures
        r@ == ErrorView::InvalidMultiliteOp(what@ + row_error_text(error)),
{
    Error::InvalidMultiliteOp(joined(what, error.text().as_str()))
}

impl RowRules {
    /// Refuse a row whose values its table cannot hold.
    pub fn validate_row(&self, created: &CreateTable, row: &Row) -> (r: Result<()>)
        ensures
            refusal(r) == row_refusal(self@, created@, row@),
    {
        assert(created@.columns == views(created.columns@));
        let breaks = |column: &Column| -> (r: bool)
            ensures
                r == breaks_column(row@)(column@),
            {
                match row.value(column.id) {
                    Some(value) => !strict_value_matches(column, value),
                    None => false,
                }
            };
        if created.mode == TableMode::Strict && any(
            created.columns.as_slice(),
            breaks,
            Ghost(breaks_column(row@)),
        ) {
            return Err(
                Error::InvalidMultiliteOp(
                    "row value has an invalid STRICT storage class".to_owned(),
                ),
            );
        }
        if let Err(error) = self.key_images(row) {
            return Err(malformed("invalid primary key image: ", error));
        }
        if let Err(error) = self.index_entries(row) {
            return Err(malformed("invalid UNIQUE key image: ", error));
        }
        if let Err(error) = self.foreign_references(row) {
            return Err(malformed("invalid foreign-key image: ", error));
        }
        Ok(())
    }

    /// The row that a captured image makes.
    pub fn capture(&self, created: &CreateTable, captured: &CapturedRow) -> (r: Result<Row>)
        requires
            definition_sound(created@),
        ensures
            verdict(r) == captured_row(self@, created@, captured@),
    {
        assert(created@.columns == views(created.columns@));
        assert(captured@.values == views(captured.values@));
        if captured.values.len() != created.columns.len() {
            return Err(
                Error::CaptureInvariant("captured row width does not match its schema catalog"),
            );
        }
        let mut values: Vec<Cell> = Vec::new();
        let mut i: usize = 0;
        while i < created.columns.len()
            invariant
                i <= created.columns@.len(),
                values@.len() == i,
                captured.values@.len() == created.columns@.len(),
                created@.columns == views(created.columns@),
                captured@.values == views(captured.values@),
                forall|j: int|
                    0 <= j < i ==> (#[trigger] values@[j])@ == captured_values(
                        created@,
                        captured@,
                    )[j],
            decreases created.columns.len() - i,
        {
            let column = &created.columns[i];
            let value = normalize_captured_value(
                &captured.values[i],
                column.affinity(created.mode),
            );
            values.push(Cell { column: column.id, value });
            i += 1;
        }
        assert(views(values@) =~= captured_values(created@, captured@));
        let row = Row { values };
        if self.storage == TableStorage::Rowid {
            let primary = created.primary_key_columns();
            if primary.len() == 0 || !created.is_rowid_alias(primary[0].id) {
                return Err(
                    Error::CaptureInvariant("rowid table is missing its INTEGER PRIMARY KEY alias"),
                );
            }
            let alias = primary[0].id;
            let rowid = captured.rowid;
            assert(primary_ids(created@.columns)[0] == alias@);
            let ghost want = CellView { column: alias@, value: ValueView::Integer(rowid) };
            let stands = |cell: &Cell| -> (r: bool)
                ensures
                    r == (cell@.column == alias@ && cell@.value == ValueView::Integer(rowid)),
                {
                    cell.column.same(&alias) && (match &cell.value {
                        StoredValue::Integer(value) => *value == rowid,
                        _ => false,
                    })
                };
            let found = any(row.values.as_slice(), stands, Ghost(|cell: CellView| cell == want));
            proof {
                let all = views(row.values@);
                if all.contains(want) {
                    let k = choose|k: int| 0 <= k < all.len() && all[k] == want;
                    assert(all[k] == want);
                }
            }
            if !found {
                return Err(
                    Error::CaptureInvariant("captured rowid contradicts its INTEGER PRIMARY KEY"),
                );
            }
        }
        match self.validate_row(created, &row) {
            Err(error) => Err(error),
            Ok(()) => Ok(row),
        }
    }
}

impl RowSet {
    /// Refuse rows that contradict the catalog's view of their table.
    pub fn validate_against_catalog(&self, catalog: &CatalogSnapshot, created: &CreateTable) -> (r:
        Result<()>)
        requires
            definition_sound(created@),
        ensures
            refusal(r) == set_refusal(catalog@, created@, self@),
    {
        if let Err(error) = self.validate_structure() {
            return Err(error.into_operation());
        }
        let foreign_keys = match foreign_key_rules(catalog, created) {
            Err(error) => {
                return Err(error);
            },
            Ok(rules) => rules,
        };
        let incoming = match incoming_foreign_key_rules(catalog, created) {
            Err(error) => {
                return Err(error);
            },
            Ok(rules) => rules,
        };
        let key_parts = created.primary_key_parts();
        let expected = created.index_rules();
        let known = created.known_index_rules();
        let rules = &self.rules;
        if !rules.table.same(&created.table) || !rules.primary_index.same(&created.primary_index)
            || rules.storage != created.storage || !same_key_parts(&rules.key_parts, &key_parts)
            || !lists_every_index(rules.indexes.as_slice(), expected.as_slice())
            || !lists_every_index(known.as_slice(), rules.indexes.as_slice())
            || !same_foreign_keys(&rules.foreign_keys, &foreign_keys) || !same_incoming_keys(
            &rules.incoming_foreign_keys,
            &incoming,
        ) {
            return Err(
                Error::InvalidMultiliteOp(
                    "row operation contradicts the local schema catalog".to_owned(),
                ),
            );
        }
        let check = |row: &Row| -> (r: Result<()>)
            ensures
                refusal(r) == row_refusals(rules@, created@)(row@),
            { rules.validate_row(created, row) };
        check_each(self.rows.as_slice(), check, Ghost(row_refusals(self@.rules, created@)))
    }

    /// The row set that captured images make.
    pub fn from_catalog(catalog: &CatalogSnapshot, captured: &[CapturedRow]) -> (r: Result<
        Option<RowSet>,
    >)
        ensures
            optional_set(r) == rows_accepted(catalog@, views(captured@)),
    {
        if captured.len() == 0 {
            return Ok(None);
        }
        let name = captured[0].table.as_str();
        let other = |row: &CapturedRow| -> (r: bool)
            ensures
                r == elsewhere(name@)(row@),
            { !same_text(row.table.as_str(), name) };
        assert(views(captured@)[0] == captured@[0]@);
        if any(captured, other, Ghost(elsewhere(name@))) {
            return Err(Error::CaptureInvariant("one row operation changed more than one table"));
        }
        let created = match catalog.by_name(name) {
            None => {
                return Ok(None);
            },
            Some(created) => created,
        };
        let rules = match RowRules::from_table(catalog, created) {
            Err(error) => {
                return Err(error);
            },
            Ok(rules) => rules,
        };
        let capture = |row: &CapturedRow| -> (r: Result<Row>)
            requires
                definition_sound(created@),
            ensures
                verdict(r) == captures(rules@, created@)(row@),
            { rules.capture(created, row) };
        let rows = match attempt_each(captured, capture, Ghost(captures(rules@, created@))) {
            Err(error) => {
                return Err(error);
            },
            Ok(rows) => rows,
        };
        let set = RowSet { rules, rows };
        match set.validate_against_catalog(catalog, created) {
            Err(error) => Err(error),
            Ok(()) => Ok(Some(set)),
        }
    }
}

} // verus!
