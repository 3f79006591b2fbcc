//! What the drop of a table does to the local database, and what undoes it.

use super::frame::{DropTableOperation, DropTableOperationView};
use super::operation::drop_before_fault;
use crate::catalog::{
    bound_to, entry_of, lemma_kept, other_entry, plain_names, table_by_id, table_named,
    without_table, CatalogEntry, CatalogEntryView, CatalogSnapshot,
};
use crate::codec::views;
use crate::error::{refusal, verdict, Error, ErrorView, Result};
use crate::logical::schema::definition::{column_ids, definition_sound};
use crate::logical::schema::table::primary_ids;
use crate::each::{first, lemma_first};
use crate::name::canonical_bytes;
use crate::sqlite::{quote_identifier, quoted};
use crate::text::joined;
use vstd::prelude::*;
use vstd::string::*;

verus! {

/// The statement that drops a table.
pub open spec fn drop_sql(op: DropTableOperationView) -> Seq<char> {
    "DROP TABLE "@ + quoted(op.source_table)
}

/// What applying a drop runs before the table leaves the catalog.
pub open spec fn drop_applied(op: DropTableOperationView, tables: Seq<CatalogEntryView>) -> std::result::Result<
    Seq<char>,
    ErrorView,
> {
    match drop_before_fault(op, tables) {
        Some(error) => Err(error),
        None => Ok(drop_sql(op)),
    }
}

/// Why a drop is not materialized, given the kind of object that SQLite still
/// holds under the table's name.
pub open spec fn remainder_fault(
    op: DropTableOperationView,
    physical: Option<Seq<char>>,
    tables: Seq<CatalogEntryView>,
) -> Option<ErrorView> {
    if physical is Some || table_by_id(tables, op.before.table) is Some || table_named(
        tables,
        op.source_table,
    ) is Some {
        Some(ErrorView::InvalidDatabase("dropped table remains in SQLite or the schema catalog"@))
    } else {
        None
    }
}

/// Whether a saved entry is that of the dropped table.
pub open spec fn entry_agrees(op: DropTableOperationView, entry: CatalogEntryView) -> bool {
    entry.name == op.source_table && entry.definition == op.before
}

/// What the rows of a dropped table are saved by.
#[derive(Debug, PartialEq, Eq)]
pub struct DropCapture {
    /// The table's name.
    pub table: String,
    /// The names of the primary key's columns.
    pub primary_key: Vec<String>,
    /// The names of all columns.
    pub columns: Vec<String>,
}

/// What rows are saved by as a mathematical value.
#[verifier::ext_equal]
pub struct DropCaptureView {
    pub table: Seq<char>,
    pub primary_key: Seq<Seq<char>>,
    pub columns: Seq<Seq<char>>,
}

impl View for DropCapture {
    type V = DropCaptureView;

    open spec fn view(&self) -> DropCaptureView {
        DropCaptureView {
            table: self.table@,
            primary_key: views(self.primary_key@),
            columns: views(self.columns@),
        }
    }
}

/// The names that the rows of a table are saved and restored by.
pub open spec fn capture_names(
    op: DropTableOperationView,
    tables: Seq<CatalogEntryView>,
    missing: Seq<char>,
) -> std::result::Result<DropCaptureView, ErrorView> {
    match plain_names(tables, op.before.table, primary_ids(op.before.columns), missing) {
        Err(error) => Err(error),
        Ok(primary_key) => match plain_names(
            tables,
            op.before.table,
            column_ids(op.before.columns),
            "schema catalog column has no current name binding"@,
        ) {
            Err(error) => Err(error),
            Ok(columns) => Ok(
                DropCaptureView { table: op.source_table, primary_key, columns },
            ),
        },
    }
}

/// What saving the rows of a table before its drop starts from.
pub open spec fn drop_captured(
    op: DropTableOperationView,
    tables: Seq<CatalogEntryView>,
    entry: CatalogEntryView,
) -> std::result::Result<DropCaptureView, ErrorView> {
    match drop_before_fault(op, tables) {
        Some(error) => Err(error),
        None => if !entry_agrees(op, entry) {
            Err(
                ErrorView::InvalidDatabase(
                    "DROP TABLE repair catalog state contradicts its operation"@,
                ),
            )
        } else {
            capture_names(
                op,
                tables,
                "DROP TABLE primary-key column has no current name binding"@,
            )
        },
    }
}

/// Why a drop cannot be undone, given the entry that was saved of its table.
pub open spec fn restore_fault(
    op: DropTableOperationView,
    tables: Seq<CatalogEntryView>,
    entry: CatalogEntryView,
) -> Option<ErrorView> {
    if table_by_id(tables, op.before.table) is Some || table_named(tables, op.source_table) is Some {
        Some(
            ErrorView::InvalidDatabase(
                "pending DROP TABLE identity or name is already materialized"@,
            ),
        )
    } else if !entry_agrees(op, entry) {
        Some(
            ErrorView::InvalidDatabase(
                "pending DROP TABLE catalog repair contradicts its operation"@,
            ),
        )
    } else {
        None
    }
}

/// Whether a saved entry is that of the dropped table.
fn agrees(op: &DropTableOperation, entry: &CatalogEntry) -> (r: bool)
    ensures
        r == entry_agrees(op@, entry@),
{
    entry.name.same(&op.source_table) && entry.definition.same(&op.before)
}

impl DropTableOperation {
    /// The statement that drops the table, where the catalog is still the one
    /// that the drop starts from. The table then leaves the catalog.
    pub fn apply(&self, catalog: &CatalogSnapshot) -> (r: Result<String>)
        ensures
            verdict(r) == drop_applied(self@, catalog@),
    {
        match self.validate_catalog_before(catalog) {
            Err(error) => Err(error),
            Ok(_) => Ok(
                joined(
                    "DROP TABLE ",
                    quote_identifier(self.source_table.value()).as_str(),
                ),
            ),
        }
    }

    /// Refuse a database that still holds the table.
    pub fn verify_materialized(&self, physical: Option<&str>, catalog: &CatalogSnapshot) -> (r:
        Result<()>)
        ensures
            refusal(r) == remainder_fault(
                self@,
                match physical {
                    Some(kind) => Some(kind@),
                    None => None,
                },
                catalog@,
            ),
    {
        if physical.is_some() || catalog.by_id(self.before.table).is_some() || catalog.by_name(
            self.source_table.value(),
        ).is_some() {
            return Err(
                Error::InvalidDatabase("dropped table remains in SQLite or the schema catalog"),
            );
        }
        Ok(())
    }

    /// How many columns the saved rows have in their key, and how many in all.
    pub fn repair_widths(&self) -> (r: (usize, usize))
        requires
            definition_sound(self@.before),
        ensures
            r.0 == primary_ids(self@.before.columns).len(),
            r.1 == self@.before.columns.len(),
    {
        let primary = self.before.primary_column_ids();
        assert(views(primary@).len() == primary@.len());
        let columns = self.before.column_ids();
        assert(views(columns@).len() == columns@.len());
        (primary.len(), columns.len())
    }

    /// The names that the rows of the table are saved and restored by. The
    /// message is that of a key column without a name.
    fn row_names(&self, catalog: &CatalogSnapshot, missing: &'static str) -> (r: Result<
        DropCapture,
    >)
        requires
            definition_sound(self@.before),
        ensures
            verdict(r) == capture_names(self@, catalog@, missing@),
    {
        let primary = self.before.primary_column_ids();
        let primary_key = match catalog.column_names(
            self.before.table,
            primary.as_slice(),
            missing,
        ) {
            Err(error) => {
                return Err(error);
            },
            Ok(names) => names,
        };
        let all = self.before.column_ids();
        match catalog.column_names(
            self.before.table,
            all.as_slice(),
            "schema catalog column has no current name binding",
        ) {
            Err(error) => Err(error),
            Ok(columns) => Ok(
                DropCapture {
                    table: self.source_table.value().to_owned(),
                    primary_key,
                    columns,
                },
            ),
        }
    }

    /// What the rows of the table are saved by before it is dropped, given the
    /// catalog's entry that is saved with them.
    pub fn capture_local_repair(&self, catalog: &CatalogSnapshot, entry: &CatalogEntry) -> (r:
        Result<DropCapture>)
        ensures
            verdict(r) == drop_captured(self@, catalog@, entry@),
    {
        match self.validate_catalog_before(catalog) {
            Err(error) => {
                return Err(error);
            },
            Ok(_) => {},
        }
        if !agrees(self, entry) {
            return Err(
                Error::InvalidDatabase("DROP TABLE repair catalog state contradicts its operation"),
            );
        }
        match catalog.by_id(self.before.table) {
            Some(current) => {
                assert(definition_sound(current@));
            },
            None => {},
        }
        self.row_names(catalog, "DROP TABLE primary-key column has no current name binding")
    }

    /// Refuse to undo the drop of a table that is there, or from another table's
    /// entry.
    pub fn check_rollback(&self, catalog: &CatalogSnapshot, entry: &CatalogEntry) -> (r: Result<()>)
        ensures
            refusal(r) == restore_fault(self@, catalog@, entry@),
    {
        if catalog.by_id(self.before.table).is_some() || catalog.by_name(
            self.source_table.value(),
        ).is_some() {
            return Err(
                Error::InvalidDatabase(
                    "pending DROP TABLE identity or name is already materialized",
                ),
            );
        }
        if !agrees(self, entry) {
            return Err(
                Error::InvalidDatabase(
                    "pending DROP TABLE catalog repair contradicts its operation",
                ),
            );
        }
        Ok(())
    }

    /// The names that the rows of the table are restored by, once its entry is
    /// back in the catalog.
    pub fn restored_names(&self, catalog: &CatalogSnapshot) -> (r: Result<DropCapture>)
        requires
            definition_sound(self@.before),
        ensures
            verdict(r) == capture_names(
                self@,
                catalog@,
                "restored DROP TABLE primary-key column has no name binding"@,
            ),
    {
        self.row_names(catalog, "restored DROP TABLE primary-key column has no name binding")
    }
}

/// Refuse restored rows that break a relationship.
pub fn check_violations(violations: bool) -> (r: Result<()>)
    ensures
        refusal(r) == (if violations {
            Some(ErrorView::InvalidDatabase("DROP TABLE repair violates foreign-key integrity"@))
        } else {
            None
        }),
{
    if violations {
        return Err(Error::InvalidDatabase("DROP TABLE repair violates foreign-key integrity"));
    }
    Ok(())
}

/// Nothing is found of a table that left the catalog.
proof fn lemma_gone(tables: Seq<CatalogEntryView>, table: Seq<u8>, test: spec_fn(CatalogEntryView) -> bool)
    requires
        forall|i: int|
            0 <= i < tables.len() && tables[i].definition.table != table ==> !test(
                #[trigger] tables[i],
            ),
    ensures
        first(without_table(tables, table), test) is None,
{
    broadcast use vstd::seq_lib::group_filter_ensures;

    let kept = without_table(tables, table);
    assert forall|i: int| 0 <= i < kept.len() implies !test(#[trigger] kept[i]) by {
        lemma_kept(tables, other_entry(table), i);
        assert(other_entry(table)(kept[i]));
    }
    lemma_first(kept, test);
    if let Some(item) = first(kept, test) {
        let i = choose|i: int| 0 <= i < kept.len() && kept[i] == item;
        assert(!test(kept[i]));
    }
}

/// A dropped table is found no longer, by its identity or by its name, and its
/// drop can be undone from the entry that it had.
pub proof fn dropped_tables_leave_the_catalog(
    op: DropTableOperationView,
    tables: Seq<CatalogEntryView>,
    entry: CatalogEntryView,
)
    requires
        drop_before_fault(op, tables) is None,
        entry_agrees(op, entry),
        forall|i: int|
            0 <= i < tables.len() && canonical_bytes((#[trigger] tables[i]).name)
                == canonical_bytes(op.source_table) ==> tables[i].definition.table
                == op.before.table,
    ensures
        remainder_fault(op, None, without_table(tables, op.before.table)) is None,
        restore_fault(op, without_table(tables, op.before.table), entry) is None,
{
    let table = op.before.table;
    lemma_gone(tables, table, entry_of(table));
    lemma_gone(tables, table, bound_to(op.source_table));
}

} // verus!
