//! The rebuild of a table whose columns SQLite holds otherwise than the catalog,
//! and what is saved before a column is dropped.

use super::operation::{AlterTableDelta, AlterTableOperation, AlterView, DeltaView};
use super::steps::{before_fault, binds_alike};
use crate::catalog::{
    current_column_name, current_name, plain_names, CatalogEntryView, CatalogSnapshot,
};
use crate::codec::views;
use crate::each::{alike, are_alike, each};
use crate::error::{list_verdict, refusal, Error, ErrorView, Result};
use crate::identity::{hex_text, simple_text};
use crate::logical::schema::definition::{column_ids, definition_sound, CreateTable, TableView};
use crate::logical::schema::table::primary_ids;
use crate::name::fold_bytes;
use crate::bytes::same_bytes;
use crate::sqlite::{list_texts, listed, quote_identifier, quoted};
use crate::text::joined;
use vstd::prelude::*;
use vstd::string::*;

verus! {

/// One column as SQLite holds it: its name, and whether it is hidden.
#[derive(Debug, PartialEq, Eq)]
pub struct HeldColumn {
    pub name: String,
    pub hidden: i64,
}

/// A held column as a mathematical value.
#[verifier::ext_equal]
pub struct HeldView {
    pub name: Seq<char>,
    pub hidden: i64,
}

impl View for HeldColumn {
    type V = HeldView;

    open spec fn view(&self) -> HeldView {
        HeldView { name: self.name@, hidden: self.hidden }
    }
}

/// The names of columns that SQLite holds. None of them may be hidden.
pub open spec fn held_names(held: Seq<HeldView>) -> std::result::Result<Seq<Seq<char>>, ErrorView> {
    if exists|i: int| 0 <= i < held.len() && (#[trigger] held[i]).hidden != 0 {
        Err(
            ErrorView::InvalidDatabase("materialized table contains unsupported hidden columns"@),
        )
    } else {
        Ok(held.map_values(|column: HeldView| column.name))
    }
}

/// Whether a table has other columns than it should, or is rebuilt in any case.
pub open spec fn needs_rebuild(force: bool, held: Seq<Seq<char>>, desired: Seq<Seq<char>>) -> bool {
    force || !alike(held, desired, |a: Seq<char>, b: Seq<char>| binds_alike(a, b))
}

/// How to quote a name.
pub open spec fn quoted_name() -> spec_fn(Seq<char>) -> Seq<char> {
    |name: Seq<char>| quoted(name)
}

/// The statements of a rebuild, behind the one that creates the table under its
/// passing name.
#[derive(Debug, PartialEq, Eq)]
pub struct RebuildPlan {
    /// The name that the table is built under.
    pub temporary: String,
    /// What copies the rows.
    pub copy: String,
    /// What puts the new table in the place of the old.
    pub replace: String,
}

/// A rebuild as a mathematical value.
#[verifier::ext_equal]
pub struct RebuildView {
    pub temporary: Seq<char>,
    pub copy: Seq<char>,
    pub replace: Seq<char>,
}

impl View for RebuildPlan {
    type V = RebuildView;

    open spec fn view(&self) -> RebuildView {
        RebuildView { temporary: self.temporary@, copy: self.copy@, replace: self.replace@ }
    }
}

/// The rebuild of a table under a passing name made of an identity.
pub open spec fn rebuild_view(table: Seq<char>, desired: Seq<Seq<char>>, id: Seq<u8>) -> RebuildView {
    let temporary = "__multilite__rebuild_"@ + hex_text(id);
    let copied = listed(desired.map_values(quoted_name()), ", "@);
    RebuildView {
        temporary,
        copy: "INSERT INTO "@ + quoted(temporary) + " ("@ + copied + ") SELECT "@ + copied
            + " FROM "@ + quoted(table),
        replace: "DROP TABLE "@ + quoted(table) + "; ALTER TABLE "@ + quoted(temporary)
            + " RENAME TO "@ + quoted(table),
    }
}

/// How a table is rebuilt, if it has to be.
pub open spec fn rebuild_planned(
    tables: Seq<CatalogEntryView>,
    table: TableView,
    held: Seq<HeldView>,
    force: bool,
    id: Seq<u8>,
) -> std::result::Result<Option<RebuildView>, ErrorView> {
    match current_name(tables, table.table) {
        None => Err(ErrorView::InvalidDatabase("rebuilt table has no current name binding"@)),
        Some(name) => match plain_names(
            tables,
            table.table,
            column_ids(table.columns),
            "schema catalog column has no current name binding"@,
        ) {
            Err(error) => Err(error),
            Ok(desired) => match held_names(held) {
                Err(error) => Err(error),
                Ok(held) => if needs_rebuild(force, held, desired) {
                    Ok(Some(rebuild_view(name, desired, id)))
                } else {
                    Ok(None)
                },
            },
        },
    }
}

/// A plan's result over views.
pub open spec fn rebuild_verdict(r: Result<Option<RebuildPlan>>) -> std::result::Result<
    Option<RebuildView>,
    ErrorView,
> {
    match r {
        Ok(Some(plan)) => Ok(Some(plan@)),
        Ok(None) => Ok(None),
        Err(error) => Err(error@),
    }
}

/// The names of columns that SQLite holds.
pub fn materialized_column_names(held: &[HeldColumn]) -> (r: Result<Vec<String>>)
    ensures
        list_verdict(r) == held_names(views(held@)),
{
    let ghost all = views(held@);
    let ghost name_of = |column: HeldView| column.name;
    let mut names: Vec<String> = Vec::new();
    let mut i: usize = 0;
    while i < held.len()
        invariant
            i <= held@.len(),
            all == views(held@),
            names@.len() == i,
            forall|j: int| 0 <= j < i ==> (#[trigger] all[j]).hidden == 0,
            forall|j: int| 0 <= j < i ==> (#[trigger] names@[j])@ == all[j].name,
        decreases held.len() - i,
    {
        assert(all[i as int] == held@[i as int]@);
        if held[i].hidden != 0 {
            return Err(
                Error::InvalidDatabase("materialized table contains unsupported hidden columns"),
            );
        }
        names.push(held[i].name.clone());
        i += 1;
    }
    assert(views(names@) =~= all.map_values(name_of));
    Ok(names)
}

/// Whether two names bind alike.
fn bind_alike(a: &String, b: &String) -> (r: bool)
    ensures
        r == binds_alike(a@, b@),
{
    let first = fold_bytes(a.as_str().as_bytes());
    let second = fold_bytes(b.as_str().as_bytes());
    same_bytes(first.as_slice(), second.as_slice())
}

/// The rebuild of a table under a passing name made of an identity.
fn plan_rebuild(table: &str, desired: &[String], id: [u8; 16]) -> (r: RebuildPlan)
    ensures
        r@ == rebuild_view(table@, views(desired@), id@),
{
    let temporary = joined("__multilite__rebuild_", simple_text(id).as_str());
    let quote = |name: &String| -> (r: String)
        ensures
            r@ == quoted_name()(name@),
        { quote_identifier(name.as_str()) };
    let quoted_names = each(desired, quote, Ghost(quoted_name()));
    let copied = list_texts(quoted_names.as_slice(), ", ");
    let old = quote_identifier(table);
    let new = quote_identifier(temporary.as_str());
    let mut copy = joined("INSERT INTO ", new.as_str());
    copy.append(" (");
    copy.append(copied.as_str());
    copy.append(") SELECT ");
    copy.append(copied.as_str());
    copy.append(" FROM ");
    copy.append(old.as_str());
    let mut replace = joined("DROP TABLE ", old.as_str());
    replace.append("; ALTER TABLE ");
    replace.append(new.as_str());
    replace.append(" RENAME TO ");
    replace.append(old.as_str());
    RebuildPlan { temporary, copy, replace }
}

/// How a table is rebuilt, if it has to be: its columns are not the ones that the
/// catalog names, or the rebuild is forced. The identity makes the passing name.
pub fn rebuild_table_if_needed(
    catalog: &CatalogSnapshot,
    table: &CreateTable,
    held: &[HeldColumn],
    force: bool,
    id: [u8; 16],
) -> (r: Result<Option<RebuildPlan>>)
    ensures
        rebuild_verdict(r) == rebuild_planned(catalog@, table@, views(held@), force, id@),
{
    let name = match catalog.name_by_id(table.table) {
        None => {
            return Err(Error::InvalidDatabase("rebuilt table has no current name binding"));
        },
        Some(name) => name,
    };
    let columns = table.column_ids();
    let desired = match catalog.column_names(
        table.table,
        columns.as_slice(),
        "schema catalog column has no current name binding",
    ) {
        Err(error) => {
            return Err(error);
        },
        Ok(names) => names,
    };
    let actual = match materialized_column_names(held) {
        Err(error) => {
            return Err(error);
        },
        Ok(names) => names,
    };
    let same = are_alike(
        actual.as_slice(),
        desired.as_slice(),
        bind_alike,
        Ghost(|a: Seq<char>, b: Seq<char>| binds_alike(a, b)),
    );
    if !force && same {
        return Ok(None);
    }
    Ok(Some(plan_rebuild(name.value(), desired.as_slice(), id)))
}

/// Refuse a rebuilt table that breaks a relationship.
pub fn check_rebuilt(violations: bool) -> (r: Result<()>)
    ensures
        refusal(r) == (if violations {
            Some(ErrorView::InvalidDatabase("table rebuild violates a foreign-key relationship"@))
        } else {
            None
        }),
{
    if violations {
        return Err(Error::InvalidDatabase("table rebuild violates a foreign-key relationship"));
    }
    Ok(())
}

/// What the values of a dropped column are saved by.
#[derive(Debug, PartialEq, Eq)]
pub struct ColumnCapture {
    /// The table's name.
    pub table: String,
    /// The names of the primary key's columns.
    pub primary_key: Vec<String>,
    /// The column's name.
    pub column: String,
}

/// What values are saved by as a mathematical value.
#[verifier::ext_equal]
pub struct ColumnCaptureView {
    pub table: Seq<char>,
    pub primary_key: Seq<Seq<char>>,
    pub column: Seq<char>,
}

impl View for ColumnCapture {
    type V = ColumnCaptureView;

    open spec fn view(&self) -> ColumnCaptureView {
        ColumnCaptureView {
            table: self.table@,
            primary_key: views(self.primary_key@),
            column: self.column@,
        }
    }
}

/// What saving values before an alteration starts from. Only the drop of a column
/// loses any.
pub open spec fn column_captured(op: AlterView, tables: Seq<CatalogEntryView>) -> std::result::Result<
    Option<ColumnCaptureView>,
    ErrorView,
> {
    match op.delta {
        DeltaView::DropColumn { column, name, before, .. } => match before_fault(op, tables) {
            Some(error) => Err(error),
            None => match current_name(tables, op.table) {
                None => Err(
                    ErrorView::InvalidDatabase("DROP COLUMN table has no current name binding"@),
                ),
                Some(table) => match current_column_name(tables, op.table, column) {
                    None => Err(
                        ErrorView::InvalidDatabase(
                            "DROP COLUMN column has no current name binding"@,
                        ),
                    ),
                    Some(current) => if !binds_alike(current, name) {
                        Err(
                            ErrorView::InvalidDatabase(
                                "DROP COLUMN repair no longer matches the current column binding"@,
                            ),
                        )
                    } else {
                        match plain_names(
                            tables,
                            before.table,
                            primary_ids(before.columns),
                            "DROP COLUMN primary key has no current name binding"@,
                        ) {
                            Err(error) => Err(error),
                            Ok(primary_key) => Ok(
                                Some(ColumnCaptureView { table, primary_key, column: current }),
                            ),
                        }
                    },
                },
            },
        },
        _ => Ok(None),
    }
}

/// A capture's result over views.
pub open spec fn capture_verdict(r: Result<Option<ColumnCapture>>) -> std::result::Result<
    Option<ColumnCaptureView>,
    ErrorView,
> {
    match r {
        Ok(Some(capture)) => Ok(Some(capture@)),
        Ok(None) => Ok(None),
        Err(error) => Err(error@),
    }
}

/// The names of a table's primary key.
fn primary_key_names(catalog: &CatalogSnapshot, table: &CreateTable) -> (r: Result<Vec<String>>)
    requires
        definition_sound(table@),
    ensures
        list_verdict(r) == plain_names(
            catalog@,
            table@.table,
            primary_ids(table@.columns),
            "DROP COLUMN primary key has no current name binding"@,
        ),
{
    let primary = table.primary_column_ids();
    catalog.column_names(
        table.table,
        primary.as_slice(),
        "DROP COLUMN primary key has no current name binding",
    )
}

impl AlterTableOperation {
    /// How many columns the key of the saved values has, where values are saved.
    pub fn repair_width(&self) -> (r: Option<usize>)
        requires
            self@.delta matches DeltaView::DropColumn { before, .. } ==> definition_sound(before),
        ensures
            match r {
                Some(width) => self@.delta matches DeltaView::DropColumn { before, .. } && width
                    == primary_ids(before.columns).len(),
                None => !(self@.delta is DropColumn),
            },
    {
        match &self.delta {
            AlterTableDelta::DropColumn { before, .. } => {
                let primary = before.primary_column_ids();
                assert(views(primary@).len() == primary@.len());
                Some(primary.len())
            },
            _ => None,
        }
    }

    /// What the values of a dropped column are saved by, before it is dropped.
    pub fn capture_local_repair(&self, catalog: &CatalogSnapshot) -> (r: Result<
        Option<ColumnCapture>,
    >)
        requires
            self@.delta matches DeltaView::DropColumn { before, .. } ==> definition_sound(before),
        ensures
            capture_verdict(r) == column_captured(self@, catalog@),
    {
        match &self.delta {
            AlterTableDelta::DropColumn { column, name, before, .. } => {
                match self.validate_catalog_before(catalog) {
                    Err(error) => {
                        return Err(error);
                    },
                    Ok(_) => {},
                }
                let table = match catalog.name_by_id(self.table) {
                    None => {
                        return Err(
                            Error::InvalidDatabase("DROP COLUMN table has no current name binding"),
                        );
                    },
                    Some(table) => table,
                };
                let current = match catalog.column_name_by_id(self.table, *column) {
                    None => {
                        return Err(
                            Error::InvalidDatabase(
                                "DROP COLUMN column has no current name binding",
                            ),
                        );
                    },
                    Some(current) => current,
                };
                if !current.same_canonical(name) {
                    return Err(
                        Error::InvalidDatabase(
                            "DROP COLUMN repair no longer matches the current column binding",
                        ),
                    );
                }
                match primary_key_names(catalog, before) {
                    Err(error) => Err(error),
                    Ok(primary_key) => Ok(
                        Some(
                            ColumnCapture {
                                table: table.value().to_owned(),
                                primary_key,
                                column: current.value().to_owned(),
                            },
                        ),
                    ),
                }
            },
            _ => Ok(None),
        }
    }
}

} // verus!
