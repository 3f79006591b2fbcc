//! Laws on the preparation of a table's drop: when a table can be dropped, and
//! what its rows are saved by.

use super::frame::DropTableOperationView;
use super::operation::{drop_fault, dropped_table};
use super::steps::{capture_names, drop_applied, drop_captured, drop_sql, restore_fault};
use crate::attempt::lemma_try_map_ok;
use crate::bindings::lookups_find_what_is_bound;
use crate::catalog::{
    current_column_name, current_name, incoming_of, plain_name, table_by_id, table_named,
    CatalogEntryView,
};
use crate::error::ErrorView;
use crate::logical::row::ownership::incoming_references_are_all_there;
use crate::logical::schema::definition::{column_ids, definition_sound};
use crate::logical::schema::statement::{
    statement_of, DropTableView, ParsedTexts, StatementView,
};
use crate::logical::schema::table::primary_ids;
use crate::logical::view::reads::{reads_other_tables, referenced_tables_are_refused};
use crate::name::canonical_bytes;
use crate::sqlite::{quoted, quoting_is_injective};
use vstd::prelude::*;

verus! {

/// Whether no table of a catalog has a foreign key that refers to a table.
pub open spec fn unreferenced(tables: Seq<CatalogEntryView>, table: Seq<u8>) -> bool {
    forall|t: int, k: int|
        0 <= t < tables.len() && 0 <= k < tables[t].definition.foreign_keys.len() ==> (
        #[trigger] tables[t].definition.foreign_keys[k]).referenced_table != table
}

/// No foreign key comes in exactly where no table refers.
proof fn lemma_unreferenced(tables: Seq<CatalogEntryView>, table: Seq<u8>)
    ensures
        incoming_of(tables, table).len() == 0 <==> unreferenced(tables, table),
{
    let found = incoming_of(tables, table);
    incoming_references_are_all_there(tables, table);
    if found.len() > 0 {
        let t = choose|t: int|
            0 <= t < tables.len() && (#[trigger] tables[t]).definition == found[0].0
                && tables[t].definition.foreign_keys.contains(found[0].1);
        assert(found[0].1.referenced_table == table);
        let keys = tables[t].definition.foreign_keys;
        let k = choose|k: int| 0 <= k < keys.len() && keys[k] == found[0].1;
        assert(tables[t].definition.foreign_keys[k].referenced_table == table);
    } else {
        assert forall|t: int, k: int|
            0 <= t < tables.len() && 0 <= k < tables[t].definition.foreign_keys.len() implies (
        #[trigger] tables[t].definition.foreign_keys[k]).referenced_table != table by {
            if tables[t].definition.foreign_keys[k].referenced_table == table {
                assert(found.contains(
                    (tables[t].definition, tables[t].definition.foreign_keys[k]),
                ));
            }
        }
    }
}

/// A drop is prepared for the table that the name binds, under the name that the
/// table has now, and keeps the statement; it is refused where the name binds
/// none, where a foreign key refers to the table, or where a stored view reads
/// it.
pub proof fn dropped_tables_are_free_of_references(
    mutation: Seq<u8>,
    tables: Seq<CatalogEntryView>,
    stored: Seq<Seq<char>>,
    parsed: ParsedTexts,
    sql: Seq<char>,
    spec: DropTableView,
)
    ensures
        dropped_table(mutation, tables, stored, parsed, sql, spec) matches Ok(op) ==> {
            &&& op.mutation_id == mutation
            &&& op.sql == sql
            &&& table_named(tables, spec.name) == Some(op.before)
            &&& current_name(tables, op.before.table) == Some(op.source_table)
            &&& canonical_bytes(op.source_table) == canonical_bytes(spec.name)
            &&& unreferenced(tables, op.before.table)
            &&& forall|i: int|
                0 <= i < stored.len() ==> reads_other_tables(
                    parsed,
                    #[trigger] stored[i],
                    op.source_table,
                )
        },
        table_named(tables, spec.name) is None ==> dropped_table(
            mutation,
            tables,
            stored,
            parsed,
            sql,
            spec,
        ) is Err,
{
    if let Ok(op) = dropped_table(mutation, tables, stored, parsed, sql, spec) {
        lemma_unreferenced(tables, op.before.table);
        referenced_tables_are_refused(stored, parsed, op.source_table);
    }
}

/// A drop is applied, and its rows are saved, only while the catalog holds the
/// table as it was, under the name it had, with no foreign key that refers to
/// it. What is run names this table and no other.
pub proof fn drops_are_applied_to_what_they_saw(
    op: DropTableOperationView,
    other: DropTableOperationView,
    tables: Seq<CatalogEntryView>,
)
    ensures
        drop_applied(op, tables) is Ok <==> {
            &&& table_by_id(tables, op.before.table) == Some(op.before)
            &&& current_name(tables, op.before.table) == Some(op.source_table)
            &&& unreferenced(tables, op.before.table)
        },
        drop_sql(op) == drop_sql(other) <==> op.source_table == other.source_table,
{
    lemma_unreferenced(tables, op.before.table);
    let a = drop_sql(op);
    let b = drop_sql(other);
    let head = "DROP TABLE "@;
    if a == b {
        assert(a.subrange(head.len() as int, a.len() as int) =~= quoted(op.source_table));
        assert(b.subrange(head.len() as int, b.len() as int) =~= quoted(other.source_table));
        quoting_is_injective(op.source_table, other.source_table);
    }
}

/// The rows of a dropped table are saved by the names that its columns have now:
/// first those of the primary key in its order, then those of all columns.
pub proof fn dropped_rows_are_saved_by_current_names(
    op: DropTableOperationView,
    tables: Seq<CatalogEntryView>,
    entry: CatalogEntryView,
    missing: Seq<char>,
)
    ensures
        capture_names(op, tables, missing) matches Ok(names) ==> {
            &&& names.table == op.source_table
            &&& names.primary_key.len() == primary_ids(op.before.columns).len()
            &&& forall|i: int|
                0 <= i < names.primary_key.len() ==> current_column_name(
                    tables,
                    op.before.table,
                    primary_ids(op.before.columns)[i],
                ) == Some(#[trigger] names.primary_key[i])
            &&& names.columns.len() == op.before.columns.len()
            &&& forall|i: int|
                0 <= i < names.columns.len() ==> current_column_name(
                    tables,
                    op.before.table,
                    op.before.columns[i].id,
                ) == Some(#[trigger] names.columns[i])
        },
        drop_captured(op, tables, entry) is Ok ==> drop_applied(op, tables) is Ok && entry.name
            == op.source_table && entry.definition == op.before,
{
    if let Ok(names) = capture_names(op, tables, missing) {
        let f = plain_name(tables, op.before.table, missing);
        let g = plain_name(
            tables,
            op.before.table,
            "schema catalog column has no current name binding"@,
        );
        let primary = primary_ids(op.before.columns);
        let all = column_ids(op.before.columns);
        lemma_try_map_ok(primary, f);
        lemma_try_map_ok(all, g);
        assert forall|i: int| 0 <= i < names.primary_key.len() implies current_column_name(
            tables,
            op.before.table,
            primary[i],
        ) == Some(#[trigger] names.primary_key[i]) by {
            assert(f(primary[i]) == Ok::<Seq<char>, ErrorView>(names.primary_key[i]));
        }
        assert forall|i: int| 0 <= i < names.columns.len() implies current_column_name(
            tables,
            op.before.table,
            op.before.columns[i].id,
        ) == Some(#[trigger] names.columns[i]) by {
            assert(g(all[i]) == Ok::<Seq<char>, ErrorView>(names.columns[i]));
        }
    }
}

/// A dropped table comes back only where neither its identity nor its name is
/// bound, and only as what it was.
pub proof fn dropped_tables_come_back_as_they_were(
    op: DropTableOperationView,
    tables: Seq<CatalogEntryView>,
    entry: CatalogEntryView,
)
    ensures
        restore_fault(op, tables, entry) is None <==> {
            &&& entry.name == op.source_table
            &&& entry.definition == op.before
            &&& forall|i: int|
                0 <= i < tables.len() ==> (#[trigger] tables[i]).definition.table
                    != op.before.table && canonical_bytes(tables[i].name) != canonical_bytes(
                    op.source_table,
                )
        },
{
    lookups_find_what_is_bound(tables, op.source_table, op.before.table);
}

/// A drop that its statement bears out is that of a DROP TABLE whose name is the
/// table's but for case, and of a sound definition; any other is refused.
pub proof fn borne_out_drops_name_their_table(op: DropTableOperationView, parsed: ParsedTexts)
    ensures
        drop_fault(op, statement_of(parsed, op.sql)) is None <==> {
            &&& definition_sound(op.before)
            &&& match statement_of(parsed, op.sql) {
                Some(StatementView::DropTable(said)) => canonical_bytes(said.name)
                    == canonical_bytes(op.source_table),
                Some(StatementView::DropTableIfExists(said)) => canonical_bytes(said.name)
                    == canonical_bytes(op.source_table),
                _ => false,
            }
        },
{
}

} // verus!
