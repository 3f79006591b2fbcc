//! Laws on the preparation of alterations and on the catalog after them.

use super::operation::{alter_fault, AlterView, DeltaView};
use super::prepare::{
    added_column, dropped_column, refers_to_column, renamed_column, renamed_table,
};
use super::rebuild::{column_captured, held_names, rebuild_planned, HeldView};
use super::record::{
    bound_ids, changed, fold_removed, landing, lemma_landing, merged_columns, other_binding,
    performed, rebound,
};
use super::steps::{
    apply_plan, binds_alike, change_steps, record_change, rollback_change, rollback_plan, rollback_steps,
    AlterStepView, CatalogChangeView,
};
use crate::attempt::{lemma_try_map_ok, try_map};
use crate::catalog::{
    binding_of, column_named, current_column_name, current_name, entry_by_id, incoming_of,
    lemma_kept, plain_name, table_by_id, table_named, BindingView, CatalogEntryView,
};
use crate::each::{alike, first, lemma_first};
use crate::error::ErrorView;
use crate::identity::{hex_text, hexadecimal_texts_differ};
use crate::logical::row::ownership::incoming_references_are_all_there;
use crate::logical::schema::columns::removed_columns_leave_the_others;
use crate::logical::schema::definition::{column_ids, CheckView, ColumnView, TableView};
use crate::logical::schema::error::SchemaCodecError;
use crate::logical::schema::evolve::{other_check, other_column, with_column, without_column};
use crate::logical::schema::statement::{
    statement_of, AddColumnView, DropColumnView, ParsedTexts, RenameColumnView, RenameTableView,
    StatementView,
};
use crate::logical::schema::table::{column_by_id, identified, primary_ids};
use crate::name::canonical_bytes;
use vstd::prelude::*;

verus! {

/// The rename of a table is prepared for the table that the old name binds, and
/// refused where it binds none or the new name is taken.
pub proof fn renamed_tables_take_a_free_name(
    mutation: Seq<u8>,
    tables: Seq<CatalogEntryView>,
    parsed: ParsedTexts,
    sql: Seq<char>,
    spec: RenameTableView,
)
    ensures
        renamed_table(mutation, tables, parsed, sql, spec) matches Ok(op) ==> {
            &&& table_named(tables, spec.table) is Some
            &&& table_named(tables, spec.new_name) is None
            &&& op.mutation_id == mutation
            &&& op.sql == sql
            &&& op.table == table_named(tables, spec.table)->Some_0.table
            &&& op.schema_revision == table_named(tables, spec.table)->Some_0.schema_revision
            &&& op.delta == (DeltaView::RenameTable {
                old_name: spec.table,
                new_name: spec.new_name,
            })
        },
{
}

/// The rename of a column is prepared for the column that the old name binds in
/// the table that the statement names, and refused where there is none or the
/// new name is taken.
pub proof fn renamed_columns_take_a_free_name(
    mutation: Seq<u8>,
    tables: Seq<CatalogEntryView>,
    parsed: ParsedTexts,
    sql: Seq<char>,
    spec: RenameColumnView,
)
    ensures
        renamed_column(mutation, tables, parsed, sql, spec) matches Ok(op) ==> {
            &&& table_named(tables, spec.table) matches Some(table) && op.table == table.table
            &&& column_named(tables, op.table, spec.new_name) is None
            &&& op.mutation_id == mutation
            &&& op.sql == sql
            &&& op.delta is RenameColumn
            &&& column_named(tables, op.table, spec.old_name) == Some(
                op.delta->RenameColumn_column,
            )
            &&& op.delta->RenameColumn_old_name == spec.old_name
            &&& op.delta->RenameColumn_new_name == spec.new_name
        },
{
}

/// An added column is prepared for the table that the statement names, behind
/// its last column, under a name that is free there.
pub proof fn added_columns_take_a_free_name(
    mutation: Seq<u8>,
    column: Seq<u8>,
    tables: Seq<CatalogEntryView>,
    parsed: ParsedTexts,
    sql: Seq<char>,
    spec: AddColumnView,
)
    ensures
        added_column(mutation, column, tables, parsed, sql, spec) matches Ok(op) ==> {
            &&& op.delta is AddColumn
            &&& table_named(tables, spec.table) == Some(op.delta->AddColumn_before)
            &&& op.table == op.delta->AddColumn_before.table
            &&& column_named(tables, op.table, spec.column.name) is None
            &&& op.mutation_id == mutation
            &&& op.sql == sql
            &&& op.delta->AddColumn_column == column
            &&& op.delta->AddColumn_name == spec.column.name
            &&& op.delta->AddColumn_predecessor == op.delta->AddColumn_before.columns.last().id
            &&& with_column(
                op.delta->AddColumn_before,
                column,
                spec.column,
                spec.checks,
            ) == Ok::<TableView, SchemaCodecError>(op.delta->AddColumn_after)
        },
{
}

/// A dropped column is prepared for the column that the name binds in the table
/// that the statement names, and refused where a foreign key of a table refers
/// to that column.
pub proof fn dropped_columns_are_free_of_references(
    mutation: Seq<u8>,
    tables: Seq<CatalogEntryView>,
    parsed: ParsedTexts,
    sql: Seq<char>,
    spec: DropColumnView,
)
    ensures
        dropped_column(mutation, tables, parsed, sql, spec) matches Ok(op) ==> {
            &&& op.delta is DropColumn
            &&& table_named(tables, spec.table) == Some(op.delta->DropColumn_before)
            &&& op.table == op.delta->DropColumn_before.table
            &&& op.mutation_id == mutation
            &&& op.sql == sql
            &&& column_named(tables, op.table, spec.column) == Some(op.delta->DropColumn_column)
            &&& op.delta->DropColumn_name == spec.column
            &&& without_column(
                op.delta->DropColumn_before,
                op.delta->DropColumn_column,
            ) == Ok::<TableView, SchemaCodecError>(op.delta->DropColumn_after)
            &&& forall|t: int, k: int|
                0 <= t < tables.len() && 0 <= k < tables[t].definition.foreign_keys.len() && (
                #[trigger] tables[t].definition.foreign_keys[k]).referenced_table == op.table
                    ==> !tables[t].definition.foreign_keys[k].referenced_columns.contains(
                    op.delta->DropColumn_column,
                )
        },
{
    if let Ok(op) = dropped_column(mutation, tables, parsed, sql, spec) {
        let found = incoming_of(tables, op.table);
        let column = op.delta->DropColumn_column;
        incoming_references_are_all_there(tables, op.table);
        assert forall|t: int, k: int|
            0 <= t < tables.len() && 0 <= k < tables[t].definition.foreign_keys.len() && (
            #[trigger] tables[t].definition.foreign_keys[k]).referenced_table == op.table implies
            !tables[t].definition.foreign_keys[k].referenced_columns.contains(column) by {
            let pair = (tables[t].definition, tables[t].definition.foreign_keys[k]);
            assert(found.contains(pair));
            let i = choose|i: int| 0 <= i < found.len() && found[i] == pair;
            assert(!refers_to_column(column)(found[i]));
        }
    }
}

/// The entry of a table after a change of it, and of the other tables.
proof fn lemma_performed(
    tables: Seq<CatalogEntryView>,
    table: Seq<u8>,
    change: CatalogChangeView,
    other: Seq<u8>,
)
    ensures
        entry_by_id(performed(tables, table, change), other) == (match entry_by_id(tables, other) {
            Some(entry) => Some(
                if other == table {
                    changed(entry, change)
                } else {
                    entry
                },
            ),
            None => None,
        }),
    decreases tables.len(),
{
    let after = performed(tables, table, change);
    if tables.len() > 0 {
        let rest = tables.drop_first();
        lemma_performed(rest, table, change, other);
        assert(after.drop_first() =~= performed(rest, table, change));
        assert(changed(tables[0], change).definition.table == tables[0].definition.table);
    }
}

/// A name that is looked up in other bindings of the same columns.
proof fn lemma_rebound(bindings: Seq<BindingView>, column: Seq<u8>, name: Seq<char>, other: Seq<u8>)
    ensures
        first(bindings.map_values(rebound(column, name)), binding_of(other)) == (match first(
            bindings,
            binding_of(other),
        ) {
            Some(binding) => Some(
                if other == column {
                    BindingView { name, ..binding }
                } else {
                    binding
                },
            ),
            None => None,
        }),
    decreases bindings.len(),
{
    if bindings.len() > 0 {
        let rest = bindings.drop_first();
        lemma_rebound(rest, column, name, other);
        assert(bindings.map_values(rebound(column, name)).drop_first() =~= rest.map_values(
            rebound(column, name),
        ));
    }
}

/// A renamed table has its new name in the catalog and is otherwise as it was,
/// and so is every other table.
pub proof fn renamed_tables_have_their_new_name(
    tables: Seq<CatalogEntryView>,
    op: AlterView,
    other: Seq<u8>,
)
    requires
        op.delta is RenameTable,
        table_by_id(tables, op.table) is Some,
    ensures
        ({
            let after = performed(tables, op.table, record_change(op.delta));
            &&& after.len() == tables.len()
            &&& current_name(after, op.table) == Some(op.delta->RenameTable_new_name)
            &&& table_by_id(after, op.table) == table_by_id(tables, op.table)
            &&& other != op.table ==> entry_by_id(after, other) == entry_by_id(tables, other)
        }),
{
    lemma_performed(tables, op.table, record_change(op.delta), op.table);
    lemma_performed(tables, op.table, record_change(op.delta), other);
}

/// A renamed column has its new name in the catalog; every other column, and
/// every other table, has the name it had.
pub proof fn renamed_columns_have_their_new_name(
    tables: Seq<CatalogEntryView>,
    op: AlterView,
    column: Seq<u8>,
    other: Seq<u8>,
)
    requires
        op.delta is RenameColumn,
        current_column_name(tables, op.table, op.delta->RenameColumn_column) is Some,
    ensures
        ({
            let after = performed(tables, op.table, record_change(op.delta));
            &&& current_column_name(after, op.table, op.delta->RenameColumn_column) == Some(
                op.delta->RenameColumn_new_name,
            )
            &&& column != op.delta->RenameColumn_column ==> current_column_name(
                after,
                op.table,
                column,
            ) == current_column_name(tables, op.table, column)
            &&& current_name(after, op.table) == current_name(tables, op.table)
            &&& other != op.table ==> entry_by_id(after, other) == entry_by_id(tables, other)
        }),
{
    let renamed = op.delta->RenameColumn_column;
    let name = op.delta->RenameColumn_new_name;
    lemma_performed(tables, op.table, record_change(op.delta), op.table);
    lemma_performed(tables, op.table, record_change(op.delta), other);
    let entry = entry_by_id(tables, op.table)->Some_0;
    lemma_rebound(entry.bindings, renamed, name, renamed);
    lemma_rebound(entry.bindings, renamed, name, column);
}

/// A binding that joins others where its column is new.
proof fn lemma_joined(bindings: Seq<BindingView>, at: int, binding: BindingView, other: Seq<u8>)
    requires
        0 <= at <= bindings.len(),
        first(bindings, binding_of(binding.column)) is None,
    ensures
        first(bindings.insert(at, binding), binding_of(other)) == (if other == binding.column {
            Some(binding)
        } else {
            first(bindings, binding_of(other))
        }),
    decreases at,
{
    let more = bindings.insert(at, binding);
    lemma_first(bindings, binding_of(binding.column));
    if at == 0 {
        assert(more.drop_first() =~= bindings);
        assert(more[0] == binding);
    } else {
        let rest = bindings.drop_first();
        lemma_joined(rest, at - 1, binding, other);
        assert(more[0] == bindings[0]);
        assert(more.drop_first() =~= rest.insert(at - 1, binding));
        assert(!binding_of(binding.column)(bindings[0]));
    }
}

/// A column that is added, or comes back, is found under its name; every other
/// column, and every other table, has the name it had.
pub proof fn inserted_columns_have_their_name(
    tables: Seq<CatalogEntryView>,
    table: Seq<u8>,
    column: Seq<u8>,
    name: Seq<char>,
    source: TableView,
    sibling: Seq<u8>,
    other: Seq<u8>,
)
    requires
        table_by_id(tables, table) is Some,
        current_column_name(tables, table, column) is None,
    ensures
        ({
            let after = performed(
                tables,
                table,
                CatalogChangeView::InsertColumn { column, name, source },
            );
            &&& current_column_name(after, table, column) == Some(name)
            &&& sibling != column ==> current_column_name(after, table, sibling)
                == current_column_name(tables, table, sibling)
            &&& current_name(after, table) == current_name(tables, table)
            &&& other != table ==> entry_by_id(after, other) == entry_by_id(tables, other)
        }),
{
    let change = CatalogChangeView::InsertColumn { column, name, source };
    let entry = entry_by_id(tables, table)->Some_0;
    let at = landing(
        bound_ids(entry.bindings),
        column_ids(source.columns),
        column,
    );
    let binding = BindingView { column, name };
    lemma_performed(tables, table, change, table);
    lemma_performed(tables, table, change, other);
    lemma_landing(
        bound_ids(entry.bindings),
        column_ids(source.columns),
        column,
    );
    lemma_joined(entry.bindings, at, binding, column);
    lemma_joined(entry.bindings, at, binding, sibling);
}

/// Bindings without a column's still bind the others.
proof fn lemma_unbound(bindings: Seq<BindingView>, column: Seq<u8>, other: Seq<u8>)
    ensures
        first(bindings.filter(other_binding(column)), binding_of(other)) == (if other == column {
            None
        } else {
            first(bindings, binding_of(other))
        }),
    decreases bindings.len(),
{
    let kept = bindings.filter(other_binding(column));
    lemma_first(kept, binding_of(other));
    lemma_first(bindings, binding_of(other));
    if bindings.len() > 0 {
        let rest = bindings.drop_first();
        lemma_unbound(rest, column, other);
        lemma_filter_first(bindings, other_binding(column));
        let rest_kept = rest.filter(other_binding(column));
        if other_binding(column)(bindings[0]) {
            assert(kept == seq![bindings[0]] + rest_kept);
            assert(kept.drop_first() =~= rest_kept);
        }
    } else {
        reveal(Seq::filter);
    }
}

/// A filter keeps or drops the first item and filters the rest.
proof fn lemma_filter_first<V>(items: Seq<V>, test: spec_fn(V) -> bool)
    requires
        items.len() > 0,
    ensures
        items.filter(test) == (if test(items[0]) {
            seq![items[0]] + items.drop_first().filter(test)
        } else {
            items.drop_first().filter(test)
        }),
    decreases items.len(),
{
    reveal(Seq::filter);
    let rest = items.drop_first();
    if items.len() == 1 {
        assert(rest =~= Seq::<V>::empty());
        assert(items.drop_last() =~= Seq::<V>::empty());
        assert(items.last() == items[0]);
        assert(items.drop_last().filter(test) =~= Seq::<V>::empty());
        assert(rest.filter(test) =~= Seq::<V>::empty());
        if test(items[0]) {
            assert(items.filter(test) =~= seq![items[0]] + rest.filter(test));
        }
    } else {
        let init = items.drop_last();
        lemma_filter_first(init, test);
        assert(init.drop_first() =~= rest.drop_last());
        assert(rest.last() == items.last());
        assert(items.filter(test) =~= (if test(items[0]) {
            seq![items[0]] + rest.filter(test)
        } else {
            rest.filter(test)
        }));
    }
}

/// A column that is removed has no name in the catalog; every other column, and
/// every other table, has the name it had.
pub proof fn removed_columns_have_no_name(
    tables: Seq<CatalogEntryView>,
    table: Seq<u8>,
    column: Seq<u8>,
    sibling: Seq<u8>,
    other: Seq<u8>,
)
    ensures
        ({
            let after = performed(tables, table, CatalogChangeView::RemoveColumn { column });
            &&& current_column_name(after, table, column) is None
            &&& sibling != column ==> current_column_name(after, table, sibling)
                == current_column_name(tables, table, sibling)
            &&& current_name(after, table) == current_name(tables, table)
            &&& other != table ==> entry_by_id(after, other) == entry_by_id(tables, other)
        }),
{
    let change = CatalogChangeView::RemoveColumn { column };
    lemma_performed(tables, table, change, table);
    lemma_performed(tables, table, change, other);
    if let Some(entry) = entry_by_id(tables, table) {
        lemma_unbound(entry.bindings, column, column);
        lemma_unbound(entry.bindings, column, sibling);
    }
}

/// An added column is recorded as one that is inserted and a dropped one as one
/// that is removed, and each is undone as the other.
pub proof fn column_changes_undo_each_other(added: AlterView, dropped: AlterView)
    requires
        added.delta is AddColumn,
        dropped.delta is DropColumn,
        added.delta->AddColumn_column == dropped.delta->DropColumn_column,
        added.delta->AddColumn_name == dropped.delta->DropColumn_name,
        added.delta->AddColumn_after == dropped.delta->DropColumn_before,
    ensures
        record_change(added.delta) is InsertColumn,
        record_change(dropped.delta) is RemoveColumn,
        record_change(added.delta) == rollback_change(dropped.delta),
        record_change(dropped.delta) == rollback_change(added.delta),
{
}

/// What undoes a rename is what the opposite rename does: the same statement is
/// run and the same change is recorded.
pub proof fn renames_undo_each_other(there: AlterView, back: AlterView, table: Seq<char>)
    requires
        match (there.delta, back.delta) {
            (
                DeltaView::RenameTable { old_name, new_name },
                DeltaView::RenameTable { old_name: from, new_name: to },
            ) => old_name == to && new_name == from,
            (
                DeltaView::RenameColumn { column, old_name, new_name },
                DeltaView::RenameColumn { column: other, old_name: from, new_name: to },
            ) => column == other && old_name == to && new_name == from,
            _ => false,
        },
    ensures
        rollback_change(there.delta) == record_change(back.delta),
        rollback_steps(there, table)[0] == change_steps(back.delta, table)[0],
        rollback_steps(there, table)[1] == AlterStepView::Catalog(record_change(back.delta)),
{
}

/// Where a plan to apply an alteration or to undo it can be made, the catalog is
/// the one that the alteration starts from or ends in: a rename finds the old
/// name bound to it and the new one free, or the other way round; an added
/// column is not there yet, or is there under its name; a dropped one is there
/// under its name, or is gone.
pub proof fn plans_fit_the_catalog(op: AlterView, parsed: ParsedTexts, tables: Seq<CatalogEntryView>)
    ensures
        apply_plan(op, parsed, tables) is Ok ==> match op.delta {
            DeltaView::RenameTable { old_name, new_name } => current_name(
                tables,
                op.table,
            ) matches Some(name) && canonical_bytes(name) == canonical_bytes(old_name)
                && table_named(tables, new_name) is None,
            DeltaView::RenameColumn { column, old_name, new_name } => current_column_name(
                tables,
                op.table,
                column,
            ) matches Some(name) && canonical_bytes(name) == canonical_bytes(old_name)
                && column_named(tables, op.table, new_name) is None,
            DeltaView::AddColumn { column, name, .. } => current_column_name(
                tables,
                op.table,
                column,
            ) is None && column_named(tables, op.table, name) is None,
            DeltaView::DropColumn { column, name, .. } => current_column_name(
                tables,
                op.table,
                column,
            ) matches Some(bound) && canonical_bytes(bound) == canonical_bytes(name),
        },
        rollback_plan(op, parsed, tables) is Ok ==> match op.delta {
            DeltaView::RenameTable { old_name, new_name } => current_name(
                tables,
                op.table,
            ) matches Some(name) && canonical_bytes(name) == canonical_bytes(new_name)
                && table_named(tables, old_name) is None,
            DeltaView::RenameColumn { column, old_name, new_name } => current_column_name(
                tables,
                op.table,
                column,
            ) matches Some(name) && canonical_bytes(name) == canonical_bytes(new_name)
                && column_named(tables, op.table, old_name) is None,
            DeltaView::AddColumn { column, name, .. } => current_column_name(
                tables,
                op.table,
                column,
            ) matches Some(bound) && canonical_bytes(bound) == canonical_bytes(name),
            DeltaView::DropColumn { column, .. } => current_column_name(
                tables,
                op.table,
                column,
            ) is None,
        },
{
}

/// Values are saved only before a column is dropped, by the names that the
/// table, the columns of its primary key and the column have now.
pub proof fn dropped_values_are_saved_by_current_names(
    op: AlterView,
    tables: Seq<CatalogEntryView>,
)
    ensures
        !(op.delta is DropColumn) ==> column_captured(op, tables) matches Ok(None),
        op.delta is DropColumn ==> !(column_captured(op, tables) matches Ok(None)),
        column_captured(op, tables) matches Ok(Some(names)) ==> {
            let ids = primary_ids(op.delta->DropColumn_before.columns);
            &&& current_name(tables, op.table) == Some(names.table)
            &&& current_column_name(tables, op.table, op.delta->DropColumn_column) == Some(
                names.column,
            )
            &&& names.primary_key.len() == ids.len()
            &&& forall|i: int|
                0 <= i < ids.len() ==> current_column_name(
                    tables,
                    op.delta->DropColumn_before.table,
                    ids[i],
                ) == Some(#[trigger] names.primary_key[i])
        },
{
    if let Ok(Some(names)) = column_captured(op, tables) {
        let before = op.delta->DropColumn_before;
        let ids = primary_ids(before.columns);
        let f = plain_name(
            tables,
            before.table,
            "DROP COLUMN primary key has no current name binding"@,
        );
        lemma_try_map_ok(ids, f);
        assert forall|i: int| 0 <= i < ids.len() implies current_column_name(
            tables,
            before.table,
            ids[i],
        ) == Some(#[trigger] names.primary_key[i]) by {
            assert(f(ids[i]) == Ok::<Seq<char>, ErrorView>(names.primary_key[i]));
        }
    }
}

/// A definition that takes a column over from another one has that column as the
/// other one has it, keeps every column that it had, and has no others.
pub proof fn folded_columns_are_taken_over(
    columns: Seq<ColumnView>,
    source: Seq<ColumnView>,
    id: Seq<u8>,
    column: ColumnView,
)
    requires
        column_by_id(source, id) is Some,
        column_ids(source).no_duplicates(),
        column_by_id(columns, id) is None,
    ensures
        merged_columns(columns, source, id).contains(column) <==> columns.contains(column)
            || column == column_by_id(source, id)->Some_0,
{
    broadcast use vstd::seq_lib::group_filter_ensures;

    let all = merged_columns(columns, source, id);
    let added = column_by_id(source, id)->Some_0;
    lemma_first(source, identified(id));
    let s = choose|s: int| 0 <= s < source.len() && source[s] == added;
    if columns == source.filter(other_column(id)) {
        if source.contains(column) {
            let k = choose|k: int| 0 <= k < source.len() && source[k] == column;
            if column.id == id {
                assert(column_ids(source)[k] == column_ids(source)[s]);
            } else {
                assert(other_column(id)(source[k]));
                assert(columns.contains(source[k]));
            }
        }
        if columns.contains(column) {
            let k = choose|k: int| 0 <= k < columns.len() && columns[k] == column;
            lemma_kept(source, other_column(id), k);
        }
    } else {
        let at = landing(column_ids(columns), column_ids(source), id);
        lemma_landing(column_ids(columns), column_ids(source), id);
        assert(all[at] == added);
        if columns.contains(column) {
            let k = choose|k: int| 0 <= k < columns.len() && columns[k] == column;
            if k < at {
                assert(all[k] == column);
            } else {
                assert(all[k + 1] == column);
            }
        }
        if all.contains(column) {
            let k = choose|k: int| 0 <= k < all.len() && all[k] == column;
            if k < at {
                assert(columns[k] == column);
            } else if k > at {
                assert(columns[k - 1] == column);
            }
        }
    }
}

/// A definition that a column was removed from has every other column and every
/// CHECK that did not come with it, and nothing else.
pub proof fn removed_columns_leave_the_definition(
    table: TableView,
    id: Seq<u8>,
    column: ColumnView,
    check: CheckView,
)
    ensures
        fold_removed(table, id).columns.contains(column) <==> table.columns.contains(column)
            && column.id != id,
        fold_removed(table, id).checks.contains(check) <==> table.checks.contains(check)
            && check.owner != Some(id),
{
    broadcast use vstd::seq_lib::group_filter_ensures;

    let after = fold_removed(table, id);
    if after.columns.contains(column) {
        let k = choose|k: int| 0 <= k < after.columns.len() && after.columns[k] == column;
        lemma_kept(table.columns, other_column(id), k);
        assert(other_column(id)(after.columns[k]));
    }
    if table.columns.contains(column) && column.id != id {
        let k = choose|k: int| 0 <= k < table.columns.len() && table.columns[k] == column;
        assert(other_column(id)(table.columns[k]));
    }
    if after.checks.contains(check) {
        let k = choose|k: int| 0 <= k < after.checks.len() && after.checks[k] == check;
        lemma_kept(table.checks, other_check(id), k);
        assert(other_check(id)(after.checks[k]));
    }
    if table.checks.contains(check) && check.owner != Some(id) {
        let k = choose|k: int| 0 <= k < table.checks.len() && table.checks[k] == check;
        assert(other_check(id)(table.checks[k]));
    }
}

/// A table is rebuilt exactly where that is asked for or the columns that SQLite
/// holds are not, one by one, those of the catalog, and never where it holds a
/// hidden column. Every rebuild has a passing name of its own.
pub proof fn tables_are_rebuilt_where_they_differ(
    tables: Seq<CatalogEntryView>,
    table: TableView,
    held: Seq<HeldView>,
    force: bool,
    id: Seq<u8>,
    other: Seq<u8>,
)
    requires
        rebuild_planned(tables, table, held, force, id) is Ok,
    ensures
        forall|i: int| 0 <= i < held.len() ==> (#[trigger] held[i]).hidden == 0,
        force ==> rebuild_planned(tables, table, held, force, id)->Ok_0 is Some,
        !force ==> (rebuild_planned(tables, table, held, force, id)->Ok_0 is None <==> {
            &&& held.len() == table.columns.len()
            &&& forall|i: int|
                0 <= i < held.len() ==> column_stands(tables, table, i, #[trigger] held[i])
        }),
        rebuild_planned(tables, table, held, force, id)->Ok_0 matches Some(plan)
            ==> rebuild_planned(tables, table, held, force, other)->Ok_0 matches Some(again) && (
        plan.temporary == again.temporary <==> id == other),
{
    let f = plain_name(
        tables,
        table.table,
        "schema catalog column has no current name binding"@,
    );
    let ids = column_ids(table.columns);
    lemma_try_map_ok(ids, f);
    let desired = try_map(ids, f)->Ok_0;
    let names = held_names(held)->Ok_0;
    assert forall|i: int| 0 <= i < ids.len() implies current_column_name(
        tables,
        table.table,
        table.columns[i].id,
    ) == Some(#[trigger] desired[i]) by {
        assert(f(ids[i]) == Ok::<Seq<char>, ErrorView>(desired[i]));
    }
    assert forall|i: int| 0 <= i < held.len() && i < ids.len() implies binds_alike(
        names[i],
        desired[i],
    ) == column_stands(tables, table, i, #[trigger] held[i]) by {
        assert(names[i] == held[i].name);
        assert(current_column_name(tables, table.table, table.columns[i].id) == Some(desired[i]));
    }
    let same = |a: Seq<char>, b: Seq<char>| binds_alike(a, b);
    if alike(names, desired, same) {
        assert forall|i: int| 0 <= i < held.len() implies column_stands(
            tables,
            table,
            i,
            #[trigger] held[i],
        ) by {
            assert(same(names[i], desired[i]));
        }
    }
    if held.len() == table.columns.len() && forall|i: int|
        0 <= i < held.len() ==> column_stands(tables, table, i, #[trigger] held[i]) {
        assert forall|i: int| 0 <= i < names.len() implies same(#[trigger] names[i], desired[i]) by {
            assert(column_stands(tables, table, i, held[i]));
        }
    }
    let head = "__multilite__rebuild_"@;
    let a = head + hex_text(id);
    let b = head + hex_text(other);
    hexadecimal_texts_differ(id, other);
    if a == b {
        assert(a.subrange(head.len() as int, a.len() as int) =~= hex_text(id));
        assert(b.subrange(head.len() as int, b.len() as int) =~= hex_text(other));
    }
}

/// Whether a column that SQLite holds has the name that the column in its place
/// has in the catalog, but for case.
pub open spec fn column_stands(
    tables: Seq<CatalogEntryView>,
    table: TableView,
    i: int,
    held: HeldView,
) -> bool {
    current_column_name(tables, table.table, table.columns[i].id) is Some && canonical_bytes(
        held.name,
    ) == canonical_bytes(
        current_column_name(tables, table.table, table.columns[i].id)->Some_0,
    )
}

/// What applies a column rename runs it, records it, and rewrites the expressions
/// that read the column by its old name; what undoes it does the same the other
/// way round.
pub proof fn column_renames_rewrite_expressions(
    op: AlterView,
    parsed: ParsedTexts,
    tables: Seq<CatalogEntryView>,
)
    requires
        op.delta is RenameColumn,
    ensures
        ({
            let column = op.delta->RenameColumn_column;
            let old_name = op.delta->RenameColumn_old_name;
            let new_name = op.delta->RenameColumn_new_name;
            &&& apply_plan(op, parsed, tables) matches Ok(steps) ==> steps.len() == 3
                && steps[0] is Execute && steps[1] is Catalog && steps[2]
                == (AlterStepView::FoldExpressions { column, old_name, new_name })
            &&& rollback_plan(op, parsed, tables) matches Ok(steps) ==> steps.len() == 3
                && steps[0] is Execute && steps[1] is Catalog && steps[2]
                == (AlterStepView::FoldExpressions {
                column,
                old_name: new_name,
                new_name: old_name,
            })
        }),
{
}

/// What undoes a dropped column puts the column back into the table and into the
/// catalog, then restores the values that its sidecar holds, rebuilds the table
/// in any case, and retires the sidecar last. A dropped column leaves the table
/// by being rebuilt after the catalog forgot it; an added one is put there by its
/// own statement and undone by dropping it.
pub proof fn dropped_columns_come_back_with_their_values(
    op: AlterView,
    parsed: ParsedTexts,
    tables: Seq<CatalogEntryView>,
)
    ensures
        op.delta is DropColumn ==> {
            &&& apply_plan(op, parsed, tables) matches Ok(steps) ==> steps.len() == 2 && steps[0]
                == AlterStepView::Catalog(
                CatalogChangeView::RemoveColumn { column: op.delta->DropColumn_column },
            ) && steps[1] is Rebuild
            &&& rollback_plan(op, parsed, tables) matches Ok(steps) ==> {
                &&& steps.len() == 5
                &&& steps[0] is Execute
                &&& steps[1] is Catalog
                &&& steps[2] is RestoreValues
                &&& steps[2]->RestoreValues_repair == op.mutation_id
                &&& steps[2]->RestoreValues_name == op.delta->DropColumn_name
                &&& Some(steps[2]->RestoreValues_table) == current_name(tables, op.table)
                &&& steps[3] == (AlterStepView::Rebuild { force: true })
                &&& steps[4] == (AlterStepView::RetireRepair { repair: op.mutation_id })
            }
        },
        op.delta is AddColumn ==> {
            &&& apply_plan(op, parsed, tables) matches Ok(steps) ==> steps.len() == 3
                && steps[0] is ExecuteStatement && Some(steps[0]->ExecuteStatement_table)
                == current_name(tables, op.table) && steps[1] is Catalog && steps[2] is Rebuild
            &&& rollback_plan(op, parsed, tables) matches Ok(steps) ==> steps.len() == 3
                && steps[0] is Execute && steps[1] == AlterStepView::Catalog(
                CatalogChangeView::RemoveColumn { column: op.delta->AddColumn_column },
            ) && steps[2] is Rebuild
        },
{
}

/// An alteration that its statement bears out does what the statement says: to
/// the table that it names, with the names that it gives. An added or dropped
/// column starts from the definition that the operation saw, and changes its
/// revision.
pub proof fn borne_out_alterations_do_what_is_said(op: AlterView, parsed: ParsedTexts)
    requires
        alter_fault(op, statement_of(parsed, op.sql)) is None,
    ensures
        match (op.delta, statement_of(parsed, op.sql)) {
            (DeltaView::RenameTable { old_name, new_name }, Some(StatementView::RenameTable(said)))
                => said.table == old_name && said.new_name == new_name && op.source_table
                == old_name,
            (
                DeltaView::RenameColumn { old_name, new_name, .. },
                Some(StatementView::RenameColumn(said)),
            ) => said.table == op.source_table && said.old_name == old_name && said.new_name
                == new_name,
            (
                DeltaView::AddColumn { name, before, after, .. },
                Some(StatementView::AddColumn(said)),
            ) => said.table == op.source_table && said.column.name == name && before.table
                == op.table && before.schema_revision == op.schema_revision
                && after.schema_revision != before.schema_revision && after.columns.len()
                == before.columns.len() + 1,
            (
                DeltaView::DropColumn { column, name, before, after },
                Some(StatementView::DropColumn(said)),
            ) => said.table == op.source_table && said.column == name && before.table == op.table
                && before.schema_revision == op.schema_revision && after.schema_revision
                != before.schema_revision && !column_ids(after.columns).contains(column),
            _ => false,
        },
{
    if let DeltaView::DropColumn { column, before, after, .. } = op.delta {
        if column_ids(after.columns).contains(column) {
            let k = choose|k: int|
                0 <= k < after.columns.len() && column_ids(after.columns)[k] == column;
            removed_columns_leave_the_others(
                before,
                column,
                after.columns[k],
                CheckView { name: None, owner: None, columns: Seq::empty(), expression: Seq::empty() },
            );
            assert(after.columns.contains(after.columns[k]));
        }
    }
}

} // verus!
