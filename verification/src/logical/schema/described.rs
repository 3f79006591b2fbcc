//! Laws on created tables: they are what their statements describe.

use super::columns::{binds_column, describes_check, describes_column, resolved_checks_keep_their_text};
use super::create::{
    check_owner, column_matches, index_on, parent_column, relationship_of, relationships_match,
    table_matches, unique_matches,
};
use super::definition::{
    ColumnView, NamedIndexView, RelationshipView, TableView, UniqueView,
};
use super::error::SchemaCodecError;
use super::statement::{CreateForeignKeyView, CreateTableView};
use super::table::{
    column_by_name, constraint_of, named, primary_ids, resolution, resolved, target_columns,
    target_index_of,
};
use crate::attempt::lemma_try_map_ok;
use crate::catalog::{column_named, table_named, CatalogEntryView};
use crate::each::{first, lemma_first};
use crate::error::ErrorView;
use crate::name::canonical_bytes;
use vstd::prelude::*;

verus! {

/// A created table has the name, mode and storage of its statement, and one for
/// one the columns, UNIQUE constraints and CHECKs that it describes, each name in
/// a constraint being that of the column with the identity in its place. A CHECK
/// came with the column that the statement writes it beside.
pub proof fn created_tables_are_as_described(table: TableView, sql: Seq<char>, spec: CreateTableView)
    requires
        table_matches(table, sql, spec),
    ensures
        table.sql == sql,
        table.name == spec.name,
        table.mode == spec.mode,
        table.storage == spec.storage,
        table.indexes.len() == 0,
        table.columns.len() == spec.columns.len(),
        forall|i: int|
            0 <= i < table.columns.len() ==> describes_column(
                #[trigger] table.columns[i],
                table.columns[i].id,
                spec.columns[i],
            ),
        table.unique_constraints.len() == spec.unique_constraints.len(),
        forall|u: int|
            0 <= u < table.unique_constraints.len() ==> (#[trigger] table.unique_constraints[u]).name
                == spec.unique_constraints[u].name && table.unique_constraints[u].columns.len()
                == spec.unique_constraints[u].columns.len() && forall|i: int|
                0 <= i < table.unique_constraints[u].columns.len() ==> binds_column(
                    table.columns,
                    spec.unique_constraints[u].columns[i],
                    #[trigger] table.unique_constraints[u].columns[i],
                ),
        table.checks.len() == spec.checks.len(),
        forall|c: int|
            0 <= c < table.checks.len() ==> describes_check(
                table.columns,
                #[trigger] table.checks[c],
                spec.checks[c],
            ),
        forall|c: int|
            0 <= c < table.checks.len() && (#[trigger] table.checks[c]).owner is Some
                ==> spec.checks[c].column is Some && binds_column(
                table.columns,
                spec.checks[c].column->Some_0,
                table.checks[c].owner->Some_0,
            ),
        forall|c: int|
            0 <= c < table.checks.len() && (#[trigger] table.checks[c]).owner is None
                && spec.checks[c].column is Some ==> column_by_name(
                table.columns,
                spec.checks[c].column->Some_0,
            ) is None,
{
    assert forall|i: int| 0 <= i < table.columns.len() implies describes_column(
        #[trigger] table.columns[i],
        table.columns[i].id,
        spec.columns[i],
    ) by {
        assert(column_matches(table.columns[i], spec.columns[i]));
    }
    assert forall|u: int| 0 <= u < table.unique_constraints.len() implies (
    #[trigger] table.unique_constraints[u]).name == spec.unique_constraints[u].name
        && table.unique_constraints[u].columns.len() == spec.unique_constraints[u].columns.len()
        && forall|i: int|
        0 <= i < table.unique_constraints[u].columns.len() ==> binds_column(
            table.columns,
            spec.unique_constraints[u].columns[i],
            #[trigger] table.unique_constraints[u].columns[i],
        ) by {
        assert(unique_matches(
            table.columns,
            table.unique_constraints[u],
            spec.unique_constraints[u],
        ));
        lemma_names(
            table.columns,
            spec.unique_constraints[u].columns,
            table.unique_constraints[u].columns,
        );
    }
    assert forall|c: int| 0 <= c < table.checks.len() implies describes_check(
        table.columns,
        #[trigger] table.checks[c],
        spec.checks[c],
    ) && table.checks[c].owner == check_owner(table.columns, spec.checks[c]) by {
        resolved_checks_keep_their_text(
            table.columns,
            check_owner(table.columns, spec.checks[c]),
            spec.checks[c],
        );
    }
}

/// Resolved names are those of the columns in their places.
proof fn lemma_names(columns: Seq<ColumnView>, names: Seq<Seq<char>>, ids: Seq<Seq<u8>>)
    requires
        resolved(columns, names) == Ok::<Seq<Seq<u8>>, SchemaCodecError>(ids),
    ensures
        ids.len() == names.len(),
        forall|i: int|
            0 <= i < ids.len() ==> binds_column(columns, names[i], #[trigger] ids[i]),
{
    let f = resolution(columns);
    lemma_try_map_ok(names, f);
    assert forall|i: int| 0 <= i < ids.len() implies binds_column(
        columns,
        names[i],
        #[trigger] ids[i],
    ) by {
        assert(f(names[i]) == Ok::<Seq<u8>, SchemaCodecError>(ids[i]));
    }
}

/// A name binds a column exactly where one of the columns has that name but for
/// case.
pub proof fn names_bind_columns(columns: Seq<ColumnView>, name: Seq<char>)
    ensures
        column_by_name(columns, name) is Some <==> exists|i: int|
            0 <= i < columns.len() && canonical_bytes((#[trigger] columns[i]).name)
                == canonical_bytes(name),
        column_by_name(columns, name) matches Some(column) ==> columns.contains(column)
            && canonical_bytes(column.name) == canonical_bytes(name),
{
    lemma_first(columns, named(name));
    if let Some(column) = column_by_name(columns, name) {
        let i = choose|i: int| 0 <= i < columns.len() && columns[i] == column;
        assert(canonical_bytes(columns[i].name) == canonical_bytes(name));
    } else {
        assert forall|i: int| 0 <= i < columns.len() implies canonical_bytes(
            (#[trigger] columns[i]).name,
        ) != canonical_bytes(name) by {
            assert(!named(name)(columns[i]));
        }
    }
}

/// Whether an index of a table is a unique key on exactly some columns: the
/// primary key, a UNIQUE constraint, or an index that is unique and active.
pub open spec fn unique_key_on(table: TableView, index: Seq<u8>, columns: Seq<Seq<u8>>) -> bool {
    ||| index == table.primary_index && columns == primary_ids(table.columns)
    ||| exists|u: int|
        0 <= u < table.unique_constraints.len() && (#[trigger] table.unique_constraints[u]).index
            == index && table.unique_constraints[u].columns == columns
    ||| exists|n: int|
        0 <= n < table.indexes.len() && (#[trigger] table.indexes[n]).index == index
            && table.indexes[n].columns == columns && table.indexes[n].unique
            && table.indexes[n].active
}

/// A foreign key leads from the columns that the statement names, of the new
/// table, to as many columns of the table that it names, which form a unique key
/// there, and is active. Where it names no columns, it leads to the primary key.
pub proof fn foreign_keys_lead_to_unique_keys(
    tables: Seq<CatalogEntryView>,
    columns: Seq<ColumnView>,
    spec: CreateForeignKeyView,
    id: Seq<u8>,
)
    ensures
        table_named(tables, spec.referenced_table) is None ==> relationship_of(
            tables,
            columns,
            spec,
            id,
        ) is Err,
        relationship_of(tables, columns, spec, id) matches Ok(key) ==> {
            &&& key.id == id
            &&& key.name == spec.name
            &&& key.active
            &&& key.columns.len() == spec.columns.len()
            &&& key.columns.len() == key.referenced_columns.len()
            &&& forall|i: int|
                0 <= i < key.columns.len() ==> binds_column(
                    columns,
                    spec.columns[i],
                    #[trigger] key.columns[i],
                )
            &&& table_named(tables, spec.referenced_table) matches Some(parent)
                && key.referenced_table == parent.table && unique_key_on(
                parent,
                key.referenced_index,
                key.referenced_columns,
            ) && (spec.referenced_columns is None ==> key.referenced_columns == primary_ids(
                parent.columns,
            ))
            &&& spec.referenced_columns matches Some(names) ==> names.len()
                == key.referenced_columns.len() && forall|i: int|
                0 <= i < names.len() ==> column_named(
                    tables,
                    key.referenced_table,
                    names[i],
                ) == Some(#[trigger] key.referenced_columns[i])
        },
{
    if let Ok(key) = relationship_of(tables, columns, spec, id) {
        let parent = table_named(tables, spec.referenced_table)->Some_0;
        lemma_names(columns, spec.columns, key.columns);
        if let Some(names) = spec.referenced_columns {
            let f = parent_column(tables, parent.table);
            lemma_try_map_ok(names, f);
            assert forall|i: int| 0 <= i < names.len() implies column_named(
                tables,
                key.referenced_table,
                names[i],
            ) == Some(#[trigger] key.referenced_columns[i]) by {
                assert(f(names[i]) == Ok::<Seq<u8>, ErrorView>(key.referenced_columns[i]));
            }
        }
        let wanted = key.referenced_columns;
        let by_unique = |unique: UniqueView| unique.columns == wanted;
        let by_index = |index: NamedIndexView|
            index.unique && index.active && index.columns == wanted;
        lemma_first(parent.unique_constraints, by_unique);
        lemma_first(parent.indexes, by_index);
        assert(index_on(parent, wanted) == Some(key.referenced_index));
        assert(unique_key_on(parent, key.referenced_index, wanted));
    }
}

/// A foreign key finds a unique key wherever the parent has one on exactly its
/// columns.
pub proof fn unique_keys_are_found(table: TableView, index: Seq<u8>, columns: Seq<Seq<u8>>)
    requires
        unique_key_on(table, index, columns),
    ensures
        index_on(table, columns) is Some,
{
    let by_unique = |unique: UniqueView| unique.columns == columns;
    let by_index = |index: NamedIndexView|
        index.unique && index.active && index.columns == columns;
    lemma_first(table.unique_constraints, by_unique);
    lemma_first(table.indexes, by_index);
    if primary_ids(table.columns) != columns {
        if exists|u: int|
            0 <= u < table.unique_constraints.len() && (
            #[trigger] table.unique_constraints[u]).index == index
                && table.unique_constraints[u].columns == columns {
            let u = choose|u: int|
                0 <= u < table.unique_constraints.len() && (
                #[trigger] table.unique_constraints[u]).index == index
                    && table.unique_constraints[u].columns == columns;
            assert(by_unique(table.unique_constraints[u]));
        } else {
            let n = choose|n: int|
                0 <= n < table.indexes.len() && (#[trigger] table.indexes[n]).index == index
                    && table.indexes[n].columns == columns && table.indexes[n].unique
                    && table.indexes[n].active;
            assert(by_index(table.indexes[n]));
        }
    }
}

/// The foreign keys of a created table are those of its statement, one for one.
pub proof fn created_foreign_keys_are_as_described(
    tables: Seq<CatalogEntryView>,
    table: TableView,
    specs: Seq<CreateForeignKeyView>,
    f: int,
)
    requires
        relationships_match(tables, table, specs),
        0 <= f < specs.len(),
    ensures
        table.foreign_keys.len() == specs.len(),
        relationship_of(tables, table.columns, specs[f], table.foreign_keys[f].id) == Ok::<
            RelationshipView,
            ErrorView,
        >(table.foreign_keys[f]),
        table.foreign_keys[f].active,
        table.foreign_keys[f].columns.len() == specs[f].columns.len(),
{
    let key = table.foreign_keys[f];
    foreign_keys_lead_to_unique_keys(tables, table.columns, specs[f], key.id);
}

/// The columns that a foreign key can refer to through an index are those of a
/// unique key of the table, and every unique key has such columns.
pub proof fn targets_are_unique_keys(table: TableView, index: Seq<u8>, columns: Seq<Seq<u8>>)
    ensures
        target_columns(table, index) matches Some(found) ==> unique_key_on(table, index, found),
        unique_key_on(table, index, columns) ==> target_columns(table, index) is Some,
{
    lemma_first(table.unique_constraints, constraint_of(index));
    lemma_first(table.indexes, target_index_of(index));
    if let Some(found) = target_columns(table, index) {
        if index != table.primary_index {
            if first(table.unique_constraints, constraint_of(index)) is Some {
                let unique = first(table.unique_constraints, constraint_of(index))->Some_0;
                let u = choose|u: int|
                    0 <= u < table.unique_constraints.len() && table.unique_constraints[u]
                        == unique;
                assert(table.unique_constraints[u].index == index);
            } else {
                let named = first(table.indexes, target_index_of(index))->Some_0;
                let n = choose|n: int| 0 <= n < table.indexes.len() && table.indexes[n] == named;
                assert(table.indexes[n].index == index);
            }
        }
    }
    if unique_key_on(table, index, columns) && index != table.primary_index {
        if exists|u: int|
            0 <= u < table.unique_constraints.len() && (
            #[trigger] table.unique_constraints[u]).index == index
                && table.unique_constraints[u].columns == columns {
            let u = choose|u: int|
                0 <= u < table.unique_constraints.len() && (
                #[trigger] table.unique_constraints[u]).index == index
                    && table.unique_constraints[u].columns == columns;
            assert(constraint_of(index)(table.unique_constraints[u]));
        } else {
            let n = choose|n: int|
                0 <= n < table.indexes.len() && (#[trigger] table.indexes[n]).index == index
                    && table.indexes[n].columns == columns && table.indexes[n].unique
                    && table.indexes[n].active;
            assert(target_index_of(index)(table.indexes[n]));
        }
    }
}

} // verus!
