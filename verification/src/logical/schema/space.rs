//! Laws on the creation of a table: what it leaves of the key space.

use super::definition::{table_frame, ColumnView, RelationshipView, TableView};
use super::lower::{
    announce_relationship, bind_column, create_activation, create_emissions, create_head,
    publish_index, publish_unique,
};
use crate::key::Path;
use crate::logical::drop_table::frame::DropTableOperationView;
use crate::logical::drop_table::laws::{
    dropping_a_table_frees_its_keys, goes_with_table, parent_knows,
};
use crate::logical::drop_table::lower::drop_table_emissions;
use crate::logical::layout::{
    active_constraint_path, active_primary_index_path, active_schema_revision_path,
    column_name_path, constraint_reference_path, index_definition_path, layout_families,
    object_name_path, schema_log_path, table_root_path, table_schema_path, write_revision_path,
};
use crate::logical::lowering::{
    all_emit, gathered, lemma_all_concat, lemma_all_gathered, lemma_gathered_has, lemma_has_concat,
    mutations_of, Emission,
};
use crate::logical::space::{
    agrees, left_by, lemma_put, lemma_spared, performed, spares, Space,
};
use vstd::prelude::*;

verus! {

/// Whether an index is one that a new table has: its primary key's, or that of
/// a UNIQUE constraint.
pub open spec fn has_index(table: TableView, index: Seq<u8>) -> bool {
    index == table.primary_index || exists|u: int|
        0 <= u < table.unique_constraints.len() && (#[trigger] table.unique_constraints[u]).index
            == index
}

/// Whether a column's name is bound to its identity at a key.
pub open spec fn column_bound(table: TableView, column: ColumnView, key: Path, value: Seq<u8>) -> bool {
    key == column_name_path(table.table, column.name) && value == column.id
}

/// Whether a foreign key that is active is announced at its parent, by the
/// identity of the table that it is of.
pub open spec fn announced(
    table: TableView,
    foreign_key: RelationshipView,
    key: Path,
    value: Seq<u8>,
) -> bool {
    foreign_key.active && value == table.table && key == constraint_reference_path(
        foreign_key.referenced_table,
        foreign_key.referenced_index,
        foreign_key.id,
    )
}

/// Whether a new table has an index, under its own identity, at a key.
pub open spec fn index_published(table: TableView, key: Path, value: Seq<u8>) -> bool {
    has_index(table, value) && (key == index_definition_path(table.table, value) || key
        == active_constraint_path(table.table, value))
}

/// Whether a key of a new table holds a value: the schema log and the first
/// revision hold the definition, the table's name its identity, a column's name
/// the column's, the pointers of the table what is active, and the parents of
/// its active foreign keys its identity.
pub open spec fn created_at(table: TableView, key: Path, value: Seq<u8>) -> bool {
    ||| key == schema_log_path(table.mutation) && value == table_frame(table)
    ||| key == object_name_path(table.name) && value == table.table
    ||| key == table_schema_path(table.table, table.schema_revision) && value == table_frame(table)
    ||| exists|c: int|
        0 <= c < table.columns.len() && column_bound(
            table,
            #[trigger] table.columns[c],
            key,
            value,
        )
    ||| key == active_primary_index_path(table.table) && value == table.primary_index
    ||| key == active_schema_revision_path(table.table) && value == table.schema_revision
    ||| index_published(table, key, value)
    ||| exists|f: int|
        0 <= f < table.foreign_keys.len() && announced(
            table,
            #[trigger] table.foreign_keys[f],
            key,
            value,
        )
    ||| key == write_revision_path(table.table) && value == table.mutation
}

/// Whether no two columns have names that bind alike.
pub open spec fn columns_apart(table: TableView) -> bool {
    forall|a: int, b: int|
        0 <= a < b < table.columns.len() ==> column_name_path(
            table.table,
            (#[trigger] table.columns[a]).name,
        ) != column_name_path(table.table, (#[trigger] table.columns[b]).name)
}

/// A key of a new table holds one value.
proof fn lemma_created_once(table: TableView, key: Path, a: Seq<u8>, b: Seq<u8>)
    requires
        columns_apart(table),
        created_at(table, key, a),
        created_at(table, key, b),
    ensures
        a == b,
{
    broadcast use layout_families;

    if index_published(table, key, a) {
        assert(key[4] == a);
        assert(index_published(table, key, b) ==> key[4] == b);
    }
    if exists|c: int|
        0 <= c < table.columns.len() && column_bound(table, #[trigger] table.columns[c], key, a) {
        let x = choose|c: int|
            0 <= c < table.columns.len() && column_bound(table, #[trigger] table.columns[c], key, a);
        assert(exists|c: int|
            0 <= c < table.columns.len() && column_bound(table, #[trigger] table.columns[c], key, b));
        let y = choose|c: int|
            0 <= c < table.columns.len() && column_bound(table, #[trigger] table.columns[c], key, b);
        if x < y {
            assert(table.columns[x].name == table.columns[x].name);
        }
        assert(x == y);
    }
}

/// Whether an emission only puts what a new table holds.
spec fn creates_only(table: TableView) -> spec_fn(Emission) -> bool {
    |emission: Emission|
        match emission {
            Emission::Put(at, value) => created_at(table, at, value),
            Emission::Invariant(_, _) => true,
            Emission::Write(_, _) => true,
            _ => false,
        }
}

/// What publishes an index of a new table only puts what the table holds.
proof fn lemma_publishes(table: TableView, index: Seq<u8>)
    requires
        has_index(table, index),
    ensures
        all_emit(publish_index(table.table, index), creates_only(table)),
{
    assert(index_published(table, index_definition_path(table.table, index), index));
    assert(index_published(table, active_constraint_path(table.table, index), index));
}

/// What a creation emits only puts what the table holds.
proof fn lemma_creates(table: TableView)
    ensures
        all_emit(create_emissions(table), creates_only(table)),
{
    let test = creates_only(table);
    let head = create_head(table);
    let columns = gathered(table.columns, bind_column(table.table));
    let activation = create_activation(table);
    let primary = publish_index(table.table, table.primary_index);
    let uniques = gathered(table.unique_constraints, publish_unique(table.table));
    let parents = gathered(table.foreign_keys, announce_relationship(table.table));
    let revision = seq![Emission::Put(write_revision_path(table.table), table.mutation)];
    assert(all_emit(head, test));
    assert forall|c: int| 0 <= c < table.columns.len() implies all_emit(
        bind_column(table.table)(#[trigger] table.columns[c]),
        test,
    ) by {
        let column = table.columns[c];
        assert(column_bound(
            table,
            column,
            column_name_path(table.table, column.name),
            column.id,
        ));
    }
    lemma_all_gathered(table.columns, bind_column(table.table), test);
    lemma_publishes(table, table.primary_index);
    assert forall|u: int| 0 <= u < table.unique_constraints.len() implies all_emit(
        publish_unique(table.table)(#[trigger] table.unique_constraints[u]),
        test,
    ) by {
        lemma_publishes(table, table.unique_constraints[u].index);
    }
    lemma_all_gathered(table.unique_constraints, publish_unique(table.table), test);
    assert forall|f: int| 0 <= f < table.foreign_keys.len() implies all_emit(
        announce_relationship(table.table)(#[trigger] table.foreign_keys[f]),
        test,
    ) by {
        let foreign_key = table.foreign_keys[f];
        if foreign_key.active {
            assert(announced(
                table,
                foreign_key,
                constraint_reference_path(
                    foreign_key.referenced_table,
                    foreign_key.referenced_index,
                    foreign_key.id,
                ),
                table.table,
            ));
        }
    }
    lemma_all_gathered(table.foreign_keys, announce_relationship(table.table), test);
    lemma_all_concat(head, columns, test);
    lemma_all_concat(head + columns, activation, test);
    lemma_all_concat(head + columns + activation, primary, test);
    lemma_all_concat(head + columns + activation + primary, uniques, test);
    lemma_all_concat(head + columns + activation + primary + uniques, parents, test);
    lemma_all_concat(head + columns + activation + primary + uniques + parents, revision, test);
}

/// A part of what a creation emits is among what it emits.
proof fn lemma_create_has(table: TableView, emission: Emission)
    requires
        create_head(table).contains(emission) || gathered(
            table.columns,
            bind_column(table.table),
        ).contains(emission) || create_activation(table).contains(emission) || publish_index(
            table.table,
            table.primary_index,
        ).contains(emission) || gathered(
            table.unique_constraints,
            publish_unique(table.table),
        ).contains(emission) || gathered(
            table.foreign_keys,
            announce_relationship(table.table),
        ).contains(emission) || emission == Emission::Put(
            write_revision_path(table.table),
            table.mutation,
        ),
    ensures
        create_emissions(table).contains(emission),
{
    let head = create_head(table);
    let columns = gathered(table.columns, bind_column(table.table));
    let activation = create_activation(table);
    let primary = publish_index(table.table, table.primary_index);
    let uniques = gathered(table.unique_constraints, publish_unique(table.table));
    let parents = gathered(table.foreign_keys, announce_relationship(table.table));
    let revision = seq![Emission::Put(write_revision_path(table.table), table.mutation)];
    assert(revision.contains(revision[0]));
    lemma_has_concat(head, columns, emission);
    lemma_has_concat(head + columns, activation, emission);
    lemma_has_concat(head + columns + activation, primary, emission);
    lemma_has_concat(head + columns + activation + primary, uniques, emission);
    lemma_has_concat(head + columns + activation + primary + uniques, parents, emission);
    lemma_has_concat(head + columns + activation + primary + uniques + parents, revision, emission);
}

/// What a new table holds is put by its creation.
proof fn lemma_created_put(table: TableView, key: Path, value: Seq<u8>)
    requires
        created_at(table, key, value),
    ensures
        create_emissions(table).contains(Emission::Put(key, value)),
{
    let put = Emission::Put(key, value);
    if key == schema_log_path(table.mutation) && value == table_frame(table) {
        assert(create_head(table)[2] == put);
    } else if key == object_name_path(table.name) && value == table.table {
        assert(create_head(table)[3] == put);
    } else if key == table_schema_path(table.table, table.schema_revision) && value == table_frame(
        table,
    ) {
        assert(create_head(table)[4] == put);
    } else if exists|c: int|
        0 <= c < table.columns.len() && column_bound(table, #[trigger] table.columns[c], key, value) {
        let c = choose|c: int|
            0 <= c < table.columns.len() && column_bound(
                table,
                #[trigger] table.columns[c],
                key,
                value,
            );
        assert(bind_column(table.table)(table.columns[c])[0] == put);
        lemma_gathered_has(table.columns, bind_column(table.table), c, put);
    } else if key == active_primary_index_path(table.table) && value == table.primary_index {
        assert(create_activation(table)[0] == put);
    } else if key == active_schema_revision_path(table.table) && value == table.schema_revision {
        assert(create_activation(table)[1] == put);
    } else if index_published(table, key, value) {
        let published = publish_index(table.table, value);
        assert(published[0] == put || published[1] == put);
        if value != table.primary_index {
            let u = choose|u: int|
                0 <= u < table.unique_constraints.len() && (
                #[trigger] table.unique_constraints[u]).index == value;
            assert(publish_unique(table.table)(table.unique_constraints[u]) == published);
            lemma_gathered_has(table.unique_constraints, publish_unique(table.table), u, put);
        }
    } else if exists|f: int|
        0 <= f < table.foreign_keys.len() && announced(
            table,
            #[trigger] table.foreign_keys[f],
            key,
            value,
        ) {
        let f = choose|f: int|
            0 <= f < table.foreign_keys.len() && announced(
                table,
                #[trigger] table.foreign_keys[f],
                key,
                value,
            );
        assert(announce_relationship(table.table)(table.foreign_keys[f])[2] == put);
        lemma_gathered_has(table.foreign_keys, announce_relationship(table.table), f, put);
    }
    lemma_create_has(table, put);
}

/// Once the creation of a table is carried out, every key of the table holds
/// what it should, and every other key is as it was.
pub proof fn creating_a_table_binds_its_keys(
    table: TableView,
    space: Space,
    key: Path,
    value: Seq<u8>,
)
    requires
        columns_apart(table),
    ensures
        ({
            let after = performed(space, mutations_of(create_emissions(table)));
            &&& created_at(table, key, value) ==> after(key) == Some(value)
            &&& (forall|other: Seq<u8>| !created_at(table, key, other)) ==> after(key) == space(key)
        }),
{
    let all = create_emissions(table);
    lemma_creates(table);
    assert(performed(space, mutations_of(all))(key) == left_by(space, all, key));
    if created_at(table, key, value) {
        assert forall|i: int| 0 <= i < all.len() implies agrees(key, value)(#[trigger] all[i]) by {
            assert(creates_only(table)(all[i]));
            if let Emission::Put(at, other) = all[i] {
                if at == key {
                    lemma_created_once(table, key, value, other);
                }
            }
        }
        lemma_created_put(table, key, value);
        lemma_put(space, all, key, value);
    }
    if forall|other: Seq<u8>| !created_at(table, key, other) {
        assert forall|i: int| 0 <= i < all.len() implies spares(key)(#[trigger] all[i]) by {
            assert(creates_only(table)(all[i]));
        }
        lemma_spared(space, all, key);
    }
}

/// Creating a table where nothing of it is there yet, and then dropping it under
/// the same name, leaves every key but the two entries of the schema log as it
/// was.
pub proof fn dropping_a_created_table_restores_the_key_space(
    table: TableView,
    op: DropTableOperationView,
    space: Space,
    key: Path,
)
    requires
        columns_apart(table),
        op.before == table,
        op.source_table == table.name,
        goes_with_table(op, key) ==> space(key) is None,
        key != schema_log_path(table.mutation),
        key != schema_log_path(op.mutation_id),
    ensures
        performed(
            performed(space, mutations_of(create_emissions(table))),
            mutations_of(drop_table_emissions(op)),
        )(key) == space(key),
{
    let between = performed(space, mutations_of(create_emissions(table)));
    dropping_a_table_frees_its_keys(op, between, key);
    if !goes_with_table(op, key) {
        assert forall|value: Seq<u8>| !created_at(table, key, value) by {
            if created_at(table, key, value) {
                lemma_created_goes(table, op, key, value);
            }
        }
        creating_a_table_binds_its_keys(table, space, key, Seq::empty());
    }
}

/// What a new table holds goes with it.
proof fn lemma_created_goes(
    table: TableView,
    op: DropTableOperationView,
    key: Path,
    value: Seq<u8>,
)
    requires
        created_at(table, key, value),
        op.before == table,
        op.source_table == table.name,
        key != schema_log_path(table.mutation),
    ensures
        goes_with_table(op, key),
{
    if exists|f: int|
        0 <= f < table.foreign_keys.len() && announced(
            table,
            #[trigger] table.foreign_keys[f],
            key,
            value,
        ) {
        let f = choose|f: int|
            0 <= f < table.foreign_keys.len() && announced(
                table,
                #[trigger] table.foreign_keys[f],
                key,
                value,
            );
        assert(parent_knows(op.before.foreign_keys[f], key));
    } else if key != object_name_path(table.name) {
        assert(key.subrange(0, 3) =~= table_root_path(table.table));
    }
}

} // verus!
