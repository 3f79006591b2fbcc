//! Laws on the alterations of a table: what they leave of the key space.

use super::lower::{
    add_dependency, add_emissions, alter_emissions, drop_dependency, drop_emissions, guard_name,
    rename_emissions, restrict_emissions,
};
use super::operation::{alter_encoded, AlterView, DeltaView};
use crate::key::{below, Path};
use crate::logical::codes;
use crate::logical::codes::{label, lemma_labels};
use crate::logical::contract::{GuardClass, GuardReason, OperationFamily};
use crate::logical::guard::guard_on;
use crate::logical::layout::{
    column_check_path, column_dependency_path, column_name_path, layout_families, object_name_path,
    row_path, schema_log_path, table_schema_path, write_revision_path,
};
use crate::logical::lowering::{
    all_emit, gathered, guards_of, lemma_all_concat, lemma_all_gathered, lemma_emitted_guard,
    lemma_gathered_has, lemma_has_concat, mutations_of, Emission,
};
use crate::logical::schema::definition::{table_frame, TableView};
use crate::logical::schema::depend::{
    added_columns_depend_on_the_names_they_read, check_dependencies,
    columns_depend_on_what_their_checks_read, dependency_names, reads_column, restricts_writes,
};
use crate::logical::schema::table::column_by_id;
use crate::logical::space::{
    agrees, left_by, lemma_freed, lemma_put, lemma_settled, lemma_spared, performed,
    puts_nothing_at, spares, touches, Space,
};
use vstd::prelude::*;

verus! {

/// Where a rename moves a binding from, where to, and what is bound.
pub open spec fn moved_binding(op: AlterView) -> Option<(Path, Path, Seq<u8>)> {
    match op.delta {
        DeltaView::RenameTable { old_name, new_name } => Some(
            (object_name_path(old_name), object_name_path(new_name), op.table),
        ),
        DeltaView::RenameColumn { column, old_name, new_name } => Some(
            (
                column_name_path(op.table, old_name),
                column_name_path(op.table, new_name),
                column,
            ),
        ),
        _ => None,
    }
}

/// What a rename emits, key by key.
proof fn lemma_renamed(
    op: AlterView,
    old: Path,
    new: Path,
    bound: Seq<u8>,
    reason: GuardReason,
    space: Space,
    key: Path,
)
    requires
        old != schema_log_path(op.mutation_id),
        new != schema_log_path(op.mutation_id),
    ensures
        ({
            let after = left_by(space, rename_emissions(op, old, new, bound, reason), key);
            let log = schema_log_path(op.mutation_id);
            &&& key == log ==> after == Some(alter_encoded(op))
            &&& key == new ==> after == Some(bound)
            &&& key == old && old != new ==> after is None
            &&& key != log && key != new && key != old ==> after == space(key)
        }),
{
    let all = rename_emissions(op, old, new, bound, reason);
    let log = schema_log_path(op.mutation_id);
    if key == new {
        assert(all + Seq::empty() =~= all);
        lemma_settled(space, all, Seq::empty(), key, bound);
    } else if key == log {
        assert(all[2] == Emission::Put(log, alter_encoded(op)));
        lemma_put(space, all, key, alter_encoded(op));
    } else if key == old {
        assert(all[3] == Emission::Delete(key));
        lemma_freed(space, all, key, Emission::Delete(key));
    } else {
        lemma_spared(space, all, key);
    }
}

/// A rename moves the binding: the new name binds what the old one did, the old
/// name is free, the schema log holds the operation, and every other key is as
/// it was.
pub proof fn renaming_moves_the_binding(op: AlterView, space: Space, key: Path)
    requires
        moved_binding(op) is Some,
    ensures
        ({
            let after = performed(space, mutations_of(alter_emissions(op)));
            let (old, new, bound) = moved_binding(op)->Some_0;
            let log = schema_log_path(op.mutation_id);
            &&& key == log ==> after(key) == Some(alter_encoded(op))
            &&& key == new ==> after(key) == Some(bound)
            &&& key == old && old != new ==> after(key) is None
            &&& key != log && key != new && key != old ==> after(key) == space(key)
        }),
{
    broadcast use layout_families;

    let (old, new, bound) = moved_binding(op)->Some_0;
    let reason = if op.delta is RenameTable {
        GuardReason::SchemaObjectName
    } else {
        GuardReason::ColumnNameBinding
    };
    lemma_renamed(op, old, new, bound, reason, space, key);
}

/// Renaming something and renaming it back leaves every key but the two entries
/// of the schema log as it was.
pub proof fn renaming_back_restores_the_key_space(
    there: AlterView,
    back: AlterView,
    space: Space,
    key: Path,
)
    requires
        moved_binding(there) is Some,
        moved_binding(back) is Some,
        moved_binding(back)->Some_0.0 == moved_binding(there)->Some_0.1,
        moved_binding(back)->Some_0.1 == moved_binding(there)->Some_0.0,
        moved_binding(back)->Some_0.2 == moved_binding(there)->Some_0.2,
        space(moved_binding(there)->Some_0.0) == Some(moved_binding(there)->Some_0.2),
        moved_binding(there)->Some_0.0 != moved_binding(there)->Some_0.1 ==> space(
            moved_binding(there)->Some_0.1,
        ) is None,
        key != schema_log_path(there.mutation_id),
        key != schema_log_path(back.mutation_id),
    ensures
        performed(
            performed(space, mutations_of(alter_emissions(there))),
            mutations_of(alter_emissions(back)),
        )(key) == space(key),
{
    let between = performed(space, mutations_of(alter_emissions(there)));
    renaming_moves_the_binding(there, space, key);
    renaming_moves_the_binding(back, between, key);
}

/// Whether a key of an added column holds a value: the schema log the
/// operation, the column's name its identity, the new revision the definition,
/// the markers on what its CHECKs read its identity, and, where it restricts
/// what may be written, the write revision the change.
pub open spec fn added_at(
    op: AlterView,
    column: Seq<u8>,
    name: Seq<char>,
    after: TableView,
    key: Path,
    value: Seq<u8>,
) -> bool {
    ||| key == schema_log_path(op.mutation_id) && value == alter_encoded(op)
    ||| key == column_name_path(op.table, name) && value == column
    ||| key == table_schema_path(op.table, after.schema_revision) && value == table_frame(after)
    ||| value == column && exists|read: Seq<u8>| #[trigger]
        reads_column(after, column, read) && key == column_check_path(op.table, read, column)
    ||| restricts_writes(after, column) && key == write_revision_path(op.table) && value
        == op.mutation_id
}

/// Whether an emission only puts what an added column holds.
spec fn adds_only(op: AlterView, column: Seq<u8>, name: Seq<char>, after: TableView) -> spec_fn(
    Emission,
) -> bool {
    |emission: Emission|
        match emission {
            Emission::Put(at, value) => added_at(op, column, name, after, at, value),
            Emission::Invariant(_, _) => true,
            Emission::Write(_, _) => true,
            _ => false,
        }
}

/// The three parts of what an added column emits.
proof fn lemma_add_parts(
    op: AlterView,
    column: Seq<u8>,
    name: Seq<char>,
    before: TableView,
    after: TableView,
    emission: Emission,
)
    ensures
        all_emit(
            add_emissions(op, column, name, before, after),
            adds_only(op, column, name, after),
        ),
        emission == Emission::Put(schema_log_path(op.mutation_id), alter_encoded(op)) || emission
            == Emission::Put(column_name_path(op.table, name), column) || emission == Emission::Put(
            table_schema_path(op.table, after.schema_revision),
            table_frame(after),
        ) || gathered(
            check_dependencies(after, column),
            add_dependency(op.table, column),
        ).contains(emission) || gathered(
            dependency_names(after, column),
            guard_name(op.table),
        ).contains(emission) || (restricts_writes(after, column) && restrict_emissions(
            op,
            before,
        ).contains(emission)) ==> add_emissions(op, column, name, before, after).contains(emission),
{
    let test = adds_only(op, column, name, after);
    let key = column_name_path(op.table, name);
    let reads = check_dependencies(after, column);
    let first = seq![Emission::Invariant(key, GuardReason::ColumnNameBinding)];
    let names = gathered(dependency_names(after, column), guard_name(op.table));
    let puts = seq![
        Emission::Put(schema_log_path(op.mutation_id), alter_encoded(op)),
        Emission::Put(key, column),
        Emission::Put(table_schema_path(op.table, after.schema_revision), table_frame(after)),
    ];
    let marks = gathered(reads, add_dependency(op.table, column));
    let rest = if restricts_writes(after, column) {
        restrict_emissions(op, before)
    } else {
        Seq::empty()
    };
    lemma_has_concat(first, names, emission);
    lemma_has_concat(first + names, puts, emission);
    lemma_has_concat(first + names + puts, marks, emission);
    lemma_has_concat(first + names + puts + marks, rest, emission);
    assert(puts.contains(puts[0]) && puts.contains(puts[1]) && puts.contains(puts[2]));
    assert(all_emit(first, test));
    lemma_all_gathered(dependency_names(after, column), guard_name(op.table), test);
    assert(all_emit(puts, test));
    assert forall|i: int| 0 <= i < reads.len() implies all_emit(
        add_dependency(op.table, column)(#[trigger] reads[i]),
        test,
    ) by {
        assert(reads.contains(reads[i]));
        columns_depend_on_what_their_checks_read(after, column, reads[i]);
        assert(reads_column(after, column, reads[i]));
    }
    lemma_all_gathered(reads, add_dependency(op.table, column), test);
    assert(all_emit(rest, test));
    lemma_all_concat(first, names, test);
    lemma_all_concat(first + names, puts, test);
    lemma_all_concat(first + names + puts, marks, test);
    lemma_all_concat(first + names + puts + marks, rest, test);
}

/// Once an added column is carried out, every key of the column holds what it
/// should, and every other key is as it was.
pub proof fn adding_a_column_binds_its_keys(op: AlterView, space: Space, key: Path, value: Seq<u8>)
    requires
        op.delta is AddColumn,
    ensures
        ({
            let left = performed(space, mutations_of(alter_emissions(op)));
            let column = op.delta->AddColumn_column;
            let name = op.delta->AddColumn_name;
            let after = op.delta->AddColumn_after;
            &&& added_at(op, column, name, after, key, value) ==> left(key) == Some(value)
            &&& (forall|other: Seq<u8>| !added_at(op, column, name, after, key, other)) ==> left(
                key,
            ) == space(key)
        }),
{
    broadcast use layout_families;

    let column = op.delta->AddColumn_column;
    let name = op.delta->AddColumn_name;
    let before = op.delta->AddColumn_before;
    let after = op.delta->AddColumn_after;
    let all = add_emissions(op, column, name, before, after);
    let put = Emission::Put(key, value);
    assert(performed(space, mutations_of(all))(key) == left_by(space, all, key));
    if added_at(op, column, name, after, key, value) {
        if restricts_writes(after, column) {
            let rest = restrict_emissions(op, before);
            assert(rest.contains(rest[2]));
        }
        if exists|read: Seq<u8>| #[trigger]
            reads_column(after, column, read) && key == column_check_path(op.table, read, column) {
            let read = choose|read: Seq<u8>| #[trigger]
                reads_column(after, column, read) && key == column_check_path(
                    op.table,
                    read,
                    column,
                );
            let reads = check_dependencies(after, column);
            columns_depend_on_what_their_checks_read(after, column, read);
            let k = choose|k: int| 0 <= k < reads.len() && reads[k] == read;
            let mark = Emission::Put(key, column);
            assert(add_dependency(op.table, column)(reads[k])[2] == mark);
            lemma_gathered_has(reads, add_dependency(op.table, column), k, mark);
        }
        lemma_add_parts(op, column, name, before, after, put);
        assert forall|i: int| 0 <= i < all.len() implies agrees(key, value)(#[trigger] all[i]) by {
            assert(adds_only(op, column, name, after)(all[i]));
        }
        lemma_put(space, all, key, value);
    }
    if forall|other: Seq<u8>| !added_at(op, column, name, after, key, other) {
        lemma_add_parts(op, column, name, before, after, put);
        assert forall|i: int| 0 <= i < all.len() implies spares(key)(#[trigger] all[i]) by {
            assert(adds_only(op, column, name, after)(all[i]));
        }
        lemma_spared(space, all, key);
    }
}

/// An added column guards the name of every other column that a CHECK which
/// came with it reads, and, where it restricts what may be written, the absence
/// of rows.
pub proof fn added_columns_guard_what_they_read(op: AlterView, read: Seq<u8>)
    requires
        op.delta is AddColumn,
    ensures
        ({
            let guards = guards_of(OperationFamily::AddColumn, alter_emissions(op));
            let column = op.delta->AddColumn_column;
            let before = op.delta->AddColumn_before;
            let after = op.delta->AddColumn_after;
            &&& reads_column(after, column, read) && read != column ==> (column_by_id(
                after.columns,
                read,
            ) matches Some(found) ==> guards.contains(
                guard_on(
                    OperationFamily::AddColumn,
                    column_name_path(op.table, found.name),
                    GuardClass::Invariant,
                    GuardReason::ColumnNameBinding,
                ),
            ))
            &&& restricts_writes(after, column) ==> guards.contains(
                guard_on(
                    OperationFamily::AddColumn,
                    row_path(before.table, before.primary_index, Seq::empty()),
                    GuardClass::Invariant,
                    GuardReason::ExistingRows,
                ),
            ) && guards.contains(
                guard_on(
                    OperationFamily::AddColumn,
                    write_revision_path(op.table),
                    GuardClass::Write,
                    GuardReason::WriteContract,
                ),
            )
        }),
{
    let column = op.delta->AddColumn_column;
    let name = op.delta->AddColumn_name;
    let before = op.delta->AddColumn_before;
    let after = op.delta->AddColumn_after;
    let family = OperationFamily::AddColumn;
    let all = add_emissions(op, column, name, before, after);
    if reads_column(after, column, read) && read != column && column_by_id(
        after.columns,
        read,
    ) is Some {
        let found = column_by_id(after.columns, read)->Some_0.name;
        let names = dependency_names(after, column);
        let key = column_name_path(op.table, found);
        let guard = Emission::Invariant(key, GuardReason::ColumnNameBinding);
        added_columns_depend_on_the_names_they_read(after, column, read);
        let k = choose|k: int| 0 <= k < names.len() && names[k] == found;
        assert(guard_name(op.table)(names[k])[0] == guard);
        lemma_gathered_has(names, guard_name(op.table), k, guard);
        lemma_add_parts(op, column, name, before, after, guard);
        lemma_emitted_guard(
            family,
            all,
            key,
            GuardClass::Invariant,
            GuardReason::ColumnNameBinding,
        );
    }
    if restricts_writes(after, column) {
        let rest = restrict_emissions(op, before);
        assert(rest.contains(rest[0]) && rest.contains(rest[1]));
        lemma_add_parts(op, column, name, before, after, rest[0]);
        lemma_add_parts(op, column, name, before, after, rest[1]);
        lemma_emitted_guard(
            family,
            all,
            write_revision_path(op.table),
            GuardClass::Write,
            GuardReason::WriteContract,
        );
        lemma_emitted_guard(
            family,
            all,
            row_path(before.table, before.primary_index, Seq::empty()),
            GuardClass::Invariant,
            GuardReason::ExistingRows,
        );
    }
}

/// Whether a key goes with a dropped column: its name, what depends on it, and
/// the markers on what the CHECKs that came with it read.
pub open spec fn goes_with_column(
    op: AlterView,
    column: Seq<u8>,
    name: Seq<char>,
    before: TableView,
    key: Path,
) -> bool {
    ||| key == column_name_path(op.table, name)
    ||| below(key, column_dependency_path(op.table, column))
    ||| exists|read: Seq<u8>| #[trigger]
        reads_column(before, column, read) && key == column_check_path(op.table, read, column)
}

/// The parts of what a dropped column emits.
proof fn lemma_drop_parts(
    op: AlterView,
    column: Seq<u8>,
    name: Seq<char>,
    before: TableView,
    after: TableView,
    key: Path,
    emission: Emission,
)
    ensures
        all_emit(
            drop_emissions(op, column, name, before, after),
            |emission: Emission|
                match emission {
                    Emission::Put(at, value) => (at == schema_log_path(op.mutation_id) && value
                        == alter_encoded(op)) || (at == table_schema_path(
                        op.table,
                        after.schema_revision,
                    ) && value == table_frame(after)),
                    _ => touches(emission, key) ==> goes_with_column(op, column, name, before, key),
                },
        ),
        emission == Emission::Put(schema_log_path(op.mutation_id), alter_encoded(op)) || emission
            == Emission::Put(
            table_schema_path(op.table, after.schema_revision),
            table_frame(after),
        ) || emission == Emission::Delete(column_name_path(op.table, name)) || emission
            == Emission::DeletePrefix(column_dependency_path(op.table, column)) || gathered(
            check_dependencies(before, column),
            drop_dependency(op.table, column),
        ).contains(emission) ==> drop_emissions(op, column, name, before, after).contains(emission),
{
    let test = |emission: Emission|
        match emission {
            Emission::Put(at, value) => (at == schema_log_path(op.mutation_id) && value
                == alter_encoded(op)) || (at == table_schema_path(op.table, after.schema_revision)
                && value == table_frame(after)),
            _ => touches(emission, key) ==> goes_with_column(op, column, name, before, key),
        };
    let reads = check_dependencies(before, column);
    let bound = column_name_path(op.table, name);
    let dependents = column_dependency_path(op.table, column);
    let head = seq![
        Emission::Invariant(bound, GuardReason::ColumnNameBinding),
        Emission::Put(schema_log_path(op.mutation_id), alter_encoded(op)),
        Emission::Delete(bound),
        Emission::Put(table_schema_path(op.table, after.schema_revision), table_frame(after)),
    ];
    let marks = gathered(reads, drop_dependency(op.table, column));
    let tail = seq![
        Emission::Invariant(dependents, GuardReason::ColumnDependency),
        Emission::Write(dependents, GuardReason::ColumnDependency),
        Emission::DeletePrefix(dependents),
    ];
    assert(head.contains(head[1]) && head.contains(head[2]) && head.contains(head[3]));
    assert(tail.contains(tail[2]));
    lemma_has_concat(head, marks, emission);
    lemma_has_concat(head + marks, tail, emission);
    assert(all_emit(head, test));
    assert forall|i: int| 0 <= i < reads.len() implies all_emit(
        drop_dependency(op.table, column)(#[trigger] reads[i]),
        test,
    ) by {
        assert(reads.contains(reads[i]));
        columns_depend_on_what_their_checks_read(before, column, reads[i]);
        assert(reads_column(before, column, reads[i]));
    }
    lemma_all_gathered(reads, drop_dependency(op.table, column), test);
    assert(all_emit(tail, test));
    lemma_all_concat(head, marks, test);
    lemma_all_concat(head + marks, tail, test);
}

/// Once a dropped column is carried out, no key that goes with the column holds
/// anything, the schema log holds the operation and the new revision the
/// definition, and every other key is as it was.
pub proof fn dropping_a_column_frees_its_keys(op: AlterView, space: Space, key: Path)
    requires
        op.delta is DropColumn,
    ensures
        ({
            let left = performed(space, mutations_of(alter_emissions(op)));
            let column = op.delta->DropColumn_column;
            let name = op.delta->DropColumn_name;
            let before = op.delta->DropColumn_before;
            let after = op.delta->DropColumn_after;
            let log = schema_log_path(op.mutation_id);
            let schema = table_schema_path(op.table, after.schema_revision);
            &&& key == log ==> left(key) == Some(alter_encoded(op))
            &&& key == schema ==> left(key) == Some(table_frame(after))
            &&& goes_with_column(op, column, name, before, key) ==> left(key) is None
            &&& key != log && key != schema && !goes_with_column(op, column, name, before, key)
                ==> left(key) == space(key)
        }),
{
    broadcast use layout_families;

    let column = op.delta->DropColumn_column;
    let name = op.delta->DropColumn_name;
    let before = op.delta->DropColumn_before;
    let after = op.delta->DropColumn_after;
    let log = schema_log_path(op.mutation_id);
    let schema = table_schema_path(op.table, after.schema_revision);
    let dependents = column_dependency_path(op.table, column);
    let all = drop_emissions(op, column, name, before, after);
    let test = |emission: Emission|
        match emission {
            Emission::Put(at, value) => (at == schema_log_path(op.mutation_id) && value
                == alter_encoded(op)) || (at == table_schema_path(op.table, after.schema_revision)
                && value == table_frame(after)),
            _ => touches(emission, key) ==> goes_with_column(op, column, name, before, key),
        };
    assert(performed(space, mutations_of(all))(key) == left_by(space, all, key));
    assert(goes_with_column(op, column, name, before, key) ==> key != log && key != schema) by {
        lemma_labels();
        if below(key, dependents) {
            assert(key.subrange(0, 5)[3] == dependents[3]);
            assert(key[3] == label(codes::COLUMN_DEPENDENCIES));
            if key == schema {
                assert(key[3] == label(codes::SCHEMA));
            }
        }
    }
    lemma_drop_parts(op, column, name, before, after, key, Emission::Delete(key));
    assert(all_emit(all, test));
    if key == log {
        lemma_drop_parts(
            op,
            column,
            name,
            before,
            after,
            key,
            Emission::Put(key, alter_encoded(op)),
        );
        assert forall|i: int| 0 <= i < all.len() implies agrees(key, alter_encoded(op))(
            #[trigger] all[i],
        ) by {
            assert(test(all[i]));
        }
        lemma_put(space, all, key, alter_encoded(op));
    } else if key == schema {
        lemma_drop_parts(
            op,
            column,
            name,
            before,
            after,
            key,
            Emission::Put(key, table_frame(after)),
        );
        assert forall|i: int| 0 <= i < all.len() implies agrees(key, table_frame(after))(
            #[trigger] all[i],
        ) by {
            assert(test(all[i]));
        }
        lemma_put(space, all, key, table_frame(after));
    } else if goes_with_column(op, column, name, before, key) {
        assert forall|i: int| 0 <= i < all.len() implies puts_nothing_at(key)(#[trigger] all[i]) by {
            assert(test(all[i]));
        }
        if below(key, dependents) {
            let emission = Emission::DeletePrefix(dependents);
            lemma_drop_parts(op, column, name, before, after, key, emission);
            lemma_freed(space, all, key, emission);
        } else {
            let emission = Emission::Delete(key);
            if key != column_name_path(op.table, name) {
                let read = choose|read: Seq<u8>| #[trigger]
                    reads_column(before, column, read) && key == column_check_path(
                        op.table,
                        read,
                        column,
                    );
                let reads = check_dependencies(before, column);
                columns_depend_on_what_their_checks_read(before, column, read);
                let k = choose|k: int| 0 <= k < reads.len() && reads[k] == read;
                assert(drop_dependency(op.table, column)(reads[k])[2] == emission);
                lemma_gathered_has(reads, drop_dependency(op.table, column), k, emission);
            }
            lemma_freed(space, all, key, emission);
        }
    } else {
        assert forall|i: int| 0 <= i < all.len() implies spares(key)(#[trigger] all[i]) by {
            assert(test(all[i]));
        }
        lemma_spared(space, all, key);
    }
}

/// Adding a column where nothing of it is there yet, and then dropping it,
/// leaves every key as it was but for the schema log, the two new revisions, and
/// the write revision where the column restricted what may be written.
pub proof fn dropping_an_added_column_restores_the_key_space(
    added: AlterView,
    dropped: AlterView,
    space: Space,
    key: Path,
)
    requires
        added.delta is AddColumn,
        dropped.delta is DropColumn,
        added.table == dropped.table,
        added.delta->AddColumn_column == dropped.delta->DropColumn_column,
        added.delta->AddColumn_name == dropped.delta->DropColumn_name,
        added.delta->AddColumn_after == dropped.delta->DropColumn_before,
        goes_with_column(
            dropped,
            dropped.delta->DropColumn_column,
            dropped.delta->DropColumn_name,
            dropped.delta->DropColumn_before,
            key,
        ) ==> space(key) is None,
        key != schema_log_path(added.mutation_id),
        key != schema_log_path(dropped.mutation_id),
        key != table_schema_path(added.table, added.delta->AddColumn_after.schema_revision),
        key != table_schema_path(added.table, dropped.delta->DropColumn_after.schema_revision),
        key != write_revision_path(added.table),
    ensures
        performed(
            performed(space, mutations_of(alter_emissions(added))),
            mutations_of(alter_emissions(dropped)),
        )(key) == space(key),
{
    let between = performed(space, mutations_of(alter_emissions(added)));
    let column = added.delta->AddColumn_column;
    let name = added.delta->AddColumn_name;
    let after = added.delta->AddColumn_after;
    dropping_a_column_frees_its_keys(dropped, between, key);
    if !goes_with_column(dropped, column, name, after, key) {
        assert forall|other: Seq<u8>| !added_at(added, column, name, after, key, other) by {
        }
        adding_a_column_binds_its_keys(added, space, key, Seq::empty());
    }
}

} // verus!
