//! Laws on the changes of a view: what they leave of the key space.

use super::frame::{view_operation_frame, ViewAction, ViewDependencyView, ViewOperationView};
use super::lower::{column_emissions, dependency_emissions, hold_name, mark, view_emissions};
use crate::key::Path;
use crate::logical::contract::{GuardClass, GuardReason, OperationFamily};
use crate::logical::guard::guard_on;
use crate::logical::layout::{
    column_name_path, column_view_path, layout_families, object_name_path, schema_log_path,
    view_path,
};
use crate::logical::lowering::{
    all_emit, gathered, guards_of, lemma_all_concat, lemma_all_gathered, lemma_emitted_guard,
    lemma_gathered_has, lemma_has_concat, mutations_of, Emission,
};
use crate::logical::space::{
    agrees, left_by, lemma_freed, lemma_put, lemma_spared, performed, puts_nothing_at, spares,
    Space,
};
use vstd::prelude::*;
use vstd::utf8::encode_utf8;

verus! {

/// Whether a key is a view's marker on a table that it reads, or on a column of
/// that table.
pub open spec fn marks_dependency(
    op: ViewOperationView,
    dependency: ViewDependencyView,
    key: Path,
) -> bool {
    ||| key == view_path(dependency.table, op.name)
    ||| exists|c: int|
        0 <= c < dependency.columns.len() && key == column_view_path(
            dependency.table,
            (#[trigger] dependency.columns[c]).column,
            op.name,
        )
}

/// Whether a key is one of a view's markers on what it reads.
pub open spec fn marks_read(op: ViewOperationView, key: Path) -> bool {
    exists|d: int|
        0 <= d < op.dependencies.len() && marks_dependency(
            op,
            #[trigger] op.dependencies[d],
            key,
        )
}

/// What a view's markers hold: its name holds what kind of object it is, and a
/// marker on what it reads holds the change that set it.
pub open spec fn marker_value(op: ViewOperationView, key: Path) -> Seq<u8> {
    if key == object_name_path(op.name) {
        encode_utf8("view"@)
    } else {
        op.mutation_id
    }
}

/// Whether an emission only marks the keys that a view marks.
spec fn marks_only(op: ViewOperationView) -> spec_fn(Emission) -> bool {
    |emission: Emission|
        match emission {
            Emission::Put(at, value) => if at == schema_log_path(op.mutation_id) {
                value == view_operation_frame(op)
            } else {
                op.action == ViewAction::Create && value == marker_value(op, at) && (at
                    == object_name_path(op.name) || marks_read(op, at))
            },
            Emission::Delete(at) => op.action == ViewAction::Drop && (at == object_name_path(
                op.name,
            ) || marks_read(op, at)),
            Emission::DeletePrefix(_) => false,
            _ => true,
        }
}

/// What one column of a dependency emits only marks.
proof fn lemma_column_marks(op: ViewOperationView, d: int, c: int)
    requires
        0 <= d < op.dependencies.len(),
        0 <= c < op.dependencies[d].columns.len(),
    ensures
        all_emit(
            column_emissions(op, op.dependencies[d].table)(op.dependencies[d].columns[c]),
            marks_only(op),
        ),
{
    broadcast use layout_families;

    let dependency = op.dependencies[d];
    let column = dependency.columns[c];
    let marker = column_view_path(dependency.table, column.column, op.name);
    let emitted = column_emissions(op, dependency.table)(column);
    assert(marks_dependency(op, dependency, marker));
    assert(marks_read(op, marker));
    assert(marker != object_name_path(op.name));
    assert(marker != schema_log_path(op.mutation_id));
    assert forall|j: int| 0 <= j < emitted.len() implies marks_only(op)(#[trigger] emitted[j]) by {
        if j >= 3 {
            assert(emitted[j] == hold_name(
                op.action,
                column_name_path(dependency.table, column.name),
            )[j - 3]);
        }
    }
}

/// What one dependency emits only marks.
proof fn lemma_dependency_marks(op: ViewOperationView, d: int)
    requires
        0 <= d < op.dependencies.len(),
    ensures
        all_emit(dependency_emissions(op)(op.dependencies[d]), marks_only(op)),
{
    broadcast use layout_families;

    let dependency = op.dependencies[d];
    let marker = view_path(dependency.table, op.name);
    let test = marks_only(op);
    let f = column_emissions(op, dependency.table);
    assert(marks_dependency(op, dependency, marker));
    assert(marks_read(op, marker));
    assert(marker != object_name_path(op.name));
    assert(marker != schema_log_path(op.mutation_id));
    let first = seq![
        Emission::Invariant(marker, GuardReason::ViewDependency),
        mark(op.action, marker, op.mutation_id),
    ];
    let hold = hold_name(op.action, object_name_path(dependency.name));
    assert(all_emit(first, test));
    assert(all_emit(hold, test));
    lemma_all_concat(first, hold, test);
    assert forall|c: int| 0 <= c < dependency.columns.len() implies all_emit(
        f(#[trigger] dependency.columns[c]),
        test,
    ) by {
        lemma_column_marks(op, d, c);
    }
    lemma_all_gathered(dependency.columns, f, test);
    lemma_all_concat(first + hold, gathered(dependency.columns, f), test);
}

/// What a change of a view emits only marks.
proof fn lemma_view_marks(op: ViewOperationView)
    ensures
        all_emit(view_emissions(op), marks_only(op)),
{
    broadcast use layout_families;

    let test = marks_only(op);
    let name = object_name_path(op.name);
    let head = seq![
        Emission::Invariant(name, GuardReason::SchemaObjectName),
        Emission::Put(schema_log_path(op.mutation_id), view_operation_frame(op)),
    ];
    let tail = seq![mark(op.action, name, encode_utf8("view"@))];
    let f = dependency_emissions(op);
    assert(name != schema_log_path(op.mutation_id));
    assert(all_emit(head, test));
    assert(all_emit(tail, test));
    assert forall|d: int| 0 <= d < op.dependencies.len() implies all_emit(
        f(#[trigger] op.dependencies[d]),
        test,
    ) by {
        lemma_dependency_marks(op, d);
    }
    lemma_all_gathered(op.dependencies, f, test);
    lemma_all_concat(head, gathered(op.dependencies, f), test);
    lemma_all_concat(head + gathered(op.dependencies, f), tail, test);
}

/// What a dependency emits is among what the change emits.
proof fn lemma_view_has(op: ViewOperationView, d: int, emission: Emission)
    requires
        0 <= d < op.dependencies.len(),
        dependency_emissions(op)(op.dependencies[d]).contains(emission),
    ensures
        view_emissions(op).contains(emission),
{
    let name = object_name_path(op.name);
    let head = seq![
        Emission::Invariant(name, GuardReason::SchemaObjectName),
        Emission::Put(schema_log_path(op.mutation_id), view_operation_frame(op)),
    ];
    let tail = seq![mark(op.action, name, encode_utf8("view"@))];
    let f = dependency_emissions(op);
    lemma_gathered_has(op.dependencies, f, d, emission);
    lemma_has_concat(head, gathered(op.dependencies, f), emission);
    lemma_has_concat(head + gathered(op.dependencies, f), tail, emission);
}

/// Every marker of a view is marked by its change.
proof fn lemma_view_marked(op: ViewOperationView, key: Path)
    requires
        marks_read(op, key) || key == object_name_path(op.name),
    ensures
        view_emissions(op).contains(mark(op.action, key, marker_value(op, key))),
{
    broadcast use layout_families;

    let wanted = mark(op.action, key, marker_value(op, key));
    if key == object_name_path(op.name) {
        let all = view_emissions(op);
        assert(all[all.len() - 1] == wanted);
    } else {
        let d = choose|d: int|
            0 <= d < op.dependencies.len() && marks_dependency(
                op,
                #[trigger] op.dependencies[d],
                key,
            );
        let dependency = op.dependencies[d];
        let emitted = dependency_emissions(op)(dependency);
        let f = column_emissions(op, dependency.table);
        let first = seq![
            Emission::Invariant(view_path(dependency.table, op.name), GuardReason::ViewDependency),
            mark(op.action, view_path(dependency.table, op.name), op.mutation_id),
        ] + hold_name(op.action, object_name_path(dependency.name));
        if key == view_path(dependency.table, op.name) {
            assert(emitted[1] == wanted);
        } else {
            let c = choose|c: int|
                0 <= c < dependency.columns.len() && key == column_view_path(
                    dependency.table,
                    (#[trigger] dependency.columns[c]).column,
                    op.name,
                );
            assert(f(dependency.columns[c])[2] == wanted);
            lemma_gathered_has(dependency.columns, f, c, wanted);
            lemma_has_concat(first, gathered(dependency.columns, f), wanted);
        }
        lemma_view_has(op, d, wanted);
    }
}

/// A change of a view puts its operation in the schema log. A creation sets the
/// view's name and its markers on everything it reads; a drop frees all of
/// them. Every other key is as it was.
pub proof fn view_changes_mark_what_is_read(op: ViewOperationView, space: Space, key: Path)
    ensures
        ({
            let after = performed(space, mutations_of(view_emissions(op)));
            let log = schema_log_path(op.mutation_id);
            let marked = key == object_name_path(op.name) || marks_read(op, key);
            &&& key == log ==> after(key) == Some(view_operation_frame(op))
            &&& marked && op.action == ViewAction::Create ==> after(key) == Some(
                marker_value(op, key),
            )
            &&& marked && op.action == ViewAction::Drop ==> after(key) is None
            &&& key != log && !marked ==> after(key) == space(key)
        }),
{
    broadcast use layout_families;

    let all = view_emissions(op);
    let log = schema_log_path(op.mutation_id);
    let marked = key == object_name_path(op.name) || marks_read(op, key);
    lemma_view_marks(op);
    assert(performed(space, mutations_of(all))(key) == left_by(space, all, key));
    assert(marked ==> key != log) by {
        if marks_read(op, key) {
            let d = choose|d: int|
                0 <= d < op.dependencies.len() && marks_dependency(
                    op,
                    #[trigger] op.dependencies[d],
                    key,
                );
        }
    }
    if key == log {
        assert forall|i: int| 0 <= i < all.len() implies agrees(key, view_operation_frame(op))(
            #[trigger] all[i],
        ) by {
            assert(marks_only(op)(all[i]));
        }
        assert(all[1] == Emission::Put(key, view_operation_frame(op)));
        lemma_put(space, all, key, view_operation_frame(op));
    } else if !marked {
        assert forall|i: int| 0 <= i < all.len() implies spares(key)(#[trigger] all[i]) by {
            assert(marks_only(op)(all[i]));
        }
        lemma_spared(space, all, key);
    } else {
        let value = marker_value(op, key);
        lemma_view_marked(op, key);
        match op.action {
            ViewAction::Create => {
                assert forall|i: int| 0 <= i < all.len() implies agrees(key, value)(
                    #[trigger] all[i],
                ) by {
                    assert(marks_only(op)(all[i]));
                }
                lemma_put(space, all, key, value);
            },
            ViewAction::Drop => {
                assert forall|i: int| 0 <= i < all.len() implies puts_nothing_at(key)(
                    #[trigger] all[i],
                ) by {
                    assert(marks_only(op)(all[i]));
                }
                lemma_freed(space, all, key, Emission::Delete(key));
            },
        }
    }
}

/// Creating a view where its name and markers are free, and then dropping it,
/// leaves every key but the two entries of the schema log as it was.
pub proof fn dropping_a_created_view_restores_the_key_space(
    created: ViewOperationView,
    dropped: ViewOperationView,
    space: Space,
    key: Path,
)
    requires
        created.action == ViewAction::Create,
        dropped.action == ViewAction::Drop,
        created.name == dropped.name,
        created.dependencies == dropped.dependencies,
        key == object_name_path(created.name) || marks_read(created, key) ==> space(key) is None,
        key != schema_log_path(created.mutation_id),
        key != schema_log_path(dropped.mutation_id),
    ensures
        performed(
            performed(space, mutations_of(view_emissions(created))),
            mutations_of(view_emissions(dropped)),
        )(key) == space(key),
{
    let between = performed(space, mutations_of(view_emissions(created)));
    view_changes_mark_what_is_read(created, space, key);
    view_changes_mark_what_is_read(dropped, between, key);
    assert(marks_read(created, key) == marks_read(dropped, key)) by {
        assert forall|d: int| 0 <= d < created.dependencies.len() implies marks_dependency(
            created,
            #[trigger] created.dependencies[d],
            key,
        ) == marks_dependency(dropped, created.dependencies[d], key) by {
        }
    }
}

/// The creation of a view guards what it reads against renaming: the name of
/// every table, and the name of every column.
pub proof fn created_views_hold_the_names_they_read(op: ViewOperationView, d: int)
    requires
        op.action == ViewAction::Create,
        0 <= d < op.dependencies.len(),
    ensures
        guards_of(OperationFamily::CreateView, view_emissions(op)).contains(
            guard_on(
                OperationFamily::CreateView,
                object_name_path(op.dependencies[d].name),
                GuardClass::Invariant,
                GuardReason::ViewDependency,
            ),
        ),
        forall|c: int|
            0 <= c < op.dependencies[d].columns.len() ==> guards_of(
                OperationFamily::CreateView,
                view_emissions(op),
            ).contains(
                guard_on(
                    OperationFamily::CreateView,
                    column_name_path(
                        op.dependencies[d].table,
                        (#[trigger] op.dependencies[d].columns[c]).name,
                    ),
                    GuardClass::Invariant,
                    GuardReason::ViewDependency,
                ),
            ),
{
    let dependency = op.dependencies[d];
    let f = column_emissions(op, dependency.table);
    let all = view_emissions(op);
    let emitted = dependency_emissions(op)(dependency);
    let name = object_name_path(dependency.name);
    assert(emitted[2] == Emission::Invariant(name, GuardReason::ViewDependency));
    lemma_view_has(op, d, Emission::Invariant(name, GuardReason::ViewDependency));
    lemma_emitted_guard(
        OperationFamily::CreateView,
        all,
        name,
        GuardClass::Invariant,
        GuardReason::ViewDependency,
    );
    assert forall|c: int| 0 <= c < dependency.columns.len() implies guards_of(
        OperationFamily::CreateView,
        all,
    ).contains(
        guard_on(
            OperationFamily::CreateView,
            column_name_path(dependency.table, (#[trigger] dependency.columns[c]).name),
            GuardClass::Invariant,
            GuardReason::ViewDependency,
        ),
    ) by {
        let key = column_name_path(dependency.table, dependency.columns[c].name);
        let wanted = Emission::Invariant(key, GuardReason::ViewDependency);
        assert(f(dependency.columns[c])[3] == wanted);
        lemma_gathered_has(dependency.columns, f, c, wanted);
        let first = seq![
            Emission::Invariant(view_path(dependency.table, op.name), GuardReason::ViewDependency),
            mark(op.action, view_path(dependency.table, op.name), op.mutation_id),
        ] + hold_name(op.action, name);
        lemma_has_concat(first, gathered(dependency.columns, f), wanted);
        lemma_view_has(op, d, wanted);
        lemma_emitted_guard(
            OperationFamily::CreateView,
            all,
            key,
            GuardClass::Invariant,
            GuardReason::ViewDependency,
        );
    }
}

} // verus!
