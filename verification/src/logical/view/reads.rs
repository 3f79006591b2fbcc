//! Laws on the preparation of a view's changes: what a view reads, and when it
//! can be changed.

use super::frame::{ViewAction, ViewColumnView, ViewDependencyView, ViewOperationView};
use super::operation::{
    created_view, dropped_view, reference_fault, resolved_dependencies, resolved_dependency,
    resolved_view_column, view_fault,
};
use super::steps::{
    column_dependency_fault, create_plan, dependencies_fault, drop_plan, one_dependency_fault,
    view_applied, view_rolled_back,
};
use crate::attempt::lemma_try_map_ok;
use crate::catalog::{current_column_name, current_name, table_named, CatalogEntryView};
use crate::error::ErrorView;
use crate::logical::schema::statement::{
    reading_of, statement_of, CreateViewView, DropViewView, ParsedTexts, StatementView,
};
use crate::name::canonical_bytes;
use crate::sqlite::{quoted, quoting_is_injective};
use vstd::prelude::*;

verus! {

/// Whether a dependency is the table that a name binds now, with every column of
/// the table under the name that the column has now.
pub open spec fn reads_table(
    tables: Seq<CatalogEntryView>,
    dependency: ViewDependencyView,
    name: Seq<char>,
) -> bool {
    &&& dependency.name == name
    &&& table_named(tables, name) is Some
    &&& dependency.table == table_named(tables, name)->Some_0.table
    &&& dependency.columns.len() == table_named(tables, name)->Some_0.columns.len()
    &&& forall|c: int|
        0 <= c < dependency.columns.len() ==> (#[trigger] dependency.columns[c]).column
            == table_named(tables, name)->Some_0.columns[c].id && current_column_name(
            tables,
            dependency.table,
            dependency.columns[c].column,
        ) == Some(dependency.columns[c].name)
}

/// Resolved dependencies are the tables that the names bind, one for one.
proof fn lemma_resolved(tables: Seq<CatalogEntryView>, names: Seq<Seq<char>>)
    requires
        resolved_dependencies(tables, names) is Ok,
    ensures
        resolved_dependencies(tables, names)->Ok_0.len() == names.len(),
        forall|d: int|
            0 <= d < names.len() ==> reads_table(
                tables,
                #[trigger] resolved_dependencies(tables, names)->Ok_0[d],
                names[d],
            ),
{
    let found = resolved_dependencies(tables, names)->Ok_0;
    let f = resolved_dependency(tables);
    lemma_try_map_ok(names, f);
    assert forall|d: int| 0 <= d < names.len() implies reads_table(
        tables,
        #[trigger] found[d],
        names[d],
    ) by {
        assert(f(names[d]) == Ok::<ViewDependencyView, ErrorView>(found[d]));
        let table = table_named(tables, names[d])->Some_0;
        let g = resolved_view_column(tables, table.table);
        lemma_try_map_ok(table.columns, g);
        let columns = found[d].columns;
        assert forall|c: int| 0 <= c < columns.len() implies (#[trigger] columns[c]).column
            == table.columns[c].id && current_column_name(tables, table.table, columns[c].column)
            == Some(columns[c].name) by {
            assert(g(table.columns[c]) == Ok::<ViewColumnView, ErrorView>(columns[c]));
        }
    }
}

/// The creation of a view keeps the statement and its name, and reads exactly
/// the tables that the statement names, each found in the catalog, with all
/// their columns.
pub proof fn created_views_read_what_they_name(
    mutation: Seq<u8>,
    tables: Seq<CatalogEntryView>,
    parsed: ParsedTexts,
    sql: Seq<char>,
    spec: CreateViewView,
)
    ensures
        created_view(mutation, tables, parsed, sql, spec) matches Ok(op) ==> {
            &&& op.mutation_id == mutation
            &&& op.action == ViewAction::Create
            &&& op.name == spec.name
            &&& op.create_sql == sql
            &&& op.dependencies.len() == spec.dependencies.len()
            &&& forall|d: int|
                0 <= d < op.dependencies.len() ==> reads_table(
                    tables,
                    #[trigger] op.dependencies[d],
                    spec.dependencies[d],
                )
        },
        (exists|d: int|
            0 <= d < spec.dependencies.len() && table_named(
                tables,
                #[trigger] spec.dependencies[d],
            ) is None) ==> created_view(mutation, tables, parsed, sql, spec) is Err,
{
    if resolved_dependencies(tables, spec.dependencies) is Ok {
        lemma_resolved(tables, spec.dependencies);
        assert forall|d: int| 0 <= d < spec.dependencies.len() implies table_named(
            tables,
            #[trigger] spec.dependencies[d],
        ) is Some by {
            let found = resolved_dependencies(tables, spec.dependencies)->Ok_0;
            assert(reads_table(tables, found[d], spec.dependencies[d]));
        }
    }
}

/// The drop of a view is that of a view that the database stores, under a name
/// that binds alike; it keeps the stored statement, and reads exactly the tables
/// that this names.
pub proof fn dropped_views_read_what_was_stored(
    mutation: Seq<u8>,
    tables: Seq<CatalogEntryView>,
    parsed: ParsedTexts,
    stored: Option<Seq<char>>,
    spec: DropViewView,
)
    ensures
        stored is None ==> dropped_view(mutation, tables, parsed, stored, spec) is Err,
        dropped_view(mutation, tables, parsed, stored, spec) matches Ok(op) ==> {
            &&& op.mutation_id == mutation
            &&& op.action == ViewAction::Drop
            &&& op.name == spec.name
            &&& stored == Some(op.create_sql)
            &&& statement_of(parsed, op.create_sql) matches Some(StatementView::CreateView(created))
                && {
                &&& canonical_bytes(created.name) == canonical_bytes(spec.name)
                &&& op.dependencies.len() == created.dependencies.len()
                &&& forall|d: int|
                    0 <= d < op.dependencies.len() ==> reads_table(
                        tables,
                        #[trigger] op.dependencies[d],
                        created.dependencies[d],
                    )
            }
        },
{
    if dropped_view(mutation, tables, parsed, stored, spec) is Ok {
        if let Ok(StatementView::CreateView(created)) = reading_of(parsed, stored->Some_0) {
            lemma_resolved(tables, created.dependencies);
        }
    }
}

/// A change of a view is borne out only where its statement creates a view of
/// that name that reads those tables, where it reads a table, and where no table
/// or column is read twice.
pub proof fn borne_out_views_are_sound(
    op: ViewOperationView,
    parsed: ParsedTexts,
    d: int,
    e: int,
    a: int,
    b: int,
)
    requires
        view_fault(op, statement_of(parsed, op.create_sql)) is None,
        0 <= d < e < op.dependencies.len(),
        0 <= a < b < op.dependencies[d].columns.len(),
    ensures
        op.dependencies[d].table != op.dependencies[e].table,
        canonical_bytes(op.dependencies[d].name) != canonical_bytes(op.dependencies[e].name),
        op.dependencies[d].columns[a].column != op.dependencies[d].columns[b].column,
        canonical_bytes(op.dependencies[d].columns[a].name) != canonical_bytes(
            op.dependencies[d].columns[b].name,
        ),
        statement_of(parsed, op.create_sql) matches Some(StatementView::CreateView(spec))
            && spec.name == op.name && spec.dependencies.len() == op.dependencies.len()
            && spec.dependencies[d] == op.dependencies[d].name,
{
    let dependency = op.dependencies[d];
    let other = op.dependencies[e];
    let first = dependency.columns[a];
    let second = dependency.columns[b];
    assert(dependency.table != other.table);
    assert(first.column != second.column);
}

/// Whether a table that a view reads still has the name that the view reads it
/// by, and each of its columns too.
pub open spec fn still_reads(
    tables: Seq<CatalogEntryView>,
    dependency: ViewDependencyView,
) -> bool {
    &&& current_name(tables, dependency.table) is Some
    &&& canonical_bytes(current_name(tables, dependency.table)->Some_0) == canonical_bytes(
        dependency.name,
    )
    &&& forall|c: int|
        0 <= c < dependency.columns.len() ==> still_named(
            tables,
            dependency.table,
            #[trigger] dependency.columns[c],
        )
}

/// Whether a column still has the name that a view reads it by.
pub open spec fn still_named(
    tables: Seq<CatalogEntryView>,
    table: Seq<u8>,
    column: ViewColumnView,
) -> bool {
    current_column_name(tables, table, column.column) is Some && canonical_bytes(
        current_column_name(tables, table, column.column)->Some_0,
    ) == canonical_bytes(column.name)
}

/// Columns have no fault exactly where each still has its name.
proof fn lemma_columns_read(
    tables: Seq<CatalogEntryView>,
    table: Seq<u8>,
    columns: Seq<ViewColumnView>,
)
    ensures
        column_dependency_fault(tables, table, columns) is None <==> forall|c: int|
            0 <= c < columns.len() ==> still_named(tables, table, #[trigger] columns[c]),
    decreases columns.len(),
{
    if columns.len() > 0 {
        let init = columns.drop_last();
        lemma_columns_read(tables, table, init);
        assert(columns[columns.len() - 1] == columns.last());
        if column_dependency_fault(tables, table, columns) is None {
            assert forall|c: int| 0 <= c < columns.len() implies still_named(
                tables,
                table,
                #[trigger] columns[c],
            ) by {
                if c < init.len() {
                    assert(init[c] == columns[c]);
                }
            }
        }
        if forall|c: int|
            0 <= c < columns.len() ==> still_named(tables, table, #[trigger] columns[c]) {
            assert forall|c: int| 0 <= c < init.len() implies still_named(
                tables,
                table,
                #[trigger] init[c],
            ) by {
                assert(init[c] == columns[c]);
            }
            assert(still_named(tables, table, columns[columns.len() - 1]));
        }
    }
}

/// What a view reads is as it was exactly where every table, and every column of
/// it that is read, still has the name that it is read by.
pub proof fn dependencies_hold_while_names_hold(
    tables: Seq<CatalogEntryView>,
    dependencies: Seq<ViewDependencyView>,
)
    ensures
        dependencies_fault(tables, dependencies) is None <==> forall|d: int|
            0 <= d < dependencies.len() ==> still_reads(tables, #[trigger] dependencies[d]),
    decreases dependencies.len(),
{
    if dependencies.len() > 0 {
        let init = dependencies.drop_last();
        let last = dependencies.last();
        dependencies_hold_while_names_hold(tables, init);
        lemma_columns_read(tables, last.table, last.columns);
        assert(dependencies[dependencies.len() - 1] == last);
        assert(one_dependency_fault(tables, last) is None <==> still_reads(tables, last));
        if dependencies_fault(tables, dependencies) is None {
            assert forall|d: int| 0 <= d < dependencies.len() implies still_reads(
                tables,
                #[trigger] dependencies[d],
            ) by {
                if d < init.len() {
                    assert(init[d] == dependencies[d]);
                }
            }
        }
        if forall|d: int|
            0 <= d < dependencies.len() ==> still_reads(tables, #[trigger] dependencies[d]) {
            assert forall|d: int| 0 <= d < init.len() implies still_reads(
                tables,
                #[trigger] init[d],
            ) by {
                assert(init[d] == dependencies[d]);
            }
            assert(still_reads(tables, dependencies[dependencies.len() - 1]));
        }
    }
}

/// Whether a stored text creates a view that does not read a table.
pub open spec fn reads_other_tables(parsed: ParsedTexts, sql: Seq<char>, table: Seq<char>) -> bool {
    statement_of(parsed, sql) matches Some(StatementView::CreateView(view)) && forall|i: int|
        0 <= i < view.dependencies.len() ==> canonical_bytes(#[trigger] view.dependencies[i])
            != canonical_bytes(table)
}

/// A table is free of views exactly where every stored text creates a view, and
/// none of them reads the table.
pub proof fn referenced_tables_are_refused(
    stored: Seq<Seq<char>>,
    parsed: ParsedTexts,
    table: Seq<char>,
)
    ensures
        reference_fault(stored, parsed, table) is None <==> forall|i: int|
            0 <= i < stored.len() ==> reads_other_tables(parsed, #[trigger] stored[i], table),
    decreases stored.len(),
{
    if stored.len() > 0 {
        let init = stored.drop_last();
        let last = stored.last();
        referenced_tables_are_refused(init, parsed, table);
        assert(stored[stored.len() - 1] == last);
        if reference_fault(stored, parsed, table) is None {
            assert forall|i: int| 0 <= i < stored.len() implies reads_other_tables(
                parsed,
                #[trigger] stored[i],
                table,
            ) by {
                if i < init.len() {
                    assert(init[i] == stored[i]);
                }
            }
        }
        if forall|i: int|
            0 <= i < stored.len() ==> reads_other_tables(parsed, #[trigger] stored[i], table) {
            assert forall|i: int| 0 <= i < init.len() implies reads_other_tables(
                parsed,
                #[trigger] init[i],
                table,
            ) by {
                assert(init[i] == stored[i]);
            }
            assert(reads_other_tables(parsed, stored[stored.len() - 1], table));
        }
    }
}

/// A view is created, at first or again, only where everything it reads is as it
/// was, and dropped only where the database has a view under its name; a dropped
/// view comes back only where the name is free. What is run creates the view by
/// its statement, or drops the view of that name and no other.
pub proof fn view_changes_run_where_they_can(
    op: ViewOperationView,
    other: ViewOperationView,
    parsed: ParsedTexts,
    tables: Seq<CatalogEntryView>,
    actual: Option<Seq<char>>,
)
    ensures
        view_applied(op, parsed, tables, actual) is Ok ==> view_fault(
            op,
            statement_of(parsed, op.create_sql),
        ) is None,
        op.action == ViewAction::Create ==> (view_applied(op, parsed, tables, actual) matches Ok(
            plan,
        ) ==> plan.execute == op.create_sql && plan.probe is Some && forall|d: int|
            0 <= d < op.dependencies.len() ==> still_reads(tables, #[trigger] op.dependencies[d])),
        op.action == ViewAction::Drop ==> (view_applied(op, parsed, tables, actual) is Ok ==> actual
            == Some("view"@)),
        op.action == ViewAction::Create ==> (view_rolled_back(op, tables, actual) is Ok <==> actual
            == Some("view"@)),
        op.action == ViewAction::Drop ==> (view_rolled_back(op, tables, actual) is Ok <==> actual
            is None && forall|d: int|
            0 <= d < op.dependencies.len() ==> still_reads(tables, #[trigger] op.dependencies[d])),
        op.action == ViewAction::Drop ==> (view_rolled_back(op, tables, actual) matches Ok(plan)
            ==> plan.execute == op.create_sql && plan.probe is Some),
        drop_plan(op).execute == drop_plan(other).execute <==> op.name == other.name,
        create_plan(op).probe == create_plan(other).probe <==> op.name == other.name,
{
    dependencies_hold_while_names_hold(tables, op.dependencies);
    let a = drop_plan(op).execute;
    let b = drop_plan(other).execute;
    let head = "DROP VIEW "@;
    if a == b {
        assert(a.subrange(head.len() as int, a.len() as int) =~= quoted(op.name));
        assert(b.subrange(head.len() as int, b.len() as int) =~= quoted(other.name));
        quoting_is_injective(op.name, other.name);
    }
    let a = create_plan(op).probe->Some_0;
    let b = create_plan(other).probe->Some_0;
    let head = "SELECT * FROM "@;
    let tail = " LIMIT 0"@;
    if a == b {
        assert(a.subrange(head.len() as int, a.len() - tail.len()) =~= quoted(op.name));
        assert(b.subrange(head.len() as int, b.len() - tail.len()) =~= quoted(other.name));
        quoting_is_injective(op.name, other.name);
    }
}

} // verus!
