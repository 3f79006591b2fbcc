//! What alterations keep and undo.

use super::lower::{
    add_dependency, alter_emissions, alter_family, drop_dependency, guard_name, restrict_emissions,
};
use super::operation::{alter_encoded, AlterView, DeltaView};
use super::record::{bound_ids, changed, landing, other_binding, place_of, rebound};
use super::steps::{record_change, rollback_change};
use crate::catalog::{BindingView, CatalogEntryView};
use crate::each::lemma_filter_push;
use crate::identity::random_uuid;
use crate::key::{MutationView, Path, RangeView};
use crate::logical::contract::{
    requires_guard, GuardClass, GuardContract, GuardReason, MutationKind, OperationFamily,
};
use crate::logical::guard::{
    compiled_fault, guard_requirements, has_guard, has_shape, lemma_mutations_fault,
    mutation_fault, mutation_guarded, mutations_fault, required_present,
};
use crate::logical::layout::{
    column_dependency_path, column_name_path, layout_families, object_name_path, schema_log_path,
    table_schema_path,
};
use crate::logical::lowering::{
    emission_guarded, emission_permitted, emits_guard, emits_required, gathered, guards_of,
    lemma_emissions_compile, lemma_emitted_guard, lemma_emitted_mutation, mutations_of, plan_of,
    Emission,
};
use crate::logical::schema::definition::{column_ids, table_frame, TableView};
use crate::logical::schema::depend::{check_dependencies, dependency_names, restricts_writes};
use crate::logical::schema::evolve::{
    evolved, lemma_evolved_twice, name_token, other_check, other_column,
};
use crate::logical::target::{classified, TargetFamily};
use vstd::prelude::*;

verus! {

/// A renaming that is lowered stays within the contract of its family: every
/// mutation is permitted and guarded.
pub proof fn lowered_renames_compile(op: AlterView)
    requires
        op.delta is RenameTable || op.delta is RenameColumn,
    ensures
        compiled_fault(
            alter_family(op.delta),
            mutations_of(alter_emissions(op)),
            plan_of(alter_family(op.delta), alter_emissions(op)),
        ) is None,
{
    broadcast use layout_families;

    let operation = alter_family(op.delta);
    let emissions = alter_emissions(op);
    let (old, new, reason, family) = match op.delta {
        DeltaView::RenameTable { old_name, new_name } => (
            object_name_path(old_name),
            object_name_path(new_name),
            GuardReason::SchemaObjectName,
            TargetFamily::SchemaObjectName,
        ),
        DeltaView::RenameColumn { old_name, new_name, .. } => (
            column_name_path(op.table, old_name),
            column_name_path(op.table, new_name),
            GuardReason::ColumnNameBinding,
            TargetFamily::ColumnName,
        ),
        _ => (Seq::empty(), Seq::empty(), GuardReason::SchemaObjectName, TargetFamily::ColumnName),
    };
    assert(classified(old) == Some(family));
    assert(classified(new) == Some(family));
    assert(emissions[0] == Emission::Invariant(old, reason));
    assert(emissions[1] == Emission::Invariant(new, reason));
    assert(emissions.contains(Emission::Invariant(old, reason)));
    assert(emissions.contains(Emission::Invariant(new, reason)));
    assert forall|i: int| 0 <= i < emissions.len() implies emission_permitted(
        operation,
        #[trigger] emissions[i],
    ) && emission_guarded(operation, emissions, emissions[i]) by {
        assert(classified(schema_log_path(op.mutation_id)) == Some(TargetFamily::SchemaLog));
        assert(i == 0 || i == 1 || i == 2 || i == 3 || i == 4);
    }
    assert(emits_required(operation, emissions)) by {
        assert forall|contract: GuardContract|
            contract.operation == operation && #[trigger] requires_guard(contract) implies exists|
            key: Path,
        |
            #[trigger] classified(key) == Some(contract.target) && emits_guard(
                emissions,
                key,
                contract.class,
                contract.reason,
            ) by {
            assert(classified(old) == Some(contract.target));
            assert(emits_guard(emissions, old, contract.class, contract.reason));
        }
    }
    let mutations = mutations_of(emissions);
    assert forall|i: int| 0 <= i < mutations.len() implies mutations_of(emissions).contains(
        #[trigger] mutations[i],
    ) by {}
    lemma_emissions_compile(operation, emissions, mutations);
}

/// Whether every emission is one of a kind.
spec fn all_emit(emissions: Seq<Emission>, test: spec_fn(Emission) -> bool) -> bool {
    forall|i: int| 0 <= i < emissions.len() ==> test(#[trigger] emissions[i])
}

/// Emissions of a kind behind each other are of that kind.
proof fn lemma_all_concat(
    a: Seq<Emission>,
    b: Seq<Emission>,
    test: spec_fn(Emission) -> bool,
)
    requires
        all_emit(a, test),
        all_emit(b, test),
    ensures
        all_emit(a + b, test),
{
    let all = a + b;
    assert forall|i: int| 0 <= i < all.len() implies test(#[trigger] all[i]) by {
        if i < a.len() {
            assert(all[i] == a[i]);
        } else {
            assert(all[i] == b[i - a.len()]);
        }
    }
}

/// What items emit is of a kind where each of them emits that kind.
proof fn lemma_all_gathered<A>(
    items: Seq<A>,
    f: spec_fn(A) -> Seq<Emission>,
    test: spec_fn(Emission) -> bool,
)
    requires
        forall|i: int| 0 <= i < items.len() ==> all_emit(f(#[trigger] items[i]), test),
    ensures
        all_emit(gathered(items, f), test),
    decreases items.len(),
{
    if items.len() > 0 {
        let init = items.drop_last();
        assert forall|i: int| 0 <= i < init.len() implies all_emit(
            f(#[trigger] init[i]),
            test,
        ) by {
            assert(init[i] == items[i]);
        }
        lemma_all_gathered(init, f, test);
        assert(items[items.len() - 1] == items.last());
        lemma_all_concat(gathered(init, f), f(items.last()), test);
    }
}

/// A guard of a plan is among the emissions.
proof fn lemma_guard_emitted(operation: OperationFamily, emissions: Seq<Emission>, i: int)
    requires
        0 <= i < guards_of(operation, emissions).len(),
    ensures
        ({
            let guard = guards_of(operation, emissions)[i];
            emits_guard(emissions, guard.target, guard.class, guard.reason)
        }),
    decreases emissions.len(),
{
    let init = emissions.drop_last();
    let before = guards_of(operation, init);
    let guard = guards_of(operation, emissions)[i];
    assert(emissions[emissions.len() - 1] == emissions.last());
    if i < before.len() {
        lemma_guard_emitted(operation, init, i);
        assert(guard == before[i]);
        let wanted = if guard.class == GuardClass::Invariant {
            Emission::Invariant(guard.target, guard.reason)
        } else {
            Emission::Write(guard.target, guard.reason)
        };
        let j = choose|j: int| 0 <= j < init.len() && init[j] == wanted;
        assert(emissions[j] == wanted);
    }
}

/// The mutations among permitted emissions have no fault.
proof fn lemma_permitted_mutations(operation: OperationFamily, emissions: Seq<Emission>)
    requires
        forall|i: int|
            0 <= i < emissions.len() ==> emission_permitted(operation, #[trigger] emissions[i]),
    ensures
        mutations_fault(operation, mutations_of(emissions)) is None,
{
    let all = mutations_of(emissions);
    assert forall|i: int| 0 <= i < all.len() implies mutation_fault(
        operation,
        #[trigger] all[i],
    ) is None by {
        lemma_emitted_mutation(emissions, i);
        let j = choose|j: int|
            0 <= j < emissions.len() && match #[trigger] emissions[j] {
                Emission::Put(key, value) => all[i] == (MutationView::Put { key, value }),
                Emission::Delete(key) => all[i] == (MutationView::Delete { key }),
                Emission::DeletePrefix(key) => all[i] == (MutationView::DeleteRange {
                    range: RangeView::Prefix(key),
                }),
                _ => false,
            };
        assert(emission_permitted(operation, emissions[j]));
    }
    lemma_mutations_fault(operation, all);
}

/// A mutation among emissions is a mutation of theirs.
proof fn lemma_put_emitted(emissions: Seq<Emission>, key: Path, value: Seq<u8>)
    requires
        emissions.contains(Emission::Put(key, value)),
    ensures
        mutations_of(emissions).contains(MutationView::Put { key, value }),
    decreases emissions.len(),
{
    let wanted = MutationView::Put { key, value };
    let i = choose|i: int| 0 <= i < emissions.len() && emissions[i] == Emission::Put(key, value);
    let init = emissions.drop_last();
    let before = mutations_of(init);
    let all = mutations_of(emissions);
    if i < init.len() {
        assert(init[i] == emissions[i]);
        lemma_put_emitted(init, key, value);
        let j = choose|j: int| 0 <= j < before.len() && before[j] == wanted;
        assert(all[j] == wanted);
    } else {
        assert(all[before.len() as int] == wanted);
    }
}

/// An added column is refused when it is compiled: its contract asks for a write
/// guard on the column's name, and lowering emits none.
pub proof fn added_columns_do_not_compile(op: AlterView)
    requires
        op.delta is AddColumn,
    ensures
        compiled_fault(
            OperationFamily::AddColumn,
            mutations_of(alter_emissions(op)),
            plan_of(OperationFamily::AddColumn, alter_emissions(op)),
        ) == Some("compiler omitted a guard required by a mutation"),
{
    broadcast use layout_families;

    let operation = OperationFamily::AddColumn;
    let emissions = alter_emissions(op);
    let (column, name, before, after) = match op.delta {
        DeltaView::AddColumn { column, name, before, after, .. } => (column, name, before, after),
        _ => arbitrary(),
    };
    let key = column_name_path(op.table, name);
    let test = |e: Emission|
        emission_permitted(operation, e) && !(e matches Emission::Write(_, reason) && reason
            is ColumnNameBinding);
    let a = seq![Emission::Invariant(key, GuardReason::ColumnNameBinding)];
    let names = gathered(dependency_names(after, column), guard_name(op.table));
    lemma_all_gathered(dependency_names(after, column), guard_name(op.table), test);
    let puts = seq![
        Emission::Put(schema_log_path(op.mutation_id), alter_encoded(op)),
        Emission::Put(key, column),
        Emission::Put(table_schema_path(op.table, after.schema_revision), table_frame(after)),
    ];
    let reads = gathered(check_dependencies(after, column), add_dependency(op.table, column));
    lemma_all_gathered(
        check_dependencies(after, column),
        add_dependency(op.table, column),
        test,
    );
    let end = if restricts_writes(after, column) {
        restrict_emissions(op, before)
    } else {
        Seq::empty()
    };
    assert(all_emit(end, test));
    lemma_all_concat(a, names, test);
    lemma_all_concat(a + names, puts, test);
    lemma_all_concat(a + names + puts, reads, test);
    lemma_all_concat(a + names + puts + reads, end, test);
    assert(emissions == a + names + puts + reads + end);
    lemma_permitted_mutations(operation, emissions);
    let plan = plan_of(operation, emissions);
    assert(emissions[0] == Emission::Invariant(key, GuardReason::ColumnNameBinding));
    assert(emits_guard(
        emissions,
        key,
        GuardClass::Invariant,
        GuardReason::ColumnNameBinding,
    ));
    lemma_emitted_guard(
        operation,
        emissions,
        key,
        GuardClass::Invariant,
        GuardReason::ColumnNameBinding,
    );
    assert(required_present(operation, plan.entries)) by {
        assert forall|contract: GuardContract|
            contract.operation == operation && #[trigger] requires_guard(
                contract,
            ) implies has_shape(plan.entries, contract) by {}
    }
    let at = a.len() + names.len() + 1;
    assert(emissions[at as int] == Emission::Put(key, column));
    lemma_put_emitted(emissions, key, column);
    let mutations = mutations_of(emissions);
    let i = choose|i: int|
        0 <= i < mutations.len() && mutations[i] == (MutationView::Put { key, value: column });
    let needs = guard_requirements(operation, MutationKind::Put, TargetFamily::ColumnName);
    assert(needs[1] == (GuardClass::Write, GuardReason::ColumnNameBinding));
    if has_guard(plan.entries, key, GuardClass::Write, GuardReason::ColumnNameBinding) {
        let g = choose|g: int|
            0 <= g < plan.entries.len() && (#[trigger] plan.entries[g]).target == key
                && plan.entries[g].class == GuardClass::Write && plan.entries[g].reason
                == GuardReason::ColumnNameBinding;
        lemma_guard_emitted(operation, emissions, g);
        let j = choose|j: int|
            0 <= j < emissions.len() && emissions[j] == Emission::Write(
                key,
                GuardReason::ColumnNameBinding,
            );
        assert(test(emissions[j]));
    }
    assert(!mutation_guarded(operation, mutations[i], plan.entries));
}

/// A dropped column is refused when it is compiled: its contract asks for a guard
/// on the views of the table, and lowering emits none.
pub proof fn dropped_columns_do_not_compile(op: AlterView)
    requires
        op.delta is DropColumn,
    ensures
        compiled_fault(
            OperationFamily::DropColumn,
            mutations_of(alter_emissions(op)),
            plan_of(OperationFamily::DropColumn, alter_emissions(op)),
        ) == Some("compiler omitted a required operation guard"),
{
    broadcast use layout_families;

    let operation = OperationFamily::DropColumn;
    let emissions = alter_emissions(op);
    let (column, name, before, after) = match op.delta {
        DeltaView::DropColumn { column, name, before, after } => (column, name, before, after),
        _ => arbitrary(),
    };
    let key = column_name_path(op.table, name);
    let dependents = column_dependency_path(op.table, column);
    let test = |e: Emission|
        emission_permitted(operation, e) && !(e matches Emission::Invariant(_, reason) && reason
            is ViewDependency);
    let a = seq![
        Emission::Invariant(key, GuardReason::ColumnNameBinding),
        Emission::Put(schema_log_path(op.mutation_id), alter_encoded(op)),
        Emission::Delete(key),
        Emission::Put(table_schema_path(op.table, after.schema_revision), table_frame(after)),
    ];
    let reads = gathered(check_dependencies(before, column), drop_dependency(op.table, column));
    lemma_all_gathered(
        check_dependencies(before, column),
        drop_dependency(op.table, column),
        test,
    );
    let end = seq![
        Emission::Invariant(dependents, GuardReason::ColumnDependency),
        Emission::Write(dependents, GuardReason::ColumnDependency),
        Emission::DeletePrefix(dependents),
    ];
    lemma_all_concat(a, reads, test);
    lemma_all_concat(a + reads, end, test);
    assert(emissions == a + reads + end);
    lemma_permitted_mutations(operation, emissions);
    let plan = plan_of(operation, emissions);
    let contract = GuardContract {
        operation,
        class: GuardClass::Invariant,
        reason: GuardReason::ViewDependency,
        target: TargetFamily::ViewDependency,
    };
    assert(requires_guard(contract));
    if has_shape(plan.entries, contract) {
        let g = choose|g: int|
            0 <= g < plan.entries.len() && (#[trigger] plan.entries[g]).class == contract.class
                && plan.entries[g].reason == contract.reason && plan.entries[g].family
                == contract.target;
        lemma_guard_emitted(operation, emissions, g);
        let j = choose|j: int|
            0 <= j < emissions.len() && emissions[j] == Emission::Invariant(
                plan.entries[g].target,
                GuardReason::ViewDependency,
            );
        assert(test(emissions[j]));
    }
    assert(!required_present(operation, plan.entries));
}

/// Where an identity stands in a list without duplicates.
proof fn lemma_place_is(ids: Seq<Seq<u8>>, i: int)
    requires
        0 <= i < ids.len(),
        ids.no_duplicates(),
    ensures
        place_of(ids, ids[i]) == i,
    decreases ids.len(),
{
    if i > 0 {
        let rest = ids.drop_first();
        assert(rest[i - 1] == ids[i]);
        assert(rest.no_duplicates()) by {
            assert forall|a: int, b: int| 0 <= a < rest.len() && 0 <= b < rest.len() && a
                != b implies rest[a] != rest[b] by {
                assert(rest[a] == ids[a + 1]);
                assert(rest[b] == ids[b + 1]);
            }
        }
        lemma_place_is(rest, i - 1);
        assert(ids[0] != ids[i]);
    }
}

/// Bindings of other columns only are all kept.
proof fn lemma_other_bindings(bindings: Seq<BindingView>, id: Seq<u8>)
    requires
        !bound_ids(bindings).contains(id),
    ensures
        bindings.filter(other_binding(id)) == bindings,
    decreases bindings.len(),
{
    reveal(Seq::filter);
    if bindings.len() > 0 {
        let init = bindings.drop_last();
        assert(!bound_ids(init).contains(id)) by {
            if bound_ids(init).contains(id) {
                let k = choose|k: int| 0 <= k < init.len() && bound_ids(init)[k] == id;
                assert(bound_ids(bindings)[k] == id);
            }
        }
        lemma_other_bindings(init, id);
        assert(bound_ids(bindings)[bindings.len() - 1] == bindings.last().column);
        assert(init.push(bindings.last()) =~= bindings);
    }
}

/// Dropping one column's binding is removing it from its place.
proof fn lemma_without_binding(bindings: Seq<BindingView>, at: int)
    requires
        0 <= at < bindings.len(),
        bound_ids(bindings).no_duplicates(),
    ensures
        bindings.filter(other_binding(bindings[at].column)) == bindings.remove(at),
    decreases bindings.len(),
{
    reveal(Seq::filter);
    let id = bindings[at].column;
    let init = bindings.drop_last();
    assert(bound_ids(init).no_duplicates()) by {
        assert forall|a: int, b: int| 0 <= a < init.len() && 0 <= b < init.len() && a
            != b implies bound_ids(init)[a] != bound_ids(init)[b] by {
            assert(bound_ids(init)[a] == bound_ids(bindings)[a]);
            assert(bound_ids(init)[b] == bound_ids(bindings)[b]);
        }
    }
    if at == bindings.len() - 1 {
        assert(!bound_ids(init).contains(id)) by {
            if bound_ids(init).contains(id) {
                let k = choose|k: int| 0 <= k < init.len() && bound_ids(init)[k] == id;
                assert(bound_ids(bindings)[k] == bound_ids(bindings)[at]);
            }
        }
        lemma_other_bindings(init, id);
        assert(bindings.remove(at) =~= init);
    } else {
        lemma_without_binding(init, at);
        assert(init[at] == bindings[at]);
        assert(bound_ids(bindings)[bindings.len() - 1] != bound_ids(bindings)[at]);
        assert(bindings.last().column != id);
        assert(bindings.remove(at) =~= init.remove(at).push(bindings.last()));
    }
}

/// Whether an entry binds the columns of its definition, each once and in order.
pub open spec fn in_step(entry: CatalogEntryView) -> bool {
    &&& bound_ids(entry.bindings) == column_ids(entry.definition.columns)
    &&& column_ids(entry.definition.columns).no_duplicates()
}

/// Undoing the rename of a table gives its entry back.
pub proof fn undoing_a_table_rename_restores_the_entry(
    entry: CatalogEntryView,
    old_name: Seq<char>,
    new_name: Seq<char>,
)
    requires
        entry.name == old_name,
    ensures
        ({
            let delta = DeltaView::RenameTable { old_name, new_name };
            changed(changed(entry, record_change(delta)), rollback_change(delta)) == entry
        }),
{
    let delta = DeltaView::RenameTable { old_name, new_name };
    assert(changed(changed(entry, record_change(delta)), rollback_change(delta)) =~= entry);
}

/// Undoing the rename of a column gives its table's entry back, its revision with
/// it.
pub proof fn undoing_a_column_rename_restores_the_entry(
    entry: CatalogEntryView,
    column: Seq<u8>,
    old_name: Seq<char>,
    new_name: Seq<char>,
)
    requires
        random_uuid(entry.definition.schema_revision),
        forall|i: int|
            0 <= i < entry.bindings.len() && (#[trigger] entry.bindings[i]).column == column
                ==> entry.bindings[i].name == old_name,
    ensures
        ({
            let delta = DeltaView::RenameColumn { column, old_name, new_name };
            changed(changed(entry, record_change(delta)), rollback_change(delta)) == entry
        }),
{
    let delta = DeltaView::RenameColumn { column, old_name, new_name };
    let back = changed(changed(entry, record_change(delta)), rollback_change(delta));
    assert forall|i: int| 0 <= i < entry.bindings.len() implies back.bindings[i]
        == entry.bindings[i] by {
        let once = rebound(column, new_name)(entry.bindings[i]);
        assert(rebound(column, old_name)(once) =~= entry.bindings[i]);
    }
    assert(back.bindings =~= entry.bindings);
    let revision = entry.definition.schema_revision;
    let old_token = name_token(column, old_name);
    let without = evolved(revision, old_token);
    lemma_evolved_twice(without, name_token(column, new_name));
    lemma_evolved_twice(revision, old_token);
    assert(back.definition =~= entry.definition);
    assert(back =~= entry);
}

/// Undoing an added column gives the table's entry back, its revision with it.
pub proof fn undoing_an_added_column_restores_the_entry(
    entry: CatalogEntryView,
    column: Seq<u8>,
    predecessor: Seq<u8>,
    name: Seq<char>,
    after: TableView,
)
    requires
        random_uuid(entry.definition.schema_revision),
        !bound_ids(entry.bindings).contains(column),
        after.columns.filter(other_column(column)) == entry.definition.columns,
        after.checks.filter(other_check(column)) == entry.definition.checks,
    ensures
        ({
            let delta = DeltaView::AddColumn {
                column,
                predecessor,
                name,
                before: entry.definition,
                after,
            };
            changed(changed(entry, record_change(delta)), rollback_change(delta)) == entry
        }),
{
    let delta = DeltaView::AddColumn {
        column,
        predecessor,
        name,
        before: entry.definition,
        after,
    };
    let there = changed(entry, record_change(delta));
    let back = changed(there, rollback_change(delta));
    lemma_evolved_twice(entry.definition.schema_revision, column);
    assert(back.definition =~= entry.definition);
    let at = landing(bound_ids(entry.bindings), column_ids(after.columns), column);
    super::record::lemma_landing(bound_ids(entry.bindings), column_ids(after.columns), column);
    let bound = BindingView { column, name };
    lemma_insert_filter(entry.bindings, at, bound);
    assert(back =~= entry);
}

/// A binding that is put in and dropped again leaves the others.
proof fn lemma_insert_filter(bindings: Seq<BindingView>, at: int, bound: BindingView)
    requires
        0 <= at <= bindings.len(),
        !bound_ids(bindings).contains(bound.column),
    ensures
        bindings.insert(at, bound).filter(other_binding(bound.column)) == bindings,
    decreases bindings.len() - at,
{
    let id = bound.column;
    let with = bindings.insert(at, bound);
    if at == bindings.len() {
        assert(with =~= bindings.push(bound));
        lemma_filter_push(bindings, bound, other_binding(id));
        lemma_other_bindings(bindings, id);
    } else {
        let init = bindings.drop_last();
        let last = bindings.last();
        assert(bound_ids(bindings)[bindings.len() - 1] == last.column);
        assert(!bound_ids(init).contains(id)) by {
            if bound_ids(init).contains(id) {
                let k = choose|k: int| 0 <= k < init.len() && bound_ids(init)[k] == id;
                assert(bound_ids(bindings)[k] == id);
            }
        }
        lemma_insert_filter(init, at, bound);
        assert(with =~= init.insert(at, bound).push(last));
        lemma_filter_push(init.insert(at, bound), last, other_binding(id));
        assert(init.push(last) =~= bindings);
    }
}

/// Undoing a dropped column gives the table's entry back: the column in its
/// place, its CHECKs, and the revision.
pub proof fn undoing_a_dropped_column_restores_the_entry(
    entry: CatalogEntryView,
    at: int,
    after: TableView,
)
    requires
        random_uuid(entry.definition.schema_revision),
        in_step(entry),
        0 <= at < entry.bindings.len(),
    ensures
        ({
            let delta = DeltaView::DropColumn {
                column: entry.bindings[at].column,
                name: entry.bindings[at].name,
                before: entry.definition,
                after,
            };
            changed(changed(entry, record_change(delta)), rollback_change(delta)) == entry
        }),
{
    let column = entry.bindings[at].column;
    let delta = DeltaView::DropColumn {
        column,
        name: entry.bindings[at].name,
        before: entry.definition,
        after,
    };
    let there = changed(entry, record_change(delta));
    let back = changed(there, rollback_change(delta));
    lemma_evolved_twice(entry.definition.schema_revision, column);
    assert(back.definition =~= entry.definition);
    let ids = bound_ids(entry.bindings);
    lemma_without_binding(entry.bindings, at);
    let rest = entry.bindings.remove(at);
    assert(there.bindings == rest);
    assert(ids[at] == column);
    lemma_place_is(ids, at);
    if at > 0 {
        let kept = bound_ids(rest);
        assert(kept =~= ids.remove(at));
        assert(kept.no_duplicates()) by {
            assert forall|a: int, b: int| 0 <= a < kept.len() && 0 <= b < kept.len() && a
                != b implies kept[a] != kept[b] by {
                let x = if a < at {
                    a
                } else {
                    a + 1
                };
                let y = if b < at {
                    b
                } else {
                    b + 1
                };
                assert(kept[a] == ids[x]);
                assert(kept[b] == ids[y]);
            }
        }
        assert(kept[at - 1] == ids[at - 1]);
        lemma_place_is(kept, at - 1);
    }
    assert(landing(bound_ids(rest), ids, column) == at);
    assert(rest.insert(at, entry.bindings[at]) =~= entry.bindings);
    assert(back =~= entry);
}

} // verus!
