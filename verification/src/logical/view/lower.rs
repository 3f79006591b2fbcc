//! A change of a view as guards and mutations.

use super::error::{invalid_operation, view_error_text};
use super::frame::{
    view_operation_fits, view_operation_frame, ViewAction, ViewColumnDependency, ViewColumnView,
    ViewDependency, ViewDependencyView, ViewOperation, ViewOperationView,
};
use super::operation::view_fault;
use crate::bytes::copy_bytes;
use crate::codec::views;
use crate::error::{ErrorView, Result};
use crate::footprint::ConflictFootprint;
use crate::key::{Mutation, Path};
use crate::logical::contract::{requires_guard, GuardContract, GuardReason, OperationFamily};
use crate::logical::guard::{
    column_view_dependency_key, compiled_fault, view_dependency_key, GuardPlan,
};
use crate::logical::layout::{
    column_name_path, column_name_scope_key, column_view_path, layout_families, object_name_path,
    schema_log_key, schema_log_path, schema_object_name_scope_key, view_path,
};
use crate::logical::lowering::{
    emission_guarded, emits_guard, gathered, lemma_gathered_step, lemma_sound_compiles,
    lemma_sound_concat, lemma_sound_gathered, lowers_to, mutations_of, plan_of, sound, Emission,
    Lowering,
};
use crate::logical::schema::statement::{statement_of, Statements};
use crate::logical::target::{classified, TargetFamily};
use vstd::prelude::*;
use vstd::utf8::encode_utf8;

verus! {

/// Guards and mutations of one change, and the footprint of the guards.
#[derive(Debug, PartialEq, Eq)]
pub struct ViewHomebaseOp {
    pub mutations: Vec<Mutation>,
    pub footprint: ConflictFootprint,
    pub guards: GuardPlan,
}

/// The family of a change.
pub open spec fn view_family(action: ViewAction) -> OperationFamily {
    match action {
        ViewAction::Create => OperationFamily::CreateView,
        ViewAction::Drop => OperationFamily::DropView,
    }
}

/// A marker that a created view sets and a dropped one deletes.
pub open spec fn mark(action: ViewAction, key: Path, value: Seq<u8>) -> Emission {
    match action {
        ViewAction::Create => Emission::Put(key, value),
        ViewAction::Drop => Emission::Delete(key),
    }
}

/// A guard that only a creation needs: what the view reads keeps its name.
pub open spec fn hold_name(action: ViewAction, key: Path) -> Seq<Emission> {
    match action {
        ViewAction::Create => seq![Emission::Invariant(key, GuardReason::ViewDependency)],
        ViewAction::Drop => Seq::empty(),
    }
}

/// What one column of a dependency emits.
pub open spec fn column_emissions(op: ViewOperationView, table: Seq<u8>) -> spec_fn(
    ViewColumnView,
) -> Seq<Emission> {
    |column: ViewColumnView|
        {
            let marker = column_view_path(table, column.column, op.name);
            seq![
                Emission::Invariant(marker, GuardReason::ColumnDependency),
                Emission::Write(marker, GuardReason::ColumnDependency),
                mark(op.action, marker, op.mutation_id),
            ] + hold_name(op.action, column_name_path(table, column.name))
        }
}

/// What one dependency emits.
pub open spec fn dependency_emissions(op: ViewOperationView) -> spec_fn(ViewDependencyView) -> Seq<
    Emission,
> {
    |dependency: ViewDependencyView|
        {
            let marker = view_path(dependency.table, op.name);
            seq![
                Emission::Invariant(marker, GuardReason::ViewDependency),
                mark(op.action, marker, op.mutation_id),
            ] + hold_name(op.action, object_name_path(dependency.name)) + gathered(
                dependency.columns,
                column_emissions(op, dependency.table),
            )
        }
}

/// What a change of a view emits.
pub open spec fn view_emissions(op: ViewOperationView) -> Seq<Emission> {
    let name = object_name_path(op.name);
    seq![
        Emission::Invariant(name, GuardReason::SchemaObjectName),
        Emission::Put(schema_log_path(op.mutation_id), view_operation_frame(op)),
    ] + gathered(op.dependencies, dependency_emissions(op)) + seq![
        mark(op.action, name, encode_utf8("view"@)),
    ]
}

impl ViewOperation {
    /// Emit what one column of a dependency does.
    fn lower_column(&self, dependency: &ViewDependency, column: &ViewColumnDependency, l: Lowering) -> (r:
        Lowering)
        requires
            l.family() == view_family(self@.action),
        ensures
            r.family() == l.family(),
            r.emissions() == l.emissions() + column_emissions(self@, dependency@.table)(column@),
    {
        broadcast use layout_families;

        let ghost first = l.emissions();
        let marker = column_view_dependency_key(dependency.table, column.column, &self.name);
        let l = l.add_invariant(marker.clone(), GuardReason::ColumnDependency).write(
            marker.clone(),
            GuardReason::ColumnDependency,
        );
        let l = match self.action {
            ViewAction::Create => {
                let mutation = self.mutation_id.as_bytes();
                l.put(marker, copy_bytes(&mutation)).add_invariant(
                    column_name_scope_key(dependency.table, &column.name),
                    GuardReason::ViewDependency,
                )
            },
            ViewAction::Drop => l.delete(marker),
        };
        assert(l.emissions() =~= first + column_emissions(self@, dependency@.table)(column@));
        l
    }

    /// Emit what one dependency does.
    fn lower_dependency(&self, dependency: &ViewDependency, start: Lowering) -> (r: Lowering)
        requires
            start.family() == view_family(self@.action),
        ensures
            r.family() == start.family(),
            r.emissions() == start.emissions() + dependency_emissions(self@)(dependency@),
    {
        broadcast use layout_families;

        let ghost first = start.emissions();
        let marker = view_dependency_key(dependency.table, &self.name);
        let l = start.add_invariant(marker.clone(), GuardReason::ViewDependency);
        let l = match self.action {
            ViewAction::Create => {
                let mutation = self.mutation_id.as_bytes();
                l.put(marker, copy_bytes(&mutation)).add_invariant(
                    schema_object_name_scope_key(&dependency.name),
                    GuardReason::ViewDependency,
                )
            },
            ViewAction::Drop => l.delete(marker),
        };
        let ghost marked = l.emissions();
        let ghost columns = views(dependency.columns@);
        let ghost lowering = column_emissions(self@, dependency@.table);
        let mut l = l;
        let mut i: usize = 0;
        assert(marked + gathered(columns.subrange(0, 0), lowering) =~= marked);
        while i < dependency.columns.len()
            invariant
                i <= dependency.columns@.len(),
                columns == views(dependency.columns@),
                lowering == column_emissions(self@, dependency@.table),
                l.family() == view_family(self@.action),
                l.emissions() == marked + gathered(columns.subrange(0, i as int), lowering),
            decreases dependency.columns.len() - i,
        {
            let column = &dependency.columns[i];
            proof {
                lemma_gathered_step(columns, i as int, lowering);
                assert(columns[i as int] == column@);
            }
            let ghost done = l.emissions();
            l = self.lower_column(dependency, column, l);
            assert(done + lowering(columns[i as int]) =~= marked + gathered(
                columns.subrange(0, i as int + 1),
                lowering,
            ));
            i += 1;
        }
        assert(columns.subrange(0, i as int) =~= columns);
        assert(l.emissions() =~= first + dependency_emissions(self@)(dependency@));
        l
    }

    /// Lower the change to guards and mutations.
    pub fn to_homebase(&self, statements: &Statements) -> (r: Result<ViewHomebaseOp>)
        requires
            view_operation_fits(self@),
        ensures
            match r {
                Err(error) => view_fault(
                    self@,
                    statement_of(statements@, self@.create_sql),
                ) matches Some(fault) && error@ == ErrorView::InvalidMultiliteOp(
                    view_error_text(fault),
                ),
                Ok(op) => view_fault(self@, statement_of(statements@, self@.create_sql)) is None
                    && lowers_to(
                    view_family(self@.action),
                    view_emissions(self@),
                    op.mutations@,
                    op.footprint@,
                    op.guards@,
                ),
            },
    {
        broadcast use layout_families;

        if let Err(error) = self.validate(statements) {
            return Err(invalid_operation(error));
        }
        let family = match self.action {
            ViewAction::Create => OperationFamily::CreateView,
            ViewAction::Drop => OperationFamily::DropView,
        };
        let name = schema_object_name_scope_key(&self.name);
        let l = Lowering::new(family).add_invariant(
            name.clone(),
            GuardReason::SchemaObjectName,
        ).put(schema_log_key(self.mutation_id), self.encode());
        let ghost first = l.emissions();
        let ghost dependencies = views(self.dependencies@);
        let ghost lowering = dependency_emissions(self@);
        let mut l = l;
        let mut i: usize = 0;
        assert(first + gathered(dependencies.subrange(0, 0), lowering) =~= first);
        while i < self.dependencies.len()
            invariant
                i <= self.dependencies@.len(),
                dependencies == views(self.dependencies@),
                lowering == dependency_emissions(self@),
                l.family() == view_family(self@.action),
                l.emissions() == first + gathered(dependencies.subrange(0, i as int), lowering),
            decreases self.dependencies.len() - i,
        {
            let dependency = &self.dependencies[i];
            proof {
                lemma_gathered_step(dependencies, i as int, lowering);
                assert(dependencies[i as int] == dependency@);
            }
            let ghost done = l.emissions();
            l = self.lower_dependency(dependency, l);
            assert(done + lowering(dependencies[i as int]) =~= first + gathered(
                dependencies.subrange(0, i as int + 1),
                lowering,
            ));
            i += 1;
        }
        assert(dependencies.subrange(0, i as int) =~= dependencies);
        let l = match self.action {
            ViewAction::Create => l.put(name, copy_bytes("view".as_bytes())),
            ViewAction::Drop => l.delete(name),
        };
        assert(l.emissions() =~= view_emissions(self@));
        let (mutations, guards) = l.finish();
        let footprint = guards.footprint();
        Ok(ViewHomebaseOp { mutations, footprint, guards })
    }
}

/// What one column of a dependency emits is sound.
proof fn lemma_column_sound(op: ViewOperationView, table: Seq<u8>, column: ViewColumnView)
    ensures
        sound(view_family(op.action), column_emissions(op, table)(column)),
{
    broadcast use layout_families;

    let operation = view_family(op.action);
    let marker = column_view_path(table, column.column, op.name);
    let list = column_emissions(op, table)(column);
    assert(list[0] == Emission::Invariant(marker, GuardReason::ColumnDependency));
    assert(list[1] == Emission::Write(marker, GuardReason::ColumnDependency));
    assert(list[2] == mark(op.action, marker, op.mutation_id));
    assert(list.contains(Emission::Invariant(marker, GuardReason::ColumnDependency)));
    assert(list.contains(Emission::Write(marker, GuardReason::ColumnDependency)));
    assert(classified(marker) == Some(TargetFamily::ColumnDependency));
    assert(classified(column_name_path(table, column.name)) == Some(TargetFamily::ColumnName));
    assert(emission_guarded(operation, list, list[2]));
}

/// What one dependency emits is sound.
proof fn lemma_dependency_sound(op: ViewOperationView, dependency: ViewDependencyView)
    ensures
        sound(view_family(op.action), dependency_emissions(op)(dependency)),
{
    broadcast use layout_families;

    let operation = view_family(op.action);
    let marker = view_path(dependency.table, op.name);
    let head = seq![
        Emission::Invariant(marker, GuardReason::ViewDependency),
        mark(op.action, marker, op.mutation_id),
    ];
    let held = hold_name(op.action, object_name_path(dependency.name));
    assert(classified(marker) == Some(TargetFamily::ViewDependency));
    assert(head[0] == Emission::Invariant(marker, GuardReason::ViewDependency));
    assert(head.contains(Emission::Invariant(marker, GuardReason::ViewDependency)));
    assert(emission_guarded(operation, head, head[1]));
    assert(sound(operation, head));
    assert(classified(object_name_path(dependency.name)) == Some(TargetFamily::SchemaObjectName));
    assert(sound(operation, held));
    let columns = column_emissions(op, dependency.table);
    assert forall|i: int| 0 <= i < dependency.columns.len() implies sound(
        operation,
        columns(#[trigger] dependency.columns[i]),
    ) by {
        lemma_column_sound(op, dependency.table, dependency.columns[i]);
    }
    lemma_sound_gathered(operation, dependency.columns, columns);
    lemma_sound_concat(operation, head, held);
    lemma_sound_concat(operation, head + held, gathered(dependency.columns, columns));
}

/// A lowered change of a view stays within the contract of its family.
pub proof fn lowered_views_compile(op: ViewOperationView)
    ensures
        compiled_fault(
            view_family(op.action),
            mutations_of(view_emissions(op)),
            plan_of(view_family(op.action), view_emissions(op)),
        ) is None,
{
    broadcast use layout_families;

    let operation = view_family(op.action);
    let name = object_name_path(op.name);
    let emissions = view_emissions(op);
    let lowering = dependency_emissions(op);
    let last = mark(op.action, name, encode_utf8("view"@));
    assert forall|i: int| 0 <= i < op.dependencies.len() implies sound(
        operation,
        lowering(#[trigger] op.dependencies[i]),
    ) by {
        lemma_dependency_sound(op, op.dependencies[i]);
    }
    lemma_sound_gathered(operation, op.dependencies, lowering);
    let middle = gathered(op.dependencies, lowering);
    assert(classified(name) == Some(TargetFamily::SchemaObjectName));
    assert(classified(schema_log_path(op.mutation_id)) == Some(TargetFamily::SchemaLog));
    let head = seq![
        Emission::Invariant(name, GuardReason::SchemaObjectName),
        Emission::Put(schema_log_path(op.mutation_id), view_operation_frame(op)),
    ];
    assert(sound(operation, head));
    lemma_sound_concat(operation, head, middle);
    let closing = seq![Emission::Invariant(name, GuardReason::SchemaObjectName), last];
    assert(closing[0] == Emission::Invariant(name, GuardReason::SchemaObjectName));
    assert(closing.contains(Emission::Invariant(name, GuardReason::SchemaObjectName)));
    assert(emission_guarded(operation, closing, last));
    let body = head + middle;
    assert(emissions =~= body.push(last));
    assert(emissions[0] == Emission::Invariant(name, GuardReason::SchemaObjectName));
    assert(emissions.contains(Emission::Invariant(name, GuardReason::SchemaObjectName)));
    assert(emission_guarded(operation, emissions, last));
    assert(sound(operation, emissions)) by {
        assert forall|i: int| 0 <= i < emissions.len() implies crate::logical::lowering::emission_permitted(
            operation,
            #[trigger] emissions[i],
        ) && emission_guarded(operation, emissions, emissions[i]) by {
            if i < body.len() {
                assert(emissions[i] == body[i]);
                assert forall|e: Emission| body.contains(e) implies #[trigger] emissions.contains(
                    e,
                ) by {
                    let k = choose|k: int| 0 <= k < body.len() && body[k] == e;
                    assert(emissions[k] == e);
                }
                crate::logical::lowering::lemma_guarded_within(
                    operation,
                    body,
                    emissions,
                    body[i],
                );
            } else {
                assert(emissions[i] == last);
            }
        }
    }
    assert forall|contract: GuardContract|
        contract.operation == operation && #[trigger] requires_guard(contract) implies exists|
        key: Path,
    |
        #[trigger] classified(key) == Some(contract.target) && emits_guard(
            emissions,
            key,
            contract.class,
            contract.reason,
        ) by {
        assert(classified(name) == Some(contract.target));
        assert(emits_guard(emissions, name, contract.class, contract.reason));
    }
    lemma_sound_compiles(operation, emissions);
}

} // verus!
