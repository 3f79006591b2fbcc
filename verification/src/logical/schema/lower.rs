//! The creation of a table as guards and mutations.

use super::definition::{
    table_fits, table_frame, ColumnView, CreateTable, ForeignKeyDefinition, RelationshipView,
    TableView, UniqueView,
};
use crate::bytes::copy_bytes;
use crate::codec::views;
use crate::footprint::ConflictFootprint;
use crate::identity::{IndexId, TableId};
use crate::key::{Mutation, Path};
use crate::logical::contract::{
    requires_guard, GuardContract, GuardReason, OperationFamily,
};
use crate::logical::guard::{compiled_fault, GuardPlan};
use crate::logical::layout::{
    active_constraint_key, active_constraint_path, active_primary_index_key,
    active_primary_index_path, active_schema_revision_key, active_schema_revision_path,
    column_name_path, column_name_scope_key, constraint_reference_key, constraint_reference_path,
    index_definition_key, index_definition_path, layout_families, object_name_path, schema_log_key,
    schema_log_path, schema_object_name_scope_key, table_schema_key, table_schema_path,
    write_revision_key, write_revision_path,
};
use crate::logical::lowering::{
    emission_guarded, emission_permitted, emits_guard, gathered, lemma_gathered_step,
    lemma_guarded_within, lemma_sound_compiles, lemma_sound_concat, lemma_sound_gathered, lowers_to,
    mutations_of, plan_of, sound, Emission, Lowering,
};
use crate::logical::target::{classified, TargetFamily};
use vstd::prelude::*;

verus! {

/// Guards and mutations of one creation, and the footprint of the guards.
#[derive(Debug, PartialEq, Eq)]
pub struct CreateTableHomebaseOp {
    pub mutations: Vec<Mutation>,
    pub footprint: ConflictFootprint,
    pub guards: GuardPlan,
}

/// What binds a column's name.
pub open spec fn bind_column(table: Seq<u8>) -> spec_fn(ColumnView) -> Seq<Emission> {
    |column: ColumnView| seq![Emission::Put(column_name_path(table, column.name), column.id)]
}

/// What publishes an index and the constraint that it keeps.
pub open spec fn publish_index(table: Seq<u8>, index: Seq<u8>) -> Seq<Emission> {
    seq![
        Emission::Put(index_definition_path(table, index), index),
        Emission::Put(active_constraint_path(table, index), index),
    ]
}

/// What publishes a UNIQUE constraint.
pub open spec fn publish_unique(table: Seq<u8>) -> spec_fn(UniqueView) -> Seq<Emission> {
    |unique: UniqueView| publish_index(table, unique.index)
}

/// What announces an active foreign key at its parent.
pub open spec fn announce_relationship(table: Seq<u8>) -> spec_fn(RelationshipView) -> Seq<
    Emission,
> {
    |foreign_key: RelationshipView|
        if foreign_key.active {
            let reference = constraint_reference_path(
                foreign_key.referenced_table,
                foreign_key.referenced_index,
                foreign_key.id,
            );
            seq![
                Emission::Invariant(reference, GuardReason::ConstraintReference),
                Emission::Write(reference, GuardReason::ConstraintReference),
                Emission::Put(reference, table),
            ]
        } else {
            Seq::empty()
        }
}

/// What guards the table's name and write contract, and publishes the schema.
pub open spec fn create_head(table: TableView) -> Seq<Emission> {
    let name = object_name_path(table.name);
    seq![
        Emission::Invariant(name, GuardReason::SchemaObjectName),
        Emission::Write(write_revision_path(table.table), GuardReason::WriteContract),
        Emission::Put(schema_log_path(table.mutation), table_frame(table)),
        Emission::Put(name, table.table),
        Emission::Put(
            table_schema_path(table.table, table.schema_revision),
            table_frame(table),
        ),
    ]
}

/// What makes the primary index and the schema revision the active ones.
pub open spec fn create_activation(table: TableView) -> Seq<Emission> {
    seq![
        Emission::Put(active_primary_index_path(table.table), table.primary_index),
        Emission::Put(active_schema_revision_path(table.table), table.schema_revision),
    ]
}

/// What the creation of a table emits.
pub open spec fn create_emissions(table: TableView) -> Seq<Emission> {
    create_head(table) + gathered(table.columns, bind_column(table.table)) + create_activation(
        table,
    ) + publish_index(table.table, table.primary_index) + gathered(
        table.unique_constraints,
        publish_unique(table.table),
    ) + gathered(table.foreign_keys, announce_relationship(table.table)) + seq![
        Emission::Put(write_revision_path(table.table), table.mutation),
    ]
}

/// Emit what publishes an index.
fn lower_index(table: TableId, index: IndexId, l: Lowering) -> (r: Lowering)
    ensures
        r.family() == l.family(),
        r.emissions() == l.emissions() + publish_index(table@, index@),
{
    let ghost first = l.emissions();
    let id = index.as_bytes();
    let l = l.put(index_definition_key(table, index), copy_bytes(&id)).put(
        active_constraint_key(table, id),
        copy_bytes(&id),
    );
    assert(l.emissions() =~= first + publish_index(table@, index@));
    l
}

/// Emit what announces a foreign key at its parent.
fn lower_relationship(table: TableId, foreign_key: &ForeignKeyDefinition, l: Lowering) -> (r:
    Lowering)
    requires
        l.family() == OperationFamily::CreateTable,
    ensures
        r.family() == l.family(),
        r.emissions() == l.emissions() + announce_relationship(table@)(foreign_key@),
{
    broadcast use layout_families;

    let ghost first = l.emissions();
    let l = if foreign_key.active {
        let id = table.as_bytes();
        let reference = constraint_reference_key(
            foreign_key.referenced_table,
            foreign_key.referenced_index.as_bytes(),
            foreign_key.id,
        );
        l.add_invariant(reference.clone(), GuardReason::ConstraintReference).write(
            reference.clone(),
            GuardReason::ConstraintReference,
        ).put(reference, copy_bytes(&id))
    } else {
        l
    };
    assert(l.emissions() =~= first + announce_relationship(table@)(foreign_key@));
    l
}

impl CreateTable {
    /// Emit what binds the columns' names.
    fn lower_columns(&self, start: Lowering) -> (r: Lowering)
        requires
            start.family() == OperationFamily::CreateTable,
        ensures
            r.family() == start.family(),
            r.emissions() == start.emissions() + gathered(
                self@.columns,
                bind_column(self@.table),
            ),
    {
        let ghost first = start.emissions();
        let ghost columns = self@.columns;
        let ghost binding = bind_column(self@.table);
        let mut l = start;
        let mut i: usize = 0;
        assert(first + gathered(columns.subrange(0, 0), binding) =~= first);
        while i < self.columns.len()
            invariant
                i <= self.columns@.len(),
                columns == views(self.columns@),
                binding == bind_column(self@.table),
                l.family() == OperationFamily::CreateTable,
                l.emissions() == first + gathered(columns.subrange(0, i as int), binding),
            decreases self.columns.len() - i,
        {
            let column = &self.columns[i];
            proof {
                lemma_gathered_step(columns, i as int, binding);
                assert(columns[i as int] == column@);
            }
            let ghost done = l.emissions();
            let id = column.id.as_bytes();
            l = l.put(column_name_scope_key(self.table, &column.name), copy_bytes(&id));
            assert(l.emissions() =~= done + binding(columns[i as int]));
            assert(done + binding(columns[i as int]) =~= first + gathered(
                columns.subrange(0, i as int + 1),
                binding,
            ));
            i += 1;
        }
        assert(columns.subrange(0, i as int) =~= columns);
        l
    }

    /// Emit what publishes the UNIQUE constraints.
    fn lower_uniques(&self, start: Lowering) -> (r: Lowering)
        requires
            start.family() == OperationFamily::CreateTable,
        ensures
            r.family() == start.family(),
            r.emissions() == start.emissions() + gathered(
                self@.unique_constraints,
                publish_unique(self@.table),
            ),
    {
        let ghost first = start.emissions();
        let ghost uniques = self@.unique_constraints;
        let ghost publishing = publish_unique(self@.table);
        let mut l = start;
        let mut i: usize = 0;
        assert(first + gathered(uniques.subrange(0, 0), publishing) =~= first);
        while i < self.unique_constraints.len()
            invariant
                i <= self.unique_constraints@.len(),
                uniques == views(self.unique_constraints@),
                publishing == publish_unique(self@.table),
                l.family() == OperationFamily::CreateTable,
                l.emissions() == first + gathered(uniques.subrange(0, i as int), publishing),
            decreases self.unique_constraints.len() - i,
        {
            let unique = &self.unique_constraints[i];
            proof {
                lemma_gathered_step(uniques, i as int, publishing);
                assert(uniques[i as int] == unique@);
            }
            let ghost done = l.emissions();
            l = lower_index(self.table, unique.index, l);
            assert(done + publishing(uniques[i as int]) =~= first + gathered(
                uniques.subrange(0, i as int + 1),
                publishing,
            ));
            i += 1;
        }
        assert(uniques.subrange(0, i as int) =~= uniques);
        l
    }

    /// Emit what announces the foreign keys.
    fn lower_foreign_keys(&self, start: Lowering) -> (r: Lowering)
        requires
            start.family() == OperationFamily::CreateTable,
        ensures
            r.family() == start.family(),
            r.emissions() == start.emissions() + gathered(
                self@.foreign_keys,
                announce_relationship(self@.table),
            ),
    {
        let ghost first = start.emissions();
        let ghost foreign_keys = self@.foreign_keys;
        let ghost announcing = announce_relationship(self@.table);
        let mut l = start;
        let mut i: usize = 0;
        assert(first + gathered(foreign_keys.subrange(0, 0), announcing) =~= first);
        while i < self.foreign_keys.len()
            invariant
                i <= self.foreign_keys@.len(),
                foreign_keys == views(self.foreign_keys@),
                announcing == announce_relationship(self@.table),
                l.family() == OperationFamily::CreateTable,
                l.emissions() == first + gathered(foreign_keys.subrange(0, i as int), announcing),
            decreases self.foreign_keys.len() - i,
        {
            let foreign_key = &self.foreign_keys[i];
            proof {
                lemma_gathered_step(foreign_keys, i as int, announcing);
                assert(foreign_keys[i as int] == foreign_key@);
            }
            let ghost done = l.emissions();
            l = lower_relationship(self.table, foreign_key, l);
            assert(done + announcing(foreign_keys[i as int]) =~= first + gathered(
                foreign_keys.subrange(0, i as int + 1),
                announcing,
            ));
            i += 1;
        }
        assert(foreign_keys.subrange(0, i as int) =~= foreign_keys);
        l
    }

    /// Lower the creation to guards and mutations.
    pub fn to_homebase(&self) -> (r: CreateTableHomebaseOp)
        requires
            table_fits(self@),
        ensures
            lowers_to(
                OperationFamily::CreateTable,
                create_emissions(self@),
                r.mutations@,
                r.footprint@,
                r.guards@,
            ),
    {
        broadcast use layout_families;

        let name = schema_object_name_scope_key(&self.name);
        let table = self.table.as_bytes();
        let mutation = self.mutation.as_bytes();
        let primary_index = self.primary_index.as_bytes();
        let revision = self.schema_revision.as_bytes();
        let l = Lowering::new(OperationFamily::CreateTable).add_invariant(
            name.clone(),
            GuardReason::SchemaObjectName,
        ).write(write_revision_key(self.table), GuardReason::WriteContract).put(
            schema_log_key(self.mutation),
            self.encode(),
        ).put(name, copy_bytes(&table)).put(
            table_schema_key(self.table, self.schema_revision),
            self.encode(),
        );
        assert(l.emissions() =~= create_head(self@));
        let l = self.lower_columns(l);
        let ghost bound = l.emissions();
        let l = l.put(active_primary_index_key(self.table), copy_bytes(&primary_index)).put(
            active_schema_revision_key(self.table),
            copy_bytes(&revision),
        );
        assert(l.emissions() =~= bound + create_activation(self@));
        let l = lower_index(self.table, self.primary_index, l);
        let l = self.lower_uniques(l);
        let l = self.lower_foreign_keys(l);
        let ghost announced = l.emissions();
        let l = l.put(write_revision_key(self.table), copy_bytes(&mutation));
        assert(l.emissions() =~= announced + seq![
            Emission::Put(write_revision_path(self@.table), self@.mutation),
        ]);
        assert(l.emissions() == create_emissions(self@));
        let (mutations, guards) = l.finish();
        let footprint = guards.footprint();
        CreateTableHomebaseOp { mutations, footprint, guards }
    }
}

/// What a foreign key emits is sound.
proof fn lemma_relationship_sound(table: Seq<u8>, foreign_key: RelationshipView)
    ensures
        sound(OperationFamily::CreateTable, announce_relationship(table)(foreign_key)),
{
    broadcast use layout_families;

    if foreign_key.active {
        let list = announce_relationship(table)(foreign_key);
        let reference = constraint_reference_path(
            foreign_key.referenced_table,
            foreign_key.referenced_index,
            foreign_key.id,
        );
        assert(classified(reference) == Some(TargetFamily::ConstraintReference));
        assert(list[0] == Emission::Invariant(reference, GuardReason::ConstraintReference));
        assert(list[1] == Emission::Write(reference, GuardReason::ConstraintReference));
        assert(list.contains(list[0]));
        assert(list.contains(list[1]));
        assert(emission_guarded(OperationFamily::CreateTable, list, list[2]));
    }
}

/// A sound list stays sound behind a guard of the list and a write that the
/// guard covers.
proof fn lemma_sound_last(operation: OperationFamily, body: Seq<Emission>, last: Emission)
    requires
        sound(operation, body),
        emission_permitted(operation, last),
        emission_guarded(operation, body, last),
    ensures
        sound(operation, body.push(last)),
{
    let whole = body.push(last);
    assert forall|e: Emission| body.contains(e) implies #[trigger] whole.contains(e) by {
        let k = choose|k: int| 0 <= k < body.len() && body[k] == e;
        assert(whole[k] == e);
    }
    assert forall|i: int| 0 <= i < whole.len() implies emission_permitted(
        operation,
        #[trigger] whole[i],
    ) && emission_guarded(operation, whole, whole[i]) by {
        if i < body.len() {
            assert(whole[i] == body[i]);
            lemma_guarded_within(operation, body, whole, body[i]);
        } else {
            lemma_guarded_within(operation, body, whole, last);
        }
    }
}

/// A lowered creation of a table stays within the contract of its family.
#[verifier::rlimit(30)]
pub proof fn lowered_creations_compile(table: TableView)
    ensures
        compiled_fault(
            OperationFamily::CreateTable,
            mutations_of(create_emissions(table)),
            plan_of(OperationFamily::CreateTable, create_emissions(table)),
        ) is None,
{
    broadcast use layout_families;

    let operation = OperationFamily::CreateTable;
    let emissions = create_emissions(table);
    let name = object_name_path(table.name);
    let revision = write_revision_path(table.table);
    let head = create_head(table);
    assert(classified(name) == Some(TargetFamily::SchemaObjectName));
    assert(classified(revision) == Some(TargetFamily::WriteRevision));
    assert(head[0] == Emission::Invariant(name, GuardReason::SchemaObjectName));
    assert(head[1] == Emission::Write(revision, GuardReason::WriteContract));
    assert(head.contains(head[0]));
    assert(sound(operation, head)) by {
        assert(emission_guarded(operation, head, head[3]));
    }
    let columns = gathered(table.columns, bind_column(table.table));
    assert forall|i: int| 0 <= i < table.columns.len() implies sound(
        operation,
        bind_column(table.table)(#[trigger] table.columns[i]),
    ) by {}
    lemma_sound_gathered(operation, table.columns, bind_column(table.table));
    let activation = create_activation(table);
    assert(sound(operation, activation));
    let primary = publish_index(table.table, table.primary_index);
    assert(sound(operation, primary));
    let uniques = gathered(table.unique_constraints, publish_unique(table.table));
    assert forall|i: int| 0 <= i < table.unique_constraints.len() implies sound(
        operation,
        publish_unique(table.table)(#[trigger] table.unique_constraints[i]),
    ) by {}
    lemma_sound_gathered(operation, table.unique_constraints, publish_unique(table.table));
    let announced = gathered(table.foreign_keys, announce_relationship(table.table));
    assert forall|i: int| 0 <= i < table.foreign_keys.len() implies sound(
        operation,
        announce_relationship(table.table)(#[trigger] table.foreign_keys[i]),
    ) by {
        lemma_relationship_sound(table.table, table.foreign_keys[i]);
    }
    lemma_sound_gathered(operation, table.foreign_keys, announce_relationship(table.table));
    lemma_sound_concat(operation, head, columns);
    lemma_sound_concat(operation, head + columns, activation);
    lemma_sound_concat(operation, head + columns + activation, primary);
    lemma_sound_concat(operation, head + columns + activation + primary, uniques);
    lemma_sound_concat(operation, head + columns + activation + primary + uniques, announced);
    let body = head + columns + activation + primary + uniques + announced;
    let last = Emission::Put(revision, table.mutation);
    assert(body[0] == head[0]);
    assert(body[1] == head[1]);
    assert(body.contains(body[1]));
    assert(emission_guarded(operation, body, last));
    lemma_sound_last(operation, body, last);
    assert(emissions =~= body.push(last));
    assert(emissions[0] == head[0]);
    assert(emissions[1] == head[1]);
    assert(emissions.contains(emissions[0]));
    assert(emissions.contains(emissions[1]));
    assert forall|contract: GuardContract|
        contract.operation == operation && #[trigger] requires_guard(contract) implies exists|
        key: Path,
    |
        #[trigger] classified(key) == Some(contract.target) && emits_guard(
            emissions,
            key,
            contract.class,
            contract.reason,
        ) by {
        if contract.reason is SchemaObjectName {
            assert(classified(name) == Some(contract.target));
            assert(emits_guard(emissions, name, contract.class, contract.reason));
        } else {
            assert(classified(revision) == Some(contract.target));
            assert(emits_guard(emissions, revision, contract.class, contract.reason));
        }
    }
    lemma_sound_compiles(operation, emissions);
}

} // verus!
