//! The drop of a table as guards and mutations.

use super::error::{drop_refusal, invalid_operation};
use super::frame::{
    drop_table_fits, drop_table_frame, DropTableOperation, DropTableOperationView,
};
use super::operation::drop_fault;
use crate::codec::views;
use crate::error::Result;
use crate::footprint::ConflictFootprint;
use crate::key::{parts_view, Mutation, Path};
use crate::logical::contract::{
    requires_guard, GuardContract, GuardReason, OperationFamily,
};
use crate::logical::guard::{compiled_fault, GuardPlan};
use crate::logical::layout::{
    constraint_reference_key, constraint_reference_path, layout_families, object_name_path,
    reference_prefix_path, schema_log_key, schema_log_path, schema_object_name_scope_key,
    table_prefix, table_root_path,
};
use crate::logical::lowering::{
    emission_guarded, emits_guard, gathered, lemma_gathered_step, lemma_sound_compiles,
    lemma_sound_concat, lemma_sound_gathered, lowers_to, mutations_of, plan_of, sound, Emission,
    Lowering,
};
use crate::logical::schema::definition::{
    ForeignKeyDefinition, NamedIndex, NamedIndexView, RelationshipView,
};
use crate::logical::schema::statement::{statement_of, Statements};
use crate::logical::target::{bounded_key, classified, LogicalTarget, TargetFamily};
use vstd::prelude::*;

verus! {

/// Guards and mutations of one drop, and the footprint of the guards.
#[derive(Debug, PartialEq, Eq)]
pub struct DropTableHomebaseOp {
    pub mutations: Vec<Mutation>,
    pub footprint: ConflictFootprint,
    pub guards: GuardPlan,
}

/// What frees the name of an active index.
pub open spec fn drop_index() -> spec_fn(NamedIndexView) -> Seq<Emission> {
    |index: NamedIndexView|
        if index.active {
            let name = object_name_path(index.name);
            seq![
                Emission::Invariant(name, GuardReason::SchemaObjectName),
                Emission::Delete(name),
            ]
        } else {
            Seq::empty()
        }
}

/// What retires an active foreign key at its parent.
pub open spec fn drop_relationship() -> spec_fn(RelationshipView) -> Seq<Emission> {
    |foreign_key: RelationshipView|
        if foreign_key.active {
            let reference = constraint_reference_path(
                foreign_key.referenced_table,
                foreign_key.referenced_index,
                foreign_key.id,
            );
            let prefix = reference_prefix_path(
                foreign_key.referenced_table,
                foreign_key.id,
                foreign_key.referenced_index,
                Seq::empty(),
            );
            seq![
                Emission::Invariant(reference, GuardReason::ConstraintReference),
                Emission::Write(reference, GuardReason::ConstraintReference),
                Emission::Delete(reference),
                Emission::Invariant(prefix, GuardReason::ForeignReference),
                Emission::Write(prefix, GuardReason::ForeignReference),
                Emission::DeletePrefix(prefix),
            ]
        } else {
            Seq::empty()
        }
}

/// What guards the table and frees its name.
pub open spec fn drop_head(op: DropTableOperationView) -> Seq<Emission> {
    let table = table_root_path(op.before.table);
    let name = object_name_path(op.source_table);
    seq![
        Emission::Invariant(table, GuardReason::TableExistence),
        Emission::Write(table, GuardReason::TableExistence),
        Emission::Invariant(name, GuardReason::SchemaObjectName),
        Emission::Put(schema_log_path(op.mutation_id), drop_table_frame(op)),
        Emission::Delete(name),
    ]
}

/// What the drop of a table emits.
pub open spec fn drop_table_emissions(op: DropTableOperationView) -> Seq<Emission> {
    drop_head(op) + gathered(op.before.indexes, drop_index()) + seq![
        Emission::DeletePrefix(table_root_path(op.before.table)),
    ] + gathered(op.before.foreign_keys, drop_relationship())
}

/// Emit what frees the name of an index.
fn lower_index(index: &NamedIndex, l: Lowering) -> (r: Lowering)
    requires
        l.family() == OperationFamily::DropTable,
    ensures
        r.family() == l.family(),
        r.emissions() == l.emissions() + drop_index()(index@),
{
    broadcast use layout_families;

    let ghost first = l.emissions();
    let l = if index.active {
        let name = schema_object_name_scope_key(&index.name);
        l.add_invariant(name.clone(), GuardReason::SchemaObjectName).delete(name)
    } else {
        l
    };
    assert(l.emissions() =~= first + drop_index()(index@));
    l
}

/// Emit what retires a foreign key at its parent.
fn lower_relationship(foreign_key: &ForeignKeyDefinition, l: Lowering) -> (r: Lowering)
    requires
        l.family() == OperationFamily::DropTable,
    ensures
        r.family() == l.family(),
        r.emissions() == l.emissions() + drop_relationship()(foreign_key@),
{
    broadcast use layout_families;

    let ghost first = l.emissions();
    let l = if foreign_key.active {
        let reference = constraint_reference_key(
            foreign_key.referenced_table,
            foreign_key.referenced_index.as_bytes(),
            foreign_key.id,
        );
        let images: Vec<Vec<u8>> = Vec::new();
        assert(parts_view(images@) =~= Seq::<Seq<u8>>::empty());
        let target = LogicalTarget::ForeignReferencePrefix {
            parent: foreign_key.referenced_table,
            relationship: foreign_key.id,
            parent_index: foreign_key.referenced_index,
            parent_images: images,
        };
        assert(target.path() =~= reference_prefix_path(
            foreign_key@.referenced_table,
            foreign_key@.id,
            foreign_key@.referenced_index,
            Seq::empty(),
        ));
        let prefix = bounded_key(target);
        l.add_invariant(reference.clone(), GuardReason::ConstraintReference).write(
            reference.clone(),
            GuardReason::ConstraintReference,
        ).delete(reference).add_invariant(prefix.clone(), GuardReason::ForeignReference).write(
            prefix.clone(),
            GuardReason::ForeignReference,
        ).delete_prefix(prefix)
    } else {
        l
    };
    assert(l.emissions() =~= first + drop_relationship()(foreign_key@));
    l
}

impl DropTableOperation {
    /// Lower the drop to guards and mutations.
    pub fn to_homebase(&self, statements: &Statements) -> (r: Result<DropTableHomebaseOp>)
        requires
            drop_table_fits(self@),
        ensures
            match r {
                Err(error) => drop_fault(self@, statement_of(statements@, self@.sql)) matches Some(
                    fault,
                ) && error@ == drop_refusal(fault),
                Ok(op) => drop_fault(self@, statement_of(statements@, self@.sql)) is None
                    && lowers_to(
                    OperationFamily::DropTable,
                    drop_table_emissions(self@),
                    op.mutations@,
                    op.footprint@,
                    op.guards@,
                ),
            },
    {
        broadcast use layout_families;

        if let Err(error) = self.validate(statements) {
            return Err(invalid_operation(error));
        }
        let table = table_prefix(self.before.table);
        let name = schema_object_name_scope_key(&self.source_table);
        let l = Lowering::new(OperationFamily::DropTable).add_invariant(
            table.clone(),
            GuardReason::TableExistence,
        ).write(table.clone(), GuardReason::TableExistence).add_invariant(
            name.clone(),
            GuardReason::SchemaObjectName,
        ).put(schema_log_key(self.mutation_id), self.encode()).delete(name);
        let ghost first = l.emissions();
        assert(first =~= drop_head(self@));
        let ghost indexes = self@.before.indexes;
        let ghost dropping = drop_index();
        let mut l = l;
        let mut i: usize = 0;
        assert(first + gathered(indexes.subrange(0, 0), dropping) =~= first);
        while i < self.before.indexes.len()
            invariant
                i <= self.before.indexes@.len(),
                indexes == views(self.before.indexes@),
                dropping == drop_index(),
                l.family() == OperationFamily::DropTable,
                l.emissions() == first + gathered(indexes.subrange(0, i as int), dropping),
            decreases self.before.indexes.len() - i,
        {
            let index = &self.before.indexes[i];
            proof {
                lemma_gathered_step(indexes, i as int, dropping);
                assert(indexes[i as int] == index@);
            }
            let ghost done = l.emissions();
            l = lower_index(index, l);
            assert(done + dropping(indexes[i as int]) =~= first + gathered(
                indexes.subrange(0, i as int + 1),
                dropping,
            ));
            i += 1;
        }
        assert(indexes.subrange(0, i as int) =~= indexes);
        let l = l.delete_prefix(table);
        let ghost middle = l.emissions();
        let ghost foreign_keys = self@.before.foreign_keys;
        let ghost retiring = drop_relationship();
        let mut l = l;
        let mut i: usize = 0;
        assert(middle + gathered(foreign_keys.subrange(0, 0), retiring) =~= middle);
        while i < self.before.foreign_keys.len()
            invariant
                i <= self.before.foreign_keys@.len(),
                foreign_keys == views(self.before.foreign_keys@),
                retiring == drop_relationship(),
                l.family() == OperationFamily::DropTable,
                l.emissions() == middle + gathered(foreign_keys.subrange(0, i as int), retiring),
            decreases self.before.foreign_keys.len() - i,
        {
            let foreign_key = &self.before.foreign_keys[i];
            proof {
                lemma_gathered_step(foreign_keys, i as int, retiring);
                assert(foreign_keys[i as int] == foreign_key@);
            }
            let ghost done = l.emissions();
            l = lower_relationship(foreign_key, l);
            assert(done + retiring(foreign_keys[i as int]) =~= middle + gathered(
                foreign_keys.subrange(0, i as int + 1),
                retiring,
            ));
            i += 1;
        }
        assert(foreign_keys.subrange(0, i as int) =~= foreign_keys);
        assert(l.emissions() =~= drop_table_emissions(self@));
        let (mutations, guards) = l.finish();
        let footprint = guards.footprint();
        Ok(DropTableHomebaseOp { mutations, footprint, guards })
    }
}

/// What one foreign key emits is sound.
proof fn lemma_relationship_sound(foreign_key: RelationshipView)
    ensures
        sound(OperationFamily::DropTable, drop_relationship()(foreign_key)),
{
    broadcast use layout_families;

    if foreign_key.active {
        let operation = OperationFamily::DropTable;
        let list = drop_relationship()(foreign_key);
        let reference = constraint_reference_path(
            foreign_key.referenced_table,
            foreign_key.referenced_index,
            foreign_key.id,
        );
        let prefix = reference_prefix_path(
            foreign_key.referenced_table,
            foreign_key.id,
            foreign_key.referenced_index,
            Seq::empty(),
        );
        assert(classified(reference) == Some(TargetFamily::ConstraintReference));
        assert(classified(prefix) == Some(TargetFamily::ForeignReference));
        assert(list[0] == Emission::Invariant(reference, GuardReason::ConstraintReference));
        assert(list[1] == Emission::Write(reference, GuardReason::ConstraintReference));
        assert(list[3] == Emission::Invariant(prefix, GuardReason::ForeignReference));
        assert(list[4] == Emission::Write(prefix, GuardReason::ForeignReference));
        assert(list.contains(list[0]));
        assert(list.contains(list[1]));
        assert(list.contains(list[3]));
        assert(list.contains(list[4]));
        assert(emission_guarded(operation, list, list[2]));
        assert(emission_guarded(operation, list, list[5]));
    }
}

/// What one index emits is sound.
proof fn lemma_index_sound(index: NamedIndexView)
    ensures
        sound(OperationFamily::DropTable, drop_index()(index)),
{
    broadcast use layout_families;

    if index.active {
        let list = drop_index()(index);
        let name = object_name_path(index.name);
        assert(classified(name) == Some(TargetFamily::SchemaObjectName));
        assert(list[0] == Emission::Invariant(name, GuardReason::SchemaObjectName));
        assert(list.contains(list[0]));
        assert(emission_guarded(OperationFamily::DropTable, list, list[1]));
    }
}

/// A lowered drop of a table stays within the contract of its family.
pub proof fn lowered_drops_compile(op: DropTableOperationView)
    ensures
        compiled_fault(
            OperationFamily::DropTable,
            mutations_of(drop_table_emissions(op)),
            plan_of(OperationFamily::DropTable, drop_table_emissions(op)),
        ) is None,
{
    broadcast use layout_families;

    let operation = OperationFamily::DropTable;
    let emissions = drop_table_emissions(op);
    let table = table_root_path(op.before.table);
    let name = object_name_path(op.source_table);
    let head = drop_head(op);
    let guards = seq![
        Emission::Invariant(table, GuardReason::TableExistence),
        Emission::Write(table, GuardReason::TableExistence),
        Emission::DeletePrefix(table),
    ];
    assert(classified(table) == Some(TargetFamily::TableRoot));
    assert(classified(name) == Some(TargetFamily::SchemaObjectName));
    assert(classified(schema_log_path(op.mutation_id)) == Some(TargetFamily::SchemaLog));
    assert(head[0] == guards[0] && head[1] == guards[1]);
    assert(head[2] == Emission::Invariant(name, GuardReason::SchemaObjectName));
    assert(head.contains(head[2]));
    assert(guards.contains(guards[0]));
    assert(guards.contains(guards[1]));
    assert(sound(operation, head)) by {
        assert(emission_guarded(operation, head, head[4]));
    }
    assert(emission_guarded(operation, guards, guards[2]));
    assert forall|i: int| 0 <= i < op.before.indexes.len() implies sound(
        operation,
        drop_index()(#[trigger] op.before.indexes[i]),
    ) by {
        lemma_index_sound(op.before.indexes[i]);
    }
    assert forall|i: int| 0 <= i < op.before.foreign_keys.len() implies sound(
        operation,
        drop_relationship()(#[trigger] op.before.foreign_keys[i]),
    ) by {
        lemma_relationship_sound(op.before.foreign_keys[i]);
    }
    lemma_sound_gathered(operation, op.before.indexes, drop_index());
    lemma_sound_gathered(operation, op.before.foreign_keys, drop_relationship());
    let a = head + gathered(op.before.indexes, drop_index());
    lemma_sound_concat(operation, head, gathered(op.before.indexes, drop_index()));
    let b = a.push(guards[2]);
    assert(a + seq![guards[2]] =~= b);
    assert(b[0] == guards[0]);
    assert(b[1] == guards[1]);
    assert(sound(operation, b)) by {
        assert forall|e: Emission| a.contains(e) implies #[trigger] b.contains(e) by {
            let k = choose|k: int| 0 <= k < a.len() && a[k] == e;
            assert(b[k] == e);
        }
        assert forall|i: int| 0 <= i < b.len() implies crate::logical::lowering::emission_permitted(
            operation,
            #[trigger] b[i],
        ) && emission_guarded(operation, b, b[i]) by {
            if i < a.len() {
                assert(b[i] == a[i]);
                crate::logical::lowering::lemma_guarded_within(operation, a, b, a[i]);
            } else {
                assert(b.contains(b[0]));
                assert(b.contains(b[1]));
                assert(b[i] == guards[2]);
            }
        }
    }
    lemma_sound_concat(operation, b, gathered(op.before.foreign_keys, drop_relationship()));
    assert(emissions =~= b + gathered(op.before.foreign_keys, drop_relationship()));
    assert(emissions[0] == guards[0]);
    assert(emissions[1] == guards[1]);
    assert(emissions[2] == head[2]);
    assert forall|contract: GuardContract|
        contract.operation == operation && #[trigger] requires_guard(contract) implies exists|
        key: Path,
    |
        #[trigger] classified(key) == Some(contract.target) && emits_guard(
            emissions,
            key,
            contract.class,
            contract.reason,
        ) by {
        assert(emissions.contains(emissions[0]));
        assert(emissions.contains(emissions[1]));
        assert(emissions.contains(emissions[2]));
        if contract.reason is TableExistence {
            assert(classified(table) == Some(contract.target));
            assert(emits_guard(emissions, table, contract.class, contract.reason));
        } else {
            assert(classified(name) == Some(contract.target));
            assert(emits_guard(emissions, name, contract.class, contract.reason));
        }
    }
    lemma_sound_compiles(operation, emissions);
}

} // verus!
