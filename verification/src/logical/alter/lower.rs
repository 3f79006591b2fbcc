//! An alteration as guards and mutations.

use super::error::{alter_error_text, invalid_operation};
use super::operation::{
    alter_encoded, alter_fault, alter_fits, AlterTableDelta, AlterTableOperation, AlterView,
    DeltaView,
};
use crate::bytes::copy_bytes;
use crate::codec::views;
use crate::error::{ErrorView, Result};
use crate::footprint::ConflictFootprint;
use crate::identity::ColumnId;
use crate::key::{Key, Mutation, Path};
use crate::logical::contract::{GuardReason, OperationFamily};
use crate::logical::guard::{guard_fault, GuardPlan};
use crate::logical::layout::{
    column_check_dependency_key, column_check_path, column_dependency_path,
    column_dependency_prefix, column_name_path, column_name_scope_key, layout_families,
    object_name_path, row_path, schema_log_key, schema_log_path, schema_object_name_scope_key,
    table_schema_key, table_schema_path, write_revision_key, write_revision_path,
};
use crate::logical::lowering::{
    gathered, lemma_gathered_step, lowers_to, Emission, Lowering,
};
use crate::logical::row::keys::primary_index_prefix;
use crate::logical::schema::definition::{table_frame, CreateTable, TableView};
use crate::logical::schema::depend::{check_dependencies, dependency_names, restricts_writes};
use crate::logical::schema::part::{encode_part, part_fits};
use crate::logical::schema::statement::{statement_of, Statements};
use vstd::prelude::*;

verus! {

/// Guards and mutations of one alteration, and the footprint of the guards.
#[derive(Debug, PartialEq, Eq)]
pub struct AlterTableHomebaseOp {
    pub mutations: Vec<Mutation>,
    pub footprint: ConflictFootprint,
    pub guards: GuardPlan,
}

/// The family of an alteration.
pub open spec fn alter_family(delta: DeltaView) -> OperationFamily {
    match delta {
        DeltaView::RenameTable { .. } => OperationFamily::RenameTable,
        DeltaView::RenameColumn { .. } => OperationFamily::RenameColumn,
        DeltaView::AddColumn { .. } => OperationFamily::AddColumn,
        DeltaView::DropColumn { .. } => OperationFamily::DropColumn,
    }
}

/// What a rename emits: both names are guarded, and the binding moves.
pub open spec fn rename_emissions(
    op: AlterView,
    old: Path,
    new: Path,
    bound: Seq<u8>,
    reason: GuardReason,
) -> Seq<Emission> {
    seq![
        Emission::Invariant(old, reason),
        Emission::Invariant(new, reason),
        Emission::Put(schema_log_path(op.mutation_id), alter_encoded(op)),
        Emission::Delete(old),
        Emission::Put(new, bound),
    ]
}

/// The guard on a name that a new column depends on.
pub open spec fn guard_name(table: Seq<u8>) -> spec_fn(Seq<char>) -> Seq<Emission> {
    |name: Seq<char>|
        seq![Emission::Invariant(column_name_path(table, name), GuardReason::ColumnNameBinding)]
}

/// What records that a column's CHECK reads another column.
pub open spec fn add_dependency(table: Seq<u8>, column: Seq<u8>) -> spec_fn(Seq<u8>) -> Seq<
    Emission,
> {
    |read: Seq<u8>|
        {
            let key = column_check_path(table, read, column);
            seq![
                Emission::Invariant(key, GuardReason::ColumnDependency),
                Emission::Write(key, GuardReason::ColumnDependency),
                Emission::Put(key, column),
            ]
        }
}

/// What forgets that a column's CHECK reads another column.
pub open spec fn drop_dependency(table: Seq<u8>, column: Seq<u8>) -> spec_fn(Seq<u8>) -> Seq<
    Emission,
> {
    |read: Seq<u8>|
        {
            let key = column_check_path(table, read, column);
            seq![
                Emission::Invariant(key, GuardReason::ColumnDependency),
                Emission::Write(key, GuardReason::ColumnDependency),
                Emission::Delete(key),
            ]
        }
}

/// What a new column emits where it restricts writes: the write contract moves,
/// and no row may appear meanwhile.
pub open spec fn restrict_emissions(op: AlterView, before: TableView) -> Seq<Emission> {
    let revision = write_revision_path(op.table);
    seq![
        Emission::Write(revision, GuardReason::WriteContract),
        Emission::Invariant(
            row_path(before.table, before.primary_index, Seq::empty()),
            GuardReason::ExistingRows,
        ),
        Emission::Put(revision, op.mutation_id),
    ]
}

/// What an added column emits.
pub open spec fn add_emissions(
    op: AlterView,
    column: Seq<u8>,
    name: Seq<char>,
    before: TableView,
    after: TableView,
) -> Seq<Emission> {
    let key = column_name_path(op.table, name);
    seq![Emission::Invariant(key, GuardReason::ColumnNameBinding)] + gathered(
        dependency_names(after, column),
        guard_name(op.table),
    ) + seq![
        Emission::Put(schema_log_path(op.mutation_id), alter_encoded(op)),
        Emission::Put(key, column),
        Emission::Put(table_schema_path(op.table, after.schema_revision), table_frame(after)),
    ] + gathered(check_dependencies(after, column), add_dependency(op.table, column)) + (
    if restricts_writes(after, column) {
        restrict_emissions(op, before)
    } else {
        Seq::empty()
    })
}

/// What a dropped column emits.
pub open spec fn drop_emissions(
    op: AlterView,
    column: Seq<u8>,
    name: Seq<char>,
    before: TableView,
    after: TableView,
) -> Seq<Emission> {
    let key = column_name_path(op.table, name);
    let dependents = column_dependency_path(op.table, column);
    seq![
        Emission::Invariant(key, GuardReason::ColumnNameBinding),
        Emission::Put(schema_log_path(op.mutation_id), alter_encoded(op)),
        Emission::Delete(key),
        Emission::Put(table_schema_path(op.table, after.schema_revision), table_frame(after)),
    ] + gathered(check_dependencies(before, column), drop_dependency(op.table, column)) + seq![
        Emission::Invariant(dependents, GuardReason::ColumnDependency),
        Emission::Write(dependents, GuardReason::ColumnDependency),
        Emission::DeletePrefix(dependents),
    ]
}

/// What an alteration emits.
pub open spec fn alter_emissions(op: AlterView) -> Seq<Emission> {
    match op.delta {
        DeltaView::RenameTable { old_name, new_name } => rename_emissions(
            op,
            object_name_path(old_name),
            object_name_path(new_name),
            op.table,
            GuardReason::SchemaObjectName,
        ),
        DeltaView::RenameColumn { column, old_name, new_name } => rename_emissions(
            op,
            column_name_path(op.table, old_name),
            column_name_path(op.table, new_name),
            column,
            GuardReason::ColumnNameBinding,
        ),
        DeltaView::AddColumn { column, name, before, after, .. } => add_emissions(
            op,
            column,
            name,
            before,
            after,
        ),
        DeltaView::DropColumn { column, name, before, after } => drop_emissions(
            op,
            column,
            name,
            before,
            after,
        ),
    }
}

impl AlterTableOperation {
    /// Emit what a rename does.
    fn rename_homebase(
        &self,
        old: Key,
        new: Key,
        bound: Vec<u8>,
        operation: OperationFamily,
        reason: GuardReason,
    ) -> (r: Lowering)
        requires
            alter_fits(self@),
            guard_fault(
                Some(operation),
                old@,
                crate::logical::contract::GuardClass::Invariant,
                reason,
            ) is None,
            guard_fault(
                Some(operation),
                new@,
                crate::logical::contract::GuardClass::Invariant,
                reason,
            ) is None,
        ensures
            r.family() == operation,
            r.emissions() == rename_emissions(self@, old@, new@, bound@, reason),
    {
        let l = Lowering::new(operation).add_invariant(old.clone(), reason).add_invariant(
            new.clone(),
            reason,
        ).put(schema_log_key(self.mutation_id), self.encode()).delete(old).put(new, bound);
        assert(l.emissions() =~= rename_emissions(self@, old@, new@, bound@, reason));
        l
    }

    /// Emit what an added column does.
    fn add_homebase(
        &self,
        column: ColumnId,
        name: &crate::name::SqlName,
        before: &CreateTable,
        after: &CreateTable,
    ) -> (r: Lowering)
        requires
            alter_fits(self@),
            part_fits(after@),
        ensures
            r.family() == OperationFamily::AddColumn,
            r.emissions() == add_emissions(self@, column@, name@, before@, after@),
    {
        broadcast use layout_families;

        let key = column_name_scope_key(self.table, name);
        let bound = column.as_bytes();
        let ghost op = self@;
        let l = Lowering::new(OperationFamily::AddColumn).add_invariant(
            key.clone(),
            GuardReason::ColumnNameBinding,
        );
        let names = after.added_column_dependencies(column);
        let ghost all = views(names@);
        let ghost first = l.emissions();
        let ghost guarding = guard_name(op.table);
        let mut l = l;
        let mut i: usize = 0;
        assert(first + gathered(all.subrange(0, 0), guarding) =~= first);
        while i < names.len()
            invariant
                i <= names@.len(),
                all == views(names@),
                op == self@,
                guarding == guard_name(op.table),
                l.family() == OperationFamily::AddColumn,
                l.emissions() == first + gathered(all.subrange(0, i as int), guarding),
            decreases names.len() - i,
        {
            broadcast use layout_families;

            proof {
                lemma_gathered_step(all, i as int, guarding);
                assert(all[i as int] == names@[i as int]@);
            }
            let ghost done = l.emissions();
            l = l.add_invariant(
                column_name_scope_key(self.table, &names[i]),
                GuardReason::ColumnNameBinding,
            );
            assert(l.emissions() =~= done + guarding(all[i as int]));
            assert(done + guarding(all[i as int]) =~= first + gathered(
                all.subrange(0, i as int + 1),
                guarding,
            ));
            i += 1;
        }
        assert(all.subrange(0, i as int) =~= all);
        let l = l.put(schema_log_key(self.mutation_id), self.encode()).put(
            key,
            copy_bytes(&bound),
        ).put(table_schema_key(self.table, after.schema_revision), encode_part(after));
        let reads = after.column_check_dependencies(column);
        let ghost all = views(reads@);
        let ghost published = l.emissions();
        let ghost adding = add_dependency(op.table, column@);
        let mut l = l;
        let mut i: usize = 0;
        assert(published + gathered(all.subrange(0, 0), adding) =~= published);
        while i < reads.len()
            invariant
                i <= reads@.len(),
                all == views(reads@),
                op == self@,
                bound@ == column@,
                adding == add_dependency(op.table, column@),
                l.family() == OperationFamily::AddColumn,
                l.emissions() == published + gathered(all.subrange(0, i as int), adding),
            decreases reads.len() - i,
        {
            broadcast use layout_families;

            proof {
                lemma_gathered_step(all, i as int, adding);
                assert(all[i as int] == reads@[i as int]@);
            }
            let ghost done = l.emissions();
            let key = column_check_dependency_key(self.table, reads[i], column);
            l = l.add_invariant(key.clone(), GuardReason::ColumnDependency).write(
                key.clone(),
                GuardReason::ColumnDependency,
            ).put(key, copy_bytes(&bound));
            assert(l.emissions() =~= done + adding(all[i as int]));
            assert(done + adding(all[i as int]) =~= published + gathered(
                all.subrange(0, i as int + 1),
                adding,
            ));
            i += 1;
        }
        assert(all.subrange(0, i as int) =~= all);
        let ghost recorded = l.emissions();
        if after.added_column_changes_write_contract(column) {
            let revision = write_revision_key(self.table);
            let mutation = self.mutation_id.as_bytes();
            l = l.write(revision.clone(), GuardReason::WriteContract).add_invariant(
                primary_index_prefix(before),
                GuardReason::ExistingRows,
            ).put(revision, copy_bytes(&mutation));
            assert(l.emissions() =~= recorded + restrict_emissions(op, before@));
        } else {
            assert(recorded + Seq::<Emission>::empty() =~= recorded);
        }
        assert(l.emissions() =~= add_emissions(op, column@, name@, before@, after@));
        l
    }

    /// Emit what a dropped column does.
    fn drop_homebase(
        &self,
        column: ColumnId,
        name: &crate::name::SqlName,
        before: &CreateTable,
        after: &CreateTable,
    ) -> (r: Lowering)
        requires
            alter_fits(self@),
            part_fits(after@),
        ensures
            r.family() == OperationFamily::DropColumn,
            r.emissions() == drop_emissions(self@, column@, name@, before@, after@),
    {
        broadcast use layout_families;

        let key = column_name_scope_key(self.table, name);
        let ghost op = self@;
        let l = Lowering::new(OperationFamily::DropColumn).add_invariant(
            key.clone(),
            GuardReason::ColumnNameBinding,
        ).put(schema_log_key(self.mutation_id), self.encode()).delete(key).put(
            table_schema_key(self.table, after.schema_revision),
            encode_part(after),
        );
        let reads = before.column_check_dependencies(column);
        let ghost all = views(reads@);
        let ghost published = l.emissions();
        let ghost dropping = drop_dependency(op.table, column@);
        let mut l = l;
        let mut i: usize = 0;
        assert(published + gathered(all.subrange(0, 0), dropping) =~= published);
        while i < reads.len()
            invariant
                i <= reads@.len(),
                all == views(reads@),
                op == self@,
                dropping == drop_dependency(op.table, column@),
                l.family() == OperationFamily::DropColumn,
                l.emissions() == published + gathered(all.subrange(0, i as int), dropping),
            decreases reads.len() - i,
        {
            broadcast use layout_families;

            proof {
                lemma_gathered_step(all, i as int, dropping);
                assert(all[i as int] == reads@[i as int]@);
            }
            let ghost done = l.emissions();
            let key = column_check_dependency_key(self.table, reads[i], column);
            l = l.add_invariant(key.clone(), GuardReason::ColumnDependency).write(
                key.clone(),
                GuardReason::ColumnDependency,
            ).delete(key);
            assert(l.emissions() =~= done + dropping(all[i as int]));
            assert(done + dropping(all[i as int]) =~= published + gathered(
                all.subrange(0, i as int + 1),
                dropping,
            ));
            i += 1;
        }
        assert(all.subrange(0, i as int) =~= all);
        let dependents = column_dependency_prefix(self.table, column);
        let l = l.add_invariant(dependents.clone(), GuardReason::ColumnDependency).write(
            dependents.clone(),
            GuardReason::ColumnDependency,
        ).delete_prefix(dependents);
        assert(l.emissions() =~= drop_emissions(op, column@, name@, before@, after@));
        l
    }

    /// Lower the alteration to guards and mutations.
    pub fn to_homebase(&self, statements: &Statements) -> (r: Result<AlterTableHomebaseOp>)
        requires
            alter_fits(self@),
        ensures
            match r {
                Err(error) => alter_fault(self@, statement_of(statements@, self@.sql)) matches Some(
                    fault,
                ) && error@ == ErrorView::InvalidMultiliteOp(alter_error_text(fault)),
                Ok(op) => alter_fault(self@, statement_of(statements@, self@.sql)) is None
                    && lowers_to(
                    alter_family(self@.delta),
                    alter_emissions(self@),
                    op.mutations@,
                    op.footprint@,
                    op.guards@,
                ),
            },
    {
        broadcast use layout_families;

        if let Err(error) = self.validate(statements) {
            return Err(invalid_operation(error));
        }
        let l = match &self.delta {
            AlterTableDelta::RenameTable { old_name, new_name } => {
                let bound = self.table.as_bytes();
                self.rename_homebase(
                    schema_object_name_scope_key(old_name),
                    schema_object_name_scope_key(new_name),
                    copy_bytes(&bound),
                    OperationFamily::RenameTable,
                    GuardReason::SchemaObjectName,
                )
            },
            AlterTableDelta::RenameColumn { column, old_name, new_name } => {
                let bound = column.as_bytes();
                self.rename_homebase(
                    column_name_scope_key(self.table, old_name),
                    column_name_scope_key(self.table, new_name),
                    copy_bytes(&bound),
                    OperationFamily::RenameColumn,
                    GuardReason::ColumnNameBinding,
                )
            },
            AlterTableDelta::AddColumn { column, name, before, after, .. } => {
                self.add_homebase(*column, name, before, after)
            },
            AlterTableDelta::DropColumn { column, name, before, after } => {
                self.drop_homebase(*column, name, before, after)
            },
        };
        let (mutations, guards) = l.finish();
        let footprint = guards.footprint();
        Ok(AlterTableHomebaseOp { mutations, footprint, guards })
    }
}

} // verus!
