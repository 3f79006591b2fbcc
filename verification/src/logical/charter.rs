//! Laws on the operation contracts: who may touch what, and under which guards.

use crate::logical::contract::{
    permits_guard, permits_mutation, permits_rejection, requires_guard, GuardClass, GuardContract,
    GuardReason, MutationKind, OperationFamily, RejectionKind,
};
use crate::logical::guard::guard_requirements;
use crate::logical::target::TargetFamily;
use vstd::prelude::*;

verus! {

/// Each kind of key is put and deleted by the operations that it belongs to, and
/// by no others: names by what creates, renames or drops their objects, rows,
/// owners and references by changes of rows, the transaction log by the envelope
/// of a transaction, the user version by setting it, and the schema log by every
/// change of the schema.
pub proof fn keys_are_touched_by_their_own_operations(
    operation: OperationFamily,
    kind: MutationKind,
    target: TargetFamily,
)
    ensures
        permits_mutation(operation, MutationKind::Put, TargetFamily::TransactionLog) <==> operation is TransactionEnvelope,
        permits_mutation(operation, MutationKind::Put, TargetFamily::UserVersion) <==> operation is SetUserVersion,
        permits_mutation(operation, MutationKind::Put, TargetFamily::SchemaLog) <==> operation is CreateView || operation is DropView || operation is CreateTable || operation is DropTable || operation is CreateIndex || operation is DropIndex || operation is RenameTable || operation is RenameColumn || operation is AddColumn || operation is DropColumn || operation is DropConstraint,
        permits_mutation(operation, MutationKind::Put, TargetFamily::SchemaObjectName) <==> operation is CreateView || operation is CreateTable || operation is CreateIndex || operation is RenameTable,
        permits_mutation(operation, MutationKind::Put, TargetFamily::ViewDependency) <==> operation is CreateView,
        permits_mutation(operation, MutationKind::Put, TargetFamily::ColumnDependency) <==> operation is CreateView || operation is CreateIndex || operation is AddColumn,
        permits_mutation(operation, MutationKind::Delete, TargetFamily::SchemaObjectName) <==> operation is DropView || operation is DropTable || operation is DropIndex || operation is RenameTable,
        permits_mutation(operation, MutationKind::Delete, TargetFamily::ViewDependency) <==> operation is DropView,
        permits_mutation(operation, MutationKind::Delete, TargetFamily::ColumnDependency) <==> operation is DropView || operation is DropIndex || operation is DropColumn,
        permits_mutation(operation, MutationKind::Put, TargetFamily::TableSchema) <==> operation is CreateTable || operation is CreateIndex || operation is DropIndex || operation is AddColumn || operation is DropColumn || operation is DropConstraint,
        permits_mutation(operation, MutationKind::Put, TargetFamily::ActivePrimaryIndex) <==> operation is CreateTable,
        permits_mutation(operation, MutationKind::Put, TargetFamily::ActiveSchemaRevision) <==> operation is CreateTable || operation is CreateIndex || operation is DropIndex,
        permits_mutation(operation, MutationKind::Put, TargetFamily::IndexDefinition) <==> operation is CreateTable || operation is CreateIndex,
        permits_mutation(operation, MutationKind::Put, TargetFamily::ColumnName) <==> operation is CreateTable || operation is RenameColumn || operation is AddColumn,
        permits_mutation(operation, MutationKind::Put, TargetFamily::ConstraintName) <==> operation is CreateTable || operation is AddColumn,
        permits_mutation(operation, MutationKind::Put, TargetFamily::ActiveConstraint) <==> operation is CreateTable || operation is CreateIndex,
        permits_mutation(operation, MutationKind::Put, TargetFamily::ConstraintReference) <==> operation is CreateTable || operation is AddColumn,
        permits_mutation(operation, MutationKind::Put, TargetFamily::WriteRevision) <==> operation is CreateTable || operation is CreateIndex || operation is AddColumn,
        permits_mutation(operation, MutationKind::DeletePrefix, TargetFamily::TableRoot) <==> operation is DropTable,
        permits_mutation(operation, MutationKind::DeletePrefix, TargetFamily::ForeignReference) <==> operation is DropTable || operation is RowChanges,
        permits_mutation(operation, MutationKind::Delete, TargetFamily::ConstraintReference) <==> operation is DropTable || operation is DropConstraint,
        permits_mutation(operation, MutationKind::Put, TargetFamily::Row) <==> operation is RowChanges,
        permits_mutation(operation, MutationKind::Put, TargetFamily::UniqueOwner) <==> operation is RowChanges || operation is CreateIndex,
        permits_mutation(operation, MutationKind::Put, TargetFamily::ForeignReference) <==> operation is RowChanges,
        permits_mutation(operation, MutationKind::Delete, TargetFamily::Row) <==> operation is RowChanges,
        permits_mutation(operation, MutationKind::Delete, TargetFamily::UniqueOwner) <==> operation is RowChanges,
        permits_mutation(operation, MutationKind::Delete, TargetFamily::ForeignReference) <==> operation is RowChanges,
        permits_mutation(operation, MutationKind::Delete, TargetFamily::ActiveConstraint) <==> operation is DropIndex || operation is DropConstraint,
        permits_mutation(operation, MutationKind::DeletePrefix, TargetFamily::ConstraintReference) <==> operation is DropIndex || operation is DropConstraint,
        permits_mutation(operation, MutationKind::Delete, TargetFamily::ColumnName) <==> operation is RenameColumn || operation is DropColumn,
        permits_mutation(operation, MutationKind::Delete, TargetFamily::ConstraintName) <==> operation is DropColumn || operation is DropConstraint,
        permits_mutation(operation, MutationKind::DeletePrefix, TargetFamily::ColumnDependency) <==> operation is DropColumn,
        permits_mutation(operation, kind, target) ==> match (kind, target) {
            (MutationKind::Put, target) => target is TransactionLog || target is UserVersion || target is SchemaLog || target is SchemaObjectName || target is ViewDependency || target is ColumnDependency || target is TableSchema || target is ActivePrimaryIndex || target is ActiveSchemaRevision || target is IndexDefinition || target is ColumnName || target is ConstraintName || target is ActiveConstraint || target is ConstraintReference || target is WriteRevision || target is Row || target is UniqueOwner || target is ForeignReference,
            (MutationKind::Delete, target) => target is SchemaObjectName || target is ViewDependency || target is ColumnDependency || target is ConstraintReference || target is Row || target is UniqueOwner || target is ForeignReference || target is ActiveConstraint || target is ColumnName || target is ConstraintName,
            (MutationKind::DeletePrefix, target) => target is TableRoot || target is ForeignReference || target is ConstraintReference || target is ColumnDependency,
        },
{
}

/// Each reason for a guard is given by the operations that it concerns, and by no
/// others, in the class and for the kind of key that it speaks of.
#[verifier::rlimit(40)]
pub proof fn guards_are_set_for_their_own_reasons(operation: OperationFamily)
    ensures
        permits_guard(
            operation,
            GuardClass::Invariant,
            GuardReason::SchemaObjectName,
            TargetFamily::SchemaObjectName,
        ) <==> operation is CreateTable || operation is DropTable || operation is CreateIndex || operation is DropIndex || operation is RenameTable || operation is AddColumn || operation is CreateView || operation is DropView,
        permits_guard(
            operation,
            GuardClass::Invariant,
            GuardReason::SchemaRevision,
            TargetFamily::ActiveSchemaRevision,
        ) <==> operation is CreateTable || operation is CreateIndex || operation is DropIndex || operation is AddColumn,
        permits_guard(
            operation,
            GuardClass::Invariant,
            GuardReason::ConstraintState,
            TargetFamily::ActiveConstraint,
        ) <==> operation is CreateTable || operation is CreateIndex || operation is DropIndex || operation is AddColumn || operation is DropConstraint,
        permits_guard(
            operation,
            GuardClass::Invariant,
            GuardReason::ConstraintReference,
            TargetFamily::ConstraintReference,
        ) <==> operation is CreateTable || operation is DropTable || operation is DropIndex || operation is AddColumn || operation is DropConstraint,
        permits_guard(
            operation,
            GuardClass::Write,
            GuardReason::ConstraintReference,
            TargetFamily::ConstraintReference,
        ) <==> operation is CreateTable || operation is DropTable || operation is DropIndex || operation is AddColumn || operation is DropConstraint,
        permits_guard(
            operation,
            GuardClass::Write,
            GuardReason::WriteContract,
            TargetFamily::WriteRevision,
        ) <==> operation is CreateTable || operation is CreateIndex || operation is AddColumn,
        permits_guard(
            operation,
            GuardClass::Invariant,
            GuardReason::TableExistence,
            TargetFamily::TableRoot,
        ) <==> operation is DropTable,
        permits_guard(
            operation,
            GuardClass::Write,
            GuardReason::TableExistence,
            TargetFamily::TableRoot,
        ) <==> operation is DropTable,
        permits_guard(
            operation,
            GuardClass::Invariant,
            GuardReason::ForeignReference,
            TargetFamily::ForeignReference,
        ) <==> operation is DropTable || operation is RowChanges,
        permits_guard(
            operation,
            GuardClass::Write,
            GuardReason::ForeignReference,
            TargetFamily::ForeignReference,
        ) <==> operation is DropTable || operation is RowChanges,
        permits_guard(
            operation,
            GuardClass::Invariant,
            GuardReason::RowIdentity,
            TargetFamily::Row,
        ) <==> operation is RowChanges,
        permits_guard(
            operation,
            GuardClass::Write,
            GuardReason::RowIdentity,
            TargetFamily::Row,
        ) <==> operation is RowChanges,
        permits_guard(
            operation,
            GuardClass::Invariant,
            GuardReason::UniqueOwnership,
            TargetFamily::UniqueOwner,
        ) <==> operation is RowChanges,
        permits_guard(
            operation,
            GuardClass::Write,
            GuardReason::UniqueOwnership,
            TargetFamily::UniqueOwner,
        ) <==> operation is RowChanges,
        permits_guard(
            operation,
            GuardClass::Invariant,
            GuardReason::ForeignChildren,
            TargetFamily::ForeignReference,
        ) <==> operation is RowChanges,
        permits_guard(
            operation,
            GuardClass::Write,
            GuardReason::ForeignChildren,
            TargetFamily::ForeignReference,
        ) <==> operation is RowChanges,
        permits_guard(
            operation,
            GuardClass::Invariant,
            GuardReason::PrimaryIndex,
            TargetFamily::ActivePrimaryIndex,
        ) <==> operation is RowChanges,
        permits_guard(
            operation,
            GuardClass::Invariant,
            GuardReason::WriteContract,
            TargetFamily::WriteRevision,
        ) <==> operation is RowChanges || operation is DropIndex,
        permits_guard(
            operation,
            GuardClass::Write,
            GuardReason::SchemaRevision,
            TargetFamily::ActiveSchemaRevision,
        ) <==> operation is CreateIndex || operation is DropIndex,
        permits_guard(
            operation,
            GuardClass::Invariant,
            GuardReason::ColumnNameBinding,
            TargetFamily::ColumnName,
        ) <==> operation is CreateIndex || operation is RenameColumn || operation is AddColumn || operation is DropColumn,
        permits_guard(
            operation,
            GuardClass::Invariant,
            GuardReason::ColumnDependency,
            TargetFamily::ColumnDependency,
        ) <==> operation is CreateIndex || operation is DropIndex || operation is AddColumn || operation is DropColumn || operation is CreateView || operation is DropView,
        permits_guard(
            operation,
            GuardClass::Write,
            GuardReason::ColumnDependency,
            TargetFamily::ColumnDependency,
        ) <==> operation is CreateIndex || operation is DropIndex || operation is AddColumn || operation is DropColumn || operation is CreateView || operation is DropView,
        permits_guard(
            operation,
            GuardClass::Invariant,
            GuardReason::ExistingRows,
            TargetFamily::Row,
        ) <==> operation is CreateIndex || operation is AddColumn,
        permits_guard(
            operation,
            GuardClass::Write,
            GuardReason::ConstraintState,
            TargetFamily::ActiveConstraint,
        ) <==> operation is CreateIndex || operation is DropIndex || operation is DropConstraint,
        permits_guard(
            operation,
            GuardClass::Write,
            GuardReason::ColumnNameBinding,
            TargetFamily::ColumnName,
        ) <==> operation is AddColumn,
        permits_guard(
            operation,
            GuardClass::Invariant,
            GuardReason::ConstraintNameBinding,
            TargetFamily::ConstraintName,
        ) <==> operation is AddColumn || operation is DropColumn || operation is DropConstraint,
        permits_guard(
            operation,
            GuardClass::Invariant,
            GuardReason::ExistingRows,
            TargetFamily::TableRows,
        ) <==> operation is AddColumn,
        permits_guard(
            operation,
            GuardClass::Write,
            GuardReason::ConstraintNameBinding,
            TargetFamily::ConstraintName,
        ) <==> operation is DropColumn || operation is DropConstraint,
        permits_guard(
            operation,
            GuardClass::SerializableRead,
            GuardReason::SerializableRead,
            TargetFamily::TableRoot,
        ) <==> operation is TransactionRead,
        permits_guard(
            operation,
            GuardClass::SerializableRead,
            GuardReason::SerializableRead,
            TargetFamily::SchemaObjectName,
        ) <==> operation is TransactionRead,
        permits_guard(
            operation,
            GuardClass::Write,
            GuardReason::UserVersion,
            TargetFamily::UserVersion,
        ) <==> operation is SetUserVersion,
        permits_guard(
            operation,
            GuardClass::Invariant,
            GuardReason::ViewDependency,
            TargetFamily::SchemaObjectName,
        ) <==> operation is CreateView || operation is DropView,
        permits_guard(
            operation,
            GuardClass::Invariant,
            GuardReason::ViewDependency,
            TargetFamily::ColumnName,
        ) <==> operation is CreateView || operation is DropView,
        permits_guard(
            operation,
            GuardClass::Invariant,
            GuardReason::ViewDependency,
            TargetFamily::ViewDependency,
        ) <==> operation is CreateView || operation is DropView || operation is DropColumn,
        permits_guard(
            operation,
            GuardClass::SerializableRead,
            GuardReason::SerializableRead,
            TargetFamily::UserVersion,
        ) <==> operation is TransactionRead,
{
}

/// A reason for a guard tells the kind of key that the guard is on, and the
/// classes that it comes in.
#[verifier::rlimit(40)]
pub proof fn reasons_tell_their_targets(
    operation: OperationFamily,
    class: GuardClass,
    reason: GuardReason,
    target: TargetFamily,
)
    requires
        permits_guard(operation, class, reason, target),
    ensures
        match reason {
            GuardReason::SchemaObjectName => (class is Invariant) && (target is SchemaObjectName),
            GuardReason::SchemaRevision => (class is Invariant || class is Write) && (target is ActiveSchemaRevision),
            GuardReason::ConstraintState => (class is Invariant || class is Write) && (target is ActiveConstraint),
            GuardReason::ConstraintReference => (class is Invariant || class is Write) && (target is ConstraintReference),
            GuardReason::WriteContract => (class is Write || class is Invariant) && (target is WriteRevision),
            GuardReason::TableExistence => (class is Invariant || class is Write) && (target is TableRoot),
            GuardReason::ForeignReference => (class is Invariant || class is Write) && (target is ForeignReference),
            GuardReason::RowIdentity => (class is Invariant || class is Write) && (target is Row),
            GuardReason::UniqueOwnership => (class is Invariant || class is Write) && (target is UniqueOwner),
            GuardReason::ForeignChildren => (class is Invariant || class is Write) && (target is ForeignReference),
            GuardReason::PrimaryIndex => (class is Invariant) && (target is ActivePrimaryIndex),
            GuardReason::ColumnNameBinding => (class is Invariant || class is Write) && (target is ColumnName),
            GuardReason::ColumnDependency => (class is Invariant || class is Write) && (target is ColumnDependency),
            GuardReason::ExistingRows => (class is Invariant) && (target is Row || target is TableRows),
            GuardReason::ConstraintNameBinding => (class is Invariant || class is Write) && (target is ConstraintName),
            GuardReason::SerializableRead => (class is SerializableRead) && (target is TableRoot || target is SchemaObjectName || target is UserVersion),
            GuardReason::UserVersion => (class is Write) && (target is UserVersion),
            GuardReason::ViewDependency => (class is Invariant) && (target is SchemaObjectName || target is ColumnName || target is ViewDependency),
            _ => false,
        },
{
}

/// Every operation of a family sets the guards that its family asks for: who
/// creates, drops or renames an object guards its name, who changes a column
/// guards the column's name, who changes rows guards the primary index and the
/// write contract, and so on.
#[verifier::rlimit(40)]
pub proof fn families_ask_for_their_guards(operation: OperationFamily)
    ensures
        requires_guard(
            GuardContract {
                operation,
                class: GuardClass::Invariant,
                reason: GuardReason::SchemaObjectName,
                target: TargetFamily::SchemaObjectName,
            },
        ) <==> operation is CreateTable || operation is DropTable || operation is CreateIndex || operation is DropIndex || operation is RenameTable || operation is CreateView || operation is DropView,
        requires_guard(
            GuardContract {
                operation,
                class: GuardClass::Write,
                reason: GuardReason::WriteContract,
                target: TargetFamily::WriteRevision,
            },
        ) <==> operation is CreateTable,
        requires_guard(
            GuardContract {
                operation,
                class: GuardClass::Invariant,
                reason: GuardReason::TableExistence,
                target: TargetFamily::TableRoot,
            },
        ) <==> operation is DropTable,
        requires_guard(
            GuardContract {
                operation,
                class: GuardClass::Write,
                reason: GuardReason::TableExistence,
                target: TargetFamily::TableRoot,
            },
        ) <==> operation is DropTable,
        requires_guard(
            GuardContract {
                operation,
                class: GuardClass::Invariant,
                reason: GuardReason::PrimaryIndex,
                target: TargetFamily::ActivePrimaryIndex,
            },
        ) <==> operation is RowChanges,
        requires_guard(
            GuardContract {
                operation,
                class: GuardClass::Invariant,
                reason: GuardReason::WriteContract,
                target: TargetFamily::WriteRevision,
            },
        ) <==> operation is RowChanges,
        requires_guard(
            GuardContract {
                operation,
                class: GuardClass::Invariant,
                reason: GuardReason::SchemaRevision,
                target: TargetFamily::ActiveSchemaRevision,
            },
        ) <==> operation is CreateIndex || operation is DropIndex,
        requires_guard(
            GuardContract {
                operation,
                class: GuardClass::Write,
                reason: GuardReason::SchemaRevision,
                target: TargetFamily::ActiveSchemaRevision,
            },
        ) <==> operation is CreateIndex || operation is DropIndex,
        requires_guard(
            GuardContract {
                operation,
                class: GuardClass::Invariant,
                reason: GuardReason::ColumnNameBinding,
                target: TargetFamily::ColumnName,
            },
        ) <==> operation is RenameColumn || operation is AddColumn || operation is DropColumn,
        requires_guard(
            GuardContract {
                operation,
                class: GuardClass::Invariant,
                reason: GuardReason::ViewDependency,
                target: TargetFamily::ViewDependency,
            },
        ) <==> operation is DropColumn,
        requires_guard(
            GuardContract {
                operation,
                class: GuardClass::Invariant,
                reason: GuardReason::ConstraintNameBinding,
                target: TargetFamily::ConstraintName,
            },
        ) <==> operation is DropConstraint,
        requires_guard(
            GuardContract {
                operation,
                class: GuardClass::Write,
                reason: GuardReason::UserVersion,
                target: TargetFamily::UserVersion,
            },
        ) <==> operation is SetUserVersion,
{
}

/// Whether a mutation calls for a guard on its own key.
pub open spec fn calls_for(
    operation: OperationFamily,
    kind: MutationKind,
    target: TargetFamily,
    class: GuardClass,
    reason: GuardReason,
) -> bool {
    guard_requirements(operation, kind, target).contains((class, reason))
}

/// Whether a mutation calls for both a mandatory guard and a guard on the write.
pub open spec fn calls_for_both(
    operation: OperationFamily,
    kind: MutationKind,
    target: TargetFamily,
    reason: GuardReason,
) -> bool {
    calls_for(operation, kind, target, GuardClass::Invariant, reason) && calls_for(
        operation,
        kind,
        target,
        GuardClass::Write,
        reason,
    )
}

/// Every mutation that is permitted is guarded on its own key as the kind of the
/// key demands: names against being bound twice, markers and references against
/// both, what is put among rows against both and what is deleted against writes.
/// Only a new table, which nothing else can know, puts its own columns,
/// constraints and pointers unguarded, and a new index its owners.
pub proof fn mutations_call_for_the_guards_of_their_keys(
    operation: OperationFamily,
    kind: MutationKind,
    target: TargetFamily,
)
    requires
        permits_mutation(operation, kind, target),
    ensures
        match target {
            TargetFamily::SchemaObjectName => calls_for(
                operation,
                kind,
                target,
                GuardClass::Invariant,
                GuardReason::SchemaObjectName,
            ),
            TargetFamily::ViewDependency => calls_for(
                operation,
                kind,
                target,
                GuardClass::Invariant,
                GuardReason::ViewDependency,
            ),
            TargetFamily::ColumnDependency => calls_for_both(
                operation,
                kind,
                target,
                GuardReason::ColumnDependency,
            ),
            TargetFamily::ColumnName => operation is CreateTable || calls_for(
                operation,
                kind,
                target,
                GuardClass::Invariant,
                GuardReason::ColumnNameBinding,
            ) && (operation is AddColumn ==> calls_for_both(
                operation,
                kind,
                target,
                GuardReason::ColumnNameBinding,
            )),
            TargetFamily::ConstraintName => operation is CreateTable || calls_for(
                operation,
                kind,
                target,
                GuardClass::Invariant,
                GuardReason::ConstraintNameBinding,
            ) && (kind is Delete ==> calls_for_both(
                operation,
                kind,
                target,
                GuardReason::ConstraintNameBinding,
            )),
            TargetFamily::ActiveConstraint => operation is CreateTable || calls_for_both(
                operation,
                kind,
                target,
                GuardReason::ConstraintState,
            ),
            TargetFamily::ConstraintReference => calls_for_both(
                operation,
                kind,
                target,
                GuardReason::ConstraintReference,
            ),
            TargetFamily::ActiveSchemaRevision => operation is CreateTable || calls_for_both(
                operation,
                kind,
                target,
                GuardReason::SchemaRevision,
            ),
            TargetFamily::WriteRevision => calls_for(
                operation,
                kind,
                target,
                GuardClass::Write,
                GuardReason::WriteContract,
            ),
            TargetFamily::TableRoot => calls_for_both(
                operation,
                kind,
                target,
                GuardReason::TableExistence,
            ),
            TargetFamily::UserVersion => calls_for(
                operation,
                kind,
                target,
                GuardClass::Write,
                GuardReason::UserVersion,
            ),
            TargetFamily::Row => calls_for(
                operation,
                kind,
                target,
                GuardClass::Write,
                GuardReason::RowIdentity,
            ) && (kind is Put ==> calls_for_both(
                operation,
                kind,
                target,
                GuardReason::RowIdentity,
            )),
            TargetFamily::UniqueOwner => operation is CreateIndex || calls_for(
                operation,
                kind,
                target,
                GuardClass::Write,
                GuardReason::UniqueOwnership,
            ) && (kind is Put ==> calls_for_both(
                operation,
                kind,
                target,
                GuardReason::UniqueOwnership,
            )),
            TargetFamily::ForeignReference => if kind is DeletePrefix && operation is RowChanges {
                calls_for_both(operation, kind, target, GuardReason::ForeignChildren)
            } else {
                calls_for(
                    operation,
                    kind,
                    target,
                    GuardClass::Write,
                    GuardReason::ForeignReference,
                ) && (!(kind is Delete) ==> calls_for_both(
                    operation,
                    kind,
                    target,
                    GuardReason::ForeignReference,
                ))
            },
            _ => true,
        },
{
    let needs = guard_requirements(operation, kind, target);
    if needs.len() > 0 {
        assert(needs.contains(needs[0]));
    }
    if needs.len() > 1 {
        assert(needs.contains(needs[1]));
    }
}

/// A guard that a mutation calls for is one that its operation may set on that
/// key.
pub proof fn called_for_guards_are_permitted(
    operation: OperationFamily,
    kind: MutationKind,
    target: TargetFamily,
    i: int,
)
    requires
        permits_mutation(operation, kind, target),
        0 <= i < guard_requirements(operation, kind, target).len(),
    ensures
        permits_guard(
            operation,
            guard_requirements(operation, kind, target)[i].0,
            guard_requirements(operation, kind, target)[i].1,
            target,
        ),
{
}

/// Every operation of a transaction is undone in one way alone, which is that of
/// what it did: alterations are reverted, created tables removed, dropped tables
/// and changed rows restored, and so on.
pub proof fn operations_are_undone_in_their_own_way(
    operation: OperationFamily,
    rejection: RejectionKind,
)
    ensures
        permits_rejection(operation, rejection) <==> match rejection {
            RejectionKind::RemoveCreatedTable => operation is CreateTable,
            RejectionKind::RestoreDroppedTable => operation is DropTable,
            RejectionKind::RestoreRowChanges => operation is RowChanges,
            RejectionKind::RevertIndex => operation is CreateIndex || operation is DropIndex,
            RejectionKind::RevertAlterTable => operation is RenameTable
                || operation is RenameColumn || operation is AddColumn || operation is DropColumn
                || operation is DropConstraint,
            RejectionKind::RestoreUserVersion => operation is SetUserVersion,
            RejectionKind::RevertView => operation is CreateView || operation is DropView,
        },
{
}

} // verus!
