//! The checked contracts of the operation compiler.
//!
//! Four tables say which mutations an operation may make, which guards it may
//! and must emit, and which local repair undoes it. Everything that the
//! compiler emits is held to them.

use crate::logical::target::TargetFamily;
use vstd::prelude::*;

verus! {

/// Logical operation family whose conflict contract emitted a guard.
#[derive(Clone, Copy, Debug, PartialEq, Eq, PartialOrd, Ord, Structural)]
pub enum OperationFamily {
    TransactionEnvelope,
    CreateTable,
    DropTable,
    RowChanges,
    CreateIndex,
    DropIndex,
    RenameTable,
    RenameColumn,
    AddColumn,
    DropColumn,
    DropConstraint,
    TransactionRead,
    SetUserVersion,
    CreateView,
    DropView,
}

/// Mutation shape permitted against one logical target family.
#[derive(Clone, Copy, Debug, PartialEq, Eq, PartialOrd, Ord, Structural)]
pub enum MutationKind {
    Put,
    Delete,
    DeletePrefix,
}

/// Local materialized-state repair selected when authority rejects an operation.
#[derive(Clone, Copy, Debug, PartialEq, Eq, PartialOrd, Ord, Structural)]
pub enum RejectionKind {
    RemoveCreatedTable,
    RestoreDroppedTable,
    RestoreRowChanges,
    RevertIndex,
    RevertAlterTable,
    RestoreUserVersion,
    RevertView,
}

/// Whether a guard is mandatory by invariant, selected for write conflicts, or
/// counted only by serializable isolation.
#[derive(Clone, Copy, Debug, PartialEq, Eq, PartialOrd, Ord, Structural)]
pub enum GuardClass {
    Invariant,
    Write,
    SerializableRead,
}

/// Semantic reason an operation depends on one logical target.
#[derive(Clone, Copy, Debug, PartialEq, Eq, PartialOrd, Ord, Structural)]
pub enum GuardReason {
    SchemaObjectName,
    ColumnNameBinding,
    ConstraintNameBinding,
    ConstraintState,
    ConstraintReference,
    SchemaRevision,
    WriteContract,
    PrimaryIndex,
    RowIdentity,
    UniqueOwnership,
    ForeignReference,
    ForeignChildren,
    ColumnDependency,
    ExistingRows,
    TableExistence,
    SerializableRead,
    UserVersion,
    ViewDependency,
}

/// One permitted durable mutation shape in the checked compiler contract.
#[derive(Clone, Copy, Debug, PartialEq, Eq, Structural)]
pub struct MutationContract {
    pub operation: OperationFamily,
    pub kind: MutationKind,
    pub target: TargetFamily,
}

/// One operation-to-repair mapping in the checked compiler contract.
#[derive(Clone, Copy, Debug, PartialEq, Eq, Structural)]
pub struct RejectionContract {
    pub operation: OperationFamily,
    pub rejection: RejectionKind,
}

/// One permitted guard shape in the checked compiler contract.
#[derive(Clone, Copy, Debug, PartialEq, Eq, Structural)]
pub struct GuardContract {
    pub operation: OperationFamily,
    pub class: GuardClass,
    pub reason: GuardReason,
    pub target: TargetFamily,
}

/// The place of a mutation contract in its table, or -1 where it is absent.
pub open spec fn mutation_rank(c: MutationContract) -> int {
    match (c.operation, c.kind, c.target) {
        (OperationFamily::TransactionEnvelope, MutationKind::Put, TargetFamily::TransactionLog) => 0,
        (OperationFamily::SetUserVersion, MutationKind::Put, TargetFamily::UserVersion) => 1,
        (OperationFamily::CreateView, MutationKind::Put, TargetFamily::SchemaLog) => 2,
        (OperationFamily::CreateView, MutationKind::Put, TargetFamily::SchemaObjectName) => 3,
        (OperationFamily::CreateView, MutationKind::Put, TargetFamily::ViewDependency) => 4,
        (OperationFamily::CreateView, MutationKind::Put, TargetFamily::ColumnDependency) => 5,
        (OperationFamily::DropView, MutationKind::Put, TargetFamily::SchemaLog) => 6,
        (OperationFamily::DropView, MutationKind::Delete, TargetFamily::SchemaObjectName) => 7,
        (OperationFamily::DropView, MutationKind::Delete, TargetFamily::ViewDependency) => 8,
        (OperationFamily::DropView, MutationKind::Delete, TargetFamily::ColumnDependency) => 9,
        (OperationFamily::CreateTable, MutationKind::Put, TargetFamily::SchemaLog) => 10,
        (OperationFamily::CreateTable, MutationKind::Put, TargetFamily::SchemaObjectName) => 11,
        (OperationFamily::CreateTable, MutationKind::Put, TargetFamily::TableSchema) => 12,
        (OperationFamily::CreateTable, MutationKind::Put, TargetFamily::ActivePrimaryIndex) => 13,
        (OperationFamily::CreateTable, MutationKind::Put, TargetFamily::ActiveSchemaRevision) => 14,
        (OperationFamily::CreateTable, MutationKind::Put, TargetFamily::IndexDefinition) => 15,
        (OperationFamily::CreateTable, MutationKind::Put, TargetFamily::ColumnName) => 16,
        (OperationFamily::CreateTable, MutationKind::Put, TargetFamily::ConstraintName) => 17,
        (OperationFamily::CreateTable, MutationKind::Put, TargetFamily::ActiveConstraint) => 18,
        (OperationFamily::CreateTable, MutationKind::Put, TargetFamily::ConstraintReference) => 19,
        (OperationFamily::CreateTable, MutationKind::Put, TargetFamily::WriteRevision) => 20,
        (OperationFamily::DropTable, MutationKind::Put, TargetFamily::SchemaLog) => 21,
        (OperationFamily::DropTable, MutationKind::Delete, TargetFamily::SchemaObjectName) => 22,
        (OperationFamily::DropTable, MutationKind::DeletePrefix, TargetFamily::TableRoot) => 23,
        (OperationFamily::DropTable, MutationKind::DeletePrefix, TargetFamily::ForeignReference) => 24,
        (OperationFamily::DropTable, MutationKind::Delete, TargetFamily::ConstraintReference) => 25,
        (OperationFamily::RowChanges, MutationKind::Put, TargetFamily::Row) => 26,
        (OperationFamily::RowChanges, MutationKind::Put, TargetFamily::UniqueOwner) => 27,
        (OperationFamily::RowChanges, MutationKind::Put, TargetFamily::ForeignReference) => 28,
        (OperationFamily::RowChanges, MutationKind::Delete, TargetFamily::Row) => 29,
        (OperationFamily::RowChanges, MutationKind::Delete, TargetFamily::UniqueOwner) => 30,
        (OperationFamily::RowChanges, MutationKind::Delete, TargetFamily::ForeignReference) => 31,
        (OperationFamily::RowChanges, MutationKind::DeletePrefix, TargetFamily::ForeignReference) => 32,
        (OperationFamily::CreateIndex, MutationKind::Put, TargetFamily::SchemaLog) => 33,
        (OperationFamily::CreateIndex, MutationKind::Put, TargetFamily::SchemaObjectName) => 34,
        (OperationFamily::CreateIndex, MutationKind::Put, TargetFamily::TableSchema) => 35,
        (OperationFamily::CreateIndex, MutationKind::Put, TargetFamily::ActiveSchemaRevision) => 36,
        (OperationFamily::CreateIndex, MutationKind::Put, TargetFamily::ColumnDependency) => 37,
        (OperationFamily::CreateIndex, MutationKind::Put, TargetFamily::IndexDefinition) => 38,
        (OperationFamily::CreateIndex, MutationKind::Put, TargetFamily::ActiveConstraint) => 39,
        (OperationFamily::CreateIndex, MutationKind::Put, TargetFamily::UniqueOwner) => 40,
        (OperationFamily::CreateIndex, MutationKind::Put, TargetFamily::WriteRevision) => 41,
        (OperationFamily::DropIndex, MutationKind::Put, TargetFamily::SchemaLog) => 42,
        (OperationFamily::DropIndex, MutationKind::Put, TargetFamily::TableSchema) => 43,
        (OperationFamily::DropIndex, MutationKind::Put, TargetFamily::ActiveSchemaRevision) => 44,
        (OperationFamily::DropIndex, MutationKind::Delete, TargetFamily::SchemaObjectName) => 45,
        (OperationFamily::DropIndex, MutationKind::Delete, TargetFamily::ColumnDependency) => 46,
        (OperationFamily::DropIndex, MutationKind::Delete, TargetFamily::ActiveConstraint) => 47,
        (OperationFamily::DropIndex, MutationKind::DeletePrefix, TargetFamily::ConstraintReference) => 48,
        (OperationFamily::RenameTable, MutationKind::Put, TargetFamily::SchemaLog) => 49,
        (OperationFamily::RenameTable, MutationKind::Put, TargetFamily::SchemaObjectName) => 50,
        (OperationFamily::RenameTable, MutationKind::Delete, TargetFamily::SchemaObjectName) => 51,
        (OperationFamily::RenameColumn, MutationKind::Put, TargetFamily::SchemaLog) => 52,
        (OperationFamily::RenameColumn, MutationKind::Put, TargetFamily::ColumnName) => 53,
        (OperationFamily::RenameColumn, MutationKind::Delete, TargetFamily::ColumnName) => 54,
        (OperationFamily::AddColumn, MutationKind::Put, TargetFamily::SchemaLog) => 55,
        (OperationFamily::AddColumn, MutationKind::Put, TargetFamily::ColumnName) => 56,
        (OperationFamily::AddColumn, MutationKind::Put, TargetFamily::ConstraintName) => 57,
        (OperationFamily::AddColumn, MutationKind::Put, TargetFamily::ConstraintReference) => 58,
        (OperationFamily::AddColumn, MutationKind::Put, TargetFamily::TableSchema) => 59,
        (OperationFamily::AddColumn, MutationKind::Put, TargetFamily::ColumnDependency) => 60,
        (OperationFamily::AddColumn, MutationKind::Put, TargetFamily::WriteRevision) => 61,
        (OperationFamily::DropColumn, MutationKind::Put, TargetFamily::SchemaLog) => 62,
        (OperationFamily::DropColumn, MutationKind::Put, TargetFamily::TableSchema) => 63,
        (OperationFamily::DropColumn, MutationKind::Delete, TargetFamily::ColumnName) => 64,
        (OperationFamily::DropColumn, MutationKind::Delete, TargetFamily::ConstraintName) => 65,
        (OperationFamily::DropColumn, MutationKind::Delete, TargetFamily::ColumnDependency) => 66,
        (OperationFamily::DropColumn, MutationKind::DeletePrefix, TargetFamily::ColumnDependency) => 67,
        (OperationFamily::DropConstraint, MutationKind::Put, TargetFamily::SchemaLog) => 68,
        (OperationFamily::DropConstraint, MutationKind::Put, TargetFamily::TableSchema) => 69,
        (OperationFamily::DropConstraint, MutationKind::Delete, TargetFamily::ConstraintName) => 70,
        (OperationFamily::DropConstraint, MutationKind::Delete, TargetFamily::ActiveConstraint) => 71,
        (OperationFamily::DropConstraint, MutationKind::Delete, TargetFamily::ConstraintReference) => 72,
        (OperationFamily::DropConstraint, MutationKind::DeletePrefix, TargetFamily::ConstraintReference) => 73,
        _ => -1,
    }
}

/// The place of a rejection contract in its table, or -1 where it is absent.
pub open spec fn rejection_rank(c: RejectionContract) -> int {
    match (c.operation, c.rejection) {
        (OperationFamily::CreateTable, RejectionKind::RemoveCreatedTable) => 0,
        (OperationFamily::DropTable, RejectionKind::RestoreDroppedTable) => 1,
        (OperationFamily::RowChanges, RejectionKind::RestoreRowChanges) => 2,
        (OperationFamily::CreateIndex, RejectionKind::RevertIndex) => 3,
        (OperationFamily::DropIndex, RejectionKind::RevertIndex) => 4,
        (OperationFamily::RenameTable, RejectionKind::RevertAlterTable) => 5,
        (OperationFamily::RenameColumn, RejectionKind::RevertAlterTable) => 6,
        (OperationFamily::AddColumn, RejectionKind::RevertAlterTable) => 7,
        (OperationFamily::DropColumn, RejectionKind::RevertAlterTable) => 8,
        (OperationFamily::DropConstraint, RejectionKind::RevertAlterTable) => 9,
        (OperationFamily::SetUserVersion, RejectionKind::RestoreUserVersion) => 10,
        (OperationFamily::CreateView, RejectionKind::RevertView) => 11,
        (OperationFamily::DropView, RejectionKind::RevertView) => 12,
        _ => -1,
    }
}

/// The place of a guard contract in its table, or -1 where it is absent.
pub open spec fn guard_rank(c: GuardContract) -> int {
    match (c.operation, c.class, c.reason, c.target) {
        (OperationFamily::CreateTable, GuardClass::Invariant, GuardReason::SchemaObjectName, TargetFamily::SchemaObjectName) => 0,
        (OperationFamily::CreateTable, GuardClass::Invariant, GuardReason::SchemaRevision, TargetFamily::ActiveSchemaRevision) => 1,
        (OperationFamily::CreateTable, GuardClass::Invariant, GuardReason::ConstraintState, TargetFamily::ActiveConstraint) => 2,
        (OperationFamily::CreateTable, GuardClass::Invariant, GuardReason::ConstraintReference, TargetFamily::ConstraintReference) => 3,
        (OperationFamily::CreateTable, GuardClass::Write, GuardReason::ConstraintReference, TargetFamily::ConstraintReference) => 4,
        (OperationFamily::CreateTable, GuardClass::Write, GuardReason::WriteContract, TargetFamily::WriteRevision) => 5,
        (OperationFamily::DropTable, GuardClass::Invariant, GuardReason::TableExistence, TargetFamily::TableRoot) => 6,
        (OperationFamily::DropTable, GuardClass::Write, GuardReason::TableExistence, TargetFamily::TableRoot) => 7,
        (OperationFamily::DropTable, GuardClass::Invariant, GuardReason::SchemaObjectName, TargetFamily::SchemaObjectName) => 8,
        (OperationFamily::DropTable, GuardClass::Invariant, GuardReason::ForeignReference, TargetFamily::ForeignReference) => 9,
        (OperationFamily::DropTable, GuardClass::Write, GuardReason::ForeignReference, TargetFamily::ForeignReference) => 10,
        (OperationFamily::DropTable, GuardClass::Invariant, GuardReason::ConstraintReference, TargetFamily::ConstraintReference) => 11,
        (OperationFamily::DropTable, GuardClass::Write, GuardReason::ConstraintReference, TargetFamily::ConstraintReference) => 12,
        (OperationFamily::RowChanges, GuardClass::Invariant, GuardReason::RowIdentity, TargetFamily::Row) => 13,
        (OperationFamily::RowChanges, GuardClass::Write, GuardReason::RowIdentity, TargetFamily::Row) => 14,
        (OperationFamily::RowChanges, GuardClass::Invariant, GuardReason::UniqueOwnership, TargetFamily::UniqueOwner) => 15,
        (OperationFamily::RowChanges, GuardClass::Write, GuardReason::UniqueOwnership, TargetFamily::UniqueOwner) => 16,
        (OperationFamily::RowChanges, GuardClass::Invariant, GuardReason::ForeignReference, TargetFamily::ForeignReference) => 17,
        (OperationFamily::RowChanges, GuardClass::Write, GuardReason::ForeignReference, TargetFamily::ForeignReference) => 18,
        (OperationFamily::RowChanges, GuardClass::Invariant, GuardReason::ForeignChildren, TargetFamily::ForeignReference) => 19,
        (OperationFamily::RowChanges, GuardClass::Write, GuardReason::ForeignChildren, TargetFamily::ForeignReference) => 20,
        (OperationFamily::RowChanges, GuardClass::Invariant, GuardReason::PrimaryIndex, TargetFamily::ActivePrimaryIndex) => 21,
        (OperationFamily::RowChanges, GuardClass::Invariant, GuardReason::WriteContract, TargetFamily::WriteRevision) => 22,
        (OperationFamily::CreateIndex, GuardClass::Invariant, GuardReason::SchemaObjectName, TargetFamily::SchemaObjectName) => 23,
        (OperationFamily::CreateIndex, GuardClass::Invariant, GuardReason::SchemaRevision, TargetFamily::ActiveSchemaRevision) => 24,
        (OperationFamily::CreateIndex, GuardClass::Write, GuardReason::SchemaRevision, TargetFamily::ActiveSchemaRevision) => 25,
        (OperationFamily::CreateIndex, GuardClass::Invariant, GuardReason::ColumnNameBinding, TargetFamily::ColumnName) => 26,
        (OperationFamily::CreateIndex, GuardClass::Invariant, GuardReason::ColumnDependency, TargetFamily::ColumnDependency) => 27,
        (OperationFamily::CreateIndex, GuardClass::Write, GuardReason::ColumnDependency, TargetFamily::ColumnDependency) => 28,
        (OperationFamily::CreateIndex, GuardClass::Write, GuardReason::WriteContract, TargetFamily::WriteRevision) => 29,
        (OperationFamily::CreateIndex, GuardClass::Invariant, GuardReason::ExistingRows, TargetFamily::Row) => 30,
        (OperationFamily::CreateIndex, GuardClass::Invariant, GuardReason::ConstraintState, TargetFamily::ActiveConstraint) => 31,
        (OperationFamily::CreateIndex, GuardClass::Write, GuardReason::ConstraintState, TargetFamily::ActiveConstraint) => 32,
        (OperationFamily::DropIndex, GuardClass::Invariant, GuardReason::SchemaObjectName, TargetFamily::SchemaObjectName) => 33,
        (OperationFamily::DropIndex, GuardClass::Invariant, GuardReason::SchemaRevision, TargetFamily::ActiveSchemaRevision) => 34,
        (OperationFamily::DropIndex, GuardClass::Write, GuardReason::SchemaRevision, TargetFamily::ActiveSchemaRevision) => 35,
        (OperationFamily::DropIndex, GuardClass::Invariant, GuardReason::ColumnDependency, TargetFamily::ColumnDependency) => 36,
        (OperationFamily::DropIndex, GuardClass::Write, GuardReason::ColumnDependency, TargetFamily::ColumnDependency) => 37,
        (OperationFamily::DropIndex, GuardClass::Invariant, GuardReason::WriteContract, TargetFamily::WriteRevision) => 38,
        (OperationFamily::DropIndex, GuardClass::Invariant, GuardReason::ConstraintState, TargetFamily::ActiveConstraint) => 39,
        (OperationFamily::DropIndex, GuardClass::Write, GuardReason::ConstraintState, TargetFamily::ActiveConstraint) => 40,
        (OperationFamily::DropIndex, GuardClass::Invariant, GuardReason::ConstraintReference, TargetFamily::ConstraintReference) => 41,
        (OperationFamily::DropIndex, GuardClass::Write, GuardReason::ConstraintReference, TargetFamily::ConstraintReference) => 42,
        (OperationFamily::RenameTable, GuardClass::Invariant, GuardReason::SchemaObjectName, TargetFamily::SchemaObjectName) => 43,
        (OperationFamily::RenameColumn, GuardClass::Invariant, GuardReason::ColumnNameBinding, TargetFamily::ColumnName) => 44,
        (OperationFamily::AddColumn, GuardClass::Invariant, GuardReason::ColumnNameBinding, TargetFamily::ColumnName) => 45,
        (OperationFamily::AddColumn, GuardClass::Write, GuardReason::ColumnNameBinding, TargetFamily::ColumnName) => 46,
        (OperationFamily::AddColumn, GuardClass::Invariant, GuardReason::ConstraintNameBinding, TargetFamily::ConstraintName) => 47,
        (OperationFamily::AddColumn, GuardClass::Invariant, GuardReason::SchemaObjectName, TargetFamily::SchemaObjectName) => 48,
        (OperationFamily::AddColumn, GuardClass::Invariant, GuardReason::SchemaRevision, TargetFamily::ActiveSchemaRevision) => 49,
        (OperationFamily::AddColumn, GuardClass::Invariant, GuardReason::ConstraintState, TargetFamily::ActiveConstraint) => 50,
        (OperationFamily::AddColumn, GuardClass::Invariant, GuardReason::ConstraintReference, TargetFamily::ConstraintReference) => 51,
        (OperationFamily::AddColumn, GuardClass::Write, GuardReason::ConstraintReference, TargetFamily::ConstraintReference) => 52,
        (OperationFamily::AddColumn, GuardClass::Invariant, GuardReason::ExistingRows, TargetFamily::TableRows) => 53,
        (OperationFamily::AddColumn, GuardClass::Invariant, GuardReason::ColumnDependency, TargetFamily::ColumnDependency) => 54,
        (OperationFamily::AddColumn, GuardClass::Write, GuardReason::ColumnDependency, TargetFamily::ColumnDependency) => 55,
        (OperationFamily::AddColumn, GuardClass::Write, GuardReason::WriteContract, TargetFamily::WriteRevision) => 56,
        (OperationFamily::AddColumn, GuardClass::Invariant, GuardReason::ExistingRows, TargetFamily::Row) => 57,
        (OperationFamily::DropColumn, GuardClass::Invariant, GuardReason::ColumnNameBinding, TargetFamily::ColumnName) => 58,
        (OperationFamily::DropColumn, GuardClass::Invariant, GuardReason::ConstraintNameBinding, TargetFamily::ConstraintName) => 59,
        (OperationFamily::DropColumn, GuardClass::Write, GuardReason::ConstraintNameBinding, TargetFamily::ConstraintName) => 60,
        (OperationFamily::DropColumn, GuardClass::Invariant, GuardReason::ColumnDependency, TargetFamily::ColumnDependency) => 61,
        (OperationFamily::DropColumn, GuardClass::Write, GuardReason::ColumnDependency, TargetFamily::ColumnDependency) => 62,
        (OperationFamily::DropConstraint, GuardClass::Invariant, GuardReason::ConstraintNameBinding, TargetFamily::ConstraintName) => 63,
        (OperationFamily::DropConstraint, GuardClass::Write, GuardReason::ConstraintNameBinding, TargetFamily::ConstraintName) => 64,
        (OperationFamily::DropConstraint, GuardClass::Invariant, GuardReason::ConstraintState, TargetFamily::ActiveConstraint) => 65,
        (OperationFamily::DropConstraint, GuardClass::Write, GuardReason::ConstraintState, TargetFamily::ActiveConstraint) => 66,
        (OperationFamily::DropConstraint, GuardClass::Invariant, GuardReason::ConstraintReference, TargetFamily::ConstraintReference) => 67,
        (OperationFamily::DropConstraint, GuardClass::Write, GuardReason::ConstraintReference, TargetFamily::ConstraintReference) => 68,
        (OperationFamily::TransactionRead, GuardClass::SerializableRead, GuardReason::SerializableRead, TargetFamily::TableRoot) => 69,
        (OperationFamily::TransactionRead, GuardClass::SerializableRead, GuardReason::SerializableRead, TargetFamily::SchemaObjectName) => 70,
        (OperationFamily::SetUserVersion, GuardClass::Write, GuardReason::UserVersion, TargetFamily::UserVersion) => 71,
        (OperationFamily::CreateView, GuardClass::Invariant, GuardReason::SchemaObjectName, TargetFamily::SchemaObjectName) => 72,
        (OperationFamily::CreateView, GuardClass::Invariant, GuardReason::ViewDependency, TargetFamily::SchemaObjectName) => 73,
        (OperationFamily::CreateView, GuardClass::Invariant, GuardReason::ViewDependency, TargetFamily::ColumnName) => 74,
        (OperationFamily::CreateView, GuardClass::Invariant, GuardReason::ViewDependency, TargetFamily::ViewDependency) => 75,
        (OperationFamily::CreateView, GuardClass::Invariant, GuardReason::ColumnDependency, TargetFamily::ColumnDependency) => 76,
        (OperationFamily::CreateView, GuardClass::Write, GuardReason::ColumnDependency, TargetFamily::ColumnDependency) => 77,
        (OperationFamily::DropView, GuardClass::Invariant, GuardReason::SchemaObjectName, TargetFamily::SchemaObjectName) => 78,
        (OperationFamily::DropView, GuardClass::Invariant, GuardReason::ViewDependency, TargetFamily::SchemaObjectName) => 79,
        (OperationFamily::DropView, GuardClass::Invariant, GuardReason::ViewDependency, TargetFamily::ColumnName) => 80,
        (OperationFamily::DropView, GuardClass::Invariant, GuardReason::ViewDependency, TargetFamily::ViewDependency) => 81,
        (OperationFamily::DropView, GuardClass::Invariant, GuardReason::ColumnDependency, TargetFamily::ColumnDependency) => 82,
        (OperationFamily::DropView, GuardClass::Write, GuardReason::ColumnDependency, TargetFamily::ColumnDependency) => 83,
        (OperationFamily::DropColumn, GuardClass::Invariant, GuardReason::ViewDependency, TargetFamily::ViewDependency) => 84,
        (OperationFamily::TransactionRead, GuardClass::SerializableRead, GuardReason::SerializableRead, TargetFamily::UserVersion) => 85,
        _ => -1,
    }
}

/// The place of a required guard in its table, or -1 where it is absent.
pub open spec fn required_rank(c: GuardContract) -> int {
    match (c.operation, c.class, c.reason, c.target) {
        (OperationFamily::CreateTable, GuardClass::Invariant, GuardReason::SchemaObjectName, TargetFamily::SchemaObjectName) => 0,
        (OperationFamily::CreateTable, GuardClass::Write, GuardReason::WriteContract, TargetFamily::WriteRevision) => 1,
        (OperationFamily::DropTable, GuardClass::Invariant, GuardReason::TableExistence, TargetFamily::TableRoot) => 2,
        (OperationFamily::DropTable, GuardClass::Write, GuardReason::TableExistence, TargetFamily::TableRoot) => 3,
        (OperationFamily::DropTable, GuardClass::Invariant, GuardReason::SchemaObjectName, TargetFamily::SchemaObjectName) => 4,
        (OperationFamily::RowChanges, GuardClass::Invariant, GuardReason::PrimaryIndex, TargetFamily::ActivePrimaryIndex) => 5,
        (OperationFamily::RowChanges, GuardClass::Invariant, GuardReason::WriteContract, TargetFamily::WriteRevision) => 6,
        (OperationFamily::CreateIndex, GuardClass::Invariant, GuardReason::SchemaObjectName, TargetFamily::SchemaObjectName) => 7,
        (OperationFamily::CreateIndex, GuardClass::Invariant, GuardReason::SchemaRevision, TargetFamily::ActiveSchemaRevision) => 8,
        (OperationFamily::CreateIndex, GuardClass::Write, GuardReason::SchemaRevision, TargetFamily::ActiveSchemaRevision) => 9,
        (OperationFamily::DropIndex, GuardClass::Invariant, GuardReason::SchemaObjectName, TargetFamily::SchemaObjectName) => 10,
        (OperationFamily::DropIndex, GuardClass::Invariant, GuardReason::SchemaRevision, TargetFamily::ActiveSchemaRevision) => 11,
        (OperationFamily::DropIndex, GuardClass::Write, GuardReason::SchemaRevision, TargetFamily::ActiveSchemaRevision) => 12,
        (OperationFamily::RenameTable, GuardClass::Invariant, GuardReason::SchemaObjectName, TargetFamily::SchemaObjectName) => 13,
        (OperationFamily::RenameColumn, GuardClass::Invariant, GuardReason::ColumnNameBinding, TargetFamily::ColumnName) => 14,
        (OperationFamily::AddColumn, GuardClass::Invariant, GuardReason::ColumnNameBinding, TargetFamily::ColumnName) => 15,
        (OperationFamily::DropColumn, GuardClass::Invariant, GuardReason::ColumnNameBinding, TargetFamily::ColumnName) => 16,
        (OperationFamily::DropColumn, GuardClass::Invariant, GuardReason::ViewDependency, TargetFamily::ViewDependency) => 17,
        (OperationFamily::DropConstraint, GuardClass::Invariant, GuardReason::ConstraintNameBinding, TargetFamily::ConstraintName) => 18,
        (OperationFamily::SetUserVersion, GuardClass::Write, GuardReason::UserVersion, TargetFamily::UserVersion) => 19,
        (OperationFamily::CreateView, GuardClass::Invariant, GuardReason::SchemaObjectName, TargetFamily::SchemaObjectName) => 20,
        (OperationFamily::DropView, GuardClass::Invariant, GuardReason::SchemaObjectName, TargetFamily::SchemaObjectName) => 21,
        _ => -1,
    }
}

/// Whether an operation may mutate a target family in this way.
pub open spec fn permits_mutation(
    operation: OperationFamily,
    kind: MutationKind,
    target: TargetFamily,
) -> bool {
    mutation_rank(MutationContract { operation, kind, target }) >= 0
}

/// Whether an operation may emit a guard of this shape.
pub open spec fn permits_guard(
    operation: OperationFamily,
    class: GuardClass,
    reason: GuardReason,
    target: TargetFamily,
) -> bool {
    guard_rank(GuardContract { operation, class, reason, target }) >= 0
}

/// Whether every operation of the family must emit a guard of this shape.
pub open spec fn requires_guard(c: GuardContract) -> bool {
    required_rank(c) >= 0
}

/// Whether a repair undoes an operation.
pub open spec fn permits_rejection(operation: OperationFamily, rejection: RejectionKind) -> bool {
    rejection_rank(RejectionContract { operation, rejection }) >= 0
}

/// Whether a family is that of a logical operation, which a transaction lists.
pub open spec fn is_logical(operation: OperationFamily) -> bool {
    !(operation is TransactionEnvelope) && !(operation is TransactionRead)
}

/// Central allowlist for every mutation emitted by the compiler: each permitted
/// contract stands in it once.
pub fn mutation_contracts() -> (r: Vec<MutationContract>)
    ensures
        r@.len() == 74,
        forall|i: int| 0 <= i < r@.len() ==> mutation_rank(#[trigger] r@[i]) == i,
{
    let mut r: Vec<MutationContract> = Vec::new();
    push_mutation(&mut r, OperationFamily::TransactionEnvelope, MutationKind::Put, TargetFamily::TransactionLog);
    push_mutation(&mut r, OperationFamily::SetUserVersion, MutationKind::Put, TargetFamily::UserVersion);
    push_mutation(&mut r, OperationFamily::CreateView, MutationKind::Put, TargetFamily::SchemaLog);
    push_mutation(&mut r, OperationFamily::CreateView, MutationKind::Put, TargetFamily::SchemaObjectName);
    push_mutation(&mut r, OperationFamily::CreateView, MutationKind::Put, TargetFamily::ViewDependency);
    push_mutation(&mut r, OperationFamily::CreateView, MutationKind::Put, TargetFamily::ColumnDependency);
    push_mutation(&mut r, OperationFamily::DropView, MutationKind::Put, TargetFamily::SchemaLog);
    push_mutation(&mut r, OperationFamily::DropView, MutationKind::Delete, TargetFamily::SchemaObjectName);
    push_mutation(&mut r, OperationFamily::DropView, MutationKind::Delete, TargetFamily::ViewDependency);
    push_mutation(&mut r, OperationFamily::DropView, MutationKind::Delete, TargetFamily::ColumnDependency);
    push_mutation(&mut r, OperationFamily::CreateTable, MutationKind::Put, TargetFamily::SchemaLog);
    push_mutation(&mut r, OperationFamily::CreateTable, MutationKind::Put, TargetFamily::SchemaObjectName);
    push_mutation(&mut r, OperationFamily::CreateTable, MutationKind::Put, TargetFamily::TableSchema);
    push_mutation(&mut r, OperationFamily::CreateTable, MutationKind::Put, TargetFamily::ActivePrimaryIndex);
    push_mutation(&mut r, OperationFamily::CreateTable, MutationKind::Put, TargetFamily::ActiveSchemaRevision);
    push_mutation(&mut r, OperationFamily::CreateTable, MutationKind::Put, TargetFamily::IndexDefinition);
    push_mutation(&mut r, OperationFamily::CreateTable, MutationKind::Put, TargetFamily::ColumnName);
    push_mutation(&mut r, OperationFamily::CreateTable, MutationKind::Put, TargetFamily::ConstraintName);
    push_mutation(&mut r, OperationFamily::CreateTable, MutationKind::Put, TargetFamily::ActiveConstraint);
    push_mutation(&mut r, OperationFamily::CreateTable, MutationKind::Put, TargetFamily::ConstraintReference);
    push_mutation(&mut r, OperationFamily::CreateTable, MutationKind::Put, TargetFamily::WriteRevision);
    push_mutation(&mut r, OperationFamily::DropTable, MutationKind::Put, TargetFamily::SchemaLog);
    push_mutation(&mut r, OperationFamily::DropTable, MutationKind::Delete, TargetFamily::SchemaObjectName);
    push_mutation(&mut r, OperationFamily::DropTable, MutationKind::DeletePrefix, TargetFamily::TableRoot);
    push_mutation(&mut r, OperationFamily::DropTable, MutationKind::DeletePrefix, TargetFamily::ForeignReference);
    push_mutation(&mut r, OperationFamily::DropTable, MutationKind::Delete, TargetFamily::ConstraintReference);
    push_mutation(&mut r, OperationFamily::RowChanges, MutationKind::Put, TargetFamily::Row);
    push_mutation(&mut r, OperationFamily::RowChanges, MutationKind::Put, TargetFamily::UniqueOwner);
    push_mutation(&mut r, OperationFamily::RowChanges, MutationKind::Put, TargetFamily::ForeignReference);
    push_mutation(&mut r, OperationFamily::RowChanges, MutationKind::Delete, TargetFamily::Row);
    push_mutation(&mut r, OperationFamily::RowChanges, MutationKind::Delete, TargetFamily::UniqueOwner);
    push_mutation(&mut r, OperationFamily::RowChanges, MutationKind::Delete, TargetFamily::ForeignReference);
    push_mutation(&mut r, OperationFamily::RowChanges, MutationKind::DeletePrefix, TargetFamily::ForeignReference);
    push_mutation(&mut r, OperationFamily::CreateIndex, MutationKind::Put, TargetFamily::SchemaLog);
    push_mutation(&mut r, OperationFamily::CreateIndex, MutationKind::Put, TargetFamily::SchemaObjectName);
    push_mutation(&mut r, OperationFamily::CreateIndex, MutationKind::Put, TargetFamily::TableSchema);
    push_mutation(&mut r, OperationFamily::CreateIndex, MutationKind::Put, TargetFamily::ActiveSchemaRevision);
    push_mutation(&mut r, OperationFamily::CreateIndex, MutationKind::Put, TargetFamily::ColumnDependency);
    push_mutation(&mut r, OperationFamily::CreateIndex, MutationKind::Put, TargetFamily::IndexDefinition);
    push_mutation(&mut r, OperationFamily::CreateIndex, MutationKind::Put, TargetFamily::ActiveConstraint);
    push_mutation(&mut r, OperationFamily::CreateIndex, MutationKind::Put, TargetFamily::UniqueOwner);
    push_mutation(&mut r, OperationFamily::CreateIndex, MutationKind::Put, TargetFamily::WriteRevision);
    push_mutation(&mut r, OperationFamily::DropIndex, MutationKind::Put, TargetFamily::SchemaLog);
    push_mutation(&mut r, OperationFamily::DropIndex, MutationKind::Put, TargetFamily::TableSchema);
    push_mutation(&mut r, OperationFamily::DropIndex, MutationKind::Put, TargetFamily::ActiveSchemaRevision);
    push_mutation(&mut r, OperationFamily::DropIndex, MutationKind::Delete, TargetFamily::SchemaObjectName);
    push_mutation(&mut r, OperationFamily::DropIndex, MutationKind::Delete, TargetFamily::ColumnDependency);
    push_mutation(&mut r, OperationFamily::DropIndex, MutationKind::Delete, TargetFamily::ActiveConstraint);
    push_mutation(&mut r, OperationFamily::DropIndex, MutationKind::DeletePrefix, TargetFamily::ConstraintReference);
    push_mutation(&mut r, OperationFamily::RenameTable, MutationKind::Put, TargetFamily::SchemaLog);
    push_mutation(&mut r, OperationFamily::RenameTable, MutationKind::Put, TargetFamily::SchemaObjectName);
    push_mutation(&mut r, OperationFamily::RenameTable, MutationKind::Delete, TargetFamily::SchemaObjectName);
    push_mutation(&mut r, OperationFamily::RenameColumn, MutationKind::Put, TargetFamily::SchemaLog);
    push_mutation(&mut r, OperationFamily::RenameColumn, MutationKind::Put, TargetFamily::ColumnName);
    push_mutation(&mut r, OperationFamily::RenameColumn, MutationKind::Delete, TargetFamily::ColumnName);
    push_mutation(&mut r, OperationFamily::AddColumn, MutationKind::Put, TargetFamily::SchemaLog);
    push_mutation(&mut r, OperationFamily::AddColumn, MutationKind::Put, TargetFamily::ColumnName);
    push_mutation(&mut r, OperationFamily::AddColumn, MutationKind::Put, TargetFamily::ConstraintName);
    push_mutation(&mut r, OperationFamily::AddColumn, MutationKind::Put, TargetFamily::ConstraintReference);
    push_mutation(&mut r, OperationFamily::AddColumn, MutationKind::Put, TargetFamily::TableSchema);
    push_mutation(&mut r, OperationFamily::AddColumn, MutationKind::Put, TargetFamily::ColumnDependency);
    push_mutation(&mut r, OperationFamily::AddColumn, MutationKind::Put, TargetFamily::WriteRevision);
    push_mutation(&mut r, OperationFamily::DropColumn, MutationKind::Put, TargetFamily::SchemaLog);
    push_mutation(&mut r, OperationFamily::DropColumn, MutationKind::Put, TargetFamily::TableSchema);
    push_mutation(&mut r, OperationFamily::DropColumn, MutationKind::Delete, TargetFamily::ColumnName);
    push_mutation(&mut r, OperationFamily::DropColumn, MutationKind::Delete, TargetFamily::ConstraintName);
    push_mutation(&mut r, OperationFamily::DropColumn, MutationKind::Delete, TargetFamily::ColumnDependency);
    push_mutation(&mut r, OperationFamily::DropColumn, MutationKind::DeletePrefix, TargetFamily::ColumnDependency);
    push_mutation(&mut r, OperationFamily::DropConstraint, MutationKind::Put, TargetFamily::SchemaLog);
    push_mutation(&mut r, OperationFamily::DropConstraint, MutationKind::Put, TargetFamily::TableSchema);
    push_mutation(&mut r, OperationFamily::DropConstraint, MutationKind::Delete, TargetFamily::ConstraintName);
    push_mutation(&mut r, OperationFamily::DropConstraint, MutationKind::Delete, TargetFamily::ActiveConstraint);
    push_mutation(&mut r, OperationFamily::DropConstraint, MutationKind::Delete, TargetFamily::ConstraintReference);
    push_mutation(&mut r, OperationFamily::DropConstraint, MutationKind::DeletePrefix, TargetFamily::ConstraintReference);
    r
}

/// Central allowlist for speculative rejection repair: each permitted contract
/// stands in it once.
pub fn rejection_contracts() -> (r: Vec<RejectionContract>)
    ensures
        r@.len() == 13,
        forall|i: int| 0 <= i < r@.len() ==> rejection_rank(#[trigger] r@[i]) == i,
{
    let mut r: Vec<RejectionContract> = Vec::new();
    push_rejection(&mut r, OperationFamily::CreateTable, RejectionKind::RemoveCreatedTable);
    push_rejection(&mut r, OperationFamily::DropTable, RejectionKind::RestoreDroppedTable);
    push_rejection(&mut r, OperationFamily::RowChanges, RejectionKind::RestoreRowChanges);
    push_rejection(&mut r, OperationFamily::CreateIndex, RejectionKind::RevertIndex);
    push_rejection(&mut r, OperationFamily::DropIndex, RejectionKind::RevertIndex);
    push_rejection(&mut r, OperationFamily::RenameTable, RejectionKind::RevertAlterTable);
    push_rejection(&mut r, OperationFamily::RenameColumn, RejectionKind::RevertAlterTable);
    push_rejection(&mut r, OperationFamily::AddColumn, RejectionKind::RevertAlterTable);
    push_rejection(&mut r, OperationFamily::DropColumn, RejectionKind::RevertAlterTable);
    push_rejection(&mut r, OperationFamily::DropConstraint, RejectionKind::RevertAlterTable);
    push_rejection(&mut r, OperationFamily::SetUserVersion, RejectionKind::RestoreUserVersion);
    push_rejection(&mut r, OperationFamily::CreateView, RejectionKind::RevertView);
    push_rejection(&mut r, OperationFamily::DropView, RejectionKind::RevertView);
    r
}

/// Central allowlist for guards: each permitted contract stands in it once.
pub fn guard_contracts() -> (r: Vec<GuardContract>)
    ensures
        r@.len() == 86,
        forall|i: int| 0 <= i < r@.len() ==> guard_rank(#[trigger] r@[i]) == i,
{
    let mut r: Vec<GuardContract> = Vec::new();
    push_guard(
        &mut r,
        OperationFamily::CreateTable,
        GuardClass::Invariant,
        GuardReason::SchemaObjectName,
        TargetFamily::SchemaObjectName,
    );
    push_guard(
        &mut r,
        OperationFamily::CreateTable,
        GuardClass::Invariant,
        GuardReason::SchemaRevision,
        TargetFamily::ActiveSchemaRevision,
    );
    push_guard(
        &mut r,
        OperationFamily::CreateTable,
        GuardClass::Invariant,
        GuardReason::ConstraintState,
        TargetFamily::ActiveConstraint,
    );
    push_guard(
        &mut r,
        OperationFamily::CreateTable,
        GuardClass::Invariant,
        GuardReason::ConstraintReference,
        TargetFamily::ConstraintReference,
    );
    push_guard(
        &mut r,
        OperationFamily::CreateTable,
        GuardClass::Write,
        GuardReason::ConstraintReference,
        TargetFamily::ConstraintReference,
    );
    push_guard(
        &mut r,
        OperationFamily::CreateTable,
        GuardClass::Write,
        GuardReason::WriteContract,
        TargetFamily::WriteRevision,
    );
    push_guard(
        &mut r,
        OperationFamily::DropTable,
        GuardClass::Invariant,
        GuardReason::TableExistence,
        TargetFamily::TableRoot,
    );
    push_guard(
        &mut r,
        OperationFamily::DropTable,
        GuardClass::Write,
        GuardReason::TableExistence,
        TargetFamily::TableRoot,
    );
    push_guard(
        &mut r,
        OperationFamily::DropTable,
        GuardClass::Invariant,
        GuardReason::SchemaObjectName,
        TargetFamily::SchemaObjectName,
    );
    push_guard(
        &mut r,
        OperationFamily::DropTable,
        GuardClass::Invariant,
        GuardReason::ForeignReference,
        TargetFamily::ForeignReference,
    );
    push_guard(
        &mut r,
        OperationFamily::DropTable,
        GuardClass::Write,
        GuardReason::ForeignReference,
        TargetFamily::ForeignReference,
    );
    push_guard(
        &mut r,
        OperationFamily::DropTable,
        GuardClass::Invariant,
        GuardReason::ConstraintReference,
        TargetFamily::ConstraintReference,
    );
    push_guard(
        &mut r,
        OperationFamily::DropTable,
        GuardClass::Write,
        GuardReason::ConstraintReference,
        TargetFamily::ConstraintReference,
    );
    push_guard(
        &mut r,
        OperationFamily::RowChanges,
        GuardClass::Invariant,
        GuardReason::RowIdentity,
        TargetFamily::Row,
    );
    push_guard(
        &mut r,
        OperationFamily::RowChanges,
        GuardClass::Write,
        GuardReason::RowIdentity,
        TargetFamily::Row,
    );
    push_guard(
        &mut r,
        OperationFamily::RowChanges,
        GuardClass::Invariant,
        GuardReason::UniqueOwnership,
        TargetFamily::UniqueOwner,
    );
    push_guard(
        &mut r,
        OperationFamily::RowChanges,
        GuardClass::Write,
        GuardReason::UniqueOwnership,
        TargetFamily::UniqueOwner,
    );
    push_guard(
        &mut r,
        OperationFamily::RowChanges,
        GuardClass::Invariant,
        GuardReason::ForeignReference,
        TargetFamily::ForeignReference,
    );
    push_guard(
        &mut r,
        OperationFamily::RowChanges,
        GuardClass::Write,
        GuardReason::ForeignReference,
        TargetFamily::ForeignReference,
    );
    push_guard(
        &mut r,
        OperationFamily::RowChanges,
        GuardClass::Invariant,
        GuardReason::ForeignChildren,
        TargetFamily::ForeignReference,
    );
    push_guard(
        &mut r,
        OperationFamily::RowChanges,
        GuardClass::Write,
        GuardReason::ForeignChildren,
        TargetFamily::ForeignReference,
    );
    push_guard(
        &mut r,
        OperationFamily::RowChanges,
        GuardClass::Invariant,
        GuardReason::PrimaryIndex,
        TargetFamily::ActivePrimaryIndex,
    );
    push_guard(
        &mut r,
        OperationFamily::RowChanges,
        GuardClass::Invariant,
        GuardReason::WriteContract,
        TargetFamily::WriteRevision,
    );
    push_guard(
        &mut r,
        OperationFamily::CreateIndex,
        GuardClass::Invariant,
        GuardReason::SchemaObjectName,
        TargetFamily::SchemaObjectName,
    );
    push_guard(
        &mut r,
        OperationFamily::CreateIndex,
        GuardClass::Invariant,
        GuardReason::SchemaRevision,
        TargetFamily::ActiveSchemaRevision,
    );
    push_guard(
        &mut r,
        OperationFamily::CreateIndex,
        GuardClass::Write,
        GuardReason::SchemaRevision,
        TargetFamily::ActiveSchemaRevision,
    );
    push_guard(
        &mut r,
        OperationFamily::CreateIndex,
        GuardClass::Invariant,
        GuardReason::ColumnNameBinding,
        TargetFamily::ColumnName,
    );
    push_guard(
        &mut r,
        OperationFamily::CreateIndex,
        GuardClass::Invariant,
        GuardReason::ColumnDependency,
        TargetFamily::ColumnDependency,
    );
    push_guard(
        &mut r,
        OperationFamily::CreateIndex,
        GuardClass::Write,
        GuardReason::ColumnDependency,
        TargetFamily::ColumnDependency,
    );
    push_guard(
        &mut r,
        OperationFamily::CreateIndex,
        GuardClass::Write,
        GuardReason::WriteContract,
        TargetFamily::WriteRevision,
    );
    push_guard(
        &mut r,
        OperationFamily::CreateIndex,
        GuardClass::Invariant,
        GuardReason::ExistingRows,
        TargetFamily::Row,
    );
    push_guard(
        &mut r,
        OperationFamily::CreateIndex,
        GuardClass::Invariant,
        GuardReason::ConstraintState,
        TargetFamily::ActiveConstraint,
    );
    push_guard(
        &mut r,
        OperationFamily::CreateIndex,
        GuardClass::Write,
        GuardReason::ConstraintState,
        TargetFamily::ActiveConstraint,
    );
    push_guard(
        &mut r,
        OperationFamily::DropIndex,
        GuardClass::Invariant,
        GuardReason::SchemaObjectName,
        TargetFamily::SchemaObjectName,
    );
    push_guard(
        &mut r,
        OperationFamily::DropIndex,
        GuardClass::Invariant,
        GuardReason::SchemaRevision,
        TargetFamily::ActiveSchemaRevision,
    );
    push_guard(
        &mut r,
        OperationFamily::DropIndex,
        GuardClass::Write,
        GuardReason::SchemaRevision,
        TargetFamily::ActiveSchemaRevision,
    );
    push_guard(
        &mut r,
        OperationFamily::DropIndex,
        GuardClass::Invariant,
        GuardReason::ColumnDependency,
        TargetFamily::ColumnDependency,
    );
    push_guard(
        &mut r,
        OperationFamily::DropIndex,
        GuardClass::Write,
        GuardReason::ColumnDependency,
        TargetFamily::ColumnDependency,
    );
    push_guard(
        &mut r,
        OperationFamily::DropIndex,
        GuardClass::Invariant,
        GuardReason::WriteContract,
        TargetFamily::WriteRevision,
    );
    push_guard(
        &mut r,
        OperationFamily::DropIndex,
        GuardClass::Invariant,
        GuardReason::ConstraintState,
        TargetFamily::ActiveConstraint,
    );
    push_guard(
        &mut r,
        OperationFamily::DropIndex,
        GuardClass::Write,
        GuardReason::ConstraintState,
        TargetFamily::ActiveConstraint,
    );
    push_guard(
        &mut r,
        OperationFamily::DropIndex,
        GuardClass::Invariant,
        GuardReason::ConstraintReference,
        TargetFamily::ConstraintReference,
    );
    push_guard(
        &mut r,
        OperationFamily::DropIndex,
        GuardClass::Write,
        GuardReason::ConstraintReference,
        TargetFamily::ConstraintReference,
    );
    push_guard(
        &mut r,
        OperationFamily::RenameTable,
        GuardClass::Invariant,
        GuardReason::SchemaObjectName,
        TargetFamily::SchemaObjectName,
    );
    push_guard(
        &mut r,
        OperationFamily::RenameColumn,
        GuardClass::Invariant,
        GuardReason::ColumnNameBinding,
        TargetFamily::ColumnName,
    );
    push_guard(
        &mut r,
        OperationFamily::AddColumn,
        GuardClass::Invariant,
        GuardReason::ColumnNameBinding,
        TargetFamily::ColumnName,
    );
    push_guard(
        &mut r,
        OperationFamily::AddColumn,
        GuardClass::Write,
        GuardReason::ColumnNameBinding,
        TargetFamily::ColumnName,
    );
    push_guard(
        &mut r,
        OperationFamily::AddColumn,
        GuardClass::Invariant,
        GuardReason::ConstraintNameBinding,
        TargetFamily::ConstraintName,
    );
    push_guard(
        &mut r,
        OperationFamily::AddColumn,
        GuardClass::Invariant,
        GuardReason::SchemaObjectName,
        TargetFamily::SchemaObjectName,
    );
    push_guard(
        &mut r,
        OperationFamily::AddColumn,
        GuardClass::Invariant,
        GuardReason::SchemaRevision,
        TargetFamily::ActiveSchemaRevision,
    );
    push_guard(
        &mut r,
        OperationFamily::AddColumn,
        GuardClass::Invariant,
        GuardReason::ConstraintState,
        TargetFamily::ActiveConstraint,
    );
    push_guard(
        &mut r,
        OperationFamily::AddColumn,
        GuardClass::Invariant,
        GuardReason::ConstraintReference,
        TargetFamily::ConstraintReference,
    );
    push_guard(
        &mut r,
        OperationFamily::AddColumn,
        GuardClass::Write,
        GuardReason::ConstraintReference,
        TargetFamily::ConstraintReference,
    );
    push_guard(
        &mut r,
        OperationFamily::AddColumn,
        GuardClass::Invariant,
        GuardReason::ExistingRows,
        TargetFamily::TableRows,
    );
    push_guard(
        &mut r,
        OperationFamily::AddColumn,
        GuardClass::Invariant,
        GuardReason::ColumnDependency,
        TargetFamily::ColumnDependency,
    );
    push_guard(
        &mut r,
        OperationFamily::AddColumn,
        GuardClass::Write,
        GuardReason::ColumnDependency,
        TargetFamily::ColumnDependency,
    );
    push_guard(
        &mut r,
        OperationFamily::AddColumn,
        GuardClass::Write,
        GuardReason::WriteContract,
        TargetFamily::WriteRevision,
    );
    push_guard(
        &mut r,
        OperationFamily::AddColumn,
        GuardClass::Invariant,
        GuardReason::ExistingRows,
        TargetFamily::Row,
    );
    push_guard(
        &mut r,
        OperationFamily::DropColumn,
        GuardClass::Invariant,
        GuardReason::ColumnNameBinding,
        TargetFamily::ColumnName,
    );
    push_guard(
        &mut r,
        OperationFamily::DropColumn,
        GuardClass::Invariant,
        GuardReason::ConstraintNameBinding,
        TargetFamily::ConstraintName,
    );
    push_guard(
        &mut r,
        OperationFamily::DropColumn,
        GuardClass::Write,
        GuardReason::ConstraintNameBinding,
        TargetFamily::ConstraintName,
    );
    push_guard(
        &mut r,
        OperationFamily::DropColumn,
        GuardClass::Invariant,
        GuardReason::ColumnDependency,
        TargetFamily::ColumnDependency,
    );
    push_guard(
        &mut r,
        OperationFamily::DropColumn,
        GuardClass::Write,
        GuardReason::ColumnDependency,
        TargetFamily::ColumnDependency,
    );
    push_guard(
        &mut r,
        OperationFamily::DropConstraint,
        GuardClass::Invariant,
        GuardReason::ConstraintNameBinding,
        TargetFamily::ConstraintName,
    );
    push_guard(
        &mut r,
        OperationFamily::DropConstraint,
        GuardClass::Write,
        GuardReason::ConstraintNameBinding,
        TargetFamily::ConstraintName,
    );
    push_guard(
        &mut r,
        OperationFamily::DropConstraint,
        GuardClass::Invariant,
        GuardReason::ConstraintState,
        TargetFamily::ActiveConstraint,
    );
    push_guard(
        &mut r,
        OperationFamily::DropConstraint,
        GuardClass::Write,
        GuardReason::ConstraintState,
        TargetFamily::ActiveConstraint,
    );
    push_guard(
        &mut r,
        OperationFamily::DropConstraint,
        GuardClass::Invariant,
        GuardReason::ConstraintReference,
        TargetFamily::ConstraintReference,
    );
    push_guard(
        &mut r,
        OperationFamily::DropConstraint,
        GuardClass::Write,
        GuardReason::ConstraintReference,
        TargetFamily::ConstraintReference,
    );
    push_guard(
        &mut r,
        OperationFamily::TransactionRead,
        GuardClass::SerializableRead,
        GuardReason::SerializableRead,
        TargetFamily::TableRoot,
    );
    push_guard(
        &mut r,
        OperationFamily::TransactionRead,
        GuardClass::SerializableRead,
        GuardReason::SerializableRead,
        TargetFamily::SchemaObjectName,
    );
    push_guard(
        &mut r,
        OperationFamily::SetUserVersion,
        GuardClass::Write,
        GuardReason::UserVersion,
        TargetFamily::UserVersion,
    );
    push_guard(
        &mut r,
        OperationFamily::CreateView,
        GuardClass::Invariant,
        GuardReason::SchemaObjectName,
        TargetFamily::SchemaObjectName,
    );
    push_guard(
        &mut r,
        OperationFamily::CreateView,
        GuardClass::Invariant,
        GuardReason::ViewDependency,
        TargetFamily::SchemaObjectName,
    );
    push_guard(
        &mut r,
        OperationFamily::CreateView,
        GuardClass::Invariant,
        GuardReason::ViewDependency,
        TargetFamily::ColumnName,
    );
    push_guard(
        &mut r,
        OperationFamily::CreateView,
        GuardClass::Invariant,
        GuardReason::ViewDependency,
        TargetFamily::ViewDependency,
    );
    push_guard(
        &mut r,
        OperationFamily::CreateView,
        GuardClass::Invariant,
        GuardReason::ColumnDependency,
        TargetFamily::ColumnDependency,
    );
    push_guard(
        &mut r,
        OperationFamily::CreateView,
        GuardClass::Write,
        GuardReason::ColumnDependency,
        TargetFamily::ColumnDependency,
    );
    push_guard(
        &mut r,
        OperationFamily::DropView,
        GuardClass::Invariant,
        GuardReason::SchemaObjectName,
        TargetFamily::SchemaObjectName,
    );
    push_guard(
        &mut r,
        OperationFamily::DropView,
        GuardClass::Invariant,
        GuardReason::ViewDependency,
        TargetFamily::SchemaObjectName,
    );
    push_guard(
        &mut r,
        OperationFamily::DropView,
        GuardClass::Invariant,
        GuardReason::ViewDependency,
        TargetFamily::ColumnName,
    );
    push_guard(
        &mut r,
        OperationFamily::DropView,
        GuardClass::Invariant,
        GuardReason::ViewDependency,
        TargetFamily::ViewDependency,
    );
    push_guard(
        &mut r,
        OperationFamily::DropView,
        GuardClass::Invariant,
        GuardReason::ColumnDependency,
        TargetFamily::ColumnDependency,
    );
    push_guard(
        &mut r,
        OperationFamily::DropView,
        GuardClass::Write,
        GuardReason::ColumnDependency,
        TargetFamily::ColumnDependency,
    );
    push_guard(
        &mut r,
        OperationFamily::DropColumn,
        GuardClass::Invariant,
        GuardReason::ViewDependency,
        TargetFamily::ViewDependency,
    );
    push_guard(
        &mut r,
        OperationFamily::TransactionRead,
        GuardClass::SerializableRead,
        GuardReason::SerializableRead,
        TargetFamily::UserVersion,
    );
    r
}

/// Guards that every operation in a family must emit at least once.
///
/// Exact guards coupled to individual mutations are checked separately. These
/// requirements cover dependencies which have no one-to-one mutation, such as a
/// row operation's active key contract.
pub fn required_guard_contracts() -> (r: Vec<GuardContract>)
    ensures
        r@.len() == 22,
        forall|i: int| 0 <= i < r@.len() ==> required_rank(#[trigger] r@[i]) == i,
{
    let mut r: Vec<GuardContract> = Vec::new();
    push_required(
        &mut r,
        OperationFamily::CreateTable,
        GuardClass::Invariant,
        GuardReason::SchemaObjectName,
        TargetFamily::SchemaObjectName,
    );
    push_required(
        &mut r,
        OperationFamily::CreateTable,
        GuardClass::Write,
        GuardReason::WriteContract,
        TargetFamily::WriteRevision,
    );
    push_required(
        &mut r,
        OperationFamily::DropTable,
        GuardClass::Invariant,
        GuardReason::TableExistence,
        TargetFamily::TableRoot,
    );
    push_required(
        &mut r,
        OperationFamily::DropTable,
        GuardClass::Write,
        GuardReason::TableExistence,
        TargetFamily::TableRoot,
    );
    push_required(
        &mut r,
        OperationFamily::DropTable,
        GuardClass::Invariant,
        GuardReason::SchemaObjectName,
        TargetFamily::SchemaObjectName,
    );
    push_required(
        &mut r,
        OperationFamily::RowChanges,
        GuardClass::Invariant,
        GuardReason::PrimaryIndex,
        TargetFamily::ActivePrimaryIndex,
    );
    push_required(
        &mut r,
        OperationFamily::RowChanges,
        GuardClass::Invariant,
        GuardReason::WriteContract,
        TargetFamily::WriteRevision,
    );
    push_required(
        &mut r,
        OperationFamily::CreateIndex,
        GuardClass::Invariant,
        GuardReason::SchemaObjectName,
        TargetFamily::SchemaObjectName,
    );
    push_required(
        &mut r,
        OperationFamily::CreateIndex,
        GuardClass::Invariant,
        GuardReason::SchemaRevision,
        TargetFamily::ActiveSchemaRevision,
    );
    push_required(
        &mut r,
        OperationFamily::CreateIndex,
        GuardClass::Write,
        GuardReason::SchemaRevision,
        TargetFamily::ActiveSchemaRevision,
    );
    push_required(
        &mut r,
        OperationFamily::DropIndex,
        GuardClass::Invariant,
        GuardReason::SchemaObjectName,
        TargetFamily::SchemaObjectName,
    );
    push_required(
        &mut r,
        OperationFamily::DropIndex,
        GuardClass::Invariant,
        GuardReason::SchemaRevision,
        TargetFamily::ActiveSchemaRevision,
    );
    push_required(
        &mut r,
        OperationFamily::DropIndex,
        GuardClass::Write,
        GuardReason::SchemaRevision,
        TargetFamily::ActiveSchemaRevision,
    );
    push_required(
        &mut r,
        OperationFamily::RenameTable,
        GuardClass::Invariant,
        GuardReason::SchemaObjectName,
        TargetFamily::SchemaObjectName,
    );
    push_required(
        &mut r,
        OperationFamily::RenameColumn,
        GuardClass::Invariant,
        GuardReason::ColumnNameBinding,
        TargetFamily::ColumnName,
    );
    push_required(
        &mut r,
        OperationFamily::AddColumn,
        GuardClass::Invariant,
        GuardReason::ColumnNameBinding,
        TargetFamily::ColumnName,
    );
    push_required(
        &mut r,
        OperationFamily::DropColumn,
        GuardClass::Invariant,
        GuardReason::ColumnNameBinding,
        TargetFamily::ColumnName,
    );
    push_required(
        &mut r,
        OperationFamily::DropColumn,
        GuardClass::Invariant,
        GuardReason::ViewDependency,
        TargetFamily::ViewDependency,
    );
    push_required(
        &mut r,
        OperationFamily::DropConstraint,
        GuardClass::Invariant,
        GuardReason::ConstraintNameBinding,
        TargetFamily::ConstraintName,
    );
    push_required(
        &mut r,
        OperationFamily::SetUserVersion,
        GuardClass::Write,
        GuardReason::UserVersion,
        TargetFamily::UserVersion,
    );
    push_required(
        &mut r,
        OperationFamily::CreateView,
        GuardClass::Invariant,
        GuardReason::SchemaObjectName,
        TargetFamily::SchemaObjectName,
    );
    push_required(
        &mut r,
        OperationFamily::DropView,
        GuardClass::Invariant,
        GuardReason::SchemaObjectName,
        TargetFamily::SchemaObjectName,
    );
    r
}

fn push_mutation(
    table: &mut Vec<MutationContract>,
    operation: OperationFamily,
    kind: MutationKind,
    target: TargetFamily,
)
    requires
        mutation_rank(MutationContract { operation, kind, target }) == old(table)@.len(),
        forall|i: int| 0 <= i < old(table)@.len() ==> mutation_rank(#[trigger] old(table)@[i]) == i,
    ensures
        final(table)@.len() == old(table)@.len() + 1,
        forall|i: int|
            0 <= i < final(table)@.len() ==> mutation_rank(#[trigger] final(table)@[i]) == i,
{
    table.push(MutationContract { operation, kind, target });
}

fn push_rejection(
    table: &mut Vec<RejectionContract>,
    operation: OperationFamily,
    rejection: RejectionKind,
)
    requires
        rejection_rank(RejectionContract { operation, rejection }) == old(table)@.len(),
        forall|i: int|
            0 <= i < old(table)@.len() ==> rejection_rank(#[trigger] old(table)@[i]) == i,
    ensures
        final(table)@.len() == old(table)@.len() + 1,
        forall|i: int|
            0 <= i < final(table)@.len() ==> rejection_rank(#[trigger] final(table)@[i]) == i,
{
    table.push(RejectionContract { operation, rejection });
}

fn push_guard(
    table: &mut Vec<GuardContract>,
    operation: OperationFamily,
    class: GuardClass,
    reason: GuardReason,
    target: TargetFamily,
)
    requires
        guard_rank(GuardContract { operation, class, reason, target }) == old(table)@.len(),
        forall|i: int| 0 <= i < old(table)@.len() ==> guard_rank(#[trigger] old(table)@[i]) == i,
    ensures
        final(table)@.len() == old(table)@.len() + 1,
        forall|i: int| 0 <= i < final(table)@.len() ==> guard_rank(#[trigger] final(table)@[i]) == i,
{
    table.push(GuardContract { operation, class, reason, target });
}

fn push_required(
    table: &mut Vec<GuardContract>,
    operation: OperationFamily,
    class: GuardClass,
    reason: GuardReason,
    target: TargetFamily,
)
    requires
        required_rank(GuardContract { operation, class, reason, target }) == old(table)@.len(),
        forall|i: int| 0 <= i < old(table)@.len() ==> required_rank(#[trigger] old(table)@[i]) == i,
    ensures
        final(table)@.len() == old(table)@.len() + 1,
        forall|i: int|
            0 <= i < final(table)@.len() ==> required_rank(#[trigger] final(table)@[i]) == i,
{
    table.push(GuardContract { operation, class, reason, target });
}

/// No mutation contract stands at two places of its table, and none shares a
/// place with another: the table is free of duplicates.
pub proof fn mutation_table_has_no_duplicates(a: MutationContract, b: MutationContract)
    requires
        mutation_rank(a) >= 0,
        mutation_rank(a) == mutation_rank(b),
    ensures
        a == b,
{
}

/// No rejection contract shares a place of its table with another.
pub proof fn rejection_table_has_no_duplicates(a: RejectionContract, b: RejectionContract)
    requires
        rejection_rank(a) >= 0,
        rejection_rank(a) == rejection_rank(b),
    ensures
        a == b,
{
}

/// No guard contract shares a place of its table with another.
pub proof fn guard_table_has_no_duplicates(a: GuardContract, b: GuardContract)
    requires
        guard_rank(a) >= 0,
        guard_rank(a) == guard_rank(b),
    ensures
        a == b,
{
}

/// No required guard shares a place of its table with another.
pub proof fn required_table_has_no_duplicates(a: GuardContract, b: GuardContract)
    requires
        required_rank(a) >= 0,
        required_rank(a) == required_rank(b),
    ensures
        a == b,
{
}

/// Every required guard is a permitted one.
pub proof fn required_guards_are_permitted(c: GuardContract)
    requires
        requires_guard(c),
    ensures
        permits_guard(c.operation, c.class, c.reason, c.target),
{
}

/// Every logical operation has a repair, a permitted mutation and a permitted
/// guard; no other family has a repair.
pub proof fn tables_cover_every_operation(operation: OperationFamily)
    ensures
        is_logical(operation) <==> exists|rejection: RejectionKind|
            permits_rejection(operation, rejection),
        is_logical(operation) ==> exists|kind: MutationKind, target: TargetFamily|
            permits_mutation(operation, kind, target),
        is_logical(operation) ==> exists|class: GuardClass, reason: GuardReason, target: TargetFamily|
            permits_guard(operation, class, reason, target),
{
    match operation {
        OperationFamily::TransactionEnvelope => {
            assert forall|rejection: RejectionKind| !permits_rejection(operation, rejection) by {}
        },
        OperationFamily::CreateTable => {
            assert(permits_rejection(operation, RejectionKind::RemoveCreatedTable));
            assert(permits_mutation(operation, MutationKind::Put, TargetFamily::SchemaLog));
            assert(permits_guard(
                operation,
                GuardClass::Invariant,
                GuardReason::SchemaObjectName,
                TargetFamily::SchemaObjectName,
            ));
        },
        OperationFamily::DropTable => {
            assert(permits_rejection(operation, RejectionKind::RestoreDroppedTable));
            assert(permits_mutation(operation, MutationKind::Put, TargetFamily::SchemaLog));
            assert(permits_guard(
                operation,
                GuardClass::Invariant,
                GuardReason::TableExistence,
                TargetFamily::TableRoot,
            ));
        },
        OperationFamily::RowChanges => {
            assert(permits_rejection(operation, RejectionKind::RestoreRowChanges));
            assert(permits_mutation(operation, MutationKind::Put, TargetFamily::Row));
            assert(permits_guard(
                operation,
                GuardClass::Invariant,
                GuardReason::RowIdentity,
                TargetFamily::Row,
            ));
        },
        OperationFamily::CreateIndex => {
            assert(permits_rejection(operation, RejectionKind::RevertIndex));
            assert(permits_mutation(operation, MutationKind::Put, TargetFamily::SchemaLog));
            assert(permits_guard(
                operation,
                GuardClass::Invariant,
                GuardReason::SchemaObjectName,
                TargetFamily::SchemaObjectName,
            ));
        },
        OperationFamily::DropIndex => {
            assert(permits_rejection(operation, RejectionKind::RevertIndex));
            assert(permits_mutation(operation, MutationKind::Put, TargetFamily::SchemaLog));
            assert(permits_guard(
                operation,
                GuardClass::Invariant,
                GuardReason::SchemaObjectName,
                TargetFamily::SchemaObjectName,
            ));
        },
        OperationFamily::RenameTable => {
            assert(permits_rejection(operation, RejectionKind::RevertAlterTable));
            assert(permits_mutation(operation, MutationKind::Put, TargetFamily::SchemaLog));
            assert(permits_guard(
                operation,
                GuardClass::Invariant,
                GuardReason::SchemaObjectName,
                TargetFamily::SchemaObjectName,
            ));
        },
        OperationFamily::RenameColumn => {
            assert(permits_rejection(operation, RejectionKind::RevertAlterTable));
            assert(permits_mutation(operation, MutationKind::Put, TargetFamily::SchemaLog));
            assert(permits_guard(
                operation,
                GuardClass::Invariant,
                GuardReason::ColumnNameBinding,
                TargetFamily::ColumnName,
            ));
        },
        OperationFamily::AddColumn => {
            assert(permits_rejection(operation, RejectionKind::RevertAlterTable));
            assert(permits_mutation(operation, MutationKind::Put, TargetFamily::SchemaLog));
            assert(permits_guard(
                operation,
                GuardClass::Invariant,
                GuardReason::ColumnNameBinding,
                TargetFamily::ColumnName,
            ));
        },
        OperationFamily::DropColumn => {
            assert(permits_rejection(operation, RejectionKind::RevertAlterTable));
            assert(permits_mutation(operation, MutationKind::Put, TargetFamily::SchemaLog));
            assert(permits_guard(
                operation,
                GuardClass::Invariant,
                GuardReason::ColumnNameBinding,
                TargetFamily::ColumnName,
            ));
        },
        OperationFamily::DropConstraint => {
            assert(permits_rejection(operation, RejectionKind::RevertAlterTable));
            assert(permits_mutation(operation, MutationKind::Put, TargetFamily::SchemaLog));
            assert(permits_guard(
                operation,
                GuardClass::Invariant,
                GuardReason::ConstraintNameBinding,
                TargetFamily::ConstraintName,
            ));
        },
        OperationFamily::TransactionRead => {
            assert forall|rejection: RejectionKind| !permits_rejection(operation, rejection) by {}
        },
        OperationFamily::SetUserVersion => {
            assert(permits_rejection(operation, RejectionKind::RestoreUserVersion));
            assert(permits_mutation(operation, MutationKind::Put, TargetFamily::UserVersion));
            assert(permits_guard(
                operation,
                GuardClass::Write,
                GuardReason::UserVersion,
                TargetFamily::UserVersion,
            ));
        },
        OperationFamily::CreateView => {
            assert(permits_rejection(operation, RejectionKind::RevertView));
            assert(permits_mutation(operation, MutationKind::Put, TargetFamily::SchemaLog));
            assert(permits_guard(
                operation,
                GuardClass::Invariant,
                GuardReason::SchemaObjectName,
                TargetFamily::SchemaObjectName,
            ));
        },
        OperationFamily::DropView => {
            assert(permits_rejection(operation, RejectionKind::RevertView));
            assert(permits_mutation(operation, MutationKind::Put, TargetFamily::SchemaLog));
            assert(permits_guard(
                operation,
                GuardClass::Invariant,
                GuardReason::SchemaObjectName,
                TargetFamily::SchemaObjectName,
            ));
        },
    }
}

/// Whether a mutation contract stands in a listed table.
pub fn lists_mutation(table: &[MutationContract], contract: MutationContract) -> (r: bool)
    ensures
        r == table@.contains(contract),
{
    let mut i: usize = 0;
    while i < table.len()
        invariant
            i <= table@.len(),
            forall|j: int| 0 <= j < i ==> table@[j] != contract,
        decreases table.len() - i,
    {
        if table[i] == contract {
            return true;
        }
        i += 1;
    }
    false
}

/// Whether a guard contract stands in a listed table.
pub fn lists_guard(table: &[GuardContract], contract: GuardContract) -> (r: bool)
    ensures
        r == table@.contains(contract),
{
    let mut i: usize = 0;
    while i < table.len()
        invariant
            i <= table@.len(),
            forall|j: int| 0 <= j < i ==> table@[j] != contract,
        decreases table.len() - i,
    {
        if table[i] == contract {
            return true;
        }
        i += 1;
    }
    false
}

/// The table holds exactly the permitted mutation contracts.
pub proof fn mutation_table_is_exact(table: Seq<MutationContract>, contract: MutationContract)
    requires
        table.len() == 74,
        forall|i: int| 0 <= i < table.len() ==> mutation_rank(#[trigger] table[i]) == i,
    ensures
        table.contains(contract) <==> mutation_rank(contract) >= 0,
{
    let rank = mutation_rank(contract);
    if rank >= 0 {
        assert(mutation_rank(table[rank]) == rank);
        mutation_table_has_no_duplicates(table[rank], contract);
    }
}

/// The table holds exactly the permitted guard contracts.
pub proof fn guard_table_is_exact(table: Seq<GuardContract>, contract: GuardContract)
    requires
        table.len() == 86,
        forall|i: int| 0 <= i < table.len() ==> guard_rank(#[trigger] table[i]) == i,
    ensures
        table.contains(contract) <==> guard_rank(contract) >= 0,
{
    let rank = guard_rank(contract);
    if rank >= 0 {
        assert(guard_rank(table[rank]) == rank);
        guard_table_has_no_duplicates(table[rank], contract);
    }
}

/// The table holds exactly the permitted rejection contracts.
pub proof fn rejection_table_is_exact(table: Seq<RejectionContract>, contract: RejectionContract)
    requires
        table.len() == 13,
        forall|i: int| 0 <= i < table.len() ==> rejection_rank(#[trigger] table[i]) == i,
    ensures
        table.contains(contract) <==> rejection_rank(contract) >= 0,
{
    let rank = rejection_rank(contract);
    if rank >= 0 {
        assert(rejection_rank(table[rank]) == rank);
        rejection_table_has_no_duplicates(table[rank], contract);
    }
}

/// The table holds exactly the required guards.
pub proof fn required_table_is_exact(table: Seq<GuardContract>, contract: GuardContract)
    requires
        table.len() == 22,
        forall|i: int| 0 <= i < table.len() ==> required_rank(#[trigger] table[i]) == i,
    ensures
        table.contains(contract) <==> requires_guard(contract),
{
    let rank = required_rank(contract);
    if rank >= 0 {
        assert(required_rank(table[rank]) == rank);
        required_table_has_no_duplicates(table[rank], contract);
    }
}

} // verus!
