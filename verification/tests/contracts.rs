use multilite::error::Error;
use multilite::footprint::AdmissionSeq;
use multilite::identity::{ColumnId, ForeignKeyId, IndexId, TableId};
use multilite::key::{Key, Mutation, Range};
use multilite::logical::contract::{
    guard_contracts, mutation_contracts, rejection_contracts, required_guard_contracts, GuardClass,
    GuardReason, OperationFamily, RejectionKind,
};
use multilite::logical::guard::{
    column_view_dependency_key, validate_compiled_output, validate_mutations, validate_rejection,
    view_dependency_key, view_dependency_prefix, GuardPlan,
};
use multilite::logical::isolation::{IsolationLevel, UpdateOptions};
use multilite::logical::layout::{schema_object_name_scope_key, table_prefix};
use multilite::logical::target::{name_component, LogicalTarget, TargetFamily};
use multilite::name::SqlName;
use sha2::{Digest, Sha256};
use std::collections::BTreeSet;

const AUDIT: &str = "## Mutations\n\
\n\
| Operation | Mutation | Target family |\n\
| --- | --- | --- |\n\
| `TransactionEnvelope` | `Put` | `TransactionLog` |\n\
| `SetUserVersion` | `Put` | `UserVersion` |\n\
| `CreateView` | `Put` | `SchemaLog` |\n\
| `CreateView` | `Put` | `SchemaObjectName` |\n\
| `CreateView` | `Put` | `ViewDependency` |\n\
| `CreateView` | `Put` | `ColumnDependency` |\n\
| `DropView` | `Put` | `SchemaLog` |\n\
| `DropView` | `Delete` | `SchemaObjectName` |\n\
| `DropView` | `Delete` | `ViewDependency` |\n\
| `DropView` | `Delete` | `ColumnDependency` |\n\
| `CreateTable` | `Put` | `SchemaLog` |\n\
| `CreateTable` | `Put` | `SchemaObjectName` |\n\
| `CreateTable` | `Put` | `TableSchema` |\n\
| `CreateTable` | `Put` | `ActivePrimaryIndex` |\n\
| `CreateTable` | `Put` | `ActiveSchemaRevision` |\n\
| `CreateTable` | `Put` | `IndexDefinition` |\n\
| `CreateTable` | `Put` | `ColumnName` |\n\
| `CreateTable` | `Put` | `ConstraintName` |\n\
| `CreateTable` | `Put` | `ActiveConstraint` |\n\
| `CreateTable` | `Put` | `ConstraintReference` |\n\
| `CreateTable` | `Put` | `WriteRevision` |\n\
| `DropTable` | `Put` | `SchemaLog` |\n\
| `DropTable` | `Delete` | `SchemaObjectName` |\n\
| `DropTable` | `DeletePrefix` | `TableRoot` |\n\
| `DropTable` | `DeletePrefix` | `ForeignReference` |\n\
| `DropTable` | `Delete` | `ConstraintReference` |\n\
| `RowChanges` | `Put` | `Row` |\n\
| `RowChanges` | `Put` | `UniqueOwner` |\n\
| `RowChanges` | `Put` | `ForeignReference` |\n\
| `RowChanges` | `Delete` | `Row` |\n\
| `RowChanges` | `Delete` | `UniqueOwner` |\n\
| `RowChanges` | `Delete` | `ForeignReference` |\n\
| `RowChanges` | `DeletePrefix` | `ForeignReference` |\n\
| `CreateIndex` | `Put` | `SchemaLog` |\n\
| `CreateIndex` | `Put` | `SchemaObjectName` |\n\
| `CreateIndex` | `Put` | `TableSchema` |\n\
| `CreateIndex` | `Put` | `ActiveSchemaRevision` |\n\
| `CreateIndex` | `Put` | `ColumnDependency` |\n\
| `CreateIndex` | `Put` | `IndexDefinition` |\n\
| `CreateIndex` | `Put` | `ActiveConstraint` |\n\
| `CreateIndex` | `Put` | `UniqueOwner` |\n\
| `CreateIndex` | `Put` | `WriteRevision` |\n\
| `DropIndex` | `Put` | `SchemaLog` |\n\
| `DropIndex` | `Put` | `TableSchema` |\n\
| `DropIndex` | `Put` | `ActiveSchemaRevision` |\n\
| `DropIndex` | `Delete` | `SchemaObjectName` |\n\
| `DropIndex` | `Delete` | `ColumnDependency` |\n\
| `DropIndex` | `Delete` | `ActiveConstraint` |\n\
| `DropIndex` | `DeletePrefix` | `ConstraintReference` |\n\
| `RenameTable` | `Put` | `SchemaLog` |\n\
| `RenameTable` | `Put` | `SchemaObjectName` |\n\
| `RenameTable` | `Delete` | `SchemaObjectName` |\n\
| `RenameColumn` | `Put` | `SchemaLog` |\n\
| `RenameColumn` | `Put` | `ColumnName` |\n\
| `RenameColumn` | `Delete` | `ColumnName` |\n\
| `AddColumn` | `Put` | `SchemaLog` |\n\
| `AddColumn` | `Put` | `ColumnName` |\n\
| `AddColumn` | `Put` | `ConstraintName` |\n\
| `AddColumn` | `Put` | `ConstraintReference` |\n\
| `AddColumn` | `Put` | `TableSchema` |\n\
| `AddColumn` | `Put` | `ColumnDependency` |\n\
| `AddColumn` | `Put` | `WriteRevision` |\n\
| `DropColumn` | `Put` | `SchemaLog` |\n\
| `DropColumn` | `Put` | `TableSchema` |\n\
| `DropColumn` | `Delete` | `ColumnName` |\n\
| `DropColumn` | `Delete` | `ConstraintName` |\n\
| `DropColumn` | `Delete` | `ColumnDependency` |\n\
| `DropColumn` | `DeletePrefix` | `ColumnDependency` |\n\
| `DropConstraint` | `Put` | `SchemaLog` |\n\
| `DropConstraint` | `Put` | `TableSchema` |\n\
| `DropConstraint` | `Delete` | `ConstraintName` |\n\
| `DropConstraint` | `Delete` | `ActiveConstraint` |\n\
| `DropConstraint` | `Delete` | `ConstraintReference` |\n\
| `DropConstraint` | `DeletePrefix` | `ConstraintReference` |\n\
\n\
## Guards\n\
\n\
| Operation | Class | Reason | Target family |\n\
| --- | --- | --- | --- |\n\
| `CreateTable` | `Invariant` | `SchemaObjectName` | `SchemaObjectName` |\n\
| `CreateTable` | `Invariant` | `SchemaRevision` | `ActiveSchemaRevision` |\n\
| `CreateTable` | `Invariant` | `ConstraintState` | `ActiveConstraint` |\n\
| `CreateTable` | `Invariant` | `ConstraintReference` | `ConstraintReference` |\n\
| `CreateTable` | `Write` | `ConstraintReference` | `ConstraintReference` |\n\
| `CreateTable` | `Write` | `WriteContract` | `WriteRevision` |\n\
| `DropTable` | `Invariant` | `TableExistence` | `TableRoot` |\n\
| `DropTable` | `Write` | `TableExistence` | `TableRoot` |\n\
| `DropTable` | `Invariant` | `SchemaObjectName` | `SchemaObjectName` |\n\
| `DropTable` | `Invariant` | `ForeignReference` | `ForeignReference` |\n\
| `DropTable` | `Write` | `ForeignReference` | `ForeignReference` |\n\
| `DropTable` | `Invariant` | `ConstraintReference` | `ConstraintReference` |\n\
| `DropTable` | `Write` | `ConstraintReference` | `ConstraintReference` |\n\
| `RowChanges` | `Invariant` | `RowIdentity` | `Row` |\n\
| `RowChanges` | `Write` | `RowIdentity` | `Row` |\n\
| `RowChanges` | `Invariant` | `UniqueOwnership` | `UniqueOwner` |\n\
| `RowChanges` | `Write` | `UniqueOwnership` | `UniqueOwner` |\n\
| `RowChanges` | `Invariant` | `ForeignReference` | `ForeignReference` |\n\
| `RowChanges` | `Write` | `ForeignReference` | `ForeignReference` |\n\
| `RowChanges` | `Invariant` | `ForeignChildren` | `ForeignReference` |\n\
| `RowChanges` | `Write` | `ForeignChildren` | `ForeignReference` |\n\
| `RowChanges` | `Invariant` | `PrimaryIndex` | `ActivePrimaryIndex` |\n\
| `RowChanges` | `Invariant` | `WriteContract` | `WriteRevision` |\n\
| `CreateIndex` | `Invariant` | `SchemaObjectName` | `SchemaObjectName` |\n\
| `CreateIndex` | `Invariant` | `SchemaRevision` | `ActiveSchemaRevision` |\n\
| `CreateIndex` | `Write` | `SchemaRevision` | `ActiveSchemaRevision` |\n\
| `CreateIndex` | `Invariant` | `ColumnNameBinding` | `ColumnName` |\n\
| `CreateIndex` | `Invariant` | `ColumnDependency` | `ColumnDependency` |\n\
| `CreateIndex` | `Write` | `ColumnDependency` | `ColumnDependency` |\n\
| `CreateIndex` | `Write` | `WriteContract` | `WriteRevision` |\n\
| `CreateIndex` | `Invariant` | `ExistingRows` | `Row` |\n\
| `CreateIndex` | `Invariant` | `ConstraintState` | `ActiveConstraint` |\n\
| `CreateIndex` | `Write` | `ConstraintState` | `ActiveConstraint` |\n\
| `DropIndex` | `Invariant` | `SchemaObjectName` | `SchemaObjectName` |\n\
| `DropIndex` | `Invariant` | `SchemaRevision` | `ActiveSchemaRevision` |\n\
| `DropIndex` | `Write` | `SchemaRevision` | `ActiveSchemaRevision` |\n\
| `DropIndex` | `Invariant` | `ColumnDependency` | `ColumnDependency` |\n\
| `DropIndex` | `Write` | `ColumnDependency` | `ColumnDependency` |\n\
| `DropIndex` | `Invariant` | `WriteContract` | `WriteRevision` |\n\
| `DropIndex` | `Invariant` | `ConstraintState` | `ActiveConstraint` |\n\
| `DropIndex` | `Write` | `ConstraintState` | `ActiveConstraint` |\n\
| `DropIndex` | `Invariant` | `ConstraintReference` | `ConstraintReference` |\n\
| `DropIndex` | `Write` | `ConstraintReference` | `ConstraintReference` |\n\
| `RenameTable` | `Invariant` | `SchemaObjectName` | `SchemaObjectName` |\n\
| `RenameColumn` | `Invariant` | `ColumnNameBinding` | `ColumnName` |\n\
| `AddColumn` | `Invariant` | `ColumnNameBinding` | `ColumnName` |\n\
| `AddColumn` | `Write` | `ColumnNameBinding` | `ColumnName` |\n\
| `AddColumn` | `Invariant` | `ConstraintNameBinding` | `ConstraintName` |\n\
| `AddColumn` | `Invariant` | `SchemaObjectName` | `SchemaObjectName` |\n\
| `AddColumn` | `Invariant` | `SchemaRevision` | `ActiveSchemaRevision` |\n\
| `AddColumn` | `Invariant` | `ConstraintState` | `ActiveConstraint` |\n\
| `AddColumn` | `Invariant` | `ConstraintReference` | `ConstraintReference` |\n\
| `AddColumn` | `Write` | `ConstraintReference` | `ConstraintReference` |\n\
| `AddColumn` | `Invariant` | `ExistingRows` | `TableRows` |\n\
| `AddColumn` | `Invariant` | `ColumnDependency` | `ColumnDependency` |\n\
| `AddColumn` | `Write` | `ColumnDependency` | `ColumnDependency` |\n\
| `AddColumn` | `Write` | `WriteContract` | `WriteRevision` |\n\
| `AddColumn` | `Invariant` | `ExistingRows` | `Row` |\n\
| `DropColumn` | `Invariant` | `ColumnNameBinding` | `ColumnName` |\n\
| `DropColumn` | `Invariant` | `ConstraintNameBinding` | `ConstraintName` |\n\
| `DropColumn` | `Write` | `ConstraintNameBinding` | `ConstraintName` |\n\
| `DropColumn` | `Invariant` | `ColumnDependency` | `ColumnDependency` |\n\
| `DropColumn` | `Write` | `ColumnDependency` | `ColumnDependency` |\n\
| `DropConstraint` | `Invariant` | `ConstraintNameBinding` | `ConstraintName` |\n\
| `DropConstraint` | `Write` | `ConstraintNameBinding` | `ConstraintName` |\n\
| `DropConstraint` | `Invariant` | `ConstraintState` | `ActiveConstraint` |\n\
| `DropConstraint` | `Write` | `ConstraintState` | `ActiveConstraint` |\n\
| `DropConstraint` | `Invariant` | `ConstraintReference` | `ConstraintReference` |\n\
| `DropConstraint` | `Write` | `ConstraintReference` | `ConstraintReference` |\n\
| `TransactionRead` | `SerializableRead` | `SerializableRead` | `TableRoot` |\n\
| `TransactionRead` | `SerializableRead` | `SerializableRead` | `SchemaObjectName` |\n\
| `SetUserVersion` | `Write` | `UserVersion` | `UserVersion` |\n\
| `CreateView` | `Invariant` | `SchemaObjectName` | `SchemaObjectName` |\n\
| `CreateView` | `Invariant` | `ViewDependency` | `SchemaObjectName` |\n\
| `CreateView` | `Invariant` | `ViewDependency` | `ColumnName` |\n\
| `CreateView` | `Invariant` | `ViewDependency` | `ViewDependency` |\n\
| `CreateView` | `Invariant` | `ColumnDependency` | `ColumnDependency` |\n\
| `CreateView` | `Write` | `ColumnDependency` | `ColumnDependency` |\n\
| `DropView` | `Invariant` | `SchemaObjectName` | `SchemaObjectName` |\n\
| `DropView` | `Invariant` | `ViewDependency` | `SchemaObjectName` |\n\
| `DropView` | `Invariant` | `ViewDependency` | `ColumnName` |\n\
| `DropView` | `Invariant` | `ViewDependency` | `ViewDependency` |\n\
| `DropView` | `Invariant` | `ColumnDependency` | `ColumnDependency` |\n\
| `DropView` | `Write` | `ColumnDependency` | `ColumnDependency` |\n\
| `DropColumn` | `Invariant` | `ViewDependency` | `ViewDependency` |\n\
| `TransactionRead` | `SerializableRead` | `SerializableRead` | `UserVersion` |\n\
\n\
## Rejection Repair\n\
\n\
| Operation | Local inverse |\n\
| --- | --- |\n\
| `CreateTable` | `RemoveCreatedTable` |\n\
| `DropTable` | `RestoreDroppedTable` |\n\
| `RowChanges` | `RestoreRowChanges` |\n\
| `CreateIndex` | `RevertIndex` |\n\
| `DropIndex` | `RevertIndex` |\n\
| `RenameTable` | `RevertAlterTable` |\n\
| `RenameColumn` | `RevertAlterTable` |\n\
| `AddColumn` | `RevertAlterTable` |\n\
| `DropColumn` | `RevertAlterTable` |\n\
| `DropConstraint` | `RevertAlterTable` |\n\
| `SetUserVersion` | `RestoreUserVersion` |\n\
| `CreateView` | `RevertView` |\n\
| `DropView` | `RevertView` |\n\
\n\
## Required Guards\n\
\n\
| Operation | Class | Reason | Target family |\n\
| --- | --- | --- | --- |\n\
| `CreateTable` | `Invariant` | `SchemaObjectName` | `SchemaObjectName` |\n\
| `CreateTable` | `Write` | `WriteContract` | `WriteRevision` |\n\
| `DropTable` | `Invariant` | `TableExistence` | `TableRoot` |\n\
| `DropTable` | `Write` | `TableExistence` | `TableRoot` |\n\
| `DropTable` | `Invariant` | `SchemaObjectName` | `SchemaObjectName` |\n\
| `RowChanges` | `Invariant` | `PrimaryIndex` | `ActivePrimaryIndex` |\n\
| `RowChanges` | `Invariant` | `WriteContract` | `WriteRevision` |\n\
| `CreateIndex` | `Invariant` | `SchemaObjectName` | `SchemaObjectName` |\n\
| `CreateIndex` | `Invariant` | `SchemaRevision` | `ActiveSchemaRevision` |\n\
| `CreateIndex` | `Write` | `SchemaRevision` | `ActiveSchemaRevision` |\n\
| `DropIndex` | `Invariant` | `SchemaObjectName` | `SchemaObjectName` |\n\
| `DropIndex` | `Invariant` | `SchemaRevision` | `ActiveSchemaRevision` |\n\
| `DropIndex` | `Write` | `SchemaRevision` | `ActiveSchemaRevision` |\n\
| `RenameTable` | `Invariant` | `SchemaObjectName` | `SchemaObjectName` |\n\
| `RenameColumn` | `Invariant` | `ColumnNameBinding` | `ColumnName` |\n\
| `AddColumn` | `Invariant` | `ColumnNameBinding` | `ColumnName` |\n\
| `DropColumn` | `Invariant` | `ColumnNameBinding` | `ColumnName` |\n\
| `DropColumn` | `Invariant` | `ViewDependency` | `ViewDependency` |\n\
| `DropConstraint` | `Invariant` | `ConstraintNameBinding` | `ConstraintName` |\n\
| `SetUserVersion` | `Write` | `UserVersion` | `UserVersion` |\n\
| `CreateView` | `Invariant` | `SchemaObjectName` | `SchemaObjectName` |\n\
| `DropView` | `Invariant` | `SchemaObjectName` | `SchemaObjectName` |\n\
";

fn id<T>(byte: u8, constructor: impl FnOnce([u8; 16]) -> T) -> T {
    constructor([byte; 16])
}

fn row(table: TableId, index: IndexId) -> Key {
    LogicalTarget::Row { table, index, images: vec![b"row".to_vec()] }.render().unwrap()
}

#[test]
fn every_target_reports_its_stable_family_and_renders() {
    let table = id(1, TableId::from_bytes);
    let index = id(2, IndexId::from_bytes);
    let relationship = id(3, ForeignKeyId::from_bytes);
    let targets = [
        LogicalTarget::Row { table, index, images: vec![b"row".to_vec()] },
        LogicalTarget::UniqueOwner { table, index, images: vec![b"unique".to_vec()] },
        LogicalTarget::ForeignReference {
            parent: table,
            relationship,
            parent_index: index,
            parent_images: vec![b"parent".to_vec()],
            child_index: index,
            child_images: vec![b"child".to_vec()],
        },
    ];

    assert_eq!(targets[0].family(), TargetFamily::Row);
    assert_eq!(targets[1].family(), TargetFamily::UniqueOwner);
    assert_eq!(targets[2].family(), TargetFamily::ForeignReference);
    for target in targets {
        let key = target.render().unwrap();
        assert_eq!(TargetFamily::classify(&key), Some(target.family()));
    }
}

#[test]
fn names_preserve_readable_short_components_and_hash_long_ones() {
    let short = name_component("A".repeat(250).as_bytes());
    assert!(short.starts_with(b"name-"));
    assert_eq!(short.len(), 255);

    let long = name_component("A".repeat(251).as_bytes());
    assert!(long.starts_with(b"hash-"));
    assert_eq!(long.len(), 37);
    assert_ne!(long, name_component("A".repeat(252).as_bytes()));
    // SHA-256 of "multilite:table-name:v1", a zero byte and 251 times "A".
    assert_eq!(&long[5..], &sha256_of_long_name()[..]);
}

fn sha256_of_long_name() -> [u8; 32] {
    let mut hash = Sha256::new();
    hash.update(b"multilite:table-name:v1\0");
    hash.update("A".repeat(251).as_bytes());
    hash.finalize().into()
}

#[test]
fn reasoned_plan_preserves_raw_evidence_and_derives_pruned_footprint() {
    let table = id(1, TableId::from_bytes);
    let index = id(2, IndexId::from_bytes);
    let relationship = id(3, ForeignKeyId::from_bytes);
    let reference_prefix = LogicalTarget::ForeignReferencePrefix {
        parent: table,
        relationship,
        parent_index: index,
        parent_images: vec![b"parent".to_vec()],
    }
    .render()
    .unwrap();
    let reference = LogicalTarget::ForeignReference {
        parent: table,
        relationship,
        parent_index: index,
        parent_images: vec![b"parent".to_vec()],
        child_index: index,
        child_images: vec![b"child".to_vec()],
    }
    .render()
    .unwrap();
    let mut plan = GuardPlan::for_operation(OperationFamily::RowChanges);
    plan.write(row(table, index), GuardReason::RowIdentity).unwrap();
    plan.add_invariant(reference, GuardReason::ForeignChildren).unwrap();
    plan.add_invariant(reference_prefix.clone(), GuardReason::ForeignChildren).unwrap();
    let read = LogicalTarget::TableRoot { table: id(4, TableId::from_bytes) }.render().unwrap();
    let mut reads = GuardPlan::for_operation(OperationFamily::TransactionRead);
    reads.serializable_read(read.clone(), GuardReason::SerializableRead).unwrap();
    let mut merged = GuardPlan::merged();
    merged.extend(plan);
    merged.extend(reads);

    assert_eq!(merged.entries().len(), 4);
    assert_eq!(merged.entries()[0].operation(), OperationFamily::RowChanges);
    assert_eq!(merged.entries()[0].family(), TargetFamily::Row);
    assert_eq!(merged.entries()[1].class(), GuardClass::Invariant);
    assert_eq!(merged.entries()[2].reason(), GuardReason::ForeignChildren);
    assert_eq!(merged.entries()[3].target(), &read);
    let footprint = merged.footprint();
    assert_eq!(footprint.constraints().keys(), &[reference_prefix]);
    assert_eq!(footprint.writes().len(), 1);
    assert_eq!(footprint.reads().keys(), &[read]);
}

#[test]
fn reason_vocabulary_is_finite_and_reviewable() {
    let reasons = [
        GuardReason::SchemaObjectName,
        GuardReason::ColumnNameBinding,
        GuardReason::SchemaRevision,
        GuardReason::WriteContract,
        GuardReason::PrimaryIndex,
        GuardReason::RowIdentity,
        GuardReason::UniqueOwnership,
        GuardReason::ForeignReference,
        GuardReason::ForeignChildren,
        GuardReason::ColumnDependency,
        GuardReason::ExistingRows,
        GuardReason::TableExistence,
        GuardReason::SerializableRead,
        GuardReason::UserVersion,
        GuardReason::ViewDependency,
    ];
    assert_eq!(reasons.len(), 15);
}

#[test]
fn plans_reject_targets_outside_the_registry() {
    let mut plan = GuardPlan::for_operation(OperationFamily::RowChanges);
    let unknown = Key::from_bytes(vec![b"other".to_vec(), b"key".to_vec()]).unwrap();
    assert!(matches!(
        plan.write(unknown, GuardReason::RowIdentity),
        Err(Error::CaptureInvariant("guard target is outside the logical target registry"))
    ));

    let registered =
        LogicalTarget::TableRoot { table: id(1, TableId::from_bytes) }.render().unwrap();
    assert!(matches!(
        plan.write(registered, GuardReason::RowIdentity),
        Err(Error::CaptureInvariant("guard is absent from the operation contract"))
    ));
    assert!(plan.entries().is_empty());
}

fn audit_markdown() -> String {
    let mut audit = String::from(
        "## Mutations\n\n| Operation | Mutation | Target family |\n| --- | --- | --- |\n",
    );
    for contract in mutation_contracts() {
        audit.push_str(&format!(
            "| `{:?}` | `{:?}` | `{:?}` |\n",
            contract.operation, contract.kind, contract.target
        ));
    }
    let guard_head =
        "| Operation | Class | Reason | Target family |\n| --- | --- | --- | --- |\n";
    audit.push_str("\n## Guards\n\n");
    audit.push_str(guard_head);
    for contract in guard_contracts() {
        audit.push_str(&format!(
            "| `{:?}` | `{:?}` | `{:?}` | `{:?}` |\n",
            contract.operation, contract.class, contract.reason, contract.target
        ));
    }
    audit.push_str("\n## Rejection Repair\n\n| Operation | Local inverse |\n| --- | --- |\n");
    for contract in rejection_contracts() {
        audit.push_str(&format!("| `{:?}` | `{:?}` |\n", contract.operation, contract.rejection));
    }
    audit.push_str("\n## Required Guards\n\n");
    audit.push_str(guard_head);
    for contract in required_guard_contracts() {
        audit.push_str(&format!(
            "| `{:?}` | `{:?}` | `{:?}` | `{:?}` |\n",
            contract.operation, contract.class, contract.reason, contract.target
        ));
    }
    audit
}

#[test]
fn checked_guard_audit_matches_the_compiler_contracts() {
    assert_eq!(AUDIT, audit_markdown());
}

#[test]
fn mutation_and_rejection_contracts_are_enforced() {
    let table = id(1, TableId::from_bytes);
    let index = id(2, IndexId::from_bytes);
    validate_mutations(
        OperationFamily::RowChanges,
        &[Mutation::Put { key: row(table, index), value: Vec::new() }],
    )
    .unwrap();
    assert!(matches!(
        validate_mutations(
            OperationFamily::CreateTable,
            &[Mutation::Delete { key: row(table, index) }]
        ),
        Err(Error::CaptureInvariant("mutation is absent from the operation contract"))
    ));
    assert!(matches!(
        validate_mutations(
            OperationFamily::RowChanges,
            &[Mutation::DeleteRange { range: Range::Full }]
        ),
        Err(Error::CaptureInvariant(
            "Multilite operations cannot delete the full Homebase keyspace"
        ))
    ));
    validate_rejection(OperationFamily::RowChanges, RejectionKind::RestoreRowChanges).unwrap();
    assert!(
        validate_rejection(OperationFamily::RowChanges, RejectionKind::RemoveCreatedTable).is_err()
    );
}

#[test]
fn compiled_output_rejects_missing_global_and_exact_mutation_guards() {
    let table = id(1, TableId::from_bytes);
    let index = id(2, IndexId::from_bytes);
    let mutations = [Mutation::Put { key: row(table, index), value: Vec::new() }];
    let mut guards = GuardPlan::for_operation(OperationFamily::RowChanges);

    assert!(matches!(
        validate_compiled_output(OperationFamily::RowChanges, &mutations, &guards),
        Err(Error::CaptureInvariant("compiler omitted a required operation guard"))
    ));

    guards
        .add_invariant(
            LogicalTarget::ActivePrimaryIndex { table }.render().unwrap(),
            GuardReason::PrimaryIndex,
        )
        .unwrap();
    guards
        .add_invariant(
            LogicalTarget::WriteRevision { table }.render().unwrap(),
            GuardReason::WriteContract,
        )
        .unwrap();
    guards.write(row(table, index), GuardReason::RowIdentity).unwrap();
    assert!(matches!(
        validate_compiled_output(OperationFamily::RowChanges, &mutations, &guards),
        Err(Error::CaptureInvariant("compiler omitted a guard required by a mutation"))
    ));

    guards.add_invariant(row(table, index), GuardReason::RowIdentity).unwrap();
    validate_compiled_output(OperationFamily::RowChanges, &mutations, &guards).unwrap();
}

#[test]
fn central_contract_tables_are_duplicate_free_and_cover_every_operation() {
    let mutation_table = mutation_contracts();
    let mutations = mutation_table
        .iter()
        .map(|contract| (contract.operation, contract.kind, contract.target))
        .collect::<BTreeSet<_>>();
    assert_eq!(mutations.len(), mutation_table.len());
    let guard_table = guard_contracts();
    let guards = guard_table
        .iter()
        .map(|contract| (contract.operation, contract.class, contract.reason, contract.target))
        .collect::<BTreeSet<_>>();
    assert_eq!(guards.len(), guard_table.len());
    assert!(required_guard_contracts()
        .iter()
        .all(|required| guard_table.iter().any(|allowed| allowed == required)));
    let rejection_table = rejection_contracts();
    let rejections = rejection_table
        .iter()
        .map(|contract| (contract.operation, contract.rejection))
        .collect::<BTreeSet<_>>();
    assert_eq!(rejections.len(), rejection_table.len());

    let logical_operations = BTreeSet::from([
        OperationFamily::CreateTable,
        OperationFamily::DropTable,
        OperationFamily::RowChanges,
        OperationFamily::CreateIndex,
        OperationFamily::DropIndex,
        OperationFamily::RenameTable,
        OperationFamily::RenameColumn,
        OperationFamily::AddColumn,
        OperationFamily::DropColumn,
        OperationFamily::DropConstraint,
        OperationFamily::SetUserVersion,
        OperationFamily::CreateView,
        OperationFamily::DropView,
    ]);
    assert_eq!(
        rejection_table.iter().map(|contract| contract.operation).collect::<BTreeSet<_>>(),
        logical_operations
    );
    assert!(logical_operations
        .iter()
        .all(|operation| mutation_table.iter().any(|contract| contract.operation == *operation)));
    assert!(logical_operations
        .iter()
        .all(|operation| guard_table.iter().any(|contract| contract.operation == *operation)));
}

#[test]
fn keys_of_the_layout_lie_below_their_table() {
    let table = id(1, TableId::from_bytes);
    let column = id(2, ColumnId::from_bytes);
    let view = SqlName::new("Recent".to_string());
    let root = table_prefix(table);
    assert!(view_dependency_prefix(table).starts_with(&root));
    assert!(view_dependency_key(table, &view).starts_with(&view_dependency_prefix(table)));
    assert!(column_view_dependency_key(table, column, &view).starts_with(&root));
    assert!(!schema_object_name_scope_key(&view).starts_with(&root));
    assert_eq!(
        schema_object_name_scope_key(&view),
        schema_object_name_scope_key(&SqlName::new("rECENT".to_string()))
    );
}

#[test]
fn isolation_decides_whether_reads_are_asserted() {
    assert_eq!(
        UpdateOptions::new(IsolationLevel::Serializable).isolation_level(),
        IsolationLevel::Serializable
    );

    let mut guards = GuardPlan::for_operation(OperationFamily::TransactionRead);
    let read = table_prefix(id(4, TableId::from_bytes));
    guards.serializable_read(read.clone(), GuardReason::SerializableRead).unwrap();
    let footprint = guards.footprint();
    let upto = AdmissionSeq(17);
    assert!(footprint.plan(IsolationLevel::Snapshot, upto).is_empty());
    let asserts = footprint.plan(IsolationLevel::Serializable, upto);
    assert_eq!(asserts.len(), 1);
    assert_eq!(asserts[0].range, Range::Prefix(read));
    assert_eq!(asserts[0].upto, upto);
}

#[test]
fn keys_are_bounded_and_ordered_by_their_components() {
    assert!(Key::from_bytes(vec![vec![0; 255]]).is_ok());
    assert!(Key::from_bytes(vec![vec![0; 256]]).is_err());
    let short = Key::from_bytes(vec![b"a".to_vec()]).unwrap();
    let long = Key::from_bytes(vec![b"a".to_vec(), b"b".to_vec()]).unwrap();
    let other = Key::from_bytes(vec![b"ab".to_vec()]).unwrap();
    assert!(short.less(&long) && long.less(&other) && !other.less(&short));
    assert!(long.starts_with(&short) && !other.starts_with(&short));
}
