//! The keys of the durable layout, by name.
//!
//! For each kind of target there is the path of its key as a mathematical
//! function of its parts, and a function that renders it.

use crate::bytes::copy_bytes;
use crate::identity::{ColumnId, ForeignKeyId, IndexId, MutationId, SchemaRevisionId, TableId};
use crate::key::{Key, Path};
use crate::logical::codes;
use crate::logical::codes::{label, lemma_labels};
use crate::logical::target::{bounded_key, classified, name_part, LogicalTarget, TargetFamily};
use crate::name::{canonical_bytes, SqlName};
use vstd::prelude::*;

verus! {

/// The path of a schema-log entry.
pub open spec fn schema_log_path(mutation: Seq<u8>) -> Path {
    seq![
        label(codes::ROOT),
        label(codes::SCHEMA),
        label(codes::LOG),
        mutation,
    ]
}

/// The path of a schema object's name.
pub open spec fn object_name_path(name: Seq<char>) -> Path {
    seq![
        label(codes::ROOT),
        label(codes::SCHEMA),
        label(codes::NAMES),
        label(codes::MAIN),
        name_part(canonical_bytes(name)),
    ]
}

/// The path above everything that belongs to a table.
pub open spec fn table_root_path(table: Seq<u8>) -> Path {
    seq![
        label(codes::ROOT),
        label(codes::TABLES),
        table,
    ]
}

/// The path of one schema revision.
pub open spec fn table_schema_path(table: Seq<u8>, revision: Seq<u8>) -> Path {
    seq![
        label(codes::ROOT),
        label(codes::TABLES),
        table,
        label(codes::SCHEMA),
        revision,
    ]
}

/// The path of a column's name.
pub open spec fn column_name_path(table: Seq<u8>, name: Seq<char>) -> Path {
    seq![
        label(codes::ROOT),
        label(codes::TABLES),
        table,
        label(codes::NAMES),
        label(codes::COLUMNS),
        name_part(canonical_bytes(name)),
    ]
}

/// The path of a relationship's marker on the constraint it references.
pub open spec fn constraint_reference_path(table: Seq<u8>, identity: Seq<u8>, relationship: Seq<u8>) -> Path {
    seq![
        label(codes::ROOT),
        label(codes::TABLES),
        table,
        label(codes::CONSTRAINT_REFERENCES),
        identity,
        relationship,
    ]
}

/// The path of an active constraint.
pub open spec fn active_constraint_path(table: Seq<u8>, identity: Seq<u8>) -> Path {
    seq![
        label(codes::ROOT),
        label(codes::TABLES),
        table,
        label(codes::ACTIVE_CONSTRAINTS),
        identity,
    ]
}

/// The path above everything that depends on a column.
pub open spec fn column_dependency_path(table: Seq<u8>, column: Seq<u8>) -> Path {
    seq![
        label(codes::ROOT),
        label(codes::TABLES),
        table,
        label(codes::COLUMN_DEPENDENCIES),
        column,
    ]
}

/// The path of a CHECK constraint's marker on a column it reads.
pub open spec fn column_check_path(table: Seq<u8>, column: Seq<u8>, owner: Seq<u8>) -> Path {
    seq![
        label(codes::ROOT),
        label(codes::TABLES),
        table,
        label(codes::COLUMN_DEPENDENCIES),
        column,
        label(codes::COLUMNS),
        owner,
    ]
}

/// The path of an index's marker on a column it covers.
pub open spec fn column_index_path(table: Seq<u8>, column: Seq<u8>, index: Seq<u8>) -> Path {
    seq![
        label(codes::ROOT),
        label(codes::TABLES),
        table,
        label(codes::COLUMN_DEPENDENCIES),
        column,
        label(codes::INDEXES),
        index,
    ]
}

/// The path of a view's marker on a column it reads.
pub open spec fn column_view_path(table: Seq<u8>, column: Seq<u8>, view: Seq<char>) -> Path {
    seq![
        label(codes::ROOT),
        label(codes::TABLES),
        table,
        label(codes::COLUMN_DEPENDENCIES),
        column,
        label(codes::VIEW_DEPENDENCIES),
        name_part(canonical_bytes(view)),
    ]
}

/// The path above a table's view markers.
pub open spec fn view_prefix_path(table: Seq<u8>) -> Path {
    seq![
        label(codes::ROOT),
        label(codes::TABLES),
        table,
        label(codes::VIEW_DEPENDENCIES),
    ]
}

/// The path of a view's marker on a table it reads.
pub open spec fn view_path(table: Seq<u8>, view: Seq<char>) -> Path {
    seq![
        label(codes::ROOT),
        label(codes::TABLES),
        table,
        label(codes::VIEW_DEPENDENCIES),
        name_part(canonical_bytes(view)),
    ]
}

/// The path of a table's active primary index.
pub open spec fn active_primary_index_path(table: Seq<u8>) -> Path {
    seq![
        label(codes::ROOT),
        label(codes::TABLES),
        table,
        label(codes::ACTIVE_PRIMARY_INDEX),
    ]
}

/// The path of a table's active schema revision.
pub open spec fn active_schema_revision_path(table: Seq<u8>) -> Path {
    seq![
        label(codes::ROOT),
        label(codes::TABLES),
        table,
        label(codes::ACTIVE_SCHEMA_REVISION),
    ]
}

/// The path of an index definition.
pub open spec fn index_definition_path(table: Seq<u8>, index: Seq<u8>) -> Path {
    seq![
        label(codes::ROOT),
        label(codes::TABLES),
        table,
        label(codes::INDEX_DEFINITIONS),
        index,
    ]
}

/// The path of a table's write revision.
pub open spec fn write_revision_path(table: Seq<u8>) -> Path {
    seq![
        label(codes::ROOT),
        label(codes::TABLES),
        table,
        label(codes::WRITE_REVISION),
    ]
}

/// The path of a transaction's manifest.
pub open spec fn transaction_path(transaction: Seq<u8>) -> Path {
    seq![
        label(codes::ROOT),
        label(codes::TRANSACTIONS),
        label(codes::LOG),
        transaction,
    ]
}

/// The path of the replicated user version.
pub open spec fn user_version_path() -> Path {
    seq![label(codes::ROOT), label(codes::METADATA), label(codes::USER_VERSION)]
}

/// The path of a row, or of a prefix of its key images.
pub open spec fn row_path(table: Seq<u8>, index: Seq<u8>, images: Path) -> Path {
    seq![label(codes::ROOT), label(codes::TABLES), table, label(codes::ROWS), index] + images
}

/// The path of a UNIQUE owner.
pub open spec fn unique_path(table: Seq<u8>, index: Seq<u8>, images: Path) -> Path {
    seq![label(codes::ROOT), label(codes::TABLES), table, label(codes::UNIQUE), index] + images
}

/// The path above every reference to one parent key.
pub open spec fn reference_prefix_path(
    parent: Seq<u8>,
    relationship: Seq<u8>,
    parent_index: Seq<u8>,
    parent_images: Path,
) -> Path {
    seq![
        label(codes::ROOT),
        label(codes::TABLES),
        parent,
        label(codes::FOREIGN_REFERENCES),
        relationship,
        parent_index,
    ] + parent_images
}

/// The path of one child's reference to a parent key.
pub open spec fn reference_path(
    parent: Seq<u8>,
    relationship: Seq<u8>,
    parent_index: Seq<u8>,
    parent_images: Path,
    child_index: Seq<u8>,
    child_images: Path,
) -> Path {
    reference_prefix_path(parent, relationship, parent_index, parent_images) + seq![child_index]
        + child_images
}

/// The key of a schema-log entry.
pub fn schema_log_key(mutation: MutationId) -> (r: Key)
    ensures
        r@ == schema_log_path(mutation@),
        classified(r@) == Some(TargetFamily::SchemaLog),
{
    bounded_key(LogicalTarget::SchemaLog { mutation })
}

/// The key of a schema object's name.
pub fn schema_object_name_scope_key(name: &SqlName) -> (r: Key)
    ensures
        r@ == object_name_path(name@),
        classified(r@) == Some(TargetFamily::SchemaObjectName),
{
    bounded_key(LogicalTarget::SchemaObjectName { canonical: copy_bytes(name.canonical()) })
}

/// The key above everything that belongs to a table.
pub fn table_prefix(table: TableId) -> (r: Key)
    ensures
        r@ == table_root_path(table@),
        classified(r@) == Some(TargetFamily::TableRoot),
{
    bounded_key(LogicalTarget::TableRoot { table })
}

/// The key of one schema revision.
pub fn table_schema_key(table: TableId, revision: SchemaRevisionId) -> (r: Key)
    ensures
        r@ == table_schema_path(table@, revision@),
        classified(r@) == Some(TargetFamily::TableSchema),
{
    bounded_key(LogicalTarget::TableSchema { table, revision })
}

/// The key of a column's name.
pub fn column_name_scope_key(table: TableId, name: &SqlName) -> (r: Key)
    ensures
        r@ == column_name_path(table@, name@),
        classified(r@) == Some(TargetFamily::ColumnName),
{
    bounded_key(LogicalTarget::ColumnName { table, canonical: copy_bytes(name.canonical()) })
}

/// The key of a relationship's marker on the constraint it references.
pub fn constraint_reference_key(table: TableId, identity: [u8; 16], relationship: ForeignKeyId) -> (r: Key)
    ensures
        r@ == constraint_reference_path(table@, identity@, relationship@),
        classified(r@) == Some(TargetFamily::ConstraintReference),
{
    bounded_key(LogicalTarget::ConstraintReference { table, identity, relationship })
}

/// The key of an active constraint.
pub fn active_constraint_key(table: TableId, identity: [u8; 16]) -> (r: Key)
    ensures
        r@ == active_constraint_path(table@, identity@),
        classified(r@) == Some(TargetFamily::ActiveConstraint),
{
    bounded_key(LogicalTarget::ActiveConstraint { table, identity })
}

/// The key above everything that depends on a column.
pub fn column_dependency_prefix(table: TableId, column: ColumnId) -> (r: Key)
    ensures
        r@ == column_dependency_path(table@, column@),
        classified(r@) == Some(TargetFamily::ColumnDependency),
{
    bounded_key(LogicalTarget::ColumnDependencyPrefix { table, column })
}

/// The key of a CHECK constraint's marker on a column it reads.
pub fn column_check_dependency_key(table: TableId, column: ColumnId, owner: ColumnId) -> (r: Key)
    ensures
        r@ == column_check_path(table@, column@, owner@),
        classified(r@) == Some(TargetFamily::ColumnDependency),
{
    bounded_key(LogicalTarget::ColumnCheckDependency { table, column, owner })
}

/// The key of an index's marker on a column it covers.
pub fn column_index_dependency_key(table: TableId, column: ColumnId, index: IndexId) -> (r: Key)
    ensures
        r@ == column_index_path(table@, column@, index@),
        classified(r@) == Some(TargetFamily::ColumnDependency),
{
    bounded_key(LogicalTarget::ColumnIndexDependency { table, column, index })
}

/// The key of a table's active primary index.
pub fn active_primary_index_key(table: TableId) -> (r: Key)
    ensures
        r@ == active_primary_index_path(table@),
        classified(r@) == Some(TargetFamily::ActivePrimaryIndex),
{
    bounded_key(LogicalTarget::ActivePrimaryIndex { table })
}

/// The key of a table's active schema revision.
pub fn active_schema_revision_key(table: TableId) -> (r: Key)
    ensures
        r@ == active_schema_revision_path(table@),
        classified(r@) == Some(TargetFamily::ActiveSchemaRevision),
{
    bounded_key(LogicalTarget::ActiveSchemaRevision { table })
}

/// The key of an index definition.
pub fn index_definition_key(table: TableId, index: IndexId) -> (r: Key)
    ensures
        r@ == index_definition_path(table@, index@),
        classified(r@) == Some(TargetFamily::IndexDefinition),
{
    bounded_key(LogicalTarget::IndexDefinition { table, index })
}

/// The key of a table's write revision.
pub fn write_revision_key(table: TableId) -> (r: Key)
    ensures
        r@ == write_revision_path(table@),
        classified(r@) == Some(TargetFamily::WriteRevision),
{
    bounded_key(LogicalTarget::WriteRevision { table })
}

/// The key of a transaction's manifest.
pub fn transaction_log_key(transaction: [u8; 16]) -> (r: Key)
    ensures
        r@ == transaction_path(transaction@),
        classified(r@) == Some(TargetFamily::TransactionLog),
{
    bounded_key(LogicalTarget::TransactionLog { transaction })
}

/// The key of the replicated user version.
pub fn user_version_key() -> (r: Key)
    ensures
        r@ == user_version_path(),
        classified(r@) == Some(TargetFamily::UserVersion),
{
    bounded_key(LogicalTarget::UserVersion)
}

/// The family of [`schema_log_path`].
pub broadcast proof fn lemma_schema_log_family(mutation: Seq<u8>)
    ensures
        classified(#[trigger] schema_log_path(mutation)) == Some(TargetFamily::SchemaLog),
{
    lemma_labels();
    let path = schema_log_path(mutation);
    assert(path[0] == label(codes::ROOT));
    assert(path[1] == label(codes::SCHEMA));
    assert(path[2] == label(codes::LOG));
    assert(path.len() == 4);
}

/// The family of [`object_name_path`].
pub broadcast proof fn lemma_object_name_family(name: Seq<char>)
    ensures
        classified(#[trigger] object_name_path(name)) == Some(TargetFamily::SchemaObjectName),
{
    lemma_labels();
    let path = object_name_path(name);
    assert(path[0] == label(codes::ROOT));
    assert(path[1] == label(codes::SCHEMA));
    assert(path[2] == label(codes::NAMES));
    assert(path[3] == label(codes::MAIN));
    assert(path.len() == 5);
}

/// The family of [`table_root_path`].
pub broadcast proof fn lemma_table_root_family(table: Seq<u8>)
    ensures
        classified(#[trigger] table_root_path(table)) == Some(TargetFamily::TableRoot),
{
    lemma_labels();
    let path = table_root_path(table);
    assert(path[0] == label(codes::ROOT));
    assert(path[1] == label(codes::TABLES));
    assert(path.len() == 3);
}

/// The family of [`table_schema_path`].
pub broadcast proof fn lemma_table_schema_family(table: Seq<u8>, revision: Seq<u8>)
    ensures
        classified(#[trigger] table_schema_path(table, revision)) == Some(TargetFamily::TableSchema),
{
    lemma_labels();
    let path = table_schema_path(table, revision);
    assert(path[0] == label(codes::ROOT));
    assert(path[1] == label(codes::TABLES));
    assert(path[3] == label(codes::SCHEMA));
    assert(path.len() == 5);
}

/// The family of [`column_name_path`].
pub broadcast proof fn lemma_column_name_family(table: Seq<u8>, name: Seq<char>)
    ensures
        classified(#[trigger] column_name_path(table, name)) == Some(TargetFamily::ColumnName),
{
    lemma_labels();
    let path = column_name_path(table, name);
    assert(path[0] == label(codes::ROOT));
    assert(path[1] == label(codes::TABLES));
    assert(path[3] == label(codes::NAMES));
    assert(path[4] == label(codes::COLUMNS));
    assert(path.len() == 6);
}

/// The family of [`constraint_reference_path`].
pub broadcast proof fn lemma_constraint_reference_family(table: Seq<u8>, identity: Seq<u8>, relationship: Seq<u8>)
    ensures
        classified(#[trigger] constraint_reference_path(table, identity, relationship)) == Some(TargetFamily::ConstraintReference),
{
    lemma_labels();
    let path = constraint_reference_path(table, identity, relationship);
    assert(path[0] == label(codes::ROOT));
    assert(path[1] == label(codes::TABLES));
    assert(path[3] == label(codes::CONSTRAINT_REFERENCES));
    assert(path.len() == 6);
}

/// The family of [`active_constraint_path`].
pub broadcast proof fn lemma_active_constraint_family(table: Seq<u8>, identity: Seq<u8>)
    ensures
        classified(#[trigger] active_constraint_path(table, identity)) == Some(TargetFamily::ActiveConstraint),
{
    lemma_labels();
    let path = active_constraint_path(table, identity);
    assert(path[0] == label(codes::ROOT));
    assert(path[1] == label(codes::TABLES));
    assert(path[3] == label(codes::ACTIVE_CONSTRAINTS));
    assert(path.len() == 5);
}

/// The family of [`column_dependency_path`].
pub broadcast proof fn lemma_column_dependency_family(table: Seq<u8>, column: Seq<u8>)
    ensures
        classified(#[trigger] column_dependency_path(table, column)) == Some(TargetFamily::ColumnDependency),
{
    lemma_labels();
    let path = column_dependency_path(table, column);
    assert(path[0] == label(codes::ROOT));
    assert(path[1] == label(codes::TABLES));
    assert(path[3] == label(codes::COLUMN_DEPENDENCIES));
    assert(path.len() == 5);
}

/// The family of [`column_check_path`].
pub broadcast proof fn lemma_column_check_family(table: Seq<u8>, column: Seq<u8>, owner: Seq<u8>)
    ensures
        classified(#[trigger] column_check_path(table, column, owner)) == Some(TargetFamily::ColumnDependency),
{
    lemma_labels();
    let path = column_check_path(table, column, owner);
    assert(path[0] == label(codes::ROOT));
    assert(path[1] == label(codes::TABLES));
    assert(path[3] == label(codes::COLUMN_DEPENDENCIES));
    assert(path[5] == label(codes::COLUMNS));
    assert(path.len() == 7);
}

/// The family of [`column_index_path`].
pub broadcast proof fn lemma_column_index_family(table: Seq<u8>, column: Seq<u8>, index: Seq<u8>)
    ensures
        classified(#[trigger] column_index_path(table, column, index)) == Some(TargetFamily::ColumnDependency),
{
    lemma_labels();
    let path = column_index_path(table, column, index);
    assert(path[0] == label(codes::ROOT));
    assert(path[1] == label(codes::TABLES));
    assert(path[3] == label(codes::COLUMN_DEPENDENCIES));
    assert(path[5] == label(codes::INDEXES));
    assert(path.len() == 7);
}

/// The family of [`column_view_path`].
pub broadcast proof fn lemma_column_view_family(table: Seq<u8>, column: Seq<u8>, view: Seq<char>)
    ensures
        classified(#[trigger] column_view_path(table, column, view)) == Some(TargetFamily::ColumnDependency),
{
    lemma_labels();
    let path = column_view_path(table, column, view);
    assert(path[0] == label(codes::ROOT));
    assert(path[1] == label(codes::TABLES));
    assert(path[3] == label(codes::COLUMN_DEPENDENCIES));
    assert(path[5] == label(codes::VIEW_DEPENDENCIES));
    assert(path.len() == 7);
}

/// The family of [`view_prefix_path`].
pub broadcast proof fn lemma_view_prefix_family(table: Seq<u8>)
    ensures
        classified(#[trigger] view_prefix_path(table)) == Some(TargetFamily::ViewDependency),
{
    lemma_labels();
    let path = view_prefix_path(table);
    assert(path[0] == label(codes::ROOT));
    assert(path[1] == label(codes::TABLES));
    assert(path[3] == label(codes::VIEW_DEPENDENCIES));
    assert(path.len() == 4);
}

/// The family of [`view_path`].
pub broadcast proof fn lemma_view_family(table: Seq<u8>, view: Seq<char>)
    ensures
        classified(#[trigger] view_path(table, view)) == Some(TargetFamily::ViewDependency),
{
    lemma_labels();
    let path = view_path(table, view);
    assert(path[0] == label(codes::ROOT));
    assert(path[1] == label(codes::TABLES));
    assert(path[3] == label(codes::VIEW_DEPENDENCIES));
    assert(path.len() == 5);
}

/// The family of [`active_primary_index_path`].
pub broadcast proof fn lemma_active_primary_index_family(table: Seq<u8>)
    ensures
        classified(#[trigger] active_primary_index_path(table)) == Some(TargetFamily::ActivePrimaryIndex),
{
    lemma_labels();
    let path = active_primary_index_path(table);
    assert(path[0] == label(codes::ROOT));
    assert(path[1] == label(codes::TABLES));
    assert(path[3] == label(codes::ACTIVE_PRIMARY_INDEX));
    assert(path.len() == 4);
}

/// The family of [`active_schema_revision_path`].
pub broadcast proof fn lemma_active_schema_revision_family(table: Seq<u8>)
    ensures
        classified(#[trigger] active_schema_revision_path(table)) == Some(TargetFamily::ActiveSchemaRevision),
{
    lemma_labels();
    let path = active_schema_revision_path(table);
    assert(path[0] == label(codes::ROOT));
    assert(path[1] == label(codes::TABLES));
    assert(path[3] == label(codes::ACTIVE_SCHEMA_REVISION));
    assert(path.len() == 4);
}

/// The family of [`index_definition_path`].
pub broadcast proof fn lemma_index_definition_family(table: Seq<u8>, index: Seq<u8>)
    ensures
        classified(#[trigger] index_definition_path(table, index)) == Some(TargetFamily::IndexDefinition),
{
    lemma_labels();
    let path = index_definition_path(table, index);
    assert(path[0] == label(codes::ROOT));
    assert(path[1] == label(codes::TABLES));
    assert(path[3] == label(codes::INDEX_DEFINITIONS));
    assert(path.len() == 5);
}

/// The family of [`write_revision_path`].
pub broadcast proof fn lemma_write_revision_family(table: Seq<u8>)
    ensures
        classified(#[trigger] write_revision_path(table)) == Some(TargetFamily::WriteRevision),
{
    lemma_labels();
    let path = write_revision_path(table);
    assert(path[0] == label(codes::ROOT));
    assert(path[1] == label(codes::TABLES));
    assert(path[3] == label(codes::WRITE_REVISION));
    assert(path.len() == 4);
}

/// The family of [`transaction_path`].
pub broadcast proof fn lemma_transaction_family(transaction: Seq<u8>)
    ensures
        classified(#[trigger] transaction_path(transaction)) == Some(TargetFamily::TransactionLog),
{
    lemma_labels();
    let path = transaction_path(transaction);
    assert(path[0] == label(codes::ROOT));
    assert(path[1] == label(codes::TRANSACTIONS));
    assert(path[2] == label(codes::LOG));
    assert(path.len() == 4);
}

/// The family of [`row_path`].
pub broadcast proof fn lemma_row_family(table: Seq<u8>, index: Seq<u8>, images: Path)
    ensures
        classified(#[trigger] row_path(table, index, images)) == Some(TargetFamily::Row),
{
    lemma_labels();
    let path = row_path(table, index, images);
    assert(path[0] == label(codes::ROOT));
    assert(path[1] == label(codes::TABLES));
    assert(path[3] == label(codes::ROWS));
}

/// The family of [`unique_path`].
pub broadcast proof fn lemma_unique_family(table: Seq<u8>, index: Seq<u8>, images: Path)
    ensures
        classified(#[trigger] unique_path(table, index, images)) == Some(TargetFamily::UniqueOwner),
{
    lemma_labels();
    let path = unique_path(table, index, images);
    assert(path[0] == label(codes::ROOT));
    assert(path[1] == label(codes::TABLES));
    assert(path[3] == label(codes::UNIQUE));
}

/// The family of [`reference_prefix_path`].
pub broadcast proof fn lemma_reference_prefix_family(parent: Seq<u8>, relationship: Seq<u8>, parent_index: Seq<u8>, parent_images: Path)
    ensures
        classified(#[trigger] reference_prefix_path(parent, relationship, parent_index, parent_images)) == Some(TargetFamily::ForeignReference),
{
    lemma_labels();
    let path = reference_prefix_path(parent, relationship, parent_index, parent_images);
    assert(path[0] == label(codes::ROOT));
    assert(path[1] == label(codes::TABLES));
    assert(path[3] == label(codes::FOREIGN_REFERENCES));
}

/// The family of [`reference_path`].
pub broadcast proof fn lemma_reference_family(parent: Seq<u8>, relationship: Seq<u8>, parent_index: Seq<u8>, parent_images: Path, child_index: Seq<u8>, child_images: Path)
    ensures
        classified(#[trigger] reference_path(parent, relationship, parent_index, parent_images, child_index, child_images)) == Some(TargetFamily::ForeignReference),
{
    lemma_labels();
    let path = reference_path(parent, relationship, parent_index, parent_images, child_index, child_images);
    assert(path[0] == label(codes::ROOT));
    assert(path[1] == label(codes::TABLES));
    assert(path[3] == label(codes::FOREIGN_REFERENCES));
}

/// The family of the user version's path.
pub proof fn lemma_user_version_family()
    ensures
        classified(user_version_path()) == Some(TargetFamily::UserVersion),
{
    lemma_labels();
}

/// Every layout path lies in its family.
pub broadcast group layout_families {
    lemma_schema_log_family,
    lemma_object_name_family,
    lemma_table_root_family,
    lemma_table_schema_family,
    lemma_column_name_family,
    lemma_constraint_reference_family,
    lemma_active_constraint_family,
    lemma_column_dependency_family,
    lemma_column_check_family,
    lemma_column_index_family,
    lemma_column_view_family,
    lemma_view_prefix_family,
    lemma_view_family,
    lemma_active_primary_index_family,
    lemma_active_schema_revision_family,
    lemma_index_definition_family,
    lemma_write_revision_family,
    lemma_transaction_family,
    lemma_row_family,
    lemma_unique_family,
    lemma_reference_prefix_family,
    lemma_reference_family,
}

} // verus!
