//! Typed addresses in the durable key layout.
//!
//! A logical target names one point or prefix of the layout. Rendering it gives
//! its key, and classifying the key gives back the target's family.

use crate::bytes::{append_bytes, copy_bytes};
use crate::digest::{sha256, sha256_digest};
use crate::identity::{ColumnId, ForeignKeyId, IndexId, MutationId, SchemaRevisionId, TableId};
use crate::key::{parts_view, valid_path, Component, Key, KeyError, Path};
use crate::logical::codes;
use crate::logical::codes::{is_label, label, label_bytes, lemma_ascii_label, lemma_labels};
use vstd::prelude::*;

verus! {

/// The longest canonical name that a key shows as it is.
pub const SHORT_NAME_LIMIT: usize = 250;

/// Marks a component that holds a short name.
pub const NAME_MARK: &'static str = "name-";

/// Marks a component that holds the digest of a long name.
pub const HASH_MARK: &'static str = "hash-";

/// Separates name digests from every other digest.
pub const OBJECT_NAME_HASH_DOMAIN: &'static str = "multilite:table-name:v1\0";

/// Finite durable namespaces understood by the operation compiler.
#[derive(Clone, Copy, Debug, PartialEq, Eq, PartialOrd, Ord, Structural)]
pub enum TargetFamily {
    SchemaLog,
    SchemaObjectName,
    TableSchema,
    ColumnName,
    ConstraintName,
    ActiveConstraint,
    ConstraintReference,
    ColumnDependency,
    TableRoot,
    ActivePrimaryIndex,
    ActiveSchemaRevision,
    IndexDefinition,
    WriteRevision,
    TableRows,
    Row,
    UniqueOwner,
    ForeignReference,
    TransactionLog,
    UserVersion,
    ViewDependency,
}

/// The family of the target that a key stands for.
pub open spec fn classified(path: Path) -> Option<TargetFamily> {
    let n = path.len();
    if n < 2 || path[0] != label(codes::ROOT) {
        None
    } else if path[1] == label(codes::SCHEMA) {
        if n == 4 && path[2] == label(codes::LOG) {
            Some(TargetFamily::SchemaLog)
        } else if n == 5 && path[2] == label(codes::NAMES) && path[3] == label(codes::MAIN) {
            Some(TargetFamily::SchemaObjectName)
        } else {
            None
        }
    } else if path[1] == label(codes::TABLES) {
        if n == 3 {
            Some(TargetFamily::TableRoot)
        } else if n < 4 {
            None
        } else {
            classified_in_table(path)
        }
    } else if path[1] == label(codes::TRANSACTIONS) && n == 4 && path[2] == label(codes::LOG) {
        Some(TargetFamily::TransactionLog)
    } else if path[1] == label(codes::METADATA) && n == 3 && path[2] == label(codes::USER_VERSION) {
        Some(TargetFamily::UserVersion)
    } else {
        None
    }
}

/// The family of a target inside one table's namespace.
pub open spec fn classified_in_table(path: Path) -> Option<TargetFamily> {
    let n = path.len();
    let part = path[3];
    if part == label(codes::SCHEMA) && n == 5 {
        Some(TargetFamily::TableSchema)
    } else if part == label(codes::NAMES) && n == 6 && path[4] == label(codes::COLUMNS) {
        Some(TargetFamily::ColumnName)
    } else if part == label(codes::NAMES) && n == 6 && path[4] == label(codes::CONSTRAINTS) {
        Some(TargetFamily::ConstraintName)
    } else if part == label(codes::ACTIVE_CONSTRAINTS) && n == 5 {
        Some(TargetFamily::ActiveConstraint)
    } else if part == label(codes::CONSTRAINT_REFERENCES) && (n == 5 || n == 6) {
        Some(TargetFamily::ConstraintReference)
    } else if part == label(codes::COLUMN_DEPENDENCIES) && n >= 5 {
        Some(TargetFamily::ColumnDependency)
    } else if part == label(codes::ACTIVE_PRIMARY_INDEX) && n == 4 {
        Some(TargetFamily::ActivePrimaryIndex)
    } else if part == label(codes::ACTIVE_SCHEMA_REVISION) && n == 4 {
        Some(TargetFamily::ActiveSchemaRevision)
    } else if part == label(codes::INDEX_DEFINITIONS) && n == 5 {
        Some(TargetFamily::IndexDefinition)
    } else if part == label(codes::WRITE_REVISION) && n == 4 {
        Some(TargetFamily::WriteRevision)
    } else if part == label(codes::VIEW_DEPENDENCIES) && (n == 4 || n == 5) {
        Some(TargetFamily::ViewDependency)
    } else if part == label(codes::ROWS) && n == 4 {
        Some(TargetFamily::TableRows)
    } else if part == label(codes::ROWS) && n >= 5 {
        Some(TargetFamily::Row)
    } else if part == label(codes::UNIQUE) && n >= 5 {
        Some(TargetFamily::UniqueOwner)
    } else if part == label(codes::FOREIGN_REFERENCES) && n >= 6 {
        Some(TargetFamily::ForeignReference)
    } else {
        None
    }
}

/// Whether a component is the given label.
fn part_is(parts: &[Component], i: usize, text: &str) -> (r: bool)
    ensures
        r == (i < parts@.len() && parts@[i as int]@ == label(text)),
{
    i < parts.len() && is_label(parts[i].as_bytes(), text)
}

impl TargetFamily {
    /// Classify a rendered target back into the compiler's finite vocabulary.
    pub fn classify(key: &Key) -> (r: Option<TargetFamily>)
        ensures
            r == classified(key@),
    {
        let parts = key.components();
        let n: usize = parts.len();
        if n < 2 || !part_is(parts, 0, codes::ROOT) {
            return None;
        }
        if part_is(parts, 1, codes::SCHEMA) {
            if n == 4 && part_is(parts, 2, codes::LOG) {
                return Some(TargetFamily::SchemaLog);
            }
            if n == 5 && part_is(parts, 2, codes::NAMES) && part_is(parts, 3, codes::MAIN) {
                return Some(TargetFamily::SchemaObjectName);
            }
            return None;
        }
        if part_is(parts, 1, codes::TABLES) {
            if n == 3 {
                return Some(TargetFamily::TableRoot);
            }
            if n < 4 {
                return None;
            }
            return Self::classify_in_table(key);
        }
        if part_is(parts, 1, codes::TRANSACTIONS) && n == 4 && part_is(parts, 2, codes::LOG) {
            return Some(TargetFamily::TransactionLog);
        }
        if part_is(parts, 1, codes::METADATA) && n == 3 && part_is(parts, 2, codes::USER_VERSION) {
            return Some(TargetFamily::UserVersion);
        }
        None
    }

    /// Classify a target inside one table's namespace.
    fn classify_in_table(key: &Key) -> (r: Option<TargetFamily>)
        requires
            key@.len() >= 4,
        ensures
            r == classified_in_table(key@),
    {
        let parts = key.components();
        let n: usize = parts.len();
        if part_is(parts, 3, codes::SCHEMA) && n == 5 {
            Some(TargetFamily::TableSchema)
        } else if part_is(parts, 3, codes::NAMES) && n == 6 && part_is(parts, 4, codes::COLUMNS) {
            Some(TargetFamily::ColumnName)
        } else if part_is(parts, 3, codes::NAMES) && n == 6 && part_is(parts, 4, codes::CONSTRAINTS) {
            Some(TargetFamily::ConstraintName)
        } else if part_is(parts, 3, codes::ACTIVE_CONSTRAINTS) && n == 5 {
            Some(TargetFamily::ActiveConstraint)
        } else if part_is(parts, 3, codes::CONSTRAINT_REFERENCES) && (n == 5 || n == 6) {
            Some(TargetFamily::ConstraintReference)
        } else if part_is(parts, 3, codes::COLUMN_DEPENDENCIES) && n >= 5 {
            Some(TargetFamily::ColumnDependency)
        } else if part_is(parts, 3, codes::ACTIVE_PRIMARY_INDEX) && n == 4 {
            Some(TargetFamily::ActivePrimaryIndex)
        } else if part_is(parts, 3, codes::ACTIVE_SCHEMA_REVISION) && n == 4 {
            Some(TargetFamily::ActiveSchemaRevision)
        } else if part_is(parts, 3, codes::INDEX_DEFINITIONS) && n == 5 {
            Some(TargetFamily::IndexDefinition)
        } else if part_is(parts, 3, codes::WRITE_REVISION) && n == 4 {
            Some(TargetFamily::WriteRevision)
        } else if part_is(parts, 3, codes::VIEW_DEPENDENCIES) && (n == 4 || n == 5) {
            Some(TargetFamily::ViewDependency)
        } else if part_is(parts, 3, codes::ROWS) && n == 4 {
            Some(TargetFamily::TableRows)
        } else if part_is(parts, 3, codes::ROWS) && n >= 5 {
            Some(TargetFamily::Row)
        } else if part_is(parts, 3, codes::UNIQUE) && n >= 5 {
            Some(TargetFamily::UniqueOwner)
        } else if part_is(parts, 3, codes::FOREIGN_REFERENCES) && n >= 6 {
            Some(TargetFamily::ForeignReference)
        } else {
            None
        }
    }
}

/// One point or component-prefix address in the durable key layout.
#[derive(Debug, PartialEq, Eq)]
pub enum LogicalTarget {
    SchemaLog { mutation: MutationId },
    SchemaObjectName { canonical: Vec<u8> },
    TableSchema { table: TableId, revision: SchemaRevisionId },
    ColumnName { table: TableId, canonical: Vec<u8> },
    ConstraintName { table: TableId, canonical: Vec<u8> },
    ActiveConstraint { table: TableId, identity: [u8; 16] },
    ConstraintReferencePrefix { table: TableId, identity: [u8; 16] },
    ConstraintReference { table: TableId, identity: [u8; 16], relationship: ForeignKeyId },
    ColumnDependencyPrefix { table: TableId, column: ColumnId },
    ColumnIndexDependency { table: TableId, column: ColumnId, index: IndexId },
    ColumnCheckDependency { table: TableId, column: ColumnId, owner: ColumnId },
    ColumnViewDependency { table: TableId, column: ColumnId, canonical: Vec<u8> },
    TableRoot { table: TableId },
    ActivePrimaryIndex { table: TableId },
    ActiveSchemaRevision { table: TableId },
    IndexDefinition { table: TableId, index: IndexId },
    WriteRevision { table: TableId },
    RowPrefix { table: TableId },
    Row { table: TableId, index: IndexId, images: Vec<Vec<u8>> },
    UniqueOwner { table: TableId, index: IndexId, images: Vec<Vec<u8>> },
    ForeignReferencePrefix { parent: TableId, relationship: ForeignKeyId, parent_index: IndexId, parent_images: Vec<Vec<u8>> },
    ForeignReference { parent: TableId, relationship: ForeignKeyId, parent_index: IndexId, parent_images: Vec<Vec<u8>>, child_index: IndexId, child_images: Vec<Vec<u8>> },
    TransactionLog { transaction: [u8; 16] },
    UserVersion,
    ViewDependencyPrefix { table: TableId },
    ViewDependency { table: TableId, canonical: Vec<u8> },
}

/// The component under which a name is filed.
pub open spec fn name_part(canonical: Seq<u8>) -> Seq<u8> {
    if canonical.len() <= SHORT_NAME_LIMIT {
        label(NAME_MARK) + canonical
    } else {
        label(HASH_MARK) + sha256_digest(label(OBJECT_NAME_HASH_DOMAIN) + canonical)
    }
}

impl LogicalTarget {
    /// The durable namespace that a target lies in.
    pub open spec fn target_family(&self) -> TargetFamily {
        match self {
            LogicalTarget::SchemaLog { .. } => TargetFamily::SchemaLog,
            LogicalTarget::SchemaObjectName { .. } => TargetFamily::SchemaObjectName,
            LogicalTarget::TableSchema { .. } => TargetFamily::TableSchema,
            LogicalTarget::ColumnName { .. } => TargetFamily::ColumnName,
            LogicalTarget::ConstraintName { .. } => TargetFamily::ConstraintName,
            LogicalTarget::ActiveConstraint { .. } => TargetFamily::ActiveConstraint,
            LogicalTarget::ConstraintReferencePrefix { .. } => TargetFamily::ConstraintReference,
            LogicalTarget::ConstraintReference { .. } => TargetFamily::ConstraintReference,
            LogicalTarget::ColumnDependencyPrefix { .. } => TargetFamily::ColumnDependency,
            LogicalTarget::ColumnIndexDependency { .. } => TargetFamily::ColumnDependency,
            LogicalTarget::ColumnCheckDependency { .. } => TargetFamily::ColumnDependency,
            LogicalTarget::ColumnViewDependency { .. } => TargetFamily::ColumnDependency,
            LogicalTarget::TableRoot { .. } => TargetFamily::TableRoot,
            LogicalTarget::ActivePrimaryIndex { .. } => TargetFamily::ActivePrimaryIndex,
            LogicalTarget::ActiveSchemaRevision { .. } => TargetFamily::ActiveSchemaRevision,
            LogicalTarget::IndexDefinition { .. } => TargetFamily::IndexDefinition,
            LogicalTarget::WriteRevision { .. } => TargetFamily::WriteRevision,
            LogicalTarget::RowPrefix { .. } => TargetFamily::TableRows,
            LogicalTarget::Row { .. } => TargetFamily::Row,
            LogicalTarget::UniqueOwner { .. } => TargetFamily::UniqueOwner,
            LogicalTarget::ForeignReferencePrefix { .. } => TargetFamily::ForeignReference,
            LogicalTarget::ForeignReference { .. } => TargetFamily::ForeignReference,
            LogicalTarget::TransactionLog { .. } => TargetFamily::TransactionLog,
            LogicalTarget::UserVersion => TargetFamily::UserVersion,
            LogicalTarget::ViewDependencyPrefix { .. } => TargetFamily::ViewDependency,
            LogicalTarget::ViewDependency { .. } => TargetFamily::ViewDependency,
        }
    }

    /// The components of the target's key.
    pub open spec fn path(&self) -> Path {
        match self {
            LogicalTarget::SchemaLog { mutation } => seq![label(codes::ROOT), label(codes::SCHEMA), label(codes::LOG), mutation@],
            LogicalTarget::SchemaObjectName { canonical } => seq![label(codes::ROOT), label(codes::SCHEMA), label(codes::NAMES), label(codes::MAIN), name_part(canonical@)],
            LogicalTarget::TableSchema { table, revision } => seq![label(codes::ROOT), label(codes::TABLES), table@, label(codes::SCHEMA), revision@],
            LogicalTarget::ColumnName { table, canonical } => seq![label(codes::ROOT), label(codes::TABLES), table@, label(codes::NAMES), label(codes::COLUMNS), name_part(canonical@)],
            LogicalTarget::ConstraintName { table, canonical } => seq![label(codes::ROOT), label(codes::TABLES), table@, label(codes::NAMES), label(codes::CONSTRAINTS), name_part(canonical@)],
            LogicalTarget::ActiveConstraint { table, identity } => seq![label(codes::ROOT), label(codes::TABLES), table@, label(codes::ACTIVE_CONSTRAINTS), identity@],
            LogicalTarget::ConstraintReferencePrefix { table, identity } => seq![label(codes::ROOT), label(codes::TABLES), table@, label(codes::CONSTRAINT_REFERENCES), identity@],
            LogicalTarget::ConstraintReference { table, identity, relationship } => seq![label(codes::ROOT), label(codes::TABLES), table@, label(codes::CONSTRAINT_REFERENCES), identity@, relationship@],
            LogicalTarget::ColumnDependencyPrefix { table, column } => seq![label(codes::ROOT), label(codes::TABLES), table@, label(codes::COLUMN_DEPENDENCIES), column@],
            LogicalTarget::ColumnIndexDependency { table, column, index } => seq![label(codes::ROOT), label(codes::TABLES), table@, label(codes::COLUMN_DEPENDENCIES), column@, label(codes::INDEXES), index@],
            LogicalTarget::ColumnCheckDependency { table, column, owner } => seq![label(codes::ROOT), label(codes::TABLES), table@, label(codes::COLUMN_DEPENDENCIES), column@, label(codes::COLUMNS), owner@],
            LogicalTarget::ColumnViewDependency { table, column, canonical } => seq![label(codes::ROOT), label(codes::TABLES), table@, label(codes::COLUMN_DEPENDENCIES), column@, label(codes::VIEW_DEPENDENCIES), name_part(canonical@)],
            LogicalTarget::TableRoot { table } => seq![label(codes::ROOT), label(codes::TABLES), table@],
            LogicalTarget::ActivePrimaryIndex { table } => seq![label(codes::ROOT), label(codes::TABLES), table@, label(codes::ACTIVE_PRIMARY_INDEX)],
            LogicalTarget::ActiveSchemaRevision { table } => seq![label(codes::ROOT), label(codes::TABLES), table@, label(codes::ACTIVE_SCHEMA_REVISION)],
            LogicalTarget::IndexDefinition { table, index } => seq![label(codes::ROOT), label(codes::TABLES), table@, label(codes::INDEX_DEFINITIONS), index@],
            LogicalTarget::WriteRevision { table } => seq![label(codes::ROOT), label(codes::TABLES), table@, label(codes::WRITE_REVISION)],
            LogicalTarget::RowPrefix { table } => seq![label(codes::ROOT), label(codes::TABLES), table@, label(codes::ROWS)],
            LogicalTarget::Row { table, index, images } => seq![label(codes::ROOT), label(codes::TABLES), table@, label(codes::ROWS), index@] + parts_view(images@),
            LogicalTarget::UniqueOwner { table, index, images } => seq![label(codes::ROOT), label(codes::TABLES), table@, label(codes::UNIQUE), index@] + parts_view(images@),
            LogicalTarget::ForeignReferencePrefix { parent, relationship, parent_index, parent_images } => seq![label(codes::ROOT), label(codes::TABLES), parent@, label(codes::FOREIGN_REFERENCES), relationship@, parent_index@] + parts_view(parent_images@),
            LogicalTarget::ForeignReference { parent, relationship, parent_index, parent_images, child_index, child_images } => seq![label(codes::ROOT), label(codes::TABLES), parent@, label(codes::FOREIGN_REFERENCES), relationship@, parent_index@] + parts_view(parent_images@) + seq![child_index@] + parts_view(child_images@),
            LogicalTarget::TransactionLog { transaction } => seq![label(codes::ROOT), label(codes::TRANSACTIONS), label(codes::LOG), transaction@],
            LogicalTarget::UserVersion => seq![label(codes::ROOT), label(codes::METADATA), label(codes::USER_VERSION)],
            LogicalTarget::ViewDependencyPrefix { table } => seq![label(codes::ROOT), label(codes::TABLES), table@, label(codes::VIEW_DEPENDENCIES)],
            LogicalTarget::ViewDependency { table, canonical } => seq![label(codes::ROOT), label(codes::TABLES), table@, label(codes::VIEW_DEPENDENCIES), name_part(canonical@)],
        }
    }

    /// Whether every value image of the target is short enough for a component.
    pub open spec fn bounded(&self) -> bool {
        match self {
            LogicalTarget::Row { images, .. } => valid_path(parts_view(images@)),
            LogicalTarget::UniqueOwner { images, .. } => valid_path(parts_view(images@)),
            LogicalTarget::ForeignReferencePrefix { parent_images, .. } => valid_path(
                parts_view(parent_images@),
            ),
            LogicalTarget::ForeignReference { parent_images, child_images, .. } => valid_path(
                parts_view(parent_images@),
            ) && valid_path(parts_view(child_images@)),
            _ => true,
        }
    }

    /// Durable namespace family used by diagnostics and audit generation.
    pub fn family(&self) -> (r: TargetFamily)
        ensures
            r == self.target_family(),
    {
        match self {
            LogicalTarget::SchemaLog { .. } => TargetFamily::SchemaLog,
            LogicalTarget::SchemaObjectName { .. } => TargetFamily::SchemaObjectName,
            LogicalTarget::TableSchema { .. } => TargetFamily::TableSchema,
            LogicalTarget::ColumnName { .. } => TargetFamily::ColumnName,
            LogicalTarget::ConstraintName { .. } => TargetFamily::ConstraintName,
            LogicalTarget::ActiveConstraint { .. } => TargetFamily::ActiveConstraint,
            LogicalTarget::ConstraintReferencePrefix { .. } => TargetFamily::ConstraintReference,
            LogicalTarget::ConstraintReference { .. } => TargetFamily::ConstraintReference,
            LogicalTarget::ColumnDependencyPrefix { .. } => TargetFamily::ColumnDependency,
            LogicalTarget::ColumnIndexDependency { .. } => TargetFamily::ColumnDependency,
            LogicalTarget::ColumnCheckDependency { .. } => TargetFamily::ColumnDependency,
            LogicalTarget::ColumnViewDependency { .. } => TargetFamily::ColumnDependency,
            LogicalTarget::TableRoot { .. } => TargetFamily::TableRoot,
            LogicalTarget::ActivePrimaryIndex { .. } => TargetFamily::ActivePrimaryIndex,
            LogicalTarget::ActiveSchemaRevision { .. } => TargetFamily::ActiveSchemaRevision,
            LogicalTarget::IndexDefinition { .. } => TargetFamily::IndexDefinition,
            LogicalTarget::WriteRevision { .. } => TargetFamily::WriteRevision,
            LogicalTarget::RowPrefix { .. } => TargetFamily::TableRows,
            LogicalTarget::Row { .. } => TargetFamily::Row,
            LogicalTarget::UniqueOwner { .. } => TargetFamily::UniqueOwner,
            LogicalTarget::ForeignReferencePrefix { .. } => TargetFamily::ForeignReference,
            LogicalTarget::ForeignReference { .. } => TargetFamily::ForeignReference,
            LogicalTarget::TransactionLog { .. } => TargetFamily::TransactionLog,
            LogicalTarget::UserVersion => TargetFamily::UserVersion,
            LogicalTarget::ViewDependencyPrefix { .. } => TargetFamily::ViewDependency,
            LogicalTarget::ViewDependency { .. } => TargetFamily::ViewDependency,
        }
    }

    /// Render the target's key. A value image that is too long for a component
    /// is an error.
    pub fn render(&self) -> (r: Result<Key, KeyError>)
        ensures
            r is Ok <==> valid_path(self.path()),
            self.bounded() ==> r is Ok,
            r matches Ok(key) ==> key@ == self.path() && classified(key@) == Some(
                self.target_family(),
            ),
    {
        proof {
            lemma_labels();
        }
        let mut parts: Vec<Vec<u8>> = Vec::new();
        assert(parts_view(parts@) =~= Seq::<Seq<u8>>::empty());
        match self {
            LogicalTarget::SchemaLog { mutation } => {
                push_label(&mut parts, codes::ROOT);
                push_label(&mut parts, codes::SCHEMA);
                push_label(&mut parts, codes::LOG);
                push_bytes(&mut parts, &mutation.as_bytes());
                assert(parts_view(parts@) =~= self.path());
            },
            LogicalTarget::SchemaObjectName { canonical } => {
                push_label(&mut parts, codes::ROOT);
                push_label(&mut parts, codes::SCHEMA);
                push_label(&mut parts, codes::NAMES);
                push_label(&mut parts, codes::MAIN);
                push_name(&mut parts, canonical.as_slice());
                assert(parts_view(parts@) =~= self.path());
            },
            LogicalTarget::TableSchema { table, revision } => {
                push_label(&mut parts, codes::ROOT);
                push_label(&mut parts, codes::TABLES);
                push_bytes(&mut parts, &table.as_bytes());
                push_label(&mut parts, codes::SCHEMA);
                push_bytes(&mut parts, &revision.as_bytes());
                assert(parts_view(parts@) =~= self.path());
            },
            LogicalTarget::ColumnName { table, canonical } => {
                push_label(&mut parts, codes::ROOT);
                push_label(&mut parts, codes::TABLES);
                push_bytes(&mut parts, &table.as_bytes());
                push_label(&mut parts, codes::NAMES);
                push_label(&mut parts, codes::COLUMNS);
                push_name(&mut parts, canonical.as_slice());
                assert(parts_view(parts@) =~= self.path());
            },
            LogicalTarget::ConstraintName { table, canonical } => {
                push_label(&mut parts, codes::ROOT);
                push_label(&mut parts, codes::TABLES);
                push_bytes(&mut parts, &table.as_bytes());
                push_label(&mut parts, codes::NAMES);
                push_label(&mut parts, codes::CONSTRAINTS);
                push_name(&mut parts, canonical.as_slice());
                assert(parts_view(parts@) =~= self.path());
            },
            LogicalTarget::ActiveConstraint { table, identity } => {
                push_label(&mut parts, codes::ROOT);
                push_label(&mut parts, codes::TABLES);
                push_bytes(&mut parts, &table.as_bytes());
                push_label(&mut parts, codes::ACTIVE_CONSTRAINTS);
                push_bytes(&mut parts, identity);
                assert(parts_view(parts@) =~= self.path());
            },
            LogicalTarget::ConstraintReferencePrefix { table, identity } => {
                push_label(&mut parts, codes::ROOT);
                push_label(&mut parts, codes::TABLES);
                push_bytes(&mut parts, &table.as_bytes());
                push_label(&mut parts, codes::CONSTRAINT_REFERENCES);
                push_bytes(&mut parts, identity);
                assert(parts_view(parts@) =~= self.path());
            },
            LogicalTarget::ConstraintReference { table, identity, relationship } => {
                push_label(&mut parts, codes::ROOT);
                push_label(&mut parts, codes::TABLES);
                push_bytes(&mut parts, &table.as_bytes());
                push_label(&mut parts, codes::CONSTRAINT_REFERENCES);
                push_bytes(&mut parts, identity);
                push_bytes(&mut parts, &relationship.as_bytes());
                assert(parts_view(parts@) =~= self.path());
            },
            LogicalTarget::ColumnDependencyPrefix { table, column } => {
                push_label(&mut parts, codes::ROOT);
                push_label(&mut parts, codes::TABLES);
                push_bytes(&mut parts, &table.as_bytes());
                push_label(&mut parts, codes::COLUMN_DEPENDENCIES);
                push_bytes(&mut parts, &column.as_bytes());
                assert(parts_view(parts@) =~= self.path());
            },
            LogicalTarget::ColumnIndexDependency { table, column, index } => {
                push_label(&mut parts, codes::ROOT);
                push_label(&mut parts, codes::TABLES);
                push_bytes(&mut parts, &table.as_bytes());
                push_label(&mut parts, codes::COLUMN_DEPENDENCIES);
                push_bytes(&mut parts, &column.as_bytes());
                push_label(&mut parts, codes::INDEXES);
                push_bytes(&mut parts, &index.as_bytes());
                assert(parts_view(parts@) =~= self.path());
            },
            LogicalTarget::ColumnCheckDependency { table, column, owner } => {
                push_label(&mut parts, codes::ROOT);
                push_label(&mut parts, codes::TABLES);
                push_bytes(&mut parts, &table.as_bytes());
                push_label(&mut parts, codes::COLUMN_DEPENDENCIES);
                push_bytes(&mut parts, &column.as_bytes());
                push_label(&mut parts, codes::COLUMNS);
                push_bytes(&mut parts, &owner.as_bytes());
                assert(parts_view(parts@) =~= self.path());
            },
            LogicalTarget::ColumnViewDependency { table, column, canonical } => {
                push_label(&mut parts, codes::ROOT);
                push_label(&mut parts, codes::TABLES);
                push_bytes(&mut parts, &table.as_bytes());
                push_label(&mut parts, codes::COLUMN_DEPENDENCIES);
                push_bytes(&mut parts, &column.as_bytes());
                push_label(&mut parts, codes::VIEW_DEPENDENCIES);
                push_name(&mut parts, canonical.as_slice());
                assert(parts_view(parts@) =~= self.path());
            },
            LogicalTarget::TableRoot { table } => {
                push_label(&mut parts, codes::ROOT);
                push_label(&mut parts, codes::TABLES);
                push_bytes(&mut parts, &table.as_bytes());
                assert(parts_view(parts@) =~= self.path());
            },
            LogicalTarget::ActivePrimaryIndex { table } => {
                push_label(&mut parts, codes::ROOT);
                push_label(&mut parts, codes::TABLES);
                push_bytes(&mut parts, &table.as_bytes());
                push_label(&mut parts, codes::ACTIVE_PRIMARY_INDEX);
                assert(parts_view(parts@) =~= self.path());
            },
            LogicalTarget::ActiveSchemaRevision { table } => {
                push_label(&mut parts, codes::ROOT);
                push_label(&mut parts, codes::TABLES);
                push_bytes(&mut parts, &table.as_bytes());
                push_label(&mut parts, codes::ACTIVE_SCHEMA_REVISION);
                assert(parts_view(parts@) =~= self.path());
            },
            LogicalTarget::IndexDefinition { table, index } => {
                push_label(&mut parts, codes::ROOT);
                push_label(&mut parts, codes::TABLES);
                push_bytes(&mut parts, &table.as_bytes());
                push_label(&mut parts, codes::INDEX_DEFINITIONS);
                push_bytes(&mut parts, &index.as_bytes());
                assert(parts_view(parts@) =~= self.path());
            },
            LogicalTarget::WriteRevision { table } => {
                push_label(&mut parts, codes::ROOT);
                push_label(&mut parts, codes::TABLES);
                push_bytes(&mut parts, &table.as_bytes());
                push_label(&mut parts, codes::WRITE_REVISION);
                assert(parts_view(parts@) =~= self.path());
            },
            LogicalTarget::RowPrefix { table } => {
                push_label(&mut parts, codes::ROOT);
                push_label(&mut parts, codes::TABLES);
                push_bytes(&mut parts, &table.as_bytes());
                push_label(&mut parts, codes::ROWS);
                assert(parts_view(parts@) =~= self.path());
            },
            LogicalTarget::Row { table, index, images } => {
                push_label(&mut parts, codes::ROOT);
                push_label(&mut parts, codes::TABLES);
                push_bytes(&mut parts, &table.as_bytes());
                push_label(&mut parts, codes::ROWS);
                push_bytes(&mut parts, &index.as_bytes());
                push_images(&mut parts, images.as_slice());
                assert(parts_view(parts@) =~= self.path());
            },
            LogicalTarget::UniqueOwner { table, index, images } => {
                push_label(&mut parts, codes::ROOT);
                push_label(&mut parts, codes::TABLES);
                push_bytes(&mut parts, &table.as_bytes());
                push_label(&mut parts, codes::UNIQUE);
                push_bytes(&mut parts, &index.as_bytes());
                push_images(&mut parts, images.as_slice());
                assert(parts_view(parts@) =~= self.path());
            },
            LogicalTarget::ForeignReferencePrefix { parent, relationship, parent_index, parent_images } => {
                push_label(&mut parts, codes::ROOT);
                push_label(&mut parts, codes::TABLES);
                push_bytes(&mut parts, &parent.as_bytes());
                push_label(&mut parts, codes::FOREIGN_REFERENCES);
                push_bytes(&mut parts, &relationship.as_bytes());
                push_bytes(&mut parts, &parent_index.as_bytes());
                push_images(&mut parts, parent_images.as_slice());
                assert(parts_view(parts@) =~= self.path());
            },
            LogicalTarget::ForeignReference { parent, relationship, parent_index, parent_images, child_index, child_images } => {
                push_label(&mut parts, codes::ROOT);
                push_label(&mut parts, codes::TABLES);
                push_bytes(&mut parts, &parent.as_bytes());
                push_label(&mut parts, codes::FOREIGN_REFERENCES);
                push_bytes(&mut parts, &relationship.as_bytes());
                push_bytes(&mut parts, &parent_index.as_bytes());
                push_images(&mut parts, parent_images.as_slice());
                push_bytes(&mut parts, &child_index.as_bytes());
                push_images(&mut parts, child_images.as_slice());
                assert(parts_view(parts@) =~= self.path());
            },
            LogicalTarget::TransactionLog { transaction } => {
                push_label(&mut parts, codes::ROOT);
                push_label(&mut parts, codes::TRANSACTIONS);
                push_label(&mut parts, codes::LOG);
                push_bytes(&mut parts, transaction);
                assert(parts_view(parts@) =~= self.path());
            },
            LogicalTarget::UserVersion => {
                push_label(&mut parts, codes::ROOT);
                push_label(&mut parts, codes::METADATA);
                push_label(&mut parts, codes::USER_VERSION);
                assert(parts_view(parts@) =~= self.path());
            },
            LogicalTarget::ViewDependencyPrefix { table } => {
                push_label(&mut parts, codes::ROOT);
                push_label(&mut parts, codes::TABLES);
                push_bytes(&mut parts, &table.as_bytes());
                push_label(&mut parts, codes::VIEW_DEPENDENCIES);
                assert(parts_view(parts@) =~= self.path());
            },
            LogicalTarget::ViewDependency { table, canonical } => {
                push_label(&mut parts, codes::ROOT);
                push_label(&mut parts, codes::TABLES);
                push_bytes(&mut parts, &table.as_bytes());
                push_label(&mut parts, codes::VIEW_DEPENDENCIES);
                push_name(&mut parts, canonical.as_slice());
                assert(parts_view(parts@) =~= self.path());
            },
        }
        proof {
            rendering_keeps_the_family(self);
        }
        Key::from_bytes(parts)
    }
}

/// Classifying the key of a target gives the target's family.
pub proof fn rendering_keeps_the_family(target: &LogicalTarget)
    ensures
        classified(target.path()) == Some(target.target_family()),
{
    lemma_labels();
    let path = target.path();
    match target {
        LogicalTarget::SchemaLog { .. } => {
            assert(path[0] == label(codes::ROOT));
            assert(path[1] == label(codes::SCHEMA));
            assert(path[2] == label(codes::LOG));
            assert(path.len() == 4);
        },
        LogicalTarget::SchemaObjectName { .. } => {
            assert(path[0] == label(codes::ROOT));
            assert(path[1] == label(codes::SCHEMA));
            assert(path[2] == label(codes::NAMES));
            assert(path[3] == label(codes::MAIN));
            assert(path.len() == 5);
        },
        LogicalTarget::TableSchema { .. } => {
            assert(path[0] == label(codes::ROOT));
            assert(path[1] == label(codes::TABLES));
            assert(path[3] == label(codes::SCHEMA));
            assert(path.len() == 5);
        },
        LogicalTarget::ColumnName { .. } => {
            assert(path[0] == label(codes::ROOT));
            assert(path[1] == label(codes::TABLES));
            assert(path[3] == label(codes::NAMES));
            assert(path[4] == label(codes::COLUMNS));
            assert(path.len() == 6);
        },
        LogicalTarget::ConstraintName { .. } => {
            assert(path[0] == label(codes::ROOT));
            assert(path[1] == label(codes::TABLES));
            assert(path[3] == label(codes::NAMES));
            assert(path[4] == label(codes::CONSTRAINTS));
            assert(path.len() == 6);
        },
        LogicalTarget::ActiveConstraint { .. } => {
            assert(path[0] == label(codes::ROOT));
            assert(path[1] == label(codes::TABLES));
            assert(path[3] == label(codes::ACTIVE_CONSTRAINTS));
            assert(path.len() == 5);
        },
        LogicalTarget::ConstraintReferencePrefix { .. } => {
            assert(path[0] == label(codes::ROOT));
            assert(path[1] == label(codes::TABLES));
            assert(path[3] == label(codes::CONSTRAINT_REFERENCES));
            assert(path.len() == 5);
        },
        LogicalTarget::ConstraintReference { .. } => {
            assert(path[0] == label(codes::ROOT));
            assert(path[1] == label(codes::TABLES));
            assert(path[3] == label(codes::CONSTRAINT_REFERENCES));
            assert(path.len() == 6);
        },
        LogicalTarget::ColumnDependencyPrefix { .. } => {
            assert(path[0] == label(codes::ROOT));
            assert(path[1] == label(codes::TABLES));
            assert(path[3] == label(codes::COLUMN_DEPENDENCIES));
            assert(path.len() == 5);
        },
        LogicalTarget::ColumnIndexDependency { .. } => {
            assert(path[0] == label(codes::ROOT));
            assert(path[1] == label(codes::TABLES));
            assert(path[3] == label(codes::COLUMN_DEPENDENCIES));
            assert(path[5] == label(codes::INDEXES));
            assert(path.len() == 7);
        },
        LogicalTarget::ColumnCheckDependency { .. } => {
            assert(path[0] == label(codes::ROOT));
            assert(path[1] == label(codes::TABLES));
            assert(path[3] == label(codes::COLUMN_DEPENDENCIES));
            assert(path[5] == label(codes::COLUMNS));
            assert(path.len() == 7);
        },
        LogicalTarget::ColumnViewDependency { .. } => {
            assert(path[0] == label(codes::ROOT));
            assert(path[1] == label(codes::TABLES));
            assert(path[3] == label(codes::COLUMN_DEPENDENCIES));
            assert(path[5] == label(codes::VIEW_DEPENDENCIES));
            assert(path.len() == 7);
        },
        LogicalTarget::TableRoot { .. } => {
            assert(path[0] == label(codes::ROOT));
            assert(path[1] == label(codes::TABLES));
            assert(path.len() == 3);
        },
        LogicalTarget::ActivePrimaryIndex { .. } => {
            assert(path[0] == label(codes::ROOT));
            assert(path[1] == label(codes::TABLES));
            assert(path[3] == label(codes::ACTIVE_PRIMARY_INDEX));
            assert(path.len() == 4);
        },
        LogicalTarget::ActiveSchemaRevision { .. } => {
            assert(path[0] == label(codes::ROOT));
            assert(path[1] == label(codes::TABLES));
            assert(path[3] == label(codes::ACTIVE_SCHEMA_REVISION));
            assert(path.len() == 4);
        },
        LogicalTarget::IndexDefinition { .. } => {
            assert(path[0] == label(codes::ROOT));
            assert(path[1] == label(codes::TABLES));
            assert(path[3] == label(codes::INDEX_DEFINITIONS));
            assert(path.len() == 5);
        },
        LogicalTarget::WriteRevision { .. } => {
            assert(path[0] == label(codes::ROOT));
            assert(path[1] == label(codes::TABLES));
            assert(path[3] == label(codes::WRITE_REVISION));
            assert(path.len() == 4);
        },
        LogicalTarget::RowPrefix { .. } => {
            assert(path[0] == label(codes::ROOT));
            assert(path[1] == label(codes::TABLES));
            assert(path[3] == label(codes::ROWS));
            assert(path.len() == 4);
        },
        LogicalTarget::Row { .. } => {
            assert(path[0] == label(codes::ROOT));
            assert(path[1] == label(codes::TABLES));
            assert(path[3] == label(codes::ROWS));
            assert(path.len() >= 5);
        },
        LogicalTarget::UniqueOwner { .. } => {
            assert(path[0] == label(codes::ROOT));
            assert(path[1] == label(codes::TABLES));
            assert(path[3] == label(codes::UNIQUE));
            assert(path.len() >= 5);
        },
        LogicalTarget::ForeignReferencePrefix { .. } => {
            assert(path[0] == label(codes::ROOT));
            assert(path[1] == label(codes::TABLES));
            assert(path[3] == label(codes::FOREIGN_REFERENCES));
            assert(path.len() >= 6);
        },
        LogicalTarget::ForeignReference { .. } => {
            assert(path[0] == label(codes::ROOT));
            assert(path[1] == label(codes::TABLES));
            assert(path[3] == label(codes::FOREIGN_REFERENCES));
            assert(path.len() >= 6);
        },
        LogicalTarget::TransactionLog { .. } => {
            assert(path[0] == label(codes::ROOT));
            assert(path[1] == label(codes::TRANSACTIONS));
            assert(path[2] == label(codes::LOG));
            assert(path.len() == 4);
        },
        LogicalTarget::UserVersion => {
            assert(path[0] == label(codes::ROOT));
            assert(path[1] == label(codes::METADATA));
            assert(path[2] == label(codes::USER_VERSION));
            assert(path.len() == 3);
        },
        LogicalTarget::ViewDependencyPrefix { .. } => {
            assert(path[0] == label(codes::ROOT));
            assert(path[1] == label(codes::TABLES));
            assert(path[3] == label(codes::VIEW_DEPENDENCIES));
            assert(path.len() == 4);
        },
        LogicalTarget::ViewDependency { .. } => {
            assert(path[0] == label(codes::ROOT));
            assert(path[1] == label(codes::TABLES));
            assert(path[3] == label(codes::VIEW_DEPENDENCIES));
            assert(path.len() == 5);
        },
    }
}

/// The key of a target whose value images are short enough.
pub fn bounded_key(target: LogicalTarget) -> (r: Key)
    requires
        target.bounded(),
    ensures
        r@ == target.path(),
        classified(r@) == Some(target.target_family()),
{
    target.render().unwrap()
}

/// Append a label to a component list.
fn push_label(parts: &mut Vec<Vec<u8>>, text: &str)
    ensures
        parts_view(final(parts)@) == parts_view(old(parts)@).push(label(text)),
        valid_path(parts_view(old(parts)@)) && label(text).len() <= 255 ==> valid_path(
            parts_view(final(parts)@),
        ),
{
    parts.push(label_bytes(text));
    assert(parts_view(parts@) =~= parts_view(old(parts)@).push(label(text)));
}

/// Append bytes to a component list.
fn push_bytes(parts: &mut Vec<Vec<u8>>, bytes: &[u8])
    ensures
        parts_view(final(parts)@) == parts_view(old(parts)@).push(bytes@),
        valid_path(parts_view(old(parts)@)) && bytes@.len() <= 255 ==> valid_path(
            parts_view(final(parts)@),
        ),
{
    parts.push(copy_bytes(bytes));
    assert(parts_view(parts@) =~= parts_view(old(parts)@).push(bytes@));
}

/// Append a name's component to a component list.
fn push_name(parts: &mut Vec<Vec<u8>>, canonical: &[u8])
    ensures
        parts_view(final(parts)@) == parts_view(old(parts)@).push(name_part(canonical@)),
        valid_path(parts_view(old(parts)@)) ==> valid_path(parts_view(final(parts)@)),
{
    parts.push(name_component(canonical));
    assert(parts_view(parts@) =~= parts_view(old(parts)@).push(name_part(canonical@)));
}

/// Append value images to a component list.
fn push_images(parts: &mut Vec<Vec<u8>>, images: &[Vec<u8>])
    ensures
        parts_view(final(parts)@) == parts_view(old(parts)@) + parts_view(images@),
        valid_path(parts_view(old(parts)@)) && valid_path(parts_view(images@)) ==> valid_path(
            parts_view(final(parts)@),
        ),
{
    let mut i: usize = 0;
    assert(parts_view(images@).subrange(0, 0) =~= Seq::<Seq<u8>>::empty());
    assert(parts_view(parts@) =~= parts_view(old(parts)@) + parts_view(images@).subrange(0, 0));
    while i < images.len()
        invariant
            i <= images@.len(),
            parts_view(parts@) == parts_view(old(parts)@) + parts_view(images@).subrange(
                0,
                i as int,
            ),
        decreases images.len() - i,
    {
        push_bytes(parts, images[i].as_slice());
        assert(parts_view(parts@) =~= parts_view(old(parts)@) + parts_view(images@).subrange(
            0,
            i as int + 1,
        ));
        i += 1;
    }
    assert(parts_view(images@).subrange(0, images@.len() as int) =~= parts_view(images@));
}

/// The component under which a name is filed: a short name as it is, a long one
/// by its digest.
pub fn name_component(canonical: &[u8]) -> (r: Vec<u8>)
    ensures
        r@ == name_part(canonical@),
        r@.len() <= 255,
{
    proof {
        lemma_marks();
    }
    if canonical.len() <= SHORT_NAME_LIMIT {
        let mut component = label_bytes(NAME_MARK);
        append_bytes(&mut component, canonical);
        component
    } else {
        let mut input = label_bytes(OBJECT_NAME_HASH_DOMAIN);
        append_bytes(&mut input, canonical);
        let mut component = label_bytes(HASH_MARK);
        append_bytes(&mut component, sha256(input.as_slice()).as_slice());
        component
    }
}

/// Both marks have five bytes.
proof fn lemma_marks()
    ensures
        label(NAME_MARK).len() == 5,
        label(HASH_MARK).len() == 5,
{
    reveal_strlit("name-");
    reveal_strlit("hash-");
    lemma_ascii_label(NAME_MARK);
    lemma_ascii_label(HASH_MARK);
}

} // verus!
