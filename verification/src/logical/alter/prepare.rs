//! Resolving an ALTER TABLE statement against the catalog.

use super::error::{alter_error_text, invalid_operation};
use super::operation::{
    alter_fault, AlterTableDelta, AlterTableOperation, AlterView, DeltaView,
};
use crate::catalog::{
    column_named, incoming_of, table_named, CatalogEntryView, CatalogSnapshot,
};
use crate::codec::views;
use crate::each::any;
use crate::error::{verdict, Error, ErrorView, Result};
use crate::identity::{random_uuid, ColumnId, MutationId};
use crate::logical::schema::definition::{
    key_width, CreateTable, ForeignKeyDefinition, RelationshipView, TableView,
};
use crate::logical::schema::error::{schema_error_text, SchemaCodecError};
use crate::logical::schema::evolve::{has_id, with_column, without_column};
use crate::logical::schema::statement::{
    statement_of, AddColumnSpec, AddColumnView, DropColumnSpec, DropColumnView, ParsedTexts,
    RenameColumnSpec, RenameColumnView, RenameTableSpec, RenameTableView, Statements,
};
use vstd::prelude::*;

verus! {

/// An alteration that its statement must bear out.
pub open spec fn settled(op: AlterView, parsed: ParsedTexts) -> std::result::Result<
    AlterView,
    ErrorView,
> {
    match alter_fault(op, statement_of(parsed, op.sql)) {
        Some(error) => Err(ErrorView::InvalidMultiliteOp(alter_error_text(error))),
        None => Ok(op),
    }
}

/// An alteration of a table.
pub open spec fn altered(
    mutation: Seq<u8>,
    sql: Seq<char>,
    table: TableView,
    source_table: Seq<char>,
    delta: DeltaView,
) -> AlterView {
    AlterView {
        mutation_id: mutation,
        sql,
        table: table.table,
        schema_revision: table.schema_revision,
        source_table,
        delta,
    }
}

/// The refusal of an unknown table.
pub open spec fn unknown_table() -> ErrorView {
    ErrorView::UnsupportedSql("ALTER TABLE target has no synchronized schema identity"@)
}

/// A malformed definition as that of a malformed operation.
pub open spec fn schema_refusal(error: SchemaCodecError) -> ErrorView {
    ErrorView::InvalidMultiliteOp(schema_error_text(error))
}

/// What resolving the rename of a table gives.
pub open spec fn renamed_table(
    mutation: Seq<u8>,
    tables: Seq<CatalogEntryView>,
    parsed: ParsedTexts,
    sql: Seq<char>,
    spec: RenameTableView,
) -> std::result::Result<AlterView, ErrorView> {
    match table_named(tables, spec.table) {
        None => Err(unknown_table()),
        Some(table) => if table_named(tables, spec.new_name) is Some {
            Err(ErrorView::UnsupportedSql("ALTER TABLE target name is already bound"@))
        } else {
            settled(
                altered(
                    mutation,
                    sql,
                    table,
                    spec.table,
                    DeltaView::RenameTable { old_name: spec.table, new_name: spec.new_name },
                ),
                parsed,
            )
        },
    }
}

/// What resolving the rename of a column gives.
pub open spec fn renamed_column(
    mutation: Seq<u8>,
    tables: Seq<CatalogEntryView>,
    parsed: ParsedTexts,
    sql: Seq<char>,
    spec: RenameColumnView,
) -> std::result::Result<AlterView, ErrorView> {
    match table_named(tables, spec.table) {
        None => Err(unknown_table()),
        Some(table) => match column_named(tables, table.table, spec.old_name) {
            None => Err(
                ErrorView::UnsupportedSql(
                    "ALTER TABLE RENAME COLUMN references an unknown column"@,
                ),
            ),
            Some(column) => if column_named(tables, table.table, spec.new_name) is Some {
                Err(ErrorView::UnsupportedSql("ALTER TABLE target column name is already bound"@))
            } else {
                settled(
                    altered(
                        mutation,
                        sql,
                        table,
                        spec.table,
                        DeltaView::RenameColumn {
                            column,
                            old_name: spec.old_name,
                            new_name: spec.new_name,
                        },
                    ),
                    parsed,
                )
            },
        },
    }
}

/// What resolving an added column gives.
pub open spec fn added_column(
    mutation: Seq<u8>,
    column: Seq<u8>,
    tables: Seq<CatalogEntryView>,
    parsed: ParsedTexts,
    sql: Seq<char>,
    spec: AddColumnView,
) -> std::result::Result<AlterView, ErrorView> {
    match table_named(tables, spec.table) {
        None => Err(unknown_table()),
        Some(table) => if column_named(tables, table.table, spec.column.name) is Some {
            Err(ErrorView::UnsupportedSql("ALTER TABLE target column name is already bound"@))
        } else {
            match with_column(table, column, spec.column, spec.checks) {
                Err(error) => Err(schema_refusal(error)),
                Ok(after) => settled(
                    altered(
                        mutation,
                        sql,
                        table,
                        spec.table,
                        DeltaView::AddColumn {
                            column,
                            predecessor: table.columns.last().id,
                            name: spec.column.name,
                            before: table,
                            after,
                        },
                    ),
                    parsed,
                ),
            }
        },
    }
}

/// Whether a foreign key refers to a column.
pub open spec fn refers_to_column(column: Seq<u8>) -> spec_fn((TableView, RelationshipView)) -> bool {
    |reference: (TableView, RelationshipView)| reference.1.referenced_columns.contains(column)
}

/// What resolving a dropped column gives.
pub open spec fn dropped_column(
    mutation: Seq<u8>,
    tables: Seq<CatalogEntryView>,
    parsed: ParsedTexts,
    sql: Seq<char>,
    spec: DropColumnView,
) -> std::result::Result<AlterView, ErrorView> {
    match table_named(tables, spec.table) {
        None => Err(unknown_table()),
        Some(table) => match column_named(tables, table.table, spec.column) {
            None => Err(
                ErrorView::UnsupportedSql("ALTER TABLE DROP COLUMN references an unknown column"@),
            ),
            Some(column) => if exists|i: int|
                0 <= i < incoming_of(tables, table.table).len() && refers_to_column(column)(
                    #[trigger] incoming_of(tables, table.table)[i],
                ) {
                Err(
                    ErrorView::UnsupportedSql(
                        "DROP COLUMN does not support referenced parent columns"@,
                    ),
                )
            } else {
                match without_column(table, column) {
                    Err(error) => Err(schema_refusal(error)),
                    Ok(after) => settled(
                        altered(
                            mutation,
                            sql,
                            table,
                            spec.table,
                            DeltaView::DropColumn {
                                column,
                                name: spec.column,
                                before: table,
                                after,
                            },
                        ),
                        parsed,
                    ),
                }
            },
        },
    }
}

impl AlterTableOperation {
    /// Let the statement bear the alteration out.
    fn settle(self, statements: &Statements) -> (r: Result<AlterTableOperation>)
        ensures
            verdict(r) == settled(self@, statements@),
    {
        match self.validate(statements) {
            Err(error) => Err(invalid_operation(error)),
            Ok(()) => Ok(self),
        }
    }

    /// Resolve the rename of a table under a given mutation.
    pub fn resolve_rename_table(
        mutation_id: MutationId,
        catalog: &CatalogSnapshot,
        statements: &Statements,
        sql: &str,
        spec: &RenameTableSpec,
    ) -> (r: Result<AlterTableOperation>)
        ensures
            verdict(r) == renamed_table(mutation_id@, catalog@, statements@, sql@, spec@),
    {
        let created = match catalog.by_name(spec.table.value()) {
            None => {
                return Err(
                    Error::UnsupportedSql(
                        "ALTER TABLE target has no synchronized schema identity",
                    ),
                );
            },
            Some(created) => created,
        };
        if catalog.by_name(spec.new_name.value()).is_some() {
            return Err(Error::UnsupportedSql("ALTER TABLE target name is already bound"));
        }
        AlterTableOperation {
            mutation_id,
            sql: sql.to_owned(),
            table: created.table_id(),
            schema_revision: created.schema_revision_id(),
            source_table: spec.table.clone(),
            delta: AlterTableDelta::RenameTable {
                old_name: spec.table.clone(),
                new_name: spec.new_name.clone(),
            },
        }.settle(statements)
    }

    /// Resolve the rename of a column under a given mutation.
    pub fn resolve_rename_column(
        mutation_id: MutationId,
        catalog: &CatalogSnapshot,
        statements: &Statements,
        sql: &str,
        spec: &RenameColumnSpec,
    ) -> (r: Result<AlterTableOperation>)
        ensures
            verdict(r) == renamed_column(mutation_id@, catalog@, statements@, sql@, spec@),
    {
        let created = match catalog.by_name(spec.table.value()) {
            None => {
                return Err(
                    Error::UnsupportedSql(
                        "ALTER TABLE target has no synchronized schema identity",
                    ),
                );
            },
            Some(created) => created,
        };
        let column = match catalog.column_id_by_name(created.table_id(), &spec.old_name) {
            None => {
                return Err(
                    Error::UnsupportedSql(
                        "ALTER TABLE RENAME COLUMN references an unknown column",
                    ),
                );
            },
            Some(column) => column,
        };
        if catalog.column_id_by_name(created.table_id(), &spec.new_name).is_some() {
            return Err(Error::UnsupportedSql("ALTER TABLE target column name is already bound"));
        }
        AlterTableOperation {
            mutation_id,
            sql: sql.to_owned(),
            table: created.table_id(),
            schema_revision: created.schema_revision_id(),
            source_table: spec.table.clone(),
            delta: AlterTableDelta::RenameColumn {
                column,
                old_name: spec.old_name.clone(),
                new_name: spec.new_name.clone(),
            },
        }.settle(statements)
    }

    /// Resolve an added column under a given mutation and a given identity.
    pub fn resolve_add_column(
        mutation_id: MutationId,
        column: ColumnId,
        catalog: &CatalogSnapshot,
        statements: &Statements,
        sql: &str,
        spec: &AddColumnSpec,
    ) -> (r: Result<AlterTableOperation>)
        ensures
            verdict(r) == added_column(
                mutation_id@,
                column@,
                catalog@,
                statements@,
                sql@,
                spec@,
            ),
    {
        let before = match catalog.by_name(spec.table.value()) {
            None => {
                return Err(
                    Error::UnsupportedSql(
                        "ALTER TABLE target has no synchronized schema identity",
                    ),
                );
            },
            Some(before) => before,
        };
        if catalog.column_id_by_name(before.table_id(), &spec.column.name).is_some() {
            return Err(Error::UnsupportedSql("ALTER TABLE target column name is already bound"));
        }
        let after = match before.with_added_column_identity(
            column,
            &spec.column,
            spec.checks.as_slice(),
        ) {
            Err(error) => {
                return Err(Error::InvalidMultiliteOp(error.text()));
            },
            Ok(after) => after,
        };
        let n = before.columns.len();
        proof {
            assert(before@.columns == views(before.columns@));
            assert(key_width(before@.columns) > 0);
        }
        let predecessor = before.columns[n - 1].id;
        AlterTableOperation {
            mutation_id,
            sql: sql.to_owned(),
            table: before.table_id(),
            schema_revision: before.schema_revision_id(),
            source_table: spec.table.clone(),
            delta: AlterTableDelta::AddColumn {
                column,
                predecessor,
                name: spec.column.name.clone(),
                before: before.clone(),
                after,
            },
        }.settle(statements)
    }

    /// Resolve a dropped column under a given mutation.
    pub fn resolve_drop_column(
        mutation_id: MutationId,
        catalog: &CatalogSnapshot,
        statements: &Statements,
        sql: &str,
        spec: &DropColumnSpec,
    ) -> (r: Result<AlterTableOperation>)
        ensures
            verdict(r) == dropped_column(mutation_id@, catalog@, statements@, sql@, spec@),
    {
        let before = match catalog.by_name(spec.table.value()) {
            None => {
                return Err(
                    Error::UnsupportedSql(
                        "ALTER TABLE target has no synchronized schema identity",
                    ),
                );
            },
            Some(before) => before,
        };
        let column = match catalog.column_id_by_name(before.table_id(), &spec.column) {
            None => {
                return Err(
                    Error::UnsupportedSql("ALTER TABLE DROP COLUMN references an unknown column"),
                );
            },
            Some(column) => column,
        };
        let incoming = catalog.incoming_foreign_keys(before.table_id());
        let refers = |reference: &(&CreateTable, &ForeignKeyDefinition)| -> (r: bool)
            ensures
                r == refers_to_column(column@)(reference@),
            { has_id(reference.1.referenced_columns.as_slice(), column) };
        if any(incoming.as_slice(), refers, Ghost(refers_to_column(column@))) {
            return Err(
                Error::UnsupportedSql("DROP COLUMN does not support referenced parent columns"),
            );
        }
        let after = match before.with_removed_column(column) {
            Err(error) => {
                return Err(Error::InvalidMultiliteOp(error.text()));
            },
            Ok(after) => after,
        };
        AlterTableOperation {
            mutation_id,
            sql: sql.to_owned(),
            table: before.table_id(),
            schema_revision: before.schema_revision_id(),
            source_table: spec.table.clone(),
            delta: AlterTableDelta::DropColumn {
                column,
                name: spec.column.clone(),
                before: before.clone(),
                after,
            },
        }.settle(statements)
    }

    /// Resolve the rename of a table under a new mutation.
    pub fn prepare_rename_table(
        catalog: &CatalogSnapshot,
        statements: &Statements,
        sql: &str,
        spec: &RenameTableSpec,
    ) -> (r: Result<AlterTableOperation>)
        ensures
            exists|mutation: Seq<u8>|
                random_uuid(mutation) && verdict(r) == #[trigger] renamed_table(
                    mutation,
                    catalog@,
                    statements@,
                    sql@,
                    spec@,
                ),
    {
        let mutation_id = MutationId::fresh();
        AlterTableOperation::resolve_rename_table(mutation_id, catalog, statements, sql, spec)
    }

    /// Resolve the rename of a column under a new mutation.
    pub fn prepare_rename_column(
        catalog: &CatalogSnapshot,
        statements: &Statements,
        sql: &str,
        spec: &RenameColumnSpec,
    ) -> (r: Result<AlterTableOperation>)
        ensures
            exists|mutation: Seq<u8>|
                random_uuid(mutation) && verdict(r) == #[trigger] renamed_column(
                    mutation,
                    catalog@,
                    statements@,
                    sql@,
                    spec@,
                ),
    {
        let mutation_id = MutationId::fresh();
        AlterTableOperation::resolve_rename_column(mutation_id, catalog, statements, sql, spec)
    }

    /// Resolve an added column under a new mutation and a new identity.
    pub fn prepare_add_column(
        catalog: &CatalogSnapshot,
        statements: &Statements,
        sql: &str,
        spec: &AddColumnSpec,
    ) -> (r: Result<AlterTableOperation>)
        ensures
            exists|mutation: Seq<u8>, column: Seq<u8>|
                random_uuid(mutation) && random_uuid(column) && verdict(r) == #[trigger] added_column(
                    mutation,
                    column,
                    catalog@,
                    statements@,
                    sql@,
                    spec@,
                ),
    {
        let mutation_id = MutationId::fresh();
        let column = ColumnId::fresh();
        AlterTableOperation::resolve_add_column(mutation_id, column, catalog, statements, sql, spec)
    }

    /// Resolve a dropped column under a new mutation.
    pub fn prepare_drop_column(
        catalog: &CatalogSnapshot,
        statements: &Statements,
        sql: &str,
        spec: &DropColumnSpec,
    ) -> (r: Result<AlterTableOperation>)
        ensures
            exists|mutation: Seq<u8>|
                random_uuid(mutation) && verdict(r) == #[trigger] dropped_column(
                    mutation,
                    catalog@,
                    statements@,
                    sql@,
                    spec@,
                ),
    {
        let mutation_id = MutationId::fresh();
        AlterTableOperation::resolve_drop_column(mutation_id, catalog, statements, sql, spec)
    }
}

} // verus!
