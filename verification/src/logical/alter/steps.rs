//! What an alteration does to the local database, and what undoes it.

use super::error::{alter_error_text, invalid_operation};
use super::operation::{
    alter_fault, AlterTableDelta, AlterTableOperation, AlterView, DeltaView,
};
use crate::catalog::{
    column_named, current_column_name, current_name, table_by_id, table_named, CatalogEntryView,
    CatalogSnapshot,
};
use crate::codec::views;
use crate::error::{Error, ErrorView, Result};
use crate::identity::{ColumnId, MutationId};
use crate::logical::schema::definition::{column_ids, has_column, CreateTable, TableView};
use crate::logical::schema::statement::{statement_of, ParsedTexts, Statements};
use crate::name::{canonical_bytes, SqlName};
use crate::sqlite::{quote_identifier, quoted};
use crate::text::joined;
use vstd::prelude::*;

verus! {

/// A change of what the catalog binds.
#[derive(Debug, PartialEq, Eq)]
pub enum CatalogChange {
    /// A table takes another name.
    RenameTable { new_name: SqlName },
    /// A column takes another name.
    RenameColumn { column: ColumnId, old_name: SqlName, new_name: SqlName },
    /// A column comes in as a definition has it, under a name.
    InsertColumn { column: ColumnId, name: SqlName, source: CreateTable },
    /// A column goes.
    RemoveColumn { column: ColumnId },
}

/// A change of the catalog as a mathematical value.
pub enum CatalogChangeView {
    RenameTable { new_name: Seq<char> },
    RenameColumn { column: Seq<u8>, old_name: Seq<char>, new_name: Seq<char> },
    InsertColumn { column: Seq<u8>, name: Seq<char>, source: TableView },
    RemoveColumn { column: Seq<u8> },
}

impl View for CatalogChange {
    type V = CatalogChangeView;

    open spec fn view(&self) -> CatalogChangeView {
        match self {
            CatalogChange::RenameTable { new_name } => CatalogChangeView::RenameTable {
                new_name: new_name@,
            },
            CatalogChange::RenameColumn { column, old_name, new_name } => {
                CatalogChangeView::RenameColumn {
                    column: column@,
                    old_name: old_name@,
                    new_name: new_name@,
                }
            },
            CatalogChange::InsertColumn { column, name, source } => {
                CatalogChangeView::InsertColumn {
                    column: column@,
                    name: name@,
                    source: source@,
                }
            },
            CatalogChange::RemoveColumn { column } => CatalogChangeView::RemoveColumn {
                column: column@,
            },
        }
    }
}

/// One step on the local database.
#[derive(Debug, PartialEq, Eq)]
pub enum AlterStep {
    /// Run a statement.
    Execute(String),
    /// Run the alteration's own statement on the table under its current name.
    ExecuteStatement { table: SqlName },
    /// Change the catalog.
    Catalog(CatalogChange),
    /// Rewrite the expressions that read a column to its new name.
    FoldExpressions { column: ColumnId, old_name: SqlName, new_name: SqlName },
    /// Put saved values back into a column.
    RestoreValues { repair: MutationId, table: SqlName, name: SqlName },
    /// Rebuild the table where its columns are not what the catalog says, or in
    /// any case.
    Rebuild { force: bool },
    /// Forget saved values.
    RetireRepair { repair: MutationId },
}

/// A step as a mathematical value.
pub enum AlterStepView {
    Execute(Seq<char>),
    ExecuteStatement { table: Seq<char> },
    Catalog(CatalogChangeView),
    FoldExpressions { column: Seq<u8>, old_name: Seq<char>, new_name: Seq<char> },
    RestoreValues { repair: Seq<u8>, table: Seq<char>, name: Seq<char> },
    Rebuild { force: bool },
    RetireRepair { repair: Seq<u8> },
}

impl View for AlterStep {
    type V = AlterStepView;

    open spec fn view(&self) -> AlterStepView {
        match self {
            AlterStep::Execute(sql) => AlterStepView::Execute(sql@),
            AlterStep::ExecuteStatement { table } => AlterStepView::ExecuteStatement {
                table: table@,
            },
            AlterStep::Catalog(change) => AlterStepView::Catalog(change@),
            AlterStep::FoldExpressions { column, old_name, new_name } => {
                AlterStepView::FoldExpressions {
                    column: column@,
                    old_name: old_name@,
                    new_name: new_name@,
                }
            },
            AlterStep::RestoreValues { repair, table, name } => AlterStepView::RestoreValues {
                repair: repair@,
                table: table@,
                name: name@,
            },
            AlterStep::Rebuild { force } => AlterStepView::Rebuild { force: *force },
            AlterStep::RetireRepair { repair } => AlterStepView::RetireRepair { repair: repair@ },
        }
    }
}

/// Whether two names bind alike.
pub open spec fn binds_alike(a: Seq<char>, b: Seq<char>) -> bool {
    canonical_bytes(a) == canonical_bytes(b)
}

/// Why an alteration no longer fits the catalog it starts from, if it does not.
pub open spec fn before_fault(op: AlterView, tables: Seq<CatalogEntryView>) -> Option<ErrorView> {
    match op.delta {
        DeltaView::RenameTable { old_name, new_name } => match current_name(tables, op.table) {
            None => Some(
                ErrorView::InvalidDatabase(
                    "table rename identity is missing from the schema catalog"@,
                ),
            ),
            Some(current) => if !binds_alike(current, old_name) || table_named(
                tables,
                new_name,
            ) is Some {
                Some(
                    ErrorView::InvalidDatabase("table rename no longer matches the schema catalog"@),
                )
            } else {
                None
            },
        },
        DeltaView::RenameColumn { column, old_name, new_name } => match current_column_name(
            tables,
            op.table,
            column,
        ) {
            None => Some(
                ErrorView::InvalidDatabase(
                    "column rename identity is missing from the schema catalog"@,
                ),
            ),
            Some(current) => if !binds_alike(current, old_name) || column_named(
                tables,
                op.table,
                new_name,
            ) is Some {
                Some(
                    ErrorView::InvalidDatabase(
                        "column rename no longer matches the schema catalog"@,
                    ),
                )
            } else {
                None
            },
        },
        DeltaView::AddColumn { column, name, .. } => if table_by_id(tables, op.table) is None
            || column_named(tables, op.table, name) is Some || current_column_name(
            tables,
            op.table,
            column,
        ) is Some {
            Some(ErrorView::InvalidDatabase("ADD COLUMN no longer matches the schema catalog"@))
        } else {
            None
        },
        DeltaView::DropColumn { column, name, .. } => if table_by_id(tables, op.table) is Some && (
        current_column_name(tables, op.table, column) matches Some(current) && binds_alike(
            current,
            name,
        )) {
            None
        } else {
            Some(ErrorView::InvalidDatabase("DROP COLUMN no longer matches the schema catalog"@))
        },
    }
}

/// Why an alteration is not what made the catalog, if it is not.
pub open spec fn after_fault(op: AlterView, tables: Seq<CatalogEntryView>) -> Option<ErrorView> {
    match op.delta {
        DeltaView::RenameTable { old_name, new_name } => match current_name(tables, op.table) {
            None => Some(
                ErrorView::InvalidDatabase(
                    "pending table rename identity is missing from the catalog"@,
                ),
            ),
            Some(current) => if !binds_alike(current, new_name) || table_named(
                tables,
                old_name,
            ) is Some {
                Some(
                    ErrorView::InvalidDatabase(
                        "pending table rename no longer matches SQLite state"@,
                    ),
                )
            } else {
                None
            },
        },
        DeltaView::RenameColumn { column, old_name, new_name } => match current_column_name(
            tables,
            op.table,
            column,
        ) {
            None => Some(
                ErrorView::InvalidDatabase(
                    "pending column rename identity is missing from the catalog"@,
                ),
            ),
            Some(current) => if !binds_alike(current, new_name) || column_named(
                tables,
                op.table,
                old_name,
            ) is Some {
                Some(
                    ErrorView::InvalidDatabase(
                        "pending column rename no longer matches SQLite state"@,
                    ),
                )
            } else {
                None
            },
        },
        DeltaView::AddColumn { column, name, .. } => match table_by_id(tables, op.table) {
            None => Some(
                ErrorView::InvalidDatabase(
                    "pending ADD COLUMN table is missing from the schema catalog"@,
                ),
            ),
            Some(current) => if column_ids(current.columns).contains(column) && (
            current_column_name(tables, op.table, column) matches Some(bound) && binds_alike(
                bound,
                name,
            )) {
                None
            } else {
                Some(
                    ErrorView::InvalidDatabase("pending ADD COLUMN no longer matches SQLite state"@),
                )
            },
        },
        DeltaView::DropColumn { column, .. } => match table_by_id(tables, op.table) {
            None => Some(
                ErrorView::InvalidDatabase(
                    "pending DROP COLUMN table is missing from the schema catalog"@,
                ),
            ),
            Some(current) => if column_ids(current.columns).contains(column) || current_column_name(
                tables,
                op.table,
                column,
            ) is Some {
                Some(
                    ErrorView::InvalidDatabase(
                        "pending DROP COLUMN no longer matches SQLite state"@,
                    ),
                )
            } else {
                None
            },
        },
    }
}

/// The statement that renames a table.
pub open spec fn rename_table_sql(from: Seq<char>, to: Seq<char>) -> Seq<char> {
    "ALTER TABLE "@ + quoted(from) + " RENAME TO "@ + quoted(to)
}

/// The statement that renames a column.
pub open spec fn rename_column_sql(table: Seq<char>, from: Seq<char>, to: Seq<char>) -> Seq<char> {
    "ALTER TABLE "@ + quoted(table) + " RENAME COLUMN "@ + quoted(from) + " TO "@ + quoted(to)
}

/// What a rename is of.
#[derive(Clone, Copy, Debug, PartialEq, Eq, Structural)]
pub enum RenameTarget {
    Table,
    Column,
}

/// The statement that renames a table or one of its columns.
pub fn rename_sql(table: &SqlName, target: RenameTarget, from: &SqlName, to: &SqlName) -> (r:
    String)
    ensures
        r@ == (match target {
            RenameTarget::Table => rename_table_sql(from@, to@),
            RenameTarget::Column => rename_column_sql(table@, from@, to@),
        }),
{
    match target {
        RenameTarget::Table => {
            let mut sql = joined("ALTER TABLE ", quote_identifier(from.value()).as_str());
            sql.append(" RENAME TO ");
            sql.append(quote_identifier(to.value()).as_str());
            sql
        },
        RenameTarget::Column => {
            let mut sql = joined("ALTER TABLE ", quote_identifier(table.value()).as_str());
            sql.append(" RENAME COLUMN ");
            sql.append(quote_identifier(from.value()).as_str());
            sql.append(" TO ");
            sql.append(quote_identifier(to.value()).as_str());
            sql
        },
    }
}

/// The change of the catalog that an alteration is.
pub open spec fn record_change(delta: DeltaView) -> CatalogChangeView {
    match delta {
        DeltaView::RenameTable { new_name, .. } => CatalogChangeView::RenameTable { new_name },
        DeltaView::RenameColumn { column, old_name, new_name } => {
            CatalogChangeView::RenameColumn { column, old_name, new_name }
        },
        DeltaView::AddColumn { column, name, after, .. } => CatalogChangeView::InsertColumn {
            column,
            name,
            source: after,
        },
        DeltaView::DropColumn { column, .. } => CatalogChangeView::RemoveColumn { column },
    }
}

/// The change of the catalog that undoes an alteration.
pub open spec fn rollback_change(delta: DeltaView) -> CatalogChangeView {
    match delta {
        DeltaView::RenameTable { old_name, .. } => CatalogChangeView::RenameTable {
            new_name: old_name,
        },
        DeltaView::RenameColumn { column, old_name, new_name } => {
            CatalogChangeView::RenameColumn { column, old_name: new_name, new_name: old_name }
        },
        DeltaView::AddColumn { column, .. } => CatalogChangeView::RemoveColumn { column },
        DeltaView::DropColumn { column, name, before, .. } => CatalogChangeView::InsertColumn {
            column,
            name,
            source: before,
        },
    }
}

/// What records an alteration in the catalog.
pub open spec fn record_steps(delta: DeltaView) -> Seq<AlterStepView> {
    let record = seq![AlterStepView::Catalog(record_change(delta))];
    match delta {
        DeltaView::RenameTable { .. } => record,
        DeltaView::RenameColumn { column, old_name, new_name } => record.push(
            AlterStepView::FoldExpressions { column, old_name, new_name },
        ),
        DeltaView::AddColumn { .. } => record.push(AlterStepView::Rebuild { force: false }),
        DeltaView::DropColumn { .. } => record.push(AlterStepView::Rebuild { force: false }),
    }
}

/// What changes the table itself, before the catalog records it. A dropped
/// column leaves the table when it is rebuilt.
pub open spec fn change_steps(delta: DeltaView, table: Seq<char>) -> Seq<AlterStepView> {
    match delta {
        DeltaView::RenameTable { old_name, new_name } => seq![
            AlterStepView::Execute(rename_table_sql(old_name, new_name)),
        ],
        DeltaView::RenameColumn { old_name, new_name, .. } => seq![
            AlterStepView::Execute(rename_column_sql(table, old_name, new_name)),
        ],
        DeltaView::AddColumn { .. } => seq![AlterStepView::ExecuteStatement { table }],
        DeltaView::DropColumn { .. } => Seq::empty(),
    }
}

/// What undoes an alteration.
pub open spec fn rollback_steps(op: AlterView, table: Seq<char>) -> Seq<AlterStepView> {
    let change = AlterStepView::Catalog(rollback_change(op.delta));
    match op.delta {
        DeltaView::RenameTable { old_name, new_name } => seq![
            AlterStepView::Execute(rename_table_sql(new_name, old_name)),
            change,
        ],
        DeltaView::RenameColumn { column, old_name, new_name } => seq![
            AlterStepView::Execute(rename_column_sql(table, new_name, old_name)),
            change,
            AlterStepView::FoldExpressions { column, old_name: new_name, new_name: old_name },
        ],
        DeltaView::AddColumn { name, .. } => seq![
            AlterStepView::Execute(
                "ALTER TABLE "@ + quoted(table) + " DROP COLUMN "@ + quoted(name),
            ),
            change,
            AlterStepView::Rebuild { force: false },
        ],
        DeltaView::DropColumn { name, .. } => seq![
            AlterStepView::Execute(
                "ALTER TABLE "@ + quoted(table) + " ADD COLUMN "@ + quoted(name) + " BLOB"@,
            ),
            change,
            AlterStepView::RestoreValues { repair: op.mutation_id, table, name },
            AlterStepView::Rebuild { force: true },
            AlterStepView::RetireRepair { repair: op.mutation_id },
        ],
    }
}

/// What applying an alteration takes.
pub open spec fn apply_plan(
    op: AlterView,
    parsed: ParsedTexts,
    tables: Seq<CatalogEntryView>,
) -> std::result::Result<Seq<AlterStepView>, ErrorView> {
    if let Some(error) = alter_fault(op, statement_of(parsed, op.sql)) {
        Err(ErrorView::InvalidMultiliteOp(alter_error_text(error)))
    } else if let Some(error) = before_fault(op, tables) {
        Err(error)
    } else {
        match (op.delta, current_name(tables, op.table)) {
            (DeltaView::DropColumn { .. }, _) => Ok(record_steps(op.delta)),
            (_, None) => Err(
                ErrorView::InvalidDatabase(
                    "ALTER TABLE identity is missing from the schema catalog"@,
                ),
            ),
            (_, Some(table)) => Ok(change_steps(op.delta, table) + record_steps(op.delta)),
        }
    }
}

/// What undoing an alteration takes.
pub open spec fn rollback_plan(
    op: AlterView,
    parsed: ParsedTexts,
    tables: Seq<CatalogEntryView>,
) -> std::result::Result<Seq<AlterStepView>, ErrorView> {
    if let Some(error) = alter_fault(op, statement_of(parsed, op.sql)) {
        Err(ErrorView::InvalidMultiliteOp(alter_error_text(error)))
    } else if let Some(error) = after_fault(op, tables) {
        Err(error)
    } else {
        match current_name(tables, op.table) {
            None => Err(
                ErrorView::InvalidDatabase(
                    "pending ALTER TABLE identity is missing from the catalog"@,
                ),
            ),
            Some(table) => Ok(rollback_steps(op, table)),
        }
    }
}

/// Steps as mathematical values.
pub open spec fn plan_verdict(r: Result<Vec<AlterStep>>) -> std::result::Result<
    Seq<AlterStepView>,
    ErrorView,
> {
    match r {
        Ok(steps) => Ok(views(steps@)),
        Err(error) => Err(error@),
    }
}

impl AlterTableOperation {
    /// Refuse an alteration that no longer fits the catalog it starts from.
    pub fn validate_catalog_before(&self, catalog: &CatalogSnapshot) -> (r: Result<()>)
        ensures
            match r {
                Ok(()) => before_fault(self@, catalog@) is None,
                Err(error) => before_fault(self@, catalog@) == Some(error@),
            },
    {
        match &self.delta {
            AlterTableDelta::RenameTable { old_name, new_name } => {
                let current = match catalog.name_by_id(self.table) {
                    None => {
                        return Err(
                            Error::InvalidDatabase(
                                "table rename identity is missing from the schema catalog",
                            ),
                        );
                    },
                    Some(current) => current,
                };
                if !current.same_canonical(old_name) || catalog.by_name(
                    new_name.value(),
                ).is_some() {
                    return Err(
                        Error::InvalidDatabase("table rename no longer matches the schema catalog"),
                    );
                }
            },
            AlterTableDelta::RenameColumn { column, old_name, new_name } => {
                let current = match catalog.column_name_by_id(self.table, *column) {
                    None => {
                        return Err(
                            Error::InvalidDatabase(
                                "column rename identity is missing from the schema catalog",
                            ),
                        );
                    },
                    Some(current) => current,
                };
                if !current.same_canonical(old_name) || catalog.column_id_by_name(
                    self.table,
                    new_name,
                ).is_some() {
                    return Err(
                        Error::InvalidDatabase(
                            "column rename no longer matches the schema catalog",
                        ),
                    );
                }
            },
            AlterTableDelta::AddColumn { column, name, .. } => {
                if catalog.by_id(self.table).is_none() || catalog.column_id_by_name(
                    self.table,
                    name,
                ).is_some() || catalog.column_name_by_id(self.table, *column).is_some() {
                    return Err(
                        Error::InvalidDatabase("ADD COLUMN no longer matches the schema catalog"),
                    );
                }
            },
            AlterTableDelta::DropColumn { column, name, .. } => {
                let bound = match catalog.column_name_by_id(self.table, *column) {
                    Some(current) => current.same_canonical(name),
                    None => false,
                };
                if catalog.by_id(self.table).is_none() || !bound {
                    return Err(
                        Error::InvalidDatabase("DROP COLUMN no longer matches the schema catalog"),
                    );
                }
            },
        }
        Ok(())
    }

    /// Refuse an alteration that is not what made the catalog.
    pub fn validate_catalog_after(&self, catalog: &CatalogSnapshot) -> (r: Result<()>)
        ensures
            match r {
                Ok(()) => after_fault(self@, catalog@) is None,
                Err(error) => after_fault(self@, catalog@) == Some(error@),
            },
    {
        match &self.delta {
            AlterTableDelta::RenameTable { old_name, new_name } => {
                let current = match catalog.name_by_id(self.table) {
                    None => {
                        return Err(
                            Error::InvalidDatabase(
                                "pending table rename identity is missing from the catalog",
                            ),
                        );
                    },
                    Some(current) => current,
                };
                if !current.same_canonical(new_name) || catalog.by_name(
                    old_name.value(),
                ).is_some() {
                    return Err(
                        Error::InvalidDatabase(
                            "pending table rename no longer matches SQLite state",
                        ),
                    );
                }
            },
            AlterTableDelta::RenameColumn { column, old_name, new_name } => {
                let current = match catalog.column_name_by_id(self.table, *column) {
                    None => {
                        return Err(
                            Error::InvalidDatabase(
                                "pending column rename identity is missing from the catalog",
                            ),
                        );
                    },
                    Some(current) => current,
                };
                if !current.same_canonical(new_name) || catalog.column_id_by_name(
                    self.table,
                    old_name,
                ).is_some() {
                    return Err(
                        Error::InvalidDatabase(
                            "pending column rename no longer matches SQLite state",
                        ),
                    );
                }
            },
            AlterTableDelta::AddColumn { column, name, .. } => {
                let current = match catalog.by_id(self.table) {
                    None => {
                        return Err(
                            Error::InvalidDatabase(
                                "pending ADD COLUMN table is missing from the schema catalog",
                            ),
                        );
                    },
                    Some(current) => current,
                };
                let bound = match catalog.column_name_by_id(self.table, *column) {
                    Some(bound) => bound.same_canonical(name),
                    None => false,
                };
                if !has_column(current.columns.as_slice(), *column) || !bound {
                    return Err(
                        Error::InvalidDatabase("pending ADD COLUMN no longer matches SQLite state"),
                    );
                }
            },
            AlterTableDelta::DropColumn { column, .. } => {
                let current = match catalog.by_id(self.table) {
                    None => {
                        return Err(
                            Error::InvalidDatabase(
                                "pending DROP COLUMN table is missing from the schema catalog",
                            ),
                        );
                    },
                    Some(current) => current,
                };
                if has_column(current.columns.as_slice(), *column) || catalog.column_name_by_id(
                    self.table,
                    *column,
                ).is_some() {
                    return Err(
                        Error::InvalidDatabase("pending DROP COLUMN no longer matches SQLite state"),
                    );
                }
            },
        }
        Ok(())
    }

    /// The steps that record the alteration in the catalog.
    fn recording(&self) -> (r: Vec<AlterStep>)
        ensures
            views(r@) == record_steps(self@.delta),
    {
        let mut steps: Vec<AlterStep> = Vec::new();
        match &self.delta {
            AlterTableDelta::RenameTable { new_name, .. } => {
                steps.push(
                    AlterStep::Catalog(CatalogChange::RenameTable { new_name: new_name.clone() }),
                );
            },
            AlterTableDelta::RenameColumn { column, old_name, new_name } => {
                steps.push(
                    AlterStep::Catalog(
                        CatalogChange::RenameColumn {
                            column: *column,
                            old_name: old_name.clone(),
                            new_name: new_name.clone(),
                        },
                    ),
                );
                steps.push(
                    AlterStep::FoldExpressions {
                        column: *column,
                        old_name: old_name.clone(),
                        new_name: new_name.clone(),
                    },
                );
            },
            AlterTableDelta::AddColumn { column, name, after, .. } => {
                steps.push(
                    AlterStep::Catalog(
                        CatalogChange::InsertColumn {
                            column: *column,
                            name: name.clone(),
                            source: after.clone(),
                        },
                    ),
                );
                steps.push(AlterStep::Rebuild { force: false });
            },
            AlterTableDelta::DropColumn { column, .. } => {
                steps.push(
                    AlterStep::Catalog(CatalogChange::RemoveColumn { column: *column }),
                );
                steps.push(AlterStep::Rebuild { force: false });
            },
        }
        assert(views(steps@) =~= record_steps(self@.delta));
        steps
    }

    /// What records the alteration where its own statement has run already.
    pub fn record_catalog(&self, catalog: &CatalogSnapshot) -> (r: Result<Vec<AlterStep>>)
        ensures
            plan_verdict(r) == (match before_fault(self@, catalog@) {
                Some(error) => Err(error),
                None => Ok(record_steps(self@.delta)),
            }),
    {
        match self.validate_catalog_before(catalog) {
            Err(error) => Err(error),
            Ok(()) => Ok(self.recording()),
        }
    }

    /// What applying the alteration takes.
    pub fn apply(&self, statements: &Statements, catalog: &CatalogSnapshot) -> (r: Result<
        Vec<AlterStep>,
    >)
        ensures
            plan_verdict(r) == apply_plan(self@, statements@, catalog@),
    {
        if let Err(error) = self.validate(statements) {
            return Err(invalid_operation(error));
        }
        if let Err(error) = self.validate_catalog_before(catalog) {
            return Err(error);
        }
        if self.materializes_internally() {
            return Ok(self.recording());
        }
        let table = match catalog.name_by_id(self.table) {
            None => {
                return Err(
                    Error::InvalidDatabase(
                        "ALTER TABLE identity is missing from the schema catalog",
                    ),
                );
            },
            Some(table) => table,
        };
        let mut steps: Vec<AlterStep> = Vec::new();
        match &self.delta {
            AlterTableDelta::RenameTable { old_name, new_name } => {
                steps.push(
                    AlterStep::Execute(rename_sql(table, RenameTarget::Table, old_name, new_name)),
                );
            },
            AlterTableDelta::RenameColumn { old_name, new_name, .. } => {
                steps.push(
                    AlterStep::Execute(rename_sql(table, RenameTarget::Column, old_name, new_name)),
                );
            },
            AlterTableDelta::AddColumn { .. } => {
                steps.push(AlterStep::ExecuteStatement { table: table.clone() });
            },
            AlterTableDelta::DropColumn { .. } => {},
        }
        assert(views(steps@) =~= change_steps(self@.delta, table@));
        let mut more = self.recording();
        let ghost first = steps@;
        let ghost second = more@;
        steps.append(&mut more);
        assert(views(steps@) =~= views(first) + views(second));
        Ok(steps)
    }

    /// What undoing the alteration takes, after authority rejects it.
    pub fn rollback(&self, statements: &Statements, catalog: &CatalogSnapshot) -> (r: Result<
        Vec<AlterStep>,
    >)
        ensures
            plan_verdict(r) == rollback_plan(self@, statements@, catalog@),
    {
        if let Err(error) = self.validate(statements) {
            return Err(invalid_operation(error));
        }
        if let Err(error) = self.validate_catalog_after(catalog) {
            return Err(error);
        }
        let table = match catalog.name_by_id(self.table) {
            None => {
                return Err(
                    Error::InvalidDatabase(
                        "pending ALTER TABLE identity is missing from the catalog",
                    ),
                );
            },
            Some(table) => table,
        };
        let mut steps: Vec<AlterStep> = Vec::new();
        match &self.delta {
            AlterTableDelta::RenameTable { old_name, new_name } => {
                steps.push(
                    AlterStep::Execute(rename_sql(table, RenameTarget::Table, new_name, old_name)),
                );
                steps.push(
                    AlterStep::Catalog(CatalogChange::RenameTable { new_name: old_name.clone() }),
                );
            },
            AlterTableDelta::RenameColumn { column, old_name, new_name } => {
                steps.push(
                    AlterStep::Execute(rename_sql(table, RenameTarget::Column, new_name, old_name)),
                );
                steps.push(
                    AlterStep::Catalog(
                        CatalogChange::RenameColumn {
                            column: *column,
                            old_name: new_name.clone(),
                            new_name: old_name.clone(),
                        },
                    ),
                );
                steps.push(
                    AlterStep::FoldExpressions {
                        column: *column,
                        old_name: new_name.clone(),
                        new_name: old_name.clone(),
                    },
                );
            },
            AlterTableDelta::AddColumn { column, name, .. } => {
                let mut sql = joined("ALTER TABLE ", quote_identifier(table.value()).as_str());
                sql.append(" DROP COLUMN ");
                sql.append(quote_identifier(name.value()).as_str());
                steps.push(AlterStep::Execute(sql));
                steps.push(
                    AlterStep::Catalog(CatalogChange::RemoveColumn { column: *column }),
                );
                steps.push(AlterStep::Rebuild { force: false });
            },
            AlterTableDelta::DropColumn { column, name, before, .. } => {
                let mut sql = joined("ALTER TABLE ", quote_identifier(table.value()).as_str());
                sql.append(" ADD COLUMN ");
                sql.append(quote_identifier(name.value()).as_str());
                sql.append(" BLOB");
                steps.push(AlterStep::Execute(sql));
                steps.push(
                    AlterStep::Catalog(
                        CatalogChange::InsertColumn {
                            column: *column,
                            name: name.clone(),
                            source: before.clone(),
                        },
                    ),
                );
                steps.push(
                    AlterStep::RestoreValues {
                        repair: self.mutation_id,
                        table: table.clone(),
                        name: name.clone(),
                    },
                );
                steps.push(AlterStep::Rebuild { force: true });
                steps.push(AlterStep::RetireRepair { repair: self.mutation_id });
            },
        }
        assert(views(steps@) =~= rollback_steps(self@, table@));
        Ok(steps)
    }
}

} // verus!
