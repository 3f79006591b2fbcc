//! Validation and resolution of the drop of a table.

use super::error::{drop_refusal, invalid_operation, DropTableCodecError};
use super::frame::{
    drop_table_decoded, drop_table_fits, drop_table_frame, drop_table_roundtrip,
    drop_table_shrinks, drop_table_valid, DropTableOperation, DropTableOperationView,
};
use crate::catalog::{
    current_name, incoming_of, table_by_id, table_named, CatalogEntryView, CatalogSnapshot,
};
use crate::codec::{outcome, views};
use crate::error::{refusal, verdict, Error, ErrorView, Result};
use crate::identity::{random_uuid, MutationId, TableId};
use crate::logical::schema::definition::table_fault;
use crate::logical::schema::statement::{
    statement_of, DropTableSpec, DropTableView, ParsedTexts, StatementView, Statements,
    ValidatedExecute,
};
use crate::logical::view::operation::{ensure_table_not_referenced, reference_fault};
use crate::name::canonical_bytes;
use vstd::prelude::*;

verus! {

/// Why the drop of a table is refused, if it is, given what its text stands for.
pub open spec fn drop_fault(op: DropTableOperationView, statement: Option<StatementView>) -> Option<
    DropTableCodecError,
> {
    let named = match statement {
        Some(StatementView::DropTable(spec)) => Some(spec.name),
        Some(StatementView::DropTableIfExists(spec)) => Some(spec.name),
        _ => None,
    };
    match named {
        None => Some(DropTableCodecError::InvalidSql),
        Some(name) => if canonical_bytes(name) != canonical_bytes(op.source_table) {
            Some(DropTableCodecError::SqlMismatch)
        } else if table_fault(op.before) is Some {
            Some(DropTableCodecError::InvalidSchema)
        } else {
            None
        },
    }
}

/// What decoding a frame gives, given what texts stand for.
pub open spec fn drop_read(b: Seq<u8>, parsed: ParsedTexts) -> std::result::Result<
    DropTableOperationView,
    DropTableCodecError,
> {
    match drop_table_decoded(b) {
        Err(error) => Err(error),
        Ok(op) => match drop_fault(op, statement_of(parsed, op.sql)) {
            Some(error) => Err(error),
            None => Ok(op),
        },
    }
}

/// Decoding the frame of a valid drop gives it back.
pub proof fn drop_roundtrip(op: DropTableOperationView, parsed: ParsedTexts)
    requires
        drop_table_valid(op),
        drop_table_fits(op),
        drop_fault(op, statement_of(parsed, op.sql)) is None,
    ensures
        drop_read(drop_table_frame(op), parsed) == Ok::<
            DropTableOperationView,
            DropTableCodecError,
        >(op),
{
    drop_table_roundtrip(op);
}

/// A decoded drop is valid and can be written again, in no more bytes.
pub proof fn drop_shrinks(b: Seq<u8>, parsed: ParsedTexts)
    ensures
        drop_read(b, parsed) matches Ok(op) ==> drop_table_valid(op) && drop_table_fits(op)
            && drop_table_frame(op).len() <= b.len() && drop_fault(
            op,
            statement_of(parsed, op.sql),
        ) is None,
{
    drop_table_shrinks(b);
}

/// What resolving the drop of a table gives, given the statements that the
/// database stores for its views.
pub open spec fn dropped_table(
    mutation: Seq<u8>,
    tables: Seq<CatalogEntryView>,
    stored: Seq<Seq<char>>,
    parsed: ParsedTexts,
    sql: Seq<char>,
    spec: DropTableView,
) -> std::result::Result<DropTableOperationView, ErrorView> {
    match table_named(tables, spec.name) {
        None => Err(ErrorView::InvalidDatabase("DROP TABLE references an unknown table"@)),
        Some(before) => match current_name(tables, before.table) {
            None => Err(
                ErrorView::InvalidDatabase("DROP TABLE identity has no current name binding"@),
            ),
            Some(source_table) => if canonical_bytes(source_table) != canonical_bytes(spec.name) {
                Err(
                    ErrorView::InvalidDatabase("DROP TABLE name contradicts the schema catalog"@),
                )
            } else if incoming_of(tables, before.table).len() > 0 {
                Err(
                    ErrorView::UnsupportedSql(
                        "DROP TABLE of a referenced parent table is not supported"@,
                    ),
                )
            } else if let Some(error) = reference_fault(stored, parsed, source_table) {
                Err(error)
            } else {
                let op = DropTableOperationView {
                    mutation_id: mutation,
                    sql,
                    source_table,
                    before,
                };
                match drop_fault(op, statement_of(parsed, sql)) {
                    Some(error) => Err(drop_refusal(error)),
                    None => Ok(op),
                }
            },
        },
    }
}

/// Why the drop of a table no longer fits the catalog, if it does not.
pub open spec fn drop_before_fault(op: DropTableOperationView, tables: Seq<CatalogEntryView>) -> Option<
    ErrorView,
> {
    if table_by_id(tables, op.before.table) == Some(op.before) && current_name(
        tables,
        op.before.table,
    ) == Some(op.source_table) && incoming_of(tables, op.before.table).len() == 0 {
        None
    } else {
        Some(ErrorView::InvalidDatabase("DROP TABLE no longer matches the schema catalog"@))
    }
}

impl DropTableOperation {
    /// The table that is dropped.
    pub fn table_id(&self) -> (r: TableId)
        ensures
            r@ == self@.before.table,
    {
        self.before.table_id()
    }

    /// Refuse a drop that is not what its statement says.
    pub fn validate(&self, statements: &Statements) -> (r: std::result::Result<
        (),
        DropTableCodecError,
    >)
        ensures
            r == (match drop_fault(self@, statement_of(statements@, self@.sql)) {
                Some(error) => Err::<(), DropTableCodecError>(error),
                None => Ok(()),
            }),
    {
        let spec = match statements.validate_execute(self.sql.as_str()) {
            Ok(ValidatedExecute::DropTable(spec)) => spec,
            Ok(ValidatedExecute::DropTableIfExists(spec)) => spec,
            _ => {
                return Err(DropTableCodecError::InvalidSql);
            },
        };
        if !spec.name.same_canonical(&self.source_table) {
            return Err(DropTableCodecError::SqlMismatch);
        }
        match self.before.validate_ir() {
            Err(_) => Err(DropTableCodecError::InvalidSchema),
            Ok(()) => Ok(()),
        }
    }

    /// Decode and validate one complete frame, given what texts stand for.
    pub fn decode(frame: &[u8], statements: &Statements) -> (r: std::result::Result<
        DropTableOperation,
        DropTableCodecError,
    >)
        ensures
            outcome(r) == drop_read(frame@, statements@),
    {
        match DropTableOperation::decode_fields(frame) {
            Err(error) => Err(error),
            Ok(operation) => match operation.validate(statements) {
                Err(error) => Err(error),
                Ok(()) => Ok(operation),
            },
        }
    }

    /// Resolve the drop of a table under a given mutation, given the statements
    /// that the database stores for its views.
    pub fn resolve(
        mutation_id: MutationId,
        catalog: &CatalogSnapshot,
        stored: &[String],
        statements: &Statements,
        sql: &str,
        spec: &DropTableSpec,
    ) -> (r: Result<DropTableOperation>)
        ensures
            verdict(r) == dropped_table(
                mutation_id@,
                catalog@,
                views(stored@),
                statements@,
                sql@,
                spec@,
            ),
    {
        let before = match catalog.by_name(spec.name.value()) {
            None => {
                return Err(Error::InvalidDatabase("DROP TABLE references an unknown table"));
            },
            Some(before) => before,
        };
        let source_table = match catalog.name_by_id(before.table_id()) {
            None => {
                return Err(
                    Error::InvalidDatabase("DROP TABLE identity has no current name binding"),
                );
            },
            Some(name) => name,
        };
        if !source_table.same_canonical(&spec.name) {
            return Err(Error::InvalidDatabase("DROP TABLE name contradicts the schema catalog"));
        }
        let incoming = catalog.incoming_foreign_keys(before.table_id());
        assert(views(incoming@).len() == incoming@.len());
        if incoming.len() > 0 {
            return Err(
                Error::UnsupportedSql("DROP TABLE of a referenced parent table is not supported"),
            );
        }
        if let Err(error) = ensure_table_not_referenced(stored, statements, source_table) {
            return Err(error);
        }
        let operation = DropTableOperation {
            mutation_id,
            sql: sql.to_owned(),
            source_table: source_table.clone(),
            before: before.clone(),
        };
        match operation.validate(statements) {
            Err(error) => Err(invalid_operation(error)),
            Ok(()) => Ok(operation),
        }
    }

    /// Resolve the drop of a table under a new mutation.
    pub fn prepare(
        catalog: &CatalogSnapshot,
        stored: &[String],
        statements: &Statements,
        sql: &str,
        spec: &DropTableSpec,
    ) -> (r: Result<DropTableOperation>)
        ensures
            exists|mutation: Seq<u8>|
                random_uuid(mutation) && verdict(r) == #[trigger] dropped_table(
                    mutation,
                    catalog@,
                    views(stored@),
                    statements@,
                    sql@,
                    spec@,
                ),
    {
        DropTableOperation::resolve(MutationId::fresh(), catalog, stored, statements, sql, spec)
    }

    /// Refuse a drop that no longer fits the catalog.
    pub fn validate_catalog_before(&self, catalog: &CatalogSnapshot) -> (r: Result<()>)
        ensures
            refusal(r) == drop_before_fault(self@, catalog@),
    {
        let same_definition = match catalog.by_id(self.before.table) {
            Some(current) => current.same(&self.before),
            None => false,
        };
        let same_name = match catalog.name_by_id(self.before.table) {
            Some(current) => current.same(&self.source_table),
            None => false,
        };
        let incoming = catalog.incoming_foreign_keys(self.before.table);
        assert(views(incoming@).len() == incoming@.len());
        if same_definition && same_name && incoming.len() == 0 {
            Ok(())
        } else {
            Err(Error::InvalidDatabase("DROP TABLE no longer matches the schema catalog"))
        }
    }
}

} // verus!
