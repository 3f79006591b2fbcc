//! One alteration of a table, by stable identities.

use super::error::AlterTableCodecError;
use super::frame::{
    alter_frame_decoded, alter_frame_fits, alter_frame_frame, alter_frame_roundtrip,
    alter_frame_shrinks, alter_frame_valid, cut_alter_frames_are_truncated,
    foreign_alter_fields_are_refused, foreign_field, AlterFrame, AlterFrameView, ADD_COLUMN,
    DROP_COLUMN, RENAME_COLUMN, RENAME_TABLE,
};
use crate::bytes::{field_bytes, fits};
use crate::codec::{outcome, views};
use crate::identity::{ColumnId, MutationId, SchemaRevisionId, TableId};
use crate::logical::schema::definition::{CreateTable, TableView};
use crate::logical::schema::error::SchemaCodecError;
use crate::logical::schema::evolve::{with_column, without_column};
use crate::logical::schema::statement::{
    statement_of, ParsedTexts, StatementView, Statements, ValidatedExecute,
};
use crate::name::SqlName;
use vstd::prelude::*;

verus! {

/// What an alteration does.
#[derive(Debug, PartialEq, Eq)]
pub enum AlterTableDelta {
    RenameTable { old_name: SqlName, new_name: SqlName },
    RenameColumn { column: ColumnId, old_name: SqlName, new_name: SqlName },
    AddColumn {
        column: ColumnId,
        predecessor: ColumnId,
        name: SqlName,
        before: CreateTable,
        after: CreateTable,
    },
    DropColumn { column: ColumnId, name: SqlName, before: CreateTable, after: CreateTable },
}

/// What an alteration does, as a mathematical value.
pub enum DeltaView {
    RenameTable { old_name: Seq<char>, new_name: Seq<char> },
    RenameColumn { column: Seq<u8>, old_name: Seq<char>, new_name: Seq<char> },
    AddColumn {
        column: Seq<u8>,
        predecessor: Seq<u8>,
        name: Seq<char>,
        before: TableView,
        after: TableView,
    },
    DropColumn { column: Seq<u8>, name: Seq<char>, before: TableView, after: TableView },
}

impl View for AlterTableDelta {
    type V = DeltaView;

    open spec fn view(&self) -> DeltaView {
        match self {
            AlterTableDelta::RenameTable { old_name, new_name } => DeltaView::RenameTable {
                old_name: old_name@,
                new_name: new_name@,
            },
            AlterTableDelta::RenameColumn { column, old_name, new_name } => {
                DeltaView::RenameColumn {
                    column: column@,
                    old_name: old_name@,
                    new_name: new_name@,
                }
            },
            AlterTableDelta::AddColumn { column, predecessor, name, before, after } => {
                DeltaView::AddColumn {
                    column: column@,
                    predecessor: predecessor@,
                    name: name@,
                    before: before@,
                    after: after@,
                }
            },
            AlterTableDelta::DropColumn { column, name, before, after } => DeltaView::DropColumn {
                column: column@,
                name: name@,
                before: before@,
                after: after@,
            },
        }
    }
}

impl Clone for AlterTableDelta {
    fn clone(&self) -> (r: Self)
        ensures
            r@ == self@,
    {
        match self {
            AlterTableDelta::RenameTable { old_name, new_name } => AlterTableDelta::RenameTable {
                old_name: old_name.clone(),
                new_name: new_name.clone(),
            },
            AlterTableDelta::RenameColumn { column, old_name, new_name } => {
                AlterTableDelta::RenameColumn {
                    column: *column,
                    old_name: old_name.clone(),
                    new_name: new_name.clone(),
                }
            },
            AlterTableDelta::AddColumn { column, predecessor, name, before, after } => {
                AlterTableDelta::AddColumn {
                    column: *column,
                    predecessor: *predecessor,
                    name: name.clone(),
                    before: before.clone(),
                    after: after.clone(),
                }
            },
            AlterTableDelta::DropColumn { column, name, before, after } => {
                AlterTableDelta::DropColumn {
                    column: *column,
                    name: name.clone(),
                    before: before.clone(),
                    after: after.clone(),
                }
            },
        }
    }
}

/// One identity-resolved table-schema delta.
#[derive(Debug, PartialEq, Eq)]
pub struct AlterTableOperation {
    pub mutation_id: MutationId,
    pub sql: String,
    pub table: TableId,
    pub schema_revision: SchemaRevisionId,
    pub source_table: SqlName,
    pub delta: AlterTableDelta,
}

/// An alteration as a mathematical value.
pub struct AlterView {
    pub mutation_id: Seq<u8>,
    pub sql: Seq<char>,
    pub table: Seq<u8>,
    pub schema_revision: Seq<u8>,
    pub source_table: Seq<char>,
    pub delta: DeltaView,
}

impl View for AlterTableOperation {
    type V = AlterView;

    open spec fn view(&self) -> AlterView {
        AlterView {
            mutation_id: self.mutation_id@,
            sql: self.sql@,
            table: self.table@,
            schema_revision: self.schema_revision@,
            source_table: self.source_table@,
            delta: self.delta@,
        }
    }
}

impl Clone for AlterTableOperation {
    fn clone(&self) -> (r: Self)
        ensures
            r@ == self@,
    {
        AlterTableOperation {
            mutation_id: self.mutation_id,
            sql: self.sql.clone(),
            table: self.table,
            schema_revision: self.schema_revision,
            source_table: self.source_table.clone(),
            delta: self.delta.clone(),
        }
    }
}

/// The byte that stands for an action in a frame.
pub open spec fn action_of(delta: DeltaView) -> u8 {
    match delta {
        DeltaView::RenameTable { .. } => RENAME_TABLE,
        DeltaView::RenameColumn { .. } => RENAME_COLUMN,
        DeltaView::AddColumn { .. } => ADD_COLUMN,
        DeltaView::DropColumn { .. } => DROP_COLUMN,
    }
}

/// The fields of an alteration.
pub open spec fn alter_fields_of(op: AlterView) -> AlterFrameView {
    AlterFrameView {
        mutation_id: op.mutation_id,
        sql: op.sql,
        table: op.table,
        schema_revision: op.schema_revision,
        source_table: op.source_table,
        action: action_of(op.delta),
        column: match op.delta {
            DeltaView::RenameTable { .. } => None,
            DeltaView::RenameColumn { column, .. } => Some(column),
            DeltaView::AddColumn { column, .. } => Some(column),
            DeltaView::DropColumn { column, .. } => Some(column),
        },
        predecessor: match op.delta {
            DeltaView::AddColumn { predecessor, .. } => Some(predecessor),
            _ => None,
        },
        old_name: match op.delta {
            DeltaView::RenameTable { old_name, .. } => Some(old_name),
            DeltaView::RenameColumn { old_name, .. } => Some(old_name),
            DeltaView::AddColumn { .. } => None,
            DeltaView::DropColumn { name, .. } => Some(name),
        },
        new_name: match op.delta {
            DeltaView::RenameTable { new_name, .. } => Some(new_name),
            DeltaView::RenameColumn { new_name, .. } => Some(new_name),
            DeltaView::AddColumn { name, .. } => Some(name),
            DeltaView::DropColumn { .. } => None,
        },
        before: match op.delta {
            DeltaView::AddColumn { before, .. } => Some(before),
            DeltaView::DropColumn { before, .. } => Some(before),
            _ => None,
        },
        after: match op.delta {
            DeltaView::AddColumn { after, .. } => Some(after),
            DeltaView::DropColumn { after, .. } => Some(after),
            _ => None,
        },
    }
}

/// The alteration that fields describe.
pub open spec fn alter_of_fields(fields: AlterFrameView) -> AlterView {
    AlterView {
        mutation_id: fields.mutation_id,
        sql: fields.sql,
        table: fields.table,
        schema_revision: fields.schema_revision,
        source_table: fields.source_table,
        delta: if fields.action == RENAME_TABLE {
            DeltaView::RenameTable {
                old_name: fields.old_name->Some_0,
                new_name: fields.new_name->Some_0,
            }
        } else if fields.action == RENAME_COLUMN {
            DeltaView::RenameColumn {
                column: fields.column->Some_0,
                old_name: fields.old_name->Some_0,
                new_name: fields.new_name->Some_0,
            }
        } else if fields.action == ADD_COLUMN {
            DeltaView::AddColumn {
                column: fields.column->Some_0,
                predecessor: fields.predecessor->Some_0,
                name: fields.new_name->Some_0,
                before: fields.before->Some_0,
                after: fields.after->Some_0,
            }
        } else {
            DeltaView::DropColumn {
                column: fields.column->Some_0,
                name: fields.old_name->Some_0,
                before: fields.before->Some_0,
                after: fields.after->Some_0,
            }
        },
    }
}

/// The frame of an alteration.
pub open spec fn alter_encoded(op: AlterView) -> Seq<u8> {
    alter_frame_frame(alter_fields_of(op))
}

/// Whether every field of an alteration's frame has a length that a `u32` holds.
pub open spec fn alter_fits(op: AlterView) -> bool {
    alter_frame_fits(alter_fields_of(op))
}

/// Whether an alteration does what its statement says.
pub open spec fn alter_agrees(op: AlterView, statement: StatementView) -> bool {
    match (op.delta, statement) {
        (
            DeltaView::RenameTable { old_name, new_name },
            StatementView::RenameTable(spec),
        ) => spec.table == op.source_table && spec.table == old_name && spec.new_name == new_name,
        (
            DeltaView::RenameColumn { old_name, new_name, .. },
            StatementView::RenameColumn(spec),
        ) => spec.table == op.source_table && spec.old_name == old_name && spec.new_name
            == new_name,
        (
            DeltaView::AddColumn { column, predecessor, name, before, after },
            StatementView::AddColumn(spec),
        ) => spec.table == op.source_table && spec.column.name == name && before.table == op.table
            && before.schema_revision == op.schema_revision && before.schema_revision
            != after.schema_revision && before.columns.len() > 0 && before.columns.last().id
            == predecessor && with_column(before, column, spec.column, spec.checks) == Ok::<
            TableView,
            SchemaCodecError,
        >(after),
        (
            DeltaView::DropColumn { column, name, before, after },
            StatementView::DropColumn(spec),
        ) => spec.table == op.source_table && spec.column == name && before.table == op.table
            && before.schema_revision == op.schema_revision && before.schema_revision
            != after.schema_revision && without_column(before, column) == Ok::<
            TableView,
            SchemaCodecError,
        >(after),
        _ => false,
    }
}

/// Why an alteration is refused, if it is, given what its text stands for.
pub open spec fn alter_fault(op: AlterView, statement: Option<StatementView>) -> Option<
    AlterTableCodecError,
> {
    match statement {
        None => Some(AlterTableCodecError::InvalidSql),
        Some(statement) => if alter_agrees(op, statement) {
            None
        } else {
            Some(AlterTableCodecError::InvalidRename)
        },
    }
}

/// What decoding a frame gives, given what texts stand for.
pub open spec fn alter_decoded(b: Seq<u8>, parsed: ParsedTexts) -> Result<
    AlterView,
    AlterTableCodecError,
> {
    match alter_frame_decoded(b) {
        Err(error) => Err(error),
        Ok(fields) => {
            let op = alter_of_fields(fields);
            match alter_fault(op, statement_of(parsed, op.sql)) {
                Some(error) => Err(error),
                None => Ok(op),
            }
        },
    }
}

/// Whether an alteration is one that decoding can give.
pub open spec fn alter_valid(op: AlterView, parsed: ParsedTexts) -> bool {
    alter_frame_valid(alter_fields_of(op)) && alter_fault(op, statement_of(parsed, op.sql)) is None
}

/// Decoding the frame of an alteration gives it back.
pub proof fn alter_roundtrip(op: AlterView, parsed: ParsedTexts)
    requires
        alter_valid(op, parsed),
        alter_fits(op),
    ensures
        alter_decoded(alter_encoded(op), parsed) == Ok::<AlterView, AlterTableCodecError>(op),
{
    alter_frame_roundtrip(alter_fields_of(op));
    assert(alter_of_fields(alter_fields_of(op)) == op);
}

/// The frame of an alteration without its last byte is truncated.
pub proof fn cut_alterations_are_truncated(op: AlterView, parsed: ParsedTexts)
    requires
        alter_valid(op, parsed),
        alter_fits(op),
    ensures
        alter_decoded(alter_encoded(op).drop_last(), parsed) == Err::<
            AlterView,
            AlterTableCodecError,
        >(AlterTableCodecError::Truncated),
{
    cut_alter_frames_are_truncated(alter_fields_of(op));
}

/// The frame of an alteration with a field that only another action has is
/// refused for its action.
pub proof fn alterations_refuse_foreign_fields(
    op: AlterView,
    parsed: ParsedTexts,
    tag: u8,
    payload: Seq<u8>,
)
    requires
        alter_valid(op, parsed),
        alter_fits(op),
        fits(payload),
        foreign_field(alter_fields_of(op), tag, payload),
    ensures
        alter_decoded(alter_encoded(op) + field_bytes(tag, payload), parsed) == Err::<
            AlterView,
            AlterTableCodecError,
        >(AlterTableCodecError::InvalidAction),
{
    foreign_alter_fields_are_refused(alter_fields_of(op), tag, payload);
}

/// A decoded alteration is valid and can be written again, in no more bytes.
pub proof fn alter_shrinks(b: Seq<u8>, parsed: ParsedTexts)
    ensures
        alter_decoded(b, parsed) matches Ok(op) ==> alter_valid(op, parsed) && alter_fits(op)
            && alter_encoded(op).len() <= b.len(),
{
    alter_frame_shrinks(b);
    if let Ok(fields) = alter_frame_decoded(b) {
        assert(alter_fields_of(alter_of_fields(fields)) =~= fields);
    }
}

impl AlterTableOperation {
    /// The table that is altered.
    pub fn table_id(&self) -> (r: TableId)
        ensures
            r@ == self@.table,
    {
        self.table
    }

    /// Whether two alterations are equal.
    pub fn same(&self, other: &AlterTableOperation) -> (r: bool)
        ensures
            r == (self@ == other@),
    {
        let r = self.to_fields().same(&other.to_fields());
        assert(alter_of_fields(alter_fields_of(self@)) == self@);
        assert(alter_of_fields(alter_fields_of(other@)) == other@);
        r
    }

    /// The fields of the frame.
    fn to_fields(&self) -> (r: AlterFrame)
        ensures
            r@ == alter_fields_of(self@),
    {
        let mut r = AlterFrame {
            mutation_id: self.mutation_id,
            sql: self.sql.clone(),
            table: self.table,
            schema_revision: self.schema_revision,
            source_table: self.source_table.clone(),
            action: RENAME_TABLE,
            column: None,
            predecessor: None,
            old_name: None,
            new_name: None,
            before: None,
            after: None,
        };
        match &self.delta {
            AlterTableDelta::RenameTable { old_name, new_name } => {
                r.old_name = Some(old_name.clone());
                r.new_name = Some(new_name.clone());
            },
            AlterTableDelta::RenameColumn { column, old_name, new_name } => {
                r.action = RENAME_COLUMN;
                r.column = Some(*column);
                r.old_name = Some(old_name.clone());
                r.new_name = Some(new_name.clone());
            },
            AlterTableDelta::AddColumn { column, predecessor, name, before, after } => {
                r.action = ADD_COLUMN;
                r.column = Some(*column);
                r.predecessor = Some(*predecessor);
                r.new_name = Some(name.clone());
                r.before = Some(before.clone());
                r.after = Some(after.clone());
            },
            AlterTableDelta::DropColumn { column, name, before, after } => {
                r.action = DROP_COLUMN;
                r.column = Some(*column);
                r.old_name = Some(name.clone());
                r.before = Some(before.clone());
                r.after = Some(after.clone());
            },
        }
        assert(r@ =~= alter_fields_of(self@));
        r
    }

    /// Encode the frame.
    pub fn encode(&self) -> (r: Vec<u8>)
        requires
            alter_fits(self@),
        ensures
            r@ == alter_encoded(self@),
    {
        self.to_fields().encode()
    }

    /// Decode and validate one complete frame, given what texts stand for.
    pub fn decode(frame: &[u8], statements: &Statements) -> (r: Result<
        AlterTableOperation,
        AlterTableCodecError,
    >)
        ensures
            outcome(r) == alter_decoded(frame@, statements@),
    {
        let fields = match AlterFrame::decode(frame) {
            Err(error) => {
                return Err(error);
            },
            Ok(fields) => fields,
        };
        proof {
            alter_frame_shrinks(frame@);
        }
        let ghost view = fields@;
        let AlterFrame {
            mutation_id,
            sql,
            table,
            schema_revision,
            source_table,
            action,
            column,
            predecessor,
            old_name,
            new_name,
            before,
            after,
        } = fields;
        let delta = match (column, predecessor, old_name, new_name, before, after) {
            (None, None, Some(old_name), Some(new_name), None, None) => {
                AlterTableDelta::RenameTable { old_name, new_name }
            },
            (Some(column), None, Some(old_name), Some(new_name), None, None) => {
                AlterTableDelta::RenameColumn { column, old_name, new_name }
            },
            (Some(column), Some(predecessor), None, Some(name), Some(before), Some(after)) => {
                AlterTableDelta::AddColumn { column, predecessor, name, before, after }
            },
            (Some(column), None, Some(name), None, Some(before), Some(after)) => {
                AlterTableDelta::DropColumn { column, name, before, after }
            },
            _ => {
                assert(false);
                return Err(AlterTableCodecError::InvalidAction);
            },
        };
        let operation = AlterTableOperation {
            mutation_id,
            sql,
            table,
            schema_revision,
            source_table,
            delta,
        };
        assert(operation@ == alter_of_fields(view));
        match operation.validate(statements) {
            Err(error) => Err(error),
            Ok(()) => Ok(operation),
        }
    }

    /// Refuse an alteration that is not what its statement says.
    pub fn validate(&self, statements: &Statements) -> (r: Result<(), AlterTableCodecError>)
        ensures
            r == (match alter_fault(self@, statement_of(statements@, self@.sql)) {
                Some(error) => Err::<(), AlterTableCodecError>(error),
                None => Ok(()),
            }),
    {
        let statement = match statements.validate_execute(self.sql.as_str()) {
            Err(_) => {
                return Err(AlterTableCodecError::InvalidSql);
            },
            Ok(statement) => statement,
        };
        let agrees = match (&self.delta, statement) {
            (
                AlterTableDelta::RenameTable { old_name, new_name },
                ValidatedExecute::RenameTable(spec),
            ) => spec.table.same(&self.source_table) && spec.table.same(old_name)
                && spec.new_name.same(new_name),
            (
                AlterTableDelta::RenameColumn { old_name, new_name, .. },
                ValidatedExecute::RenameColumn(spec),
            ) => spec.table.same(&self.source_table) && spec.old_name.same(old_name)
                && spec.new_name.same(new_name),
            (
                AlterTableDelta::AddColumn { column, predecessor, name, before, after },
                ValidatedExecute::AddColumn(spec),
            ) => spec.table.same(&self.source_table) && spec.column.name.same(name)
                && before.table.same(&self.table) && before.schema_revision.same(
                &self.schema_revision,
            ) && !before.schema_revision.same(&after.schema_revision) && ends_with(
                before,
                *predecessor,
            ) && match before.with_added_column_identity(
                *column,
                &spec.column,
                spec.checks.as_slice(),
            ) {
                Ok(expected) => expected.same(after),
                Err(_) => false,
            },
            (
                AlterTableDelta::DropColumn { column, name, before, after },
                ValidatedExecute::DropColumn(spec),
            ) => spec.table.same(&self.source_table) && spec.column.same(name)
                && before.table.same(&self.table) && before.schema_revision.same(
                &self.schema_revision,
            ) && !before.schema_revision.same(&after.schema_revision)
                && match before.with_removed_column(*column) {
                Ok(expected) => expected.same(after),
                Err(_) => false,
            },
            _ => false,
        };
        if agrees {
            Ok(())
        } else {
            Err(AlterTableCodecError::InvalidRename)
        }
    }

    /// Whether the alteration is applied by rebuilding the table.
    pub fn materializes_internally(&self) -> (r: bool)
        ensures
            r == (self@.delta is DropColumn),
    {
        match &self.delta {
            AlterTableDelta::DropColumn { .. } => true,
            _ => false,
        }
    }
}

/// Whether a table's last column has an identity.
fn ends_with(table: &CreateTable, id: ColumnId) -> (r: bool)
    ensures
        r == (table@.columns.len() > 0 && table@.columns.last().id == id@),
{
    let n = table.columns.len();
    assert(table@.columns == views(table.columns@));
    n > 0 && table.columns[n - 1].id.same(&id)
}

} // verus!
