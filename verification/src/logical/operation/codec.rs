//! One logical operation and its frame.

use crate::bytes::{append_bytes, Reader};
use crate::logical::alter::error::alter_error_text;
use crate::logical::alter::operation::{
    alter_decoded, alter_encoded, alter_fits, alter_roundtrip, alter_shrinks, alter_valid,
    AlterTableOperation, AlterView,
};
use crate::logical::drop_table::error::drop_error_text;
use crate::logical::drop_table::frame::{
    drop_table_fits, drop_table_frame, drop_table_valid, DropTableOperation,
    DropTableOperationView,
};
use crate::logical::drop_table::operation::{drop_fault, drop_read, drop_roundtrip, drop_shrinks};
use crate::logical::index::{
    index_read, index_shrinks, indexes_closed, IndexOpView, IndexOperation, Indexes,
};
use crate::logical::row::changes::{
    row_changes_decoded, row_changes_fits, row_changes_frame, row_changes_roundtrip,
    row_changes_shrinks, row_changes_valid, RowChanges, RowChangesView,
};
use crate::logical::row::error::row_error_text;
use crate::logical::schema::create::{names_known, table_matches};
use crate::logical::schema::definition::{
    table_decoded, table_fits, table_frame, table_roundtrip, table_shrinks, table_valid,
    CreateTable, TableView,
};
use crate::logical::schema::error::schema_error_text;
use crate::logical::schema::statement::{statement_of, CreateTableSpec, ParsedTexts, Statements};
use crate::logical::user_version::{
    user_version_decoded, user_version_error_text, user_version_frame, user_version_roundtrip,
    SetUserVersion,
};
use crate::logical::view::error::view_error_text;
use crate::logical::view::frame::{
    view_operation_fits, view_operation_frame, view_operation_valid, ViewOperation,
    ViewOperationView,
};
use crate::logical::view::operation::{view_fault, view_read, view_roundtrip, view_shrinks};
use crate::text::{decimal, decimal_text, joined};
use vstd::prelude::*;
use vstd::string::*;

verus! {

/// Version of the frame.
pub const OPERATION_FRAME_VERSION: u8 = 1;

/// Marks the creation of a table.
pub const CREATE_TABLE_OPERATION: u8 = 1;

/// Marks changes of rows.
pub const ROW_CHANGES_OPERATION: u8 = 2;

/// Marks a change of an index.
pub const INDEX_OPERATION: u8 = 5;

/// Marks an alteration of a table.
pub const ALTER_TABLE_OPERATION: u8 = 6;

/// Marks the drop of a table.
pub const DROP_TABLE_OPERATION: u8 = 7;

/// Marks a change of the user version.
pub const SET_USER_VERSION_OPERATION: u8 = 8;

/// Marks a change of a view.
pub const VIEW_OPERATION: u8 = 9;

/// One logical operation, independent of its envelope.
#[derive(Debug, PartialEq, Eq)]
pub enum MultiliteOp {
    AlterTable(AlterTableOperation),
    CreateTable(CreateTable),
    DropTable(DropTableOperation),
    ChangeRows(RowChanges),
    Index(IndexOperation),
    SetUserVersion(SetUserVersion),
    View(ViewOperation),
}

/// An operation as a mathematical value.
pub enum OpView {
    AlterTable(AlterView),
    CreateTable(TableView),
    DropTable(DropTableOperationView),
    ChangeRows(RowChangesView),
    Index(IndexOpView),
    SetUserVersion(SetUserVersion),
    View(ViewOperationView),
}

impl View for MultiliteOp {
    type V = OpView;

    open spec fn view(&self) -> OpView {
        match self {
            MultiliteOp::AlterTable(op) => OpView::AlterTable(op@),
            MultiliteOp::CreateTable(op) => OpView::CreateTable(op@),
            MultiliteOp::DropTable(op) => OpView::DropTable(op@),
            MultiliteOp::ChangeRows(op) => OpView::ChangeRows(op@),
            MultiliteOp::Index(op) => OpView::Index(op@),
            MultiliteOp::SetUserVersion(op) => OpView::SetUserVersion(*op),
            MultiliteOp::View(op) => OpView::View(op@),
        }
    }
}

impl Clone for MultiliteOp {
    fn clone(&self) -> (r: Self)
        ensures
            r@ == self@,
    {
        match self {
            MultiliteOp::AlterTable(op) => MultiliteOp::AlterTable(op.clone()),
            MultiliteOp::CreateTable(op) => MultiliteOp::CreateTable(op.clone()),
            MultiliteOp::DropTable(op) => MultiliteOp::DropTable(op.clone()),
            MultiliteOp::ChangeRows(op) => MultiliteOp::ChangeRows(op.clone()),
            MultiliteOp::Index(op) => MultiliteOp::Index(op.clone()),
            MultiliteOp::SetUserVersion(op) => MultiliteOp::SetUserVersion(*op),
            MultiliteOp::View(op) => MultiliteOp::View(op.clone()),
        }
    }
}

/// Why an operation's frame is refused.
#[derive(Debug, PartialEq, Eq)]
pub enum OperationCodecError {
    UnknownVersion(u8),
    Truncated,
    UnknownKind(u8),
    InvalidPayload(String),
}

/// A refusal as a mathematical value.
pub enum OperationErrorView {
    UnknownVersion(u8),
    Truncated,
    UnknownKind(u8),
    InvalidPayload(Seq<char>),
}

impl View for OperationCodecError {
    type V = OperationErrorView;

    open spec fn view(&self) -> OperationErrorView {
        match self {
            OperationCodecError::UnknownVersion(version) => OperationErrorView::UnknownVersion(
                *version,
            ),
            OperationCodecError::Truncated => OperationErrorView::Truncated,
            OperationCodecError::UnknownKind(kind) => OperationErrorView::UnknownKind(*kind),
            OperationCodecError::InvalidPayload(text) => OperationErrorView::InvalidPayload(
                text@,
            ),
        }
    }
}

/// The message of a refusal.
pub open spec fn operation_error_text(error: OperationErrorView) -> Seq<char> {
    match error {
        OperationErrorView::UnknownVersion(version) => "unknown Multilite operation version "@
            + decimal(version as nat),
        OperationErrorView::Truncated => "Multilite operation frame is truncated"@,
        OperationErrorView::UnknownKind(kind) => "unknown Multilite operation kind "@ + decimal(
            kind as nat,
        ),
        OperationErrorView::InvalidPayload(text) => "invalid operation payload: "@ + text,
    }
}

impl OperationCodecError {
    /// The refusal's message.
    pub fn text(&self) -> (r: String)
        ensures
            r@ == operation_error_text(self@),
    {
        match self {
            OperationCodecError::UnknownVersion(version) => joined(
                "unknown Multilite operation version ",
                decimal_text(*version as u64).as_str(),
            ),
            OperationCodecError::Truncated => "Multilite operation frame is truncated".to_owned(),
            OperationCodecError::UnknownKind(kind) => joined(
                "unknown Multilite operation kind ",
                decimal_text(*kind as u64).as_str(),
            ),
            OperationCodecError::InvalidPayload(text) => joined(
                "invalid operation payload: ",
                text.as_str(),
            ),
        }
    }
}

/// The byte that marks an operation's kind.
pub open spec fn operation_code(op: OpView) -> u8 {
    match op {
        OpView::AlterTable(_) => ALTER_TABLE_OPERATION,
        OpView::CreateTable(_) => CREATE_TABLE_OPERATION,
        OpView::DropTable(_) => DROP_TABLE_OPERATION,
        OpView::ChangeRows(_) => ROW_CHANGES_OPERATION,
        OpView::Index(_) => INDEX_OPERATION,
        OpView::SetUserVersion(_) => SET_USER_VERSION_OPERATION,
        OpView::View(_) => VIEW_OPERATION,
    }
}

/// The frame of an operation without its version and kind.
pub open spec fn operation_payload(op: OpView) -> Seq<u8> {
    match op {
        OpView::AlterTable(op) => alter_encoded(op),
        OpView::CreateTable(op) => table_frame(op),
        OpView::DropTable(op) => drop_table_frame(op),
        OpView::ChangeRows(op) => row_changes_frame(op),
        OpView::Index(op) => op.payload,
        OpView::SetUserVersion(op) => user_version_frame(op),
        OpView::View(op) => view_operation_frame(op),
    }
}

/// The frame of an operation.
pub open spec fn operation_frame(op: OpView) -> Seq<u8> {
    seq![OPERATION_FRAME_VERSION, operation_code(op)] + operation_payload(op)
}

/// Whether every field of the frame has a length that a `u32` holds.
pub open spec fn operation_fits(op: OpView) -> bool {
    match op {
        OpView::AlterTable(op) => alter_fits(op),
        OpView::CreateTable(op) => table_fits(op),
        OpView::DropTable(op) => drop_table_fits(op),
        OpView::ChangeRows(op) => row_changes_fits(op),
        OpView::Index(op) => true,
        OpView::SetUserVersion(op) => true,
        OpView::View(op) => view_operation_fits(op),
    }
}

/// Whether an operation is one that decoding can give.
pub open spec fn operation_valid(
    op: OpView,
    parsed: ParsedTexts,
    indexes: Seq<(Seq<u8>, Result<IndexOpView, Seq<char>>)>,
) -> bool {
    match op {
        OpView::AlterTable(op) => alter_valid(op, parsed),
        OpView::CreateTable(op) => table_valid(op),
        OpView::DropTable(op) => drop_table_valid(op) && drop_fault(
            op,
            statement_of(parsed, op.sql),
        ) is None,
        OpView::ChangeRows(op) => row_changes_valid(op),
        OpView::Index(op) => index_read(op.payload, indexes) == Ok::<IndexOpView, Seq<char>>(op),
        OpView::SetUserVersion(op) => op.before != op.after,
        OpView::View(op) => view_operation_valid(op) && view_fault(
            op,
            statement_of(parsed, op.create_sql),
        ) is None,
    }
}

/// What the payload of a kind stands for.
pub open spec fn payload_decoded(
    kind: u8,
    payload: Seq<u8>,
    parsed: ParsedTexts,
    indexes: Seq<(Seq<u8>, Result<IndexOpView, Seq<char>>)>,
) -> Result<OpView, OperationErrorView> {
    if kind == ALTER_TABLE_OPERATION {
        match alter_decoded(payload, parsed) {
            Ok(op) => Ok(OpView::AlterTable(op)),
            Err(error) => Err(OperationErrorView::InvalidPayload(alter_error_text(error))),
        }
    } else if kind == CREATE_TABLE_OPERATION {
        match table_decoded(payload) {
            Ok(op) => Ok(OpView::CreateTable(op)),
            Err(error) => Err(OperationErrorView::InvalidPayload(schema_error_text(error))),
        }
    } else if kind == DROP_TABLE_OPERATION {
        match drop_read(payload, parsed) {
            Ok(op) => Ok(OpView::DropTable(op)),
            Err(error) => Err(OperationErrorView::InvalidPayload(drop_error_text(error))),
        }
    } else if kind == ROW_CHANGES_OPERATION {
        match row_changes_decoded(payload) {
            Ok(op) => Ok(OpView::ChangeRows(op)),
            Err(error) => Err(OperationErrorView::InvalidPayload(row_error_text(error))),
        }
    } else if kind == INDEX_OPERATION {
        match index_read(payload, indexes) {
            Ok(op) => Ok(OpView::Index(op)),
            Err(text) => Err(OperationErrorView::InvalidPayload(text)),
        }
    } else if kind == SET_USER_VERSION_OPERATION {
        match user_version_decoded(payload) {
            Ok(op) => Ok(OpView::SetUserVersion(op)),
            Err(error) => Err(OperationErrorView::InvalidPayload(user_version_error_text(error))),
        }
    } else if kind == VIEW_OPERATION {
        match view_read(payload, parsed) {
            Ok(op) => Ok(OpView::View(op)),
            Err(error) => Err(OperationErrorView::InvalidPayload(view_error_text(error))),
        }
    } else {
        Err(OperationErrorView::UnknownKind(kind))
    }
}

/// What decoding an operation's frame gives, given what texts and payloads of
/// index changes stand for.
#[verifier::opaque]
pub open spec fn operation_decoded(
    b: Seq<u8>,
    parsed: ParsedTexts,
    indexes: Seq<(Seq<u8>, Result<IndexOpView, Seq<char>>)>,
) -> Result<OpView, OperationErrorView> {
    if b.len() == 0 {
        Err(OperationErrorView::Truncated)
    } else if b[0] != OPERATION_FRAME_VERSION {
        Err(OperationErrorView::UnknownVersion(b[0]))
    } else if b.len() == 1 {
        Err(OperationErrorView::Truncated)
    } else {
        payload_decoded(b[1], b.subrange(2, b.len() as int), parsed, indexes)
    }
}

/// What is left of a decoded operation.
pub open spec fn operation_outcome(r: Result<MultiliteOp, OperationCodecError>) -> Result<
    OpView,
    OperationErrorView,
> {
    match r {
        Ok(op) => Ok(op@),
        Err(error) => Err(error@),
    }
}

impl MultiliteOp {
    /// Mint the identities of one table creation.
    pub fn create_table(sql: &str, spec: CreateTableSpec) -> (r: MultiliteOp)
        requires
            spec@.foreign_keys.len() == 0,
            names_known(spec@),
        ensures
            r matches MultiliteOp::CreateTable(created) && table_matches(created@, sql@, spec@)
                && created@.foreign_keys.len() == 0,
    {
        MultiliteOp::CreateTable(CreateTable::new(sql, spec))
    }

    /// Encode one complete operation.
    pub fn encode(&self) -> (r: Vec<u8>)
        requires
            operation_fits(self@),
        ensures
            r@ == operation_frame(self@),
    {
        let (kind, payload) = match self {
            MultiliteOp::AlterTable(op) => (ALTER_TABLE_OPERATION, op.encode()),
            MultiliteOp::CreateTable(op) => (CREATE_TABLE_OPERATION, op.encode()),
            MultiliteOp::DropTable(op) => (DROP_TABLE_OPERATION, op.encode()),
            MultiliteOp::ChangeRows(op) => (ROW_CHANGES_OPERATION, op.encode()),
            MultiliteOp::Index(op) => (INDEX_OPERATION, op.encode()),
            MultiliteOp::SetUserVersion(op) => (SET_USER_VERSION_OPERATION, op.encode()),
            MultiliteOp::View(op) => (VIEW_OPERATION, op.encode()),
        };
        let mut r: Vec<u8> = Vec::new();
        r.push(OPERATION_FRAME_VERSION);
        r.push(kind);
        append_bytes(&mut r, payload.as_slice());
        assert(r@ =~= operation_frame(self@));
        r
    }

    /// Decode and validate one complete operation, given what texts and payloads of
    /// index changes stand for.
    pub fn decode(frame: &[u8], statements: &Statements, indexes: &Indexes) -> (r: Result<
        MultiliteOp,
        OperationCodecError,
    >)
        ensures
            operation_outcome(r) == operation_decoded(frame@, statements@, indexes@),
    {
        reveal(operation_decoded);
        let mut reader = Reader::new(frame);
        let version: u8 = match reader.u8() {
            None => {
                return Err(OperationCodecError::Truncated);
            },
            Some(version) => version,
        };
        if version != OPERATION_FRAME_VERSION {
            return Err(OperationCodecError::UnknownVersion(version));
        }
        let kind: u8 = match reader.u8() {
            None => {
                return Err(OperationCodecError::Truncated);
            },
            Some(kind) => kind,
        };
        let payload = reader.rest();
        assert(payload@ =~= frame@.subrange(2, frame@.len() as int));
        if kind == ALTER_TABLE_OPERATION {
            match AlterTableOperation::decode(payload, statements) {
                Ok(op) => Ok(MultiliteOp::AlterTable(op)),
                Err(error) => Err(OperationCodecError::InvalidPayload(error.text())),
            }
        } else if kind == CREATE_TABLE_OPERATION {
            match CreateTable::decode(payload) {
                Ok(op) => Ok(MultiliteOp::CreateTable(op)),
                Err(error) => Err(OperationCodecError::InvalidPayload(error.text())),
            }
        } else if kind == DROP_TABLE_OPERATION {
            match DropTableOperation::decode(payload, statements) {
                Ok(op) => Ok(MultiliteOp::DropTable(op)),
                Err(error) => Err(OperationCodecError::InvalidPayload(error.text())),
            }
        } else if kind == ROW_CHANGES_OPERATION {
            match RowChanges::decode(payload) {
                Ok(op) => Ok(MultiliteOp::ChangeRows(op)),
                Err(error) => Err(OperationCodecError::InvalidPayload(error.text())),
            }
        } else if kind == INDEX_OPERATION {
            match IndexOperation::decode(payload, indexes) {
                Ok(op) => Ok(MultiliteOp::Index(op)),
                Err(text) => Err(OperationCodecError::InvalidPayload(text)),
            }
        } else if kind == SET_USER_VERSION_OPERATION {
            match SetUserVersion::decode(payload) {
                Ok(op) => Ok(MultiliteOp::SetUserVersion(op)),
                Err(error) => Err(OperationCodecError::InvalidPayload(error.text())),
            }
        } else if kind == VIEW_OPERATION {
            match ViewOperation::decode(payload, statements) {
                Ok(op) => Ok(MultiliteOp::View(op)),
                Err(error) => Err(OperationCodecError::InvalidPayload(error.text())),
            }
        } else {
            Err(OperationCodecError::UnknownKind(kind))
        }
    }
}

/// Decoding the frame of an operation gives it back.
pub proof fn operation_roundtrip(
    op: OpView,
    parsed: ParsedTexts,
    indexes: Seq<(Seq<u8>, Result<IndexOpView, Seq<char>>)>,
)
    requires
        operation_valid(op, parsed, indexes),
        operation_fits(op),
    ensures
        operation_decoded(operation_frame(op), parsed, indexes) == Ok::<OpView, OperationErrorView>(
            op,
        ),
{
    reveal(operation_decoded);
    let b = operation_frame(op);
    assert(b.subrange(2, b.len() as int) =~= operation_payload(op));
    match op {
        OpView::AlterTable(op) => {
            alter_roundtrip(op, parsed);
        },
        OpView::CreateTable(op) => {
            table_roundtrip(op);
        },
        OpView::DropTable(op) => {
            drop_roundtrip(op, parsed);
        },
        OpView::ChangeRows(op) => {
            row_changes_roundtrip(op);
        },
        OpView::Index(op) => {},
        OpView::SetUserVersion(op) => {
            user_version_roundtrip(op);
        },
        OpView::View(op) => {
            view_roundtrip(op, parsed);
        },
    }
}

/// A decoded operation is valid and can be written again, in no more bytes.
pub proof fn operation_shrinks(
    b: Seq<u8>,
    parsed: ParsedTexts,
    indexes: Seq<(Seq<u8>, Result<IndexOpView, Seq<char>>)>,
)
    requires
        indexes_closed(indexes),
    ensures
        operation_decoded(b, parsed, indexes) matches Ok(op) ==> operation_valid(
            op,
            parsed,
            indexes,
        ) && operation_fits(op) && operation_frame(op).len() <= b.len(),
{
    reveal(operation_decoded);
    if b.len() >= 2 {
        let payload = b.subrange(2, b.len() as int);
        alter_shrinks(payload, parsed);
        table_shrinks(payload);
        drop_shrinks(payload, parsed);
        row_changes_shrinks(payload);
        index_shrinks(payload, indexes);
        view_shrinks(payload, parsed);
    }
}

} // verus!
