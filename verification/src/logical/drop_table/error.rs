//! Why a DROP TABLE frame is refused.

use crate::error::{Error, ErrorView};
use crate::text::{decimal, decimal_text, joined};
use vstd::prelude::*;

verus! {

/// Failure to read or validate the drop of a table.
#[derive(Clone, Copy, Debug, PartialEq, Eq, Structural)]
pub enum DropTableCodecError {
    UnknownVersion,
    Truncated,
    DuplicateField,
    MissingField(u8),
    InvalidLength,
    InvalidUtf8,
    InvalidUuid,
    InvalidSql,
    SqlMismatch,
    InvalidSchema,
}

/// The message of a drop error.
pub open spec fn drop_error_text(error: DropTableCodecError) -> Seq<char> {
    match error {
        DropTableCodecError::UnknownVersion => "UnknownVersion"@,
        DropTableCodecError::Truncated => "Truncated"@,
        DropTableCodecError::DuplicateField => "DuplicateField"@,
        DropTableCodecError::InvalidLength => "InvalidLength"@,
        DropTableCodecError::InvalidUtf8 => "InvalidUtf8"@,
        DropTableCodecError::InvalidUuid => "InvalidUuid"@,
        DropTableCodecError::InvalidSql => "InvalidSql"@,
        DropTableCodecError::SqlMismatch => "SqlMismatch"@,
        DropTableCodecError::InvalidSchema => "InvalidSchema"@,
        DropTableCodecError::MissingField(tag) => "MissingField("@ + decimal(tag as nat) + ")"@,
    }
}

impl DropTableCodecError {
    /// The error's message.
    pub fn text(self) -> (r: String)
        ensures
            r@ == drop_error_text(self),
    {
        match self {
            DropTableCodecError::UnknownVersion => "UnknownVersion".to_owned(),
            DropTableCodecError::Truncated => "Truncated".to_owned(),
            DropTableCodecError::DuplicateField => "DuplicateField".to_owned(),
            DropTableCodecError::InvalidLength => "InvalidLength".to_owned(),
            DropTableCodecError::InvalidUtf8 => "InvalidUtf8".to_owned(),
            DropTableCodecError::InvalidUuid => "InvalidUuid".to_owned(),
            DropTableCodecError::InvalidSql => "InvalidSql".to_owned(),
            DropTableCodecError::SqlMismatch => "SqlMismatch".to_owned(),
            DropTableCodecError::InvalidSchema => "InvalidSchema".to_owned(),
            DropTableCodecError::MissingField(tag) => joined(joined("MissingField(", decimal_text(tag as u64).as_str()).as_str(), ")"),
        }
    }
}

/// The refusal of a malformed operation.
pub open spec fn drop_refusal(error: DropTableCodecError) -> ErrorView {
    ErrorView::InvalidMultiliteOp("invalid DROP TABLE operation: "@ + drop_error_text(error))
}

/// The error as that of a malformed operation.
pub fn invalid_operation(error: DropTableCodecError) -> (r: Error)
    ensures
        r@ == drop_refusal(error),
{
    Error::InvalidMultiliteOp(joined("invalid DROP TABLE operation: ", error.text().as_str()))
}

} // verus!
