//! Why an ALTER TABLE frame is refused.

use crate::error::{Error, ErrorView};
use crate::text::{decimal, decimal_text, joined};
use vstd::prelude::*;

verus! {

/// Failure to read or validate an alteration.
#[derive(Clone, Copy, Debug, PartialEq, Eq, Structural)]
pub enum AlterTableCodecError {
    UnknownVersion,
    Truncated,
    DuplicateField,
    MissingField(u8),
    InvalidLength,
    InvalidUtf8,
    InvalidUuid,
    InvalidSql,
    InvalidRename,
    InvalidAction,
    InvalidSchema,
}

/// The message of an alteration error.
pub open spec fn alter_error_text(error: AlterTableCodecError) -> Seq<char> {
    match error {
        AlterTableCodecError::UnknownVersion => "unknown ALTER TABLE frame version"@,
        AlterTableCodecError::Truncated => "truncated ALTER TABLE frame"@,
        AlterTableCodecError::DuplicateField => "duplicate ALTER TABLE field"@,
        AlterTableCodecError::InvalidLength => "invalid ALTER TABLE field length"@,
        AlterTableCodecError::InvalidUtf8 => "ALTER TABLE text is not UTF-8"@,
        AlterTableCodecError::InvalidUuid => "ALTER TABLE identity is not a UUID v4"@,
        AlterTableCodecError::InvalidSql => "invalid ALTER TABLE SQL"@,
        AlterTableCodecError::InvalidRename => "ALTER TABLE SQL contradicts its stable binding change"@,
        AlterTableCodecError::InvalidAction => "invalid ALTER TABLE action"@,
        AlterTableCodecError::InvalidSchema => "invalid ALTER TABLE schema evolution"@,
        AlterTableCodecError::MissingField(tag) => "missing ALTER TABLE field "@ + decimal(tag as nat),
    }
}

impl AlterTableCodecError {
    /// The error's message.
    pub fn text(self) -> (r: String)
        ensures
            r@ == alter_error_text(self),
    {
        match self {
            AlterTableCodecError::UnknownVersion => "unknown ALTER TABLE frame version".to_owned(),
            AlterTableCodecError::Truncated => "truncated ALTER TABLE frame".to_owned(),
            AlterTableCodecError::DuplicateField => "duplicate ALTER TABLE field".to_owned(),
            AlterTableCodecError::InvalidLength => "invalid ALTER TABLE field length".to_owned(),
            AlterTableCodecError::InvalidUtf8 => "ALTER TABLE text is not UTF-8".to_owned(),
            AlterTableCodecError::InvalidUuid => "ALTER TABLE identity is not a UUID v4".to_owned(),
            AlterTableCodecError::InvalidSql => "invalid ALTER TABLE SQL".to_owned(),
            AlterTableCodecError::InvalidRename => "ALTER TABLE SQL contradicts its stable binding change".to_owned(),
            AlterTableCodecError::InvalidAction => "invalid ALTER TABLE action".to_owned(),
            AlterTableCodecError::InvalidSchema => "invalid ALTER TABLE schema evolution".to_owned(),
            AlterTableCodecError::MissingField(tag) => joined("missing ALTER TABLE field ", decimal_text(tag as u64).as_str()),
        }
    }
}

/// The error as that of a malformed operation.
pub fn invalid_operation(error: AlterTableCodecError) -> (r: Error)
    ensures
        r@ == ErrorView::InvalidMultiliteOp(alter_error_text(error)),
{
    Error::InvalidMultiliteOp(error.text())
}

} // verus!
