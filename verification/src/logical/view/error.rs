//! Why a view frame is refused.

use crate::error::{Error, ErrorView};
use crate::text::{decimal, decimal_text, joined};
use vstd::prelude::*;

verus! {

/// Failure to read or validate a change of a view.
#[derive(Clone, Copy, Debug, PartialEq, Eq, Structural)]
pub enum ViewCodecError {
    UnknownVersion,
    Truncated,
    DuplicateField,
    MissingField(u8),
    InvalidLength,
    InvalidUtf8,
    InvalidUuid,
    InvalidAction,
    InvalidSql,
    SqlMismatch,
    InvalidDependencies,
}

/// The message of a view error.
pub open spec fn view_error_text(error: ViewCodecError) -> Seq<char> {
    match error {
        ViewCodecError::UnknownVersion => "UnknownVersion"@,
        ViewCodecError::Truncated => "Truncated"@,
        ViewCodecError::DuplicateField => "DuplicateField"@,
        ViewCodecError::InvalidLength => "InvalidLength"@,
        ViewCodecError::InvalidUtf8 => "InvalidUtf8"@,
        ViewCodecError::InvalidUuid => "InvalidUuid"@,
        ViewCodecError::InvalidAction => "InvalidAction"@,
        ViewCodecError::InvalidSql => "InvalidSql"@,
        ViewCodecError::SqlMismatch => "SqlMismatch"@,
        ViewCodecError::InvalidDependencies => "InvalidDependencies"@,
        ViewCodecError::MissingField(tag) => "MissingField("@ + decimal(tag as nat) + ")"@,
    }
}

impl ViewCodecError {
    /// The error's message.
    pub fn text(self) -> (r: String)
        ensures
            r@ == view_error_text(self),
    {
        match self {
            ViewCodecError::UnknownVersion => "UnknownVersion".to_owned(),
            ViewCodecError::Truncated => "Truncated".to_owned(),
            ViewCodecError::DuplicateField => "DuplicateField".to_owned(),
            ViewCodecError::InvalidLength => "InvalidLength".to_owned(),
            ViewCodecError::InvalidUtf8 => "InvalidUtf8".to_owned(),
            ViewCodecError::InvalidUuid => "InvalidUuid".to_owned(),
            ViewCodecError::InvalidAction => "InvalidAction".to_owned(),
            ViewCodecError::InvalidSql => "InvalidSql".to_owned(),
            ViewCodecError::SqlMismatch => "SqlMismatch".to_owned(),
            ViewCodecError::InvalidDependencies => "InvalidDependencies".to_owned(),
            ViewCodecError::MissingField(tag) => joined(joined("MissingField(", decimal_text(tag as u64).as_str()).as_str(), ")"),
        }
    }
}

/// The error as that of a malformed operation.
pub fn invalid_operation(error: ViewCodecError) -> (r: Error)
    ensures
        r@ == ErrorView::InvalidMultiliteOp(view_error_text(error)),
{
    Error::InvalidMultiliteOp(error.text())
}

} // verus!
