//! Why a row frame or a row operation is refused.

use crate::error::Error;
use crate::key::KeyError;
use crate::text::{decimal, decimal_text, joined};
use vstd::prelude::*;

verus! {

/// Failure to read, build, or validate rows.
#[derive(Clone, Copy, Debug, PartialEq, Eq, Structural)]
pub enum RowCodecError {
    UnknownVersion,
    Truncated,
    DuplicateField,
    MissingField(u8),
    InvalidLength,
    InvalidUuid,
    InvalidValue,
    InvalidRow,
    DuplicateRow,
    DuplicateUniqueKey,
    TooManyChanges,
    FrameTooLarge,
    NullPrimaryKey,
    InvalidKey(KeyError),
    InvalidBatch,
}

/// The message of a row error.
pub open spec fn row_error_text(error: RowCodecError) -> Seq<char> {
    match error {
        RowCodecError::UnknownVersion => "unknown row frame version"@,
        RowCodecError::Truncated => "truncated row frame"@,
        RowCodecError::DuplicateField => "duplicate row field"@,
        RowCodecError::MissingField(tag) => "missing row field "@ + decimal(tag as nat),
        RowCodecError::InvalidLength => "invalid row field length"@,
        RowCodecError::InvalidUuid => "row identity is not a UUID v4"@,
        RowCodecError::InvalidValue => "invalid stored SQLite value"@,
        RowCodecError::InvalidRow => "invalid row frame"@,
        RowCodecError::DuplicateRow => "row operation contains a duplicate logical row"@,
        RowCodecError::DuplicateUniqueKey => "row operation contains a duplicate UNIQUE key"@,
        RowCodecError::TooManyChanges => "row operation contains too many changes"@,
        RowCodecError::FrameTooLarge => "row operation frame is too large"@,
        RowCodecError::NullPrimaryKey => "primary key value is NULL"@,
        RowCodecError::InvalidKey(KeyError::ComponentTooLong) =>
            "invalid Homebase row key: component is too long"@,
        RowCodecError::InvalidBatch => "admitted row operation has an invalid envelope"@,
    }
}

impl RowCodecError {
    /// The error's message.
    pub fn text(self) -> (r: String)
        ensures
            r@ == row_error_text(self),
    {
        match self {
            RowCodecError::UnknownVersion => "unknown row frame version".to_owned(),
            RowCodecError::Truncated => "truncated row frame".to_owned(),
            RowCodecError::DuplicateField => "duplicate row field".to_owned(),
            RowCodecError::MissingField(tag) => joined(
                "missing row field ",
                decimal_text(tag as u64).as_str(),
            ),
            RowCodecError::InvalidLength => "invalid row field length".to_owned(),
            RowCodecError::InvalidUuid => "row identity is not a UUID v4".to_owned(),
            RowCodecError::InvalidValue => "invalid stored SQLite value".to_owned(),
            RowCodecError::InvalidRow => "invalid row frame".to_owned(),
            RowCodecError::DuplicateRow =>
                "row operation contains a duplicate logical row".to_owned(),
            RowCodecError::DuplicateUniqueKey =>
                "row operation contains a duplicate UNIQUE key".to_owned(),
            RowCodecError::TooManyChanges =>
                "row operation contains too many changes".to_owned(),
            RowCodecError::FrameTooLarge => "row operation frame is too large".to_owned(),
            RowCodecError::NullPrimaryKey => "primary key value is NULL".to_owned(),
            RowCodecError::InvalidKey(KeyError::ComponentTooLong) =>
                "invalid Homebase row key: component is too long".to_owned(),
            RowCodecError::InvalidBatch =>
                "admitted row operation has an invalid envelope".to_owned(),
        }
    }

    /// The error as that of a malformed operation.
    pub fn into_operation(self) -> (r: Error)
        ensures
            r matches Error::InvalidMultiliteOp(text) && text@ == row_error_text(self),
    {
        Error::InvalidMultiliteOp(self.text())
    }
}

} // verus!
