//! Why a schema frame or a schema change is refused.

use crate::text::{decimal, decimal_text, joined};
use vstd::prelude::*;

verus! {

/// Failure to read or evolve a table definition.
#[derive(Clone, Copy, Debug, PartialEq, Eq, Structural)]
pub enum SchemaCodecError {
    UnknownVersion,
    Truncated,
    DuplicateField,
    MissingField(u8),
    InvalidLength,
    InvalidUuid,
    InvalidUtf8,
    InvalidSchema,
}

/// The message of a schema error.
pub open spec fn schema_error_text(error: SchemaCodecError) -> Seq<char> {
    match error {
        SchemaCodecError::UnknownVersion => "unknown schema frame version"@,
        SchemaCodecError::Truncated => "truncated schema frame"@,
        SchemaCodecError::DuplicateField => "duplicate schema field"@,
        SchemaCodecError::InvalidLength => "invalid schema field length"@,
        SchemaCodecError::InvalidUuid => "schema identity is not a UUID v4"@,
        SchemaCodecError::InvalidUtf8 => "schema text is not UTF-8"@,
        SchemaCodecError::InvalidSchema => "invalid schema definition"@,
        SchemaCodecError::MissingField(tag) => "missing schema field "@ + decimal(tag as nat),
    }
}

impl SchemaCodecError {
    /// The error's message.
    pub fn text(self) -> (r: String)
        ensures
            r@ == schema_error_text(self),
    {
        match self {
            SchemaCodecError::UnknownVersion => "unknown schema frame version".to_owned(),
            SchemaCodecError::Truncated => "truncated schema frame".to_owned(),
            SchemaCodecError::DuplicateField => "duplicate schema field".to_owned(),
            SchemaCodecError::InvalidLength => "invalid schema field length".to_owned(),
            SchemaCodecError::InvalidUuid => "schema identity is not a UUID v4".to_owned(),
            SchemaCodecError::InvalidUtf8 => "schema text is not UTF-8".to_owned(),
            SchemaCodecError::InvalidSchema => "invalid schema definition".to_owned(),
            SchemaCodecError::MissingField(tag) => joined("missing schema field ", decimal_text(tag as u64).as_str()),
        }
    }
}

} // verus!
