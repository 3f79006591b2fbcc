//! Field payloads of the ALTER TABLE frame.

use super::error::AlterTableCodecError;
use crate::codec::{outcome, view_of};
use crate::identity::{random_uuid, uuid_bytes, UuidError};
use crate::logical::schema::definition::{table_decoded, CreateTable, TableView};
use crate::name::{read_text, text_result, SqlName};
use vstd::prelude::*;
use vstd::utf8::*;

verus! {

/// What reading an identity gives.
pub open spec fn uuid_field(value: Seq<u8>) -> Result<Seq<u8>, AlterTableCodecError> {
    if value.len() != 16 {
        Err(AlterTableCodecError::InvalidLength)
    } else if !random_uuid(value) {
        Err(AlterTableCodecError::InvalidUuid)
    } else {
        Ok(value)
    }
}

/// Read an identity.
pub fn read_uuid(value: &[u8]) -> (r: Result<[u8; 16], AlterTableCodecError>)
    ensures
        match r {
            Ok(bytes) => uuid_field(value@) == Ok::<Seq<u8>, AlterTableCodecError>(bytes@),
            Err(error) => uuid_field(value@) == Err::<Seq<u8>, AlterTableCodecError>(error),
        },
{
    match uuid_bytes(value) {
        Ok(bytes) => Ok(bytes),
        Err(UuidError::Length) => Err(AlterTableCodecError::InvalidLength),
        Err(UuidError::Kind) => Err(AlterTableCodecError::InvalidUuid),
    }
}

/// What reading text gives.
pub open spec fn text_field(value: Seq<u8>) -> Result<Seq<char>, AlterTableCodecError> {
    match text_result(value) {
        Some(text) => Ok(text),
        None => Err(AlterTableCodecError::InvalidUtf8),
    }
}

/// Read text.
pub fn read_string(value: &[u8]) -> (r: Result<String, AlterTableCodecError>)
    ensures
        outcome(r) == text_field(value@),
{
    match read_text(value) {
        Some(text) => Ok(text),
        None => Err(AlterTableCodecError::InvalidUtf8),
    }
}

/// Read a name.
pub fn read_name(value: &[u8]) -> (r: Result<SqlName, AlterTableCodecError>)
    ensures
        outcome(r) == text_field(value@),
{
    match read_text(value) {
        Some(text) => Ok(SqlName::new(text)),
        None => Err(AlterTableCodecError::InvalidUtf8),
    }
}

/// Written text is read back.
pub proof fn lemma_text_field(text: Seq<char>)
    ensures
        text_field(encode_utf8(text)) == Ok::<Seq<char>, AlterTableCodecError>(text),
{
    encode_utf8_decode_utf8(text);
    encode_utf8_valid_utf8(text);
}

/// Read text is written in as many bytes.
pub proof fn lemma_text_shrinks(value: Seq<u8>)
    ensures
        text_field(value) matches Ok(text) ==> encode_utf8(text) == value,
{
    if valid_utf8(value) {
        decode_utf8_encode_utf8(value);
    }
}

/// What reading a byte gives.
pub open spec fn byte_field(value: Seq<u8>) -> Result<u8, AlterTableCodecError> {
    if value.len() != 1 {
        Err(AlterTableCodecError::InvalidLength)
    } else {
        Ok(value[0])
    }
}

/// Read a byte.
pub fn read_byte(value: &[u8]) -> (r: Result<u8, AlterTableCodecError>)
    ensures
        r == byte_field(value@),
{
    if value.len() != 1 {
        return Err(AlterTableCodecError::InvalidLength);
    }
    Ok(value[0])
}

/// What reading a table definition gives.
pub open spec fn schema_field(value: Seq<u8>) -> Result<TableView, AlterTableCodecError> {
    match table_decoded(value) {
        Ok(table) => Ok(table),
        Err(_) => Err(AlterTableCodecError::InvalidSchema),
    }
}

/// Read a table definition.
pub fn read_schema(value: &[u8]) -> (r: Result<CreateTable, AlterTableCodecError>)
    ensures
        outcome(r) == schema_field(value@),
{
    match CreateTable::decode(value) {
        Ok(table) => Ok(table),
        Err(_) => Err(AlterTableCodecError::InvalidSchema),
    }
}

/// Whether two optional values are equal.
pub fn same_optional_create_table(a: &Option<CreateTable>, b: &Option<CreateTable>) -> (r: bool)
    ensures
        r == (view_of(*a) == view_of(*b)),
{
    match (a, b) {
        (None, None) => true,
        (Some(a), Some(b)) => a.same(b),
        _ => false,
    }
}

} // verus!
