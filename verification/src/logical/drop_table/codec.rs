//! Field payloads of the DROP TABLE frame.

use super::error::DropTableCodecError;
use crate::codec::outcome;
use crate::identity::{random_uuid, uuid_bytes, UuidError};
use crate::logical::schema::definition::{table_decoded, CreateTable, TableView};
use crate::name::{read_text, text_result, SqlName};
use vstd::prelude::*;
use vstd::utf8::*;

verus! {

/// What reading an identity gives.
pub open spec fn uuid_field(value: Seq<u8>) -> Result<Seq<u8>, DropTableCodecError> {
    if value.len() != 16 {
        Err(DropTableCodecError::InvalidLength)
    } else if !random_uuid(value) {
        Err(DropTableCodecError::InvalidUuid)
    } else {
        Ok(value)
    }
}

/// Read an identity.
pub fn read_uuid(value: &[u8]) -> (r: Result<[u8; 16], DropTableCodecError>)
    ensures
        match r {
            Ok(bytes) => uuid_field(value@) == Ok::<Seq<u8>, DropTableCodecError>(bytes@),
            Err(error) => uuid_field(value@) == Err::<Seq<u8>, DropTableCodecError>(error),
        },
{
    match uuid_bytes(value) {
        Ok(bytes) => Ok(bytes),
        Err(UuidError::Length) => Err(DropTableCodecError::InvalidLength),
        Err(UuidError::Kind) => Err(DropTableCodecError::InvalidUuid),
    }
}

/// What reading text gives.
pub open spec fn text_field(value: Seq<u8>) -> Result<Seq<char>, DropTableCodecError> {
    match text_result(value) {
        Some(text) => Ok(text),
        None => Err(DropTableCodecError::InvalidUtf8),
    }
}

/// Read text.
pub fn read_string(value: &[u8]) -> (r: Result<String, DropTableCodecError>)
    ensures
        outcome(r) == text_field(value@),
{
    match read_text(value) {
        Some(text) => Ok(text),
        None => Err(DropTableCodecError::InvalidUtf8),
    }
}

/// Read a name.
pub fn read_name(value: &[u8]) -> (r: Result<SqlName, DropTableCodecError>)
    ensures
        outcome(r) == text_field(value@),
{
    match read_text(value) {
        Some(text) => Ok(SqlName::new(text)),
        None => Err(DropTableCodecError::InvalidUtf8),
    }
}

/// Written text is read back.
pub proof fn lemma_text_field(text: Seq<char>)
    ensures
        text_field(encode_utf8(text)) == Ok::<Seq<char>, DropTableCodecError>(text),
{
    encode_utf8_decode_utf8(text);
    encode_utf8_valid_utf8(text);
}

/// Read text is written in as many bytes.
pub proof fn lemma_text_shrinks(value: Seq<u8>)
    ensures
        text_field(value) matches Ok(text) ==> encode_utf8(text) == value,
{
    if valid_utf8(value) {
        decode_utf8_encode_utf8(value);
    }
}

/// What reading a table definition gives.
pub open spec fn schema_field(value: Seq<u8>) -> Result<TableView, DropTableCodecError> {
    match table_decoded(value) {
        Ok(table) => Ok(table),
        Err(_) => Err(DropTableCodecError::InvalidSchema),
    }
}

/// Read a table definition.
pub fn read_schema(value: &[u8]) -> (r: Result<CreateTable, DropTableCodecError>)
    ensures
        outcome(r) == schema_field(value@),
{
    match CreateTable::decode(value) {
        Ok(table) => Ok(table),
        Err(_) => Err(DropTableCodecError::InvalidSchema),
    }
}

} // verus!
