//! Field payloads of the view frames.

use super::error::ViewCodecError;
use super::frame::ViewAction;
use crate::codec::outcome;
use crate::identity::{random_uuid, uuid_bytes, UuidError};
use crate::name::{read_text, text_result, SqlName};
use vstd::prelude::*;
use vstd::utf8::*;

verus! {

/// What reading an identity gives.
pub open spec fn uuid_field(value: Seq<u8>) -> Result<Seq<u8>, ViewCodecError> {
    if value.len() != 16 {
        Err(ViewCodecError::InvalidLength)
    } else if !random_uuid(value) {
        Err(ViewCodecError::InvalidUuid)
    } else {
        Ok(value)
    }
}

/// Read an identity.
pub fn read_uuid(value: &[u8]) -> (r: Result<[u8; 16], ViewCodecError>)
    ensures
        match r {
            Ok(bytes) => uuid_field(value@) == Ok::<Seq<u8>, ViewCodecError>(bytes@),
            Err(error) => uuid_field(value@) == Err::<Seq<u8>, ViewCodecError>(error),
        },
{
    match uuid_bytes(value) {
        Ok(bytes) => Ok(bytes),
        Err(UuidError::Length) => Err(ViewCodecError::InvalidLength),
        Err(UuidError::Kind) => Err(ViewCodecError::InvalidUuid),
    }
}

/// What reading text gives.
pub open spec fn text_field(value: Seq<u8>) -> Result<Seq<char>, ViewCodecError> {
    match text_result(value) {
        Some(text) => Ok(text),
        None => Err(ViewCodecError::InvalidUtf8),
    }
}

/// Read text.
pub fn read_string(value: &[u8]) -> (r: Result<String, ViewCodecError>)
    ensures
        outcome(r) == text_field(value@),
{
    match read_text(value) {
        Some(text) => Ok(text),
        None => Err(ViewCodecError::InvalidUtf8),
    }
}

/// Read a name.
pub fn read_name(value: &[u8]) -> (r: Result<SqlName, ViewCodecError>)
    ensures
        outcome(r) == text_field(value@),
{
    match read_text(value) {
        Some(text) => Ok(SqlName::new(text)),
        None => Err(ViewCodecError::InvalidUtf8),
    }
}

/// Written text is read back.
pub proof fn lemma_text_field(text: Seq<char>)
    ensures
        text_field(encode_utf8(text)) == Ok::<Seq<char>, ViewCodecError>(text),
{
    encode_utf8_decode_utf8(text);
    encode_utf8_valid_utf8(text);
}

/// Read text is written in as many bytes.
pub proof fn lemma_text_shrinks(value: Seq<u8>)
    ensures
        text_field(value) matches Ok(text) ==> encode_utf8(text) == value,
{
    if valid_utf8(value) {
        decode_utf8_encode_utf8(value);
    }
}

/// What reading an action gives.
pub open spec fn view_action_field(value: Seq<u8>) -> Result<ViewAction, ViewCodecError> {
    if value.len() != 1 {
        Err(ViewCodecError::InvalidLength)
    } else {
        match ViewAction::of_code(value[0]) {
            Some(found) => Ok(found),
            None => Err(ViewCodecError::InvalidAction),
        }
    }
}

/// Read an action.
pub fn read_view_action(value: &[u8]) -> (r: Result<ViewAction, ViewCodecError>)
    ensures
        r == view_action_field(value@),
{
    if value.len() != 1 {
        return Err(ViewCodecError::InvalidLength);
    }
    match ViewAction::from_u8(value[0]) {
        Some(found) => Ok(found),
        None => Err(ViewCodecError::InvalidAction),
    }
}

} // verus!
