//! Field payloads shared by the row frames.

use super::error::RowCodecError;
use crate::identity::{random_uuid, uuid_bytes, UuidError};
use crate::logical::types::{Affinity, TableStorage};
use crate::value::{value_decoded, StoredValue, StoredValueCodecError, ValueView};
use vstd::prelude::*;

verus! {

/// What reading an identity gives.
pub open spec fn uuid_field(value: Seq<u8>) -> Result<Seq<u8>, RowCodecError> {
    if value.len() != 16 {
        Err(RowCodecError::InvalidLength)
    } else if !random_uuid(value) {
        Err(RowCodecError::InvalidUuid)
    } else {
        Ok(value)
    }
}

/// Read an identity.
pub fn read_uuid(value: &[u8]) -> (r: Result<[u8; 16], RowCodecError>)
    ensures
        match r {
            Ok(bytes) => uuid_field(value@) == Ok::<Seq<u8>, RowCodecError>(bytes@),
            Err(error) => uuid_field(value@) == Err::<Seq<u8>, RowCodecError>(error),
        },
{
    match uuid_bytes(value) {
        Ok(bytes) => Ok(bytes),
        Err(UuidError::Length) => Err(RowCodecError::InvalidLength),
        Err(UuidError::Kind) => Err(RowCodecError::InvalidUuid),
    }
}

/// The fields of a list of identities under one tag.
pub open spec fn bytes_list(tag: u8, items: Seq<Seq<u8>>) -> Seq<(u8, Seq<u8>)> {
    Seq::new(items.len(), |i: int| (tag, items[i]))
}

/// A payload of one byte.
pub fn one_byte(byte: u8) -> (r: Vec<u8>)
    ensures
        r@ == seq![byte],
{
    let mut r: Vec<u8> = Vec::new();
    r.push(byte);
    assert(r@ =~= seq![byte]);
    r
}

/// What reading an affinity gives.
pub open spec fn affinity_field(value: Seq<u8>) -> Result<Affinity, RowCodecError> {
    if value.len() != 1 {
        Err(RowCodecError::InvalidLength)
    } else {
        match Affinity::of_code(value[0]) {
            Some(affinity) => Ok(affinity),
            None => Err(RowCodecError::InvalidRow),
        }
    }
}

/// Read an affinity.
pub fn read_affinity(value: &[u8]) -> (r: Result<Affinity, RowCodecError>)
    ensures
        r == affinity_field(value@),
{
    if value.len() != 1 {
        return Err(RowCodecError::InvalidLength);
    }
    match Affinity::from_u8(value[0]) {
        Some(affinity) => Ok(affinity),
        None => Err(RowCodecError::InvalidRow),
    }
}

/// What reading a table's storage gives.
pub open spec fn table_storage_field(value: Seq<u8>) -> Result<TableStorage, RowCodecError> {
    if value.len() != 1 {
        Err(RowCodecError::InvalidLength)
    } else {
        match TableStorage::of_code(value[0]) {
            Some(storage) => Ok(storage),
            None => Err(RowCodecError::InvalidRow),
        }
    }
}

/// Read a table's storage.
pub fn read_table_storage(value: &[u8]) -> (r: Result<TableStorage, RowCodecError>)
    ensures
        r == table_storage_field(value@),
{
    if value.len() != 1 {
        return Err(RowCodecError::InvalidLength);
    }
    match TableStorage::from_u8(value[0]) {
        Some(storage) => Ok(storage),
        None => Err(RowCodecError::InvalidRow),
    }
}

/// The payload of a flag.
pub open spec fn flag_bytes(flag: bool) -> Seq<u8> {
    if flag {
        seq![1u8]
    } else {
        seq![0u8]
    }
}

/// What reading a flag gives: only the lowest bit may be set.
pub open spec fn flag_field(value: Seq<u8>) -> Result<bool, RowCodecError> {
    if value.len() != 1 {
        Err(RowCodecError::InvalidLength)
    } else if value[0] > 1 {
        Err(RowCodecError::InvalidRow)
    } else {
        Ok(value[0] == 1)
    }
}

/// Read a flag.
pub fn read_flag(value: &[u8]) -> (r: Result<bool, RowCodecError>)
    ensures
        r == flag_field(value@),
{
    if value.len() != 1 {
        return Err(RowCodecError::InvalidLength);
    }
    if value[0] > 1 {
        return Err(RowCodecError::InvalidRow);
    }
    Ok(value[0] == 1)
}

/// What reading a stored value gives.
pub open spec fn stored_value_field(value: Seq<u8>) -> Result<ValueView, RowCodecError> {
    match value_decoded(value) {
        Ok(view) => Ok(view),
        Err(StoredValueCodecError::Truncated) => Err(RowCodecError::Truncated),
        Err(StoredValueCodecError::InvalidLength) => Err(RowCodecError::InvalidLength),
        Err(StoredValueCodecError::InvalidKind(_)) => Err(RowCodecError::InvalidValue),
    }
}

/// Read a stored value.
pub fn decode_stored_value(frame: &[u8]) -> (r: Result<StoredValue, RowCodecError>)
    ensures
        crate::codec::outcome(r) == stored_value_field(frame@),
{
    match StoredValue::decode(frame) {
        Ok(value) => Ok(value),
        Err(StoredValueCodecError::Truncated) => Err(RowCodecError::Truncated),
        Err(StoredValueCodecError::InvalidLength) => Err(RowCodecError::InvalidLength),
        Err(StoredValueCodecError::InvalidKind(_)) => Err(RowCodecError::InvalidValue),
    }
}

} // verus!
