//! Field payloads shared by the schema frames.

use super::error::SchemaCodecError;
use crate::bytes::{
    append_u32, be32, from_be32, lemma_be32_roundtrip, lemma_from_be32_roundtrip, read_u32,
    FrameWriter,
};
use crate::codec::{outcome, view_of, views};
use crate::identity::{random_uuid, uuid_bytes, ColumnId, UuidError};
use crate::logical::types::{Affinity, StrictType, TableMode, TableStorage};
use crate::name::{read_text, same_text, text_result, SqlName};
use vstd::prelude::*;
use vstd::utf8::*;

verus! {

/// What reading an identity gives.
pub open spec fn uuid_field(value: Seq<u8>) -> Result<Seq<u8>, SchemaCodecError> {
    if value.len() != 16 {
        Err(SchemaCodecError::InvalidLength)
    } else if !random_uuid(value) {
        Err(SchemaCodecError::InvalidUuid)
    } else {
        Ok(value)
    }
}

/// Read an identity.
pub fn read_uuid(value: &[u8]) -> (r: Result<[u8; 16], SchemaCodecError>)
    ensures
        match r {
            Ok(bytes) => uuid_field(value@) == Ok::<Seq<u8>, SchemaCodecError>(bytes@),
            Err(error) => uuid_field(value@) == Err::<Seq<u8>, SchemaCodecError>(error),
        },
{
    match uuid_bytes(value) {
        Ok(bytes) => Ok(bytes),
        Err(UuidError::Length) => Err(SchemaCodecError::InvalidLength),
        Err(UuidError::Kind) => Err(SchemaCodecError::InvalidUuid),
    }
}

/// What reading text gives.
pub open spec fn text_field(value: Seq<u8>) -> Result<Seq<char>, SchemaCodecError> {
    match text_result(value) {
        Some(text) => Ok(text),
        None => Err(SchemaCodecError::InvalidUtf8),
    }
}

/// Read text.
pub fn read_string(value: &[u8]) -> (r: Result<String, SchemaCodecError>)
    ensures
        outcome(r) == text_field(value@),
{
    match read_text(value) {
        Some(text) => Ok(text),
        None => Err(SchemaCodecError::InvalidUtf8),
    }
}

/// Read a name.
pub fn read_name(value: &[u8]) -> (r: Result<SqlName, SchemaCodecError>)
    ensures
        outcome(r) == text_field(value@),
{
    match read_text(value) {
        Some(text) => Ok(SqlName::new(text)),
        None => Err(SchemaCodecError::InvalidUtf8),
    }
}

/// Written text is read back.
pub proof fn lemma_text_field(text: Seq<char>)
    ensures
        text_field(encode_utf8(text)) == Ok::<Seq<char>, SchemaCodecError>(text),
{
    encode_utf8_decode_utf8(text);
    encode_utf8_valid_utf8(text);
}

/// Read text is written in as many bytes.
pub proof fn lemma_text_shrinks(value: Seq<u8>)
    ensures
        text_field(value) matches Ok(text) ==> encode_utf8(text) == value,
{
    if valid_utf8(value) {
        decode_utf8_encode_utf8(value);
    }
}

/// What reading an affinity gives.
pub open spec fn affinity_field(value: Seq<u8>) -> Result<Affinity, SchemaCodecError> {
    if value.len() != 1 {
        Err(SchemaCodecError::InvalidLength)
    } else {
        match Affinity::of_code(value[0]) {
            Some(found) => Ok(found),
            None => Err(SchemaCodecError::InvalidSchema),
        }
    }
}

/// Read an affinity.
pub fn read_affinity(value: &[u8]) -> (r: Result<Affinity, SchemaCodecError>)
    ensures
        r == affinity_field(value@),
{
    if value.len() != 1 {
        return Err(SchemaCodecError::InvalidLength);
    }
    match Affinity::from_u8(value[0]) {
        Some(found) => Ok(found),
        None => Err(SchemaCodecError::InvalidSchema),
    }
}

/// What reading a strict type gives.
pub open spec fn strict_type_field(value: Seq<u8>) -> Result<StrictType, SchemaCodecError> {
    if value.len() != 1 {
        Err(SchemaCodecError::InvalidLength)
    } else {
        match StrictType::of_code(value[0]) {
            Some(found) => Ok(found),
            None => Err(SchemaCodecError::InvalidSchema),
        }
    }
}

/// Read a strict type.
pub fn read_strict_type(value: &[u8]) -> (r: Result<StrictType, SchemaCodecError>)
    ensures
        r == strict_type_field(value@),
{
    if value.len() != 1 {
        return Err(SchemaCodecError::InvalidLength);
    }
    match StrictType::from_u8(value[0]) {
        Some(found) => Ok(found),
        None => Err(SchemaCodecError::InvalidSchema),
    }
}

/// What reading a table mode gives.
pub open spec fn table_mode_field(value: Seq<u8>) -> Result<TableMode, SchemaCodecError> {
    if value.len() != 1 {
        Err(SchemaCodecError::InvalidLength)
    } else {
        match TableMode::of_code(value[0]) {
            Some(found) => Ok(found),
            None => Err(SchemaCodecError::InvalidSchema),
        }
    }
}

/// Read a table mode.
pub fn read_table_mode(value: &[u8]) -> (r: Result<TableMode, SchemaCodecError>)
    ensures
        r == table_mode_field(value@),
{
    if value.len() != 1 {
        return Err(SchemaCodecError::InvalidLength);
    }
    match TableMode::from_u8(value[0]) {
        Some(found) => Ok(found),
        None => Err(SchemaCodecError::InvalidSchema),
    }
}

/// What reading a storage gives.
pub open spec fn table_storage_field(value: Seq<u8>) -> Result<TableStorage, SchemaCodecError> {
    if value.len() != 1 {
        Err(SchemaCodecError::InvalidLength)
    } else {
        match TableStorage::of_code(value[0]) {
            Some(found) => Ok(found),
            None => Err(SchemaCodecError::InvalidSchema),
        }
    }
}

/// Read a storage.
pub fn read_table_storage(value: &[u8]) -> (r: Result<TableStorage, SchemaCodecError>)
    ensures
        r == table_storage_field(value@),
{
    if value.len() != 1 {
        return Err(SchemaCodecError::InvalidLength);
    }
    match TableStorage::from_u8(value[0]) {
        Some(found) => Ok(found),
        None => Err(SchemaCodecError::InvalidSchema),
    }
}

/// What reading a flag gives.
pub open spec fn flag_field(value: Seq<u8>) -> Result<bool, SchemaCodecError> {
    if value.len() != 1 {
        Err(SchemaCodecError::InvalidLength)
    } else if value[0] > 1 {
        Err(SchemaCodecError::InvalidSchema)
    } else {
        Ok(value[0] == 1)
    }
}

/// Read a flag.
pub fn read_flag(value: &[u8]) -> (r: Result<bool, SchemaCodecError>)
    ensures
        r == flag_field(value@),
{
    if value.len() != 1 {
        return Err(SchemaCodecError::InvalidLength);
    }
    if value[0] > 1 {
        return Err(SchemaCodecError::InvalidSchema);
    }
    Ok(value[0] == 1)
}

/// What reading a number gives.
pub open spec fn number_field(value: Seq<u8>) -> Result<u32, SchemaCodecError> {
    if value.len() != 4 {
        Err(SchemaCodecError::InvalidLength)
    } else {
        Ok(from_be32(value) as u32)
    }
}

/// Read a number.
pub fn read_number(value: &[u8]) -> (r: Result<u32, SchemaCodecError>)
    ensures
        r == number_field(value@),
{
    if value.len() != 4 {
        return Err(SchemaCodecError::InvalidLength);
    }
    proof {
        lemma_from_be32_roundtrip(value@);
    }
    Ok(read_u32(value))
}

/// The payload of a number.
pub fn number_bytes(n: u32) -> (r: Vec<u8>)
    ensures
        r@ == be32(n as nat),
{
    let mut r: Vec<u8> = Vec::new();
    append_u32(&mut r, n);
    assert(r@ =~= be32(n as nat));
    r
}

/// A written number is read back.
pub proof fn lemma_number_field(n: u32)
    ensures
        number_field(be32(n as nat)) == Ok::<u32, SchemaCodecError>(n),
{
    lemma_be32_roundtrip(n as nat);
}

/// The payload of a flag.
pub open spec fn flag_bytes(flag: bool) -> Seq<u8> {
    if flag {
        seq![1u8]
    } else {
        seq![0u8]
    }
}

/// A payload of one byte.
pub fn one_byte(byte: u8) -> (r: Vec<u8>)
    ensures
        r@ == seq![byte],
{
    let mut r: Vec<u8> = Vec::new();
    r.push(byte);
    assert(r@ =~= seq![byte]);
    r
}

/// The fields of a list of identities under one tag.
pub open spec fn bytes_list(tag: u8, items: Seq<Seq<u8>>) -> Seq<(u8, Seq<u8>)> {
    Seq::new(items.len(), |i: int| (tag, items[i]))
}

/// A copy of a list.
pub fn clone_column_ids(items: &Vec<ColumnId>) -> (r: Vec<ColumnId>)
    ensures
        views(r@) == views(items@),
{
    let mut r: Vec<ColumnId> = Vec::new();
    let mut i: usize = 0;
    while i < items.len()
        invariant
            i <= items@.len(),
            r@.len() == i,
            forall|j: int| 0 <= j < i ==> (#[trigger] r@[j])@ == items@[j]@,
        decreases items.len() - i,
    {
        r.push(items[i]);
        i += 1;
    }
    assert(views(r@) =~= views(items@));
    r
}

/// Whether two lists hold equal items.
pub fn same_column_ids(a: &Vec<ColumnId>, b: &Vec<ColumnId>) -> (r: bool)
    ensures
        r == (views(a@) == views(b@)),
{
    if a.len() != b.len() {
        assert(views(a@).len() != views(b@).len());
        return false;
    }
    let mut i: usize = 0;
    while i < a.len()
        invariant
            i <= a@.len(),
            a@.len() == b@.len(),
            forall|j: int| 0 <= j < i ==> views(a@)[j] == views(b@)[j],
        decreases a.len() - i,
    {
        if !a[i].same(&b[i]) {
            assert(views(a@)[i as int] != views(b@)[i as int]);
            return false;
        }
        i += 1;
    }
    assert(views(a@) =~= views(b@));
    true
}

/// Write identities under one tag.
pub fn write_column_ids(w: FrameWriter, tag: u8, items: &Vec<ColumnId>) -> (r: FrameWriter)
    ensures
        r.head() == w.head(),
        r.fields() == w.fields() + bytes_list(tag, views(items@)),
{
    let ghost list = bytes_list(tag, views(items@));
    let ghost head = w.head();
    let ghost before = w.fields();
    let mut w = w;
    let mut i: usize = 0;
    assert(before + list.subrange(0, 0) =~= before);
    while i < items.len()
        invariant
            i <= items@.len(),
            list == bytes_list(tag, views(items@)),
            w.head() == head,
            w.fields() == before + list.subrange(0, i as int),
        decreases items.len() - i,
    {
        assert(views(items@)[i as int] == items@[i as int]@);
        let item = items[i].as_bytes();
        w = w.field(tag, &item);
        assert(w.fields() =~= before + list.subrange(0, i as int + 1));
        i += 1;
    }
    assert(list.subrange(0, i as int) =~= list);
    w
}

/// Whether two optional values are equal.
pub fn same_optional_sql_name(a: &Option<SqlName>, b: &Option<SqlName>) -> (r: bool)
    ensures
        r == (view_of(*a) == view_of(*b)),
{
    match (a, b) {
        (None, None) => true,
        (Some(a), Some(b)) => a.same(b),
        _ => false,
    }
}

/// Whether two optional values are equal.
pub fn same_optional_string(a: &Option<String>, b: &Option<String>) -> (r: bool)
    ensures
        r == (view_of(*a) == view_of(*b)),
{
    match (a, b) {
        (None, None) => true,
        (Some(a), Some(b)) => same_text(a.as_str(), b.as_str()),
        _ => false,
    }
}

/// Whether two optional values are equal.
pub fn same_optional_column_id(a: &Option<ColumnId>, b: &Option<ColumnId>) -> (r: bool)
    ensures
        r == (view_of(*a) == view_of(*b)),
{
    match (a, b) {
        (None, None) => true,
        (Some(a), Some(b)) => a.same(b),
        _ => false,
    }
}

/// Whether two optional values are equal.
pub fn same_optional_strict_type(a: &Option<StrictType>, b: &Option<StrictType>) -> (r: bool)
    ensures
        r == (*a == *b),
{
    match (a, b) {
        (None, None) => true,
        (Some(a), Some(b)) => *a == *b,
        _ => false,
    }
}

/// Whether two optional values are equal.
pub fn same_optional_u32(a: &Option<u32>, b: &Option<u32>) -> (r: bool)
    ensures
        r == (*a == *b),
{
    match (a, b) {
        (None, None) => true,
        (Some(a), Some(b)) => *a == *b,
        _ => false,
    }
}

} // verus!
