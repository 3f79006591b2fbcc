//! The frame of the drop of a table.

use super::codec::{
    lemma_text_field, lemma_text_shrinks, read_name, read_schema, read_string, read_uuid,
    schema_field, text_field, uuid_field,
};
use super::error::DropTableCodecError;
use crate::bytes::{
    copy_bytes, fields_bytes, fields_fit, fits, fold_fields, lemma_fields_len, lemma_fit_push,
    lemma_fold_push, lemma_run_bounded, lemma_run_fold, run_fields, FrameWriter, Reader,
};
use crate::codec::{filled, lemma_views_push, outcome, view_of};
use crate::identity::{random_uuid, MutationId};
use crate::logical::schema::definition::{table_frame, CreateTable, TableView};
use crate::logical::schema::part::{
    encode_part, part_fits, part_roundtrip, part_shrinks, part_valid,
};
use crate::name::{same_text, SqlName};
use vstd::prelude::*;
use vstd::utf8::encode_utf8;

verus! {

/// Version of the frame of the drop of a table.
pub const VERSION: u8 = 1;

/// Marks the mutation.
pub const TAG_MUTATION_ID: u8 = 1;

/// Marks the statement.
pub const TAG_SQL: u8 = 2;

/// Marks the name of the table.
pub const TAG_SOURCE_TABLE: u8 = 3;

/// Marks the definition of the table.
pub const TAG_BEFORE: u8 = 4;

/// The drop of a table, with the definition that goes.
#[derive(Debug, PartialEq, Eq)]
pub struct DropTableOperation {
    pub mutation_id: MutationId,
    pub sql: String,
    pub source_table: SqlName,
    pub before: CreateTable,
}

/// The drop of a table as a mathematical value.
#[verifier::ext_equal]
pub struct DropTableOperationView {
    pub mutation_id: Seq<u8>,
    pub sql: Seq<char>,
    pub source_table: Seq<char>,
    pub before: TableView,
}

impl View for DropTableOperation {
    type V = DropTableOperationView;

    open spec fn view(&self) -> DropTableOperationView {
        DropTableOperationView {
            mutation_id: self.mutation_id@,
            sql: self.sql@,
            source_table: self.source_table@,
            before: self.before@,
        }
    }
}

impl Clone for DropTableOperation {
    fn clone(&self) -> (r: Self)
        ensures
            r@ == self@,
    {
        DropTableOperation {
            mutation_id: self.mutation_id,
            sql: self.sql.clone(),
            source_table: self.source_table.clone(),
            before: self.before.clone(),
        }
    }
}

impl DropTableOperation {
    /// Whether two values are equal.
    pub fn same(&self, other: &DropTableOperation) -> (r: bool)
        ensures
            r == (self@ == other@),
    {
        self.mutation_id.same(&other.mutation_id)
            && same_text(self.sql.as_str(), other.sql.as_str())
            && self.source_table.same(&other.source_table)
            && self.before.same(&other.before)
    }
}

/// The fields of the frame of the drop of a table.
pub open spec fn drop_table_fields(x: DropTableOperationView) -> Seq<(u8, Seq<u8>)> {
    let none = Seq::<(u8, Seq<u8>)>::empty();
    let f1 = none.push((TAG_MUTATION_ID, x.mutation_id));
    let f2 = f1.push((TAG_SQL, encode_utf8(x.sql)));
    let f3 = f2.push((TAG_SOURCE_TABLE, encode_utf8(x.source_table)));
    let f4 = f3.push((TAG_BEFORE, table_frame(x.before)));
    f4
}

/// The frame of the drop of a table.
#[verifier::opaque]
pub open spec fn drop_table_frame(x: DropTableOperationView) -> Seq<u8> {
    seq![VERSION] + fields_bytes(drop_table_fields(x))
}

/// Whether every field of the frame has a length that a `u32` holds.
pub open spec fn drop_table_fits(x: DropTableOperationView) -> bool {
    &&& fits(encode_utf8(x.sql))
    &&& fits(encode_utf8(x.source_table))
    &&& part_fits(x.before)
    &&& fits(table_frame(x.before))
}

impl DropTableOperation {
    /// Encode the frame.
    pub fn encode(&self) -> (r: Vec<u8>)
        requires
            drop_table_fits(self@),
        ensures
            r@ == drop_table_frame(self@),
    {
        let w = FrameWriter::versioned(VERSION);
        let mutation_id = copy_bytes(&self.mutation_id.as_bytes());
        let w = w.field(TAG_MUTATION_ID, mutation_id.as_slice());
        let sql = copy_bytes(self.sql.as_str().as_bytes());
        let w = w.field(TAG_SQL, sql.as_slice());
        let source_table = copy_bytes(self.source_table.value().as_bytes());
        let w = w.field(TAG_SOURCE_TABLE, source_table.as_slice());
        let before = encode_part(&self.before);
        let w = w.field(TAG_BEFORE, before.as_slice());
        assert(w.fields() =~= drop_table_fields(self@));
        reveal(drop_table_frame);
        w.finish()
    }
}

/// What is known of the drop of a table after some of its fields.
#[verifier::ext_equal]
pub struct DropTableState {
    pub mutation_id: Option<Seq<u8>>,
    pub sql: Option<Seq<char>>,
    pub source_table: Option<Seq<char>>,
    pub before: Option<TableView>,
}

/// Nothing is known before the first field.
pub open spec fn drop_table_start() -> DropTableState {
    DropTableState {
        mutation_id: None,
        sql: None,
        source_table: None,
        before: None,
    }
}

/// What one field adds.
pub open spec fn drop_table_step(s: DropTableState, tag: u8, payload: Seq<u8>) -> Result<DropTableState, DropTableCodecError> {
    if tag == TAG_MUTATION_ID {
        match filled(s.mutation_id, uuid_field(payload), DropTableCodecError::DuplicateField) {
            Err(error) => Err(error),
            Ok(mutation_id) => Ok(DropTableState { mutation_id, ..s }),
        }
    } else if tag == TAG_SQL {
        match filled(s.sql, text_field(payload), DropTableCodecError::DuplicateField) {
            Err(error) => Err(error),
            Ok(sql) => Ok(DropTableState { sql, ..s }),
        }
    } else if tag == TAG_SOURCE_TABLE {
        match filled(s.source_table, text_field(payload), DropTableCodecError::DuplicateField) {
            Err(error) => Err(error),
            Ok(source_table) => Ok(DropTableState { source_table, ..s }),
        }
    } else if tag == TAG_BEFORE {
        match filled(s.before, schema_field(payload), DropTableCodecError::DuplicateField) {
            Err(error) => Err(error),
            Ok(before) => Ok(DropTableState { before, ..s }),
        }
    } else {
        Ok(s)
    }
}

/// [`drop_table_step`] as a value.
pub open spec fn drop_table_steps() -> spec_fn(DropTableState, u8, Seq<u8>) -> Result<DropTableState, DropTableCodecError> {
    |s: DropTableState, tag: u8, payload: Seq<u8>| drop_table_step(s, tag, payload)
}

/// The drop of a table that the fields describe.
pub open spec fn drop_table_finish(s: DropTableState) -> Result<DropTableOperationView, DropTableCodecError> {
    if s.mutation_id is None {
        Err(DropTableCodecError::MissingField(TAG_MUTATION_ID))
    } else if s.sql is None {
        Err(DropTableCodecError::MissingField(TAG_SQL))
    } else if s.source_table is None {
        Err(DropTableCodecError::MissingField(TAG_SOURCE_TABLE))
    } else if s.before is None {
        Err(DropTableCodecError::MissingField(TAG_BEFORE))
    } else {
        Ok(DropTableOperationView {
            mutation_id: s.mutation_id->Some_0,
            sql: s.sql->Some_0,
            source_table: s.source_table->Some_0,
            before: s.before->Some_0,
        })
    }
}

/// What decoding a frame gives.
#[verifier::opaque]
pub open spec fn drop_table_decoded(b: Seq<u8>) -> Result<DropTableOperationView, DropTableCodecError> {
    if b.len() == 0 || b[0] != VERSION {
        Err(DropTableCodecError::UnknownVersion)
    } else {
        match run_fields(drop_table_start(), b.subrange(1, b.len() as int), drop_table_steps(), DropTableCodecError::Truncated) {
            Err(error) => Err(error),
            Ok(s) => drop_table_finish(s),
        }
    }
}

impl DropTableOperation {
    /// Decode one complete frame.
    pub fn decode_fields(frame: &[u8]) -> (r: Result<DropTableOperation, DropTableCodecError>)
        ensures
            outcome(r) == drop_table_decoded(frame@),
    {
        broadcast use lemma_views_push;
        reveal(drop_table_decoded);
        let mut reader = Reader::new(frame);
        if reader.u8() != Some(VERSION) {
            return Err(DropTableCodecError::UnknownVersion);
        }
        let mut mutation_id: Option<MutationId> = None;
        let mut sql: Option<String> = None;
        let mut source_table: Option<SqlName> = None;
        let mut before: Option<CreateTable> = None;
        let ghost mut state = drop_table_start();
        while !reader.is_empty()
            invariant
                state == (DropTableState {
                    mutation_id: view_of(mutation_id),
                    sql: view_of(sql),
                    source_table: view_of(source_table),
                    before: view_of(before),
                }),
                drop_table_decoded(frame@) == (match run_fields(
                    state,
                    reader.remaining(),
                    drop_table_steps(),
                    DropTableCodecError::Truncated,
                ) {
                    Err(error) => Err(error),
                    Ok(s) => drop_table_finish(s),
                }),
            decreases reader.remaining().len(),
        {
            let (tag, payload) = match reader.field() {
                Ok(Some(field)) => field,
                _ => {
                    return Err(DropTableCodecError::Truncated);
                },
            };
            let ghost next = drop_table_step(state, tag, payload@);
            assert(drop_table_steps()(state, tag, payload@) == next);
            if tag == TAG_MUTATION_ID {
                match read_uuid(payload) {
                    Err(error) => {
                        return Err(error);
                    },
                    Ok(found) => {
                        if mutation_id.is_some() {
                            return Err(DropTableCodecError::DuplicateField);
                        }
                        mutation_id = Some(MutationId(found));
                    },
                }
            } else if tag == TAG_SQL {
                match read_string(payload) {
                    Err(error) => {
                        return Err(error);
                    },
                    Ok(found) => {
                        if sql.is_some() {
                            return Err(DropTableCodecError::DuplicateField);
                        }
                        sql = Some(found);
                    },
                }
            } else if tag == TAG_SOURCE_TABLE {
                match read_name(payload) {
                    Err(error) => {
                        return Err(error);
                    },
                    Ok(found) => {
                        if source_table.is_some() {
                            return Err(DropTableCodecError::DuplicateField);
                        }
                        source_table = Some(found);
                    },
                }
            } else if tag == TAG_BEFORE {
                match read_schema(payload) {
                    Err(error) => {
                        return Err(error);
                    },
                    Ok(found) => {
                        if before.is_some() {
                            return Err(DropTableCodecError::DuplicateField);
                        }
                        before = Some(found);
                    },
                }
            }
            proof {
                state = next->Ok_0;
            }
        }
        let mutation_id = match mutation_id {
            Some(found) => found,
            None => {
                return Err(DropTableCodecError::MissingField(TAG_MUTATION_ID));
            },
        };
        let sql = match sql {
            Some(found) => found,
            None => {
                return Err(DropTableCodecError::MissingField(TAG_SQL));
            },
        };
        let source_table = match source_table {
            Some(found) => found,
            None => {
                return Err(DropTableCodecError::MissingField(TAG_SOURCE_TABLE));
            },
        };
        let before = match before {
            Some(found) => found,
            None => {
                return Err(DropTableCodecError::MissingField(TAG_BEFORE));
            },
        };
        let r = DropTableOperation { mutation_id, sql, source_table, before };
        assert(r@ == drop_table_finish(state)->Ok_0);
        Ok(r)
    }
}

/// Whether a value is one that decoding can give.
pub open spec fn drop_table_valid(x: DropTableOperationView) -> bool {
    &&& random_uuid(x.mutation_id)
    &&& part_valid(x.before)
}

/// Decoding the frame of the drop of a table gives it back.
pub proof fn drop_table_roundtrip(x: DropTableOperationView)
    requires
        drop_table_valid(x),
        drop_table_fits(x),
    ensures
        drop_table_decoded(drop_table_frame(x)) == Ok::<DropTableOperationView, DropTableCodecError>(x),
{
    reveal(drop_table_decoded);
    reveal(drop_table_frame);
    let none = Seq::<(u8, Seq<u8>)>::empty();
    let f1 = none.push((TAG_MUTATION_ID, x.mutation_id));
    let f2 = f1.push((TAG_SQL, encode_utf8(x.sql)));
    let f3 = f2.push((TAG_SOURCE_TABLE, encode_utf8(x.source_table)));
    let f4 = f3.push((TAG_BEFORE, table_frame(x.before)));
    let step = drop_table_steps();
    let s0 = drop_table_start();
    assert(fields_fit(none));
    let s1 = DropTableState { mutation_id: Some(x.mutation_id), ..s0 };
    assert(fold_fields(s0, f1, step) == Ok::<DropTableState, DropTableCodecError>(s1) && fields_fit(f1)) by {
        lemma_fold_push(s0, none, TAG_MUTATION_ID, x.mutation_id, step);
        lemma_fit_push(none, TAG_MUTATION_ID, x.mutation_id);
        assert(step(s0, TAG_MUTATION_ID, x.mutation_id) == Ok::<DropTableState, DropTableCodecError>(s1));
    }
    let s2 = DropTableState { sql: Some(x.sql), ..s1 };
    assert(fold_fields(s0, f2, step) == Ok::<DropTableState, DropTableCodecError>(s2) && fields_fit(f2)) by {
        lemma_text_field(x.sql);
        lemma_fold_push(s0, f1, TAG_SQL, encode_utf8(x.sql), step);
        lemma_fit_push(f1, TAG_SQL, encode_utf8(x.sql));
        assert(step(s1, TAG_SQL, encode_utf8(x.sql)) == Ok::<DropTableState, DropTableCodecError>(s2));
    }
    let s3 = DropTableState { source_table: Some(x.source_table), ..s2 };
    assert(fold_fields(s0, f3, step) == Ok::<DropTableState, DropTableCodecError>(s3) && fields_fit(f3)) by {
        lemma_text_field(x.source_table);
        lemma_fold_push(s0, f2, TAG_SOURCE_TABLE, encode_utf8(x.source_table), step);
        lemma_fit_push(f2, TAG_SOURCE_TABLE, encode_utf8(x.source_table));
        assert(step(s2, TAG_SOURCE_TABLE, encode_utf8(x.source_table)) == Ok::<DropTableState, DropTableCodecError>(s3));
    }
    let s4 = DropTableState { before: Some(x.before), ..s3 };
    assert(fold_fields(s0, f4, step) == Ok::<DropTableState, DropTableCodecError>(s4) && fields_fit(f4)) by {
        part_roundtrip(x.before);
        lemma_fold_push(s0, f3, TAG_BEFORE, table_frame(x.before), step);
        lemma_fit_push(f3, TAG_BEFORE, table_frame(x.before));
        assert(step(s3, TAG_BEFORE, table_frame(x.before)) == Ok::<DropTableState, DropTableCodecError>(s4));
    }
    lemma_run_fold(s0, f4, step, DropTableCodecError::Truncated);
    assert(f4 == drop_table_fields(x));
    let b = drop_table_frame(x);
    assert(b.subrange(1, b.len() as int) =~= fields_bytes(f4));
    assert(drop_table_finish(s4) == Ok::<DropTableOperationView, DropTableCodecError>(x));
}

/// The bytes that known fields of the drop of a table take.
pub open spec fn drop_table_size(s: DropTableState) -> nat {
    let mutation_id: nat = match s.mutation_id {
        Some(value) => 5 + value.len(),
        None => 0,
    };
    let sql: nat = match s.sql {
        Some(value) => 5 + encode_utf8(value).len(),
        None => 0,
    };
    let source_table: nat = match s.source_table {
        Some(value) => 5 + encode_utf8(value).len(),
        None => 0,
    };
    let before: nat = match s.before {
        Some(value) => 5 + table_frame(value).len(),
        None => 0,
    };
    mutation_id + sql + source_table + before
}

/// Whether known fields of the drop of a table are sound and can be written again.
pub open spec fn drop_table_sound(s: DropTableState) -> bool {
    &&& (s.mutation_id matches Some(value) ==> random_uuid(value) && fits(value))
    &&& (s.sql matches Some(value) ==> fits(encode_utf8(value)))
    &&& (s.source_table matches Some(value) ==> fits(encode_utf8(value)))
    &&& (s.before matches Some(value) ==> part_valid(value) && fits(table_frame(value)) && part_fits(value))
}

/// One field adds no more than its own bytes.
proof fn lemma_drop_table_step(s: DropTableState, tag: u8, payload: Seq<u8>)
    requires
        drop_table_sound(s),
        fits(payload),
    ensures
        drop_table_step(s, tag, payload) matches Ok(next) ==> drop_table_sound(next) && drop_table_size(next) <= drop_table_size(
            s,
        ) + 5 + payload.len(),
{
    if let Ok(next) = drop_table_step(s, tag, payload) {
        if tag == TAG_MUTATION_ID {
        } else if tag == TAG_SQL {
            lemma_text_shrinks(payload);
        } else if tag == TAG_SOURCE_TABLE {
            lemma_text_shrinks(payload);
        } else if tag == TAG_BEFORE {
            part_shrinks(payload);
        }
    }
}

/// What decoding gives is sound and takes no more bytes than it was read from.
pub proof fn drop_table_shrinks(b: Seq<u8>)
    ensures
        drop_table_decoded(b) matches Ok(x) ==> drop_table_valid(x) && drop_table_fits(x) && drop_table_frame(x).len() <= b.len(),
{
    reveal(drop_table_decoded);
    reveal(drop_table_frame);
    if let Ok(x) = drop_table_decoded(b) {
        let body = b.subrange(1, b.len() as int);
        let good = |s: DropTableState| drop_table_sound(s);
        let size = |s: DropTableState| drop_table_size(s);
        let step = drop_table_steps();
        let s0 = drop_table_start();
        let end = run_fields(s0, body, step, DropTableCodecError::Truncated)->Ok_0;
        assert forall|s: DropTableState, tag: u8, payload: Seq<u8>|
            good(s) && fits(payload) && (#[trigger] step(s, tag, payload)) is Ok implies good(
            step(s, tag, payload)->Ok_0,
        ) && size(step(s, tag, payload)->Ok_0) <= size(s) + 5 + payload.len() by {
            lemma_drop_table_step(s, tag, payload);
        }
        lemma_run_bounded(s0, body, step, good, size, DropTableCodecError::Truncated);
        assert(drop_table_sound(end));
        let none = Seq::<(u8, Seq<u8>)>::empty();
        assert(fields_bytes(none).len() == 0);
        let f1 = none.push((TAG_MUTATION_ID, x.mutation_id));
        lemma_fields_len(none, TAG_MUTATION_ID, x.mutation_id);
        let f2 = f1.push((TAG_SQL, encode_utf8(x.sql)));
        lemma_fields_len(f1, TAG_SQL, encode_utf8(x.sql));
        let f3 = f2.push((TAG_SOURCE_TABLE, encode_utf8(x.source_table)));
        lemma_fields_len(f2, TAG_SOURCE_TABLE, encode_utf8(x.source_table));
        let f4 = f3.push((TAG_BEFORE, table_frame(x.before)));
        lemma_fields_len(f3, TAG_BEFORE, table_frame(x.before));
        assert(f4 == drop_table_fields(x));
        assert(drop_table_size(s0) == 0);
        assert(fields_bytes(f4).len() == drop_table_size(end));
    }
}

} // verus!
