//! Table definitions and their frames.

use super::codec::{
    affinity_field, bytes_list, clone_column_ids, flag_bytes, flag_field, lemma_number_field,
    lemma_text_field, lemma_text_shrinks, number_bytes, number_field, one_byte, read_affinity,
    read_flag, read_name, read_number, read_strict_type, read_string, read_table_mode,
    read_table_storage, read_uuid, same_column_ids, same_optional_column_id, same_optional_sql_name,
    same_optional_strict_type, same_optional_string, same_optional_u32, strict_type_field,
    table_mode_field, table_storage_field, text_field, uuid_field, write_column_ids,
};
use super::error::SchemaCodecError;
use crate::bytes::{
    be32, copy_bytes, fields_bytes, fields_fit, fits, fold_fields, lemma_fields_concat,
    lemma_fields_len, lemma_fit_concat, lemma_fit_push, lemma_fold_list, lemma_fold_push,
    lemma_run_bounded, lemma_run_fold, run_fields, FrameWriter, Reader,
};
use crate::codec::{filled, grown, lemma_views_push, outcome, view_of, views};
use crate::identity::{
    random_uuid, ColumnId, ForeignKeyId, IndexId, MutationId, SchemaRevisionId, TableId,
};
use crate::logical::types::{Affinity, StrictType, TableMode, TableStorage};
use crate::name::{same_text, SqlName};
use vstd::prelude::*;
use vstd::utf8::encode_utf8;

verus! {

/// Version of the frame of a table definition.
pub const TABLE_FRAME_VERSION: u8 = 1;

/// Marks a column's identity.
pub const TAG_COLUMN_ID: u8 = 1;

/// Marks a column's name.
pub const TAG_COLUMN_NAME: u8 = 2;

/// Marks a column's affinity.
pub const TAG_COLUMN_AFFINITY: u8 = 3;

/// Marks a column's strict type.
pub const TAG_COLUMN_STRICT: u8 = 4;

/// Marks whether a column is declared INTEGER.
pub const TAG_COLUMN_INTEGER: u8 = 5;

/// Marks whether a column refuses NULL.
pub const TAG_COLUMN_NOT_NULL: u8 = 6;

/// Marks a column's default expression.
pub const TAG_COLUMN_DEFAULT: u8 = 7;

/// Marks a column's position in the primary key.
pub const TAG_COLUMN_PRIMARY_KEY: u8 = 8;

/// Marks the index of a UNIQUE constraint.
pub const TAG_UNIQUE_INDEX: u8 = 1;

/// Marks the name of a UNIQUE constraint.
pub const TAG_UNIQUE_NAME: u8 = 2;

/// Marks a column of a UNIQUE constraint.
pub const TAG_UNIQUE_COLUMN: u8 = 3;

/// Marks the identity of a named index.
pub const TAG_INDEX_ID: u8 = 1;

/// Marks the name of a named index.
pub const TAG_INDEX_NAME: u8 = 2;

/// Marks whether a named index is UNIQUE.
pub const TAG_INDEX_UNIQUE: u8 = 3;

/// Marks whether a named index is active.
pub const TAG_INDEX_ACTIVE: u8 = 4;

/// Marks a column of a named index.
pub const TAG_INDEX_COLUMN: u8 = 5;

/// Marks the identity of a foreign key.
pub const TAG_RELATIONSHIP_ID: u8 = 1;

/// Marks the name of a foreign key.
pub const TAG_RELATIONSHIP_NAME: u8 = 2;

/// Marks a column of a foreign key.
pub const TAG_RELATIONSHIP_COLUMN: u8 = 3;

/// Marks the parent table of a foreign key.
pub const TAG_RELATIONSHIP_TABLE: u8 = 4;

/// Marks the parent index of a foreign key.
pub const TAG_RELATIONSHIP_INDEX: u8 = 5;

/// Marks a parent column of a foreign key.
pub const TAG_RELATIONSHIP_PARENT_COLUMN: u8 = 6;

/// Marks whether a foreign key is active.
pub const TAG_RELATIONSHIP_ACTIVE: u8 = 7;

/// Marks the name of a CHECK.
pub const TAG_CHECK_NAME: u8 = 1;

/// Marks the column that a CHECK was added with.
pub const TAG_CHECK_OWNER: u8 = 2;

/// Marks a column that a CHECK reads.
pub const TAG_CHECK_COLUMN: u8 = 3;

/// Marks the expression of a CHECK.
pub const TAG_CHECK_EXPRESSION: u8 = 4;

/// Marks the mutation that created a table.
pub const TAG_TABLE_MUTATION: u8 = 1;

/// Marks the statement that created a table.
pub const TAG_TABLE_SQL: u8 = 2;

/// Marks the name that a table was created under.
pub const TAG_TABLE_NAME: u8 = 3;

/// Marks a table's identity.
pub const TAG_TABLE_ID: u8 = 4;

/// Marks a table's schema revision.
pub const TAG_TABLE_REVISION: u8 = 5;

/// Marks a table's primary index.
pub const TAG_TABLE_PRIMARY_INDEX: u8 = 6;

/// Marks a table's mode.
pub const TAG_TABLE_MODE: u8 = 7;

/// Marks a table's storage.
pub const TAG_TABLE_STORAGE: u8 = 8;

/// Marks a column of a table.
pub const TAG_TABLE_COLUMN: u8 = 9;

/// Marks a UNIQUE constraint of a table.
pub const TAG_TABLE_UNIQUE: u8 = 10;

/// Marks a named index of a table.
pub const TAG_TABLE_INDEX: u8 = 11;

/// Marks a foreign key of a table.
pub const TAG_TABLE_FOREIGN_KEY: u8 = 12;

/// Marks a CHECK of a table.
pub const TAG_TABLE_CHECK: u8 = 13;

/// One column of a table.
#[derive(Debug, PartialEq, Eq)]
pub struct Column {
    pub id: ColumnId,
    pub name: SqlName,
    pub affinity: Affinity,
    pub strict: Option<StrictType>,
    pub integer: bool,
    pub not_null: bool,
    pub default: Option<String>,
    pub primary_key: Option<u32>,
}

/// A column as a mathematical value.
#[verifier::ext_equal]
pub struct ColumnView {
    pub id: Seq<u8>,
    pub name: Seq<char>,
    pub affinity: Affinity,
    pub strict: Option<StrictType>,
    pub integer: bool,
    pub not_null: bool,
    pub default: Option<Seq<char>>,
    pub primary_key: Option<u32>,
}

impl View for Column {
    type V = ColumnView;

    open spec fn view(&self) -> ColumnView {
        ColumnView {
            id: self.id@,
            name: self.name@,
            affinity: self.affinity,
            strict: self.strict,
            integer: self.integer,
            not_null: self.not_null,
            default: view_of(self.default),
            primary_key: self.primary_key,
        }
    }
}

impl Clone for Column {
    fn clone(&self) -> (r: Self)
        ensures
            r@ == self@,
    {
        let strict = match &self.strict {
            Some(value) => Some(*value),
            None => None,
        };
        let default = match &self.default {
            Some(value) => Some(value.clone()),
            None => None,
        };
        let primary_key = match &self.primary_key {
            Some(value) => Some(*value),
            None => None,
        };
        Column {
            id: self.id,
            name: self.name.clone(),
            affinity: self.affinity,
            strict,
            integer: self.integer,
            not_null: self.not_null,
            default,
            primary_key,
        }
    }
}

impl Column {
    /// Whether two values are equal.
    pub fn same(&self, other: &Column) -> (r: bool)
        ensures
            r == (self@ == other@),
    {
        self.id.same(&other.id)
            && self.name.same(&other.name)
            && (self.affinity == other.affinity)
            && same_optional_strict_type(&self.strict, &other.strict)
            && (self.integer == other.integer)
            && (self.not_null == other.not_null)
            && same_optional_string(&self.default, &other.default)
            && same_optional_u32(&self.primary_key, &other.primary_key)
    }
}

/// A copy of a list.
pub fn clone_columns(items: &Vec<Column>) -> (r: Vec<Column>)
    ensures
        views(r@) == views(items@),
{
    let mut r: Vec<Column> = Vec::new();
    let mut i: usize = 0;
    while i < items.len()
        invariant
            i <= items@.len(),
            r@.len() == i,
            forall|j: int| 0 <= j < i ==> (#[trigger] r@[j])@ == items@[j]@,
        decreases items.len() - i,
    {
        r.push(items[i].clone());
        i += 1;
    }
    assert(views(r@) =~= views(items@));
    r
}

/// Whether two lists hold equal items.
pub fn same_columns(a: &Vec<Column>, b: &Vec<Column>) -> (r: bool)
    ensures
        r == (views(a@) == views(b@)),
{
    if a.len() != b.len() {
        assert(views(a@).len() != views(b@).len());
        return false;
    }
    let mut i: usize = 0;
    while i < a.len()
        invariant
            i <= a@.len(),
            a@.len() == b@.len(),
            forall|j: int| 0 <= j < i ==> views(a@)[j] == views(b@)[j],
        decreases a.len() - i,
    {
        if !a[i].same(&b[i]) {
            assert(views(a@)[i as int] != views(b@)[i as int]);
            return false;
        }
        i += 1;
    }
    assert(views(a@) =~= views(b@));
    true
}

/// The fields of the frame of a column.
pub open spec fn column_fields(x: ColumnView) -> Seq<(u8, Seq<u8>)> {
    let none = Seq::<(u8, Seq<u8>)>::empty();
    let f1 = none.push((TAG_COLUMN_ID, x.id));
    let f2 = f1.push((TAG_COLUMN_NAME, encode_utf8(x.name)));
    let f3 = f2.push((TAG_COLUMN_AFFINITY, seq![x.affinity.code()]));
    let f4 = match x.strict {
        Some(value) => f3.push((TAG_COLUMN_STRICT, seq![value.code()])),
        None => f3,
    };
    let f5 = f4.push((TAG_COLUMN_INTEGER, flag_bytes(x.integer)));
    let f6 = f5.push((TAG_COLUMN_NOT_NULL, flag_bytes(x.not_null)));
    let f7 = match x.default {
        Some(value) => f6.push((TAG_COLUMN_DEFAULT, encode_utf8(value))),
        None => f6,
    };
    let f8 = match x.primary_key {
        Some(value) => f7.push((TAG_COLUMN_PRIMARY_KEY, be32(value as nat))),
        None => f7,
    };
    f8
}

/// The frame of a column.
#[verifier::opaque]
pub open spec fn column_frame(x: ColumnView) -> Seq<u8> {
    fields_bytes(column_fields(x))
}

/// Whether every field of the frame has a length that a `u32` holds.
pub open spec fn column_fits(x: ColumnView) -> bool {
    &&& fits(encode_utf8(x.name))
    &&& (x.default matches Some(value) ==> fits(encode_utf8(value)))
}

/// The fields of a list under one tag, each with its own frame.
pub open spec fn column_list(tag: u8, items: Seq<ColumnView>) -> Seq<(u8, Seq<u8>)> {
    Seq::new(items.len(), |i: int| (tag, column_frame(items[i])))
}

/// Write the fields of a list under one tag.
pub fn write_columns(w: FrameWriter, tag: u8, items: &Vec<Column>) -> (r: FrameWriter)
    requires
        forall|i: int| 0 <= i < items@.len() ==> column_fits(#[trigger] views(items@)[i]) && fits(column_frame(views(items@)[i])),
    ensures
        r.head() == w.head(),
        r.fields() == w.fields() + column_list(tag, views(items@)),
{
    let ghost list = column_list(tag, views(items@));
    let ghost head = w.head();
    let ghost before = w.fields();
    let mut w = w;
    let mut i: usize = 0;
    assert(before + list.subrange(0, 0) =~= before);
    while i < items.len()
        invariant
            i <= items@.len(),
            list == column_list(tag, views(items@)),
            w.head() == head,
            w.fields() == before + list.subrange(0, i as int),
            forall|i: int| 0 <= i < items@.len() ==> column_fits(#[trigger] views(items@)[i]) && fits(column_frame(views(items@)[i])),
        decreases items.len() - i,
    {
        assert(views(items@)[i as int] == items@[i as int]@);
        let item = items[i].encode();
        w = w.field(tag, item.as_slice());
        assert(w.fields() =~= before + list.subrange(0, i as int + 1));
        i += 1;
    }
    assert(list.subrange(0, i as int) =~= list);
    w
}

impl Column {
    /// Encode the frame.
    pub fn encode(&self) -> (r: Vec<u8>)
        requires
            column_fits(self@),
        ensures
            r@ == column_frame(self@),
    {
        let w = FrameWriter::new();
        let id = copy_bytes(&self.id.as_bytes());
        let w = w.field(TAG_COLUMN_ID, id.as_slice());
        let name = copy_bytes(self.name.value().as_bytes());
        let w = w.field(TAG_COLUMN_NAME, name.as_slice());
        let affinity = one_byte(self.affinity.to_u8());
        let w = w.field(TAG_COLUMN_AFFINITY, affinity.as_slice());
        let w = match &self.strict {
            Some(value) => {
                let strict = one_byte(value.to_u8());
                w.field(TAG_COLUMN_STRICT, strict.as_slice())
            },
            None => w,
        };
        let integer = one_byte(if self.integer { 1 } else { 0 });
        let w = w.field(TAG_COLUMN_INTEGER, integer.as_slice());
        let not_null = one_byte(if self.not_null { 1 } else { 0 });
        let w = w.field(TAG_COLUMN_NOT_NULL, not_null.as_slice());
        let w = match &self.default {
            Some(value) => {
                let default = copy_bytes(value.as_str().as_bytes());
                w.field(TAG_COLUMN_DEFAULT, default.as_slice())
            },
            None => w,
        };
        let w = match &self.primary_key {
            Some(value) => {
                let primary_key = number_bytes(*value);
                w.field(TAG_COLUMN_PRIMARY_KEY, primary_key.as_slice())
            },
            None => w,
        };
        assert(w.fields() =~= column_fields(self@));
        reveal(column_frame);
        w.finish()
    }
}

/// What is known of a column after some of its fields.
#[verifier::ext_equal]
pub struct ColumnState {
    pub id: Option<Seq<u8>>,
    pub name: Option<Seq<char>>,
    pub affinity: Option<Affinity>,
    pub strict: Option<StrictType>,
    pub integer: Option<bool>,
    pub not_null: Option<bool>,
    pub default: Option<Seq<char>>,
    pub primary_key: Option<u32>,
}

/// Nothing is known before the first field.
pub open spec fn column_start() -> ColumnState {
    ColumnState {
        id: None,
        name: None,
        affinity: None,
        strict: None,
        integer: None,
        not_null: None,
        default: None,
        primary_key: None,
    }
}

/// What one field adds.
pub open spec fn column_step(s: ColumnState, tag: u8, payload: Seq<u8>) -> Result<ColumnState, SchemaCodecError> {
    if tag == TAG_COLUMN_ID {
        match filled(s.id, uuid_field(payload), SchemaCodecError::DuplicateField) {
            Err(error) => Err(error),
            Ok(id) => Ok(ColumnState { id, ..s }),
        }
    } else if tag == TAG_COLUMN_NAME {
        match filled(s.name, text_field(payload), SchemaCodecError::DuplicateField) {
            Err(error) => Err(error),
            Ok(name) => Ok(ColumnState { name, ..s }),
        }
    } else if tag == TAG_COLUMN_AFFINITY {
        match filled(s.affinity, affinity_field(payload), SchemaCodecError::DuplicateField) {
            Err(error) => Err(error),
            Ok(affinity) => Ok(ColumnState { affinity, ..s }),
        }
    } else if tag == TAG_COLUMN_STRICT {
        match filled(s.strict, strict_type_field(payload), SchemaCodecError::DuplicateField) {
            Err(error) => Err(error),
            Ok(strict) => Ok(ColumnState { strict, ..s }),
        }
    } else if tag == TAG_COLUMN_INTEGER {
        match filled(s.integer, flag_field(payload), SchemaCodecError::DuplicateField) {
            Err(error) => Err(error),
            Ok(integer) => Ok(ColumnState { integer, ..s }),
        }
    } else if tag == TAG_COLUMN_NOT_NULL {
        match filled(s.not_null, flag_field(payload), SchemaCodecError::DuplicateField) {
            Err(error) => Err(error),
            Ok(not_null) => Ok(ColumnState { not_null, ..s }),
        }
    } else if tag == TAG_COLUMN_DEFAULT {
        match filled(s.default, text_field(payload), SchemaCodecError::DuplicateField) {
            Err(error) => Err(error),
            Ok(default) => Ok(ColumnState { default, ..s }),
        }
    } else if tag == TAG_COLUMN_PRIMARY_KEY {
        match filled(s.primary_key, number_field(payload), SchemaCodecError::DuplicateField) {
            Err(error) => Err(error),
            Ok(primary_key) => Ok(ColumnState { primary_key, ..s }),
        }
    } else {
        Ok(s)
    }
}

/// [`column_step`] as a value.
pub open spec fn column_steps() -> spec_fn(ColumnState, u8, Seq<u8>) -> Result<ColumnState, SchemaCodecError> {
    |s: ColumnState, tag: u8, payload: Seq<u8>| column_step(s, tag, payload)
}

/// A column that the fields describe.
pub open spec fn column_finish(s: ColumnState) -> Result<ColumnView, SchemaCodecError> {
    if s.id is None {
        Err(SchemaCodecError::MissingField(TAG_COLUMN_ID))
    } else if s.name is None {
        Err(SchemaCodecError::MissingField(TAG_COLUMN_NAME))
    } else if s.affinity is None {
        Err(SchemaCodecError::MissingField(TAG_COLUMN_AFFINITY))
    } else if s.integer is None {
        Err(SchemaCodecError::MissingField(TAG_COLUMN_INTEGER))
    } else if s.not_null is None {
        Err(SchemaCodecError::MissingField(TAG_COLUMN_NOT_NULL))
    } else {
        Ok(ColumnView {
            id: s.id->Some_0,
            name: s.name->Some_0,
            affinity: s.affinity->Some_0,
            strict: s.strict,
            integer: s.integer->Some_0,
            not_null: s.not_null->Some_0,
            default: s.default,
            primary_key: s.primary_key,
        })
    }
}

/// What decoding a frame gives.
#[verifier::opaque]
pub open spec fn column_decoded(b: Seq<u8>) -> Result<ColumnView, SchemaCodecError> {
    match run_fields(column_start(), b, column_steps(), SchemaCodecError::Truncated) {
        Err(error) => Err(error),
        Ok(s) => column_finish(s),
    }
}

impl Column {
    /// Decode one complete frame.
    pub fn decode(frame: &[u8]) -> (r: Result<Column, SchemaCodecError>)
        ensures
            outcome(r) == column_decoded(frame@),
    {
        broadcast use lemma_views_push;
        reveal(column_decoded);
        let mut reader = Reader::new(frame);
        let mut id: Option<ColumnId> = None;
        let mut name: Option<SqlName> = None;
        let mut affinity: Option<Affinity> = None;
        let mut strict: Option<StrictType> = None;
        let mut integer: Option<bool> = None;
        let mut not_null: Option<bool> = None;
        let mut default: Option<String> = None;
        let mut primary_key: Option<u32> = None;
        let ghost mut state = column_start();
        while !reader.is_empty()
            invariant
                state == (ColumnState {
                    id: view_of(id),
                    name: view_of(name),
                    affinity: affinity,
                    strict: strict,
                    integer: integer,
                    not_null: not_null,
                    default: view_of(default),
                    primary_key: primary_key,
                }),
                column_decoded(frame@) == (match run_fields(
                    state,
                    reader.remaining(),
                    column_steps(),
                    SchemaCodecError::Truncated,
                ) {
                    Err(error) => Err(error),
                    Ok(s) => column_finish(s),
                }),
            decreases reader.remaining().len(),
        {
            let (tag, payload) = match reader.field() {
                Ok(Some(field)) => field,
                _ => {
                    return Err(SchemaCodecError::Truncated);
                },
            };
            let ghost next = column_step(state, tag, payload@);
            assert(column_steps()(state, tag, payload@) == next);
            if tag == TAG_COLUMN_ID {
                match read_uuid(payload) {
                    Err(error) => {
                        return Err(error);
                    },
                    Ok(found) => {
                        if id.is_some() {
                            return Err(SchemaCodecError::DuplicateField);
                        }
                        id = Some(ColumnId(found));
                    },
                }
            } else if tag == TAG_COLUMN_NAME {
                match read_name(payload) {
                    Err(error) => {
                        return Err(error);
                    },
                    Ok(found) => {
                        if name.is_some() {
                            return Err(SchemaCodecError::DuplicateField);
                        }
                        name = Some(found);
                    },
                }
            } else if tag == TAG_COLUMN_AFFINITY {
                match read_affinity(payload) {
                    Err(error) => {
                        return Err(error);
                    },
                    Ok(found) => {
                        if affinity.is_some() {
                            return Err(SchemaCodecError::DuplicateField);
                        }
                        affinity = Some(found);
                    },
                }
            } else if tag == TAG_COLUMN_STRICT {
                match read_strict_type(payload) {
                    Err(error) => {
                        return Err(error);
                    },
                    Ok(found) => {
                        if strict.is_some() {
                            return Err(SchemaCodecError::DuplicateField);
                        }
                        strict = Some(found);
                    },
                }
            } else if tag == TAG_COLUMN_INTEGER {
                match read_flag(payload) {
                    Err(error) => {
                        return Err(error);
                    },
                    Ok(found) => {
                        if integer.is_some() {
                            return Err(SchemaCodecError::DuplicateField);
                        }
                        integer = Some(found);
                    },
                }
            } else if tag == TAG_COLUMN_NOT_NULL {
                match read_flag(payload) {
                    Err(error) => {
                        return Err(error);
                    },
                    Ok(found) => {
                        if not_null.is_some() {
                            return Err(SchemaCodecError::DuplicateField);
                        }
                        not_null = Some(found);
                    },
                }
            } else if tag == TAG_COLUMN_DEFAULT {
                match read_string(payload) {
                    Err(error) => {
                        return Err(error);
                    },
                    Ok(found) => {
                        if default.is_some() {
                            return Err(SchemaCodecError::DuplicateField);
                        }
                        default = Some(found);
                    },
                }
            } else if tag == TAG_COLUMN_PRIMARY_KEY {
                match read_number(payload) {
                    Err(error) => {
                        return Err(error);
                    },
                    Ok(found) => {
                        if primary_key.is_some() {
                            return Err(SchemaCodecError::DuplicateField);
                        }
                        primary_key = Some(found);
                    },
                }
            }
            proof {
                state = next->Ok_0;
            }
        }
        let id = match id {
            Some(found) => found,
            None => {
                return Err(SchemaCodecError::MissingField(TAG_COLUMN_ID));
            },
        };
        let name = match name {
            Some(found) => found,
            None => {
                return Err(SchemaCodecError::MissingField(TAG_COLUMN_NAME));
            },
        };
        let affinity = match affinity {
            Some(found) => found,
            None => {
                return Err(SchemaCodecError::MissingField(TAG_COLUMN_AFFINITY));
            },
        };
        let integer = match integer {
            Some(found) => found,
            None => {
                return Err(SchemaCodecError::MissingField(TAG_COLUMN_INTEGER));
            },
        };
        let not_null = match not_null {
            Some(found) => found,
            None => {
                return Err(SchemaCodecError::MissingField(TAG_COLUMN_NOT_NULL));
            },
        };
        let r = Column { id, name, affinity, strict, integer, not_null, default, primary_key };
        assert(r@ == column_finish(state)->Ok_0);
        Ok(r)
    }
}

/// Whether a value is one that decoding can give.
pub open spec fn column_valid(x: ColumnView) -> bool {
    &&& random_uuid(x.id)
}

/// Decoding the frame of a column gives it back.
pub proof fn column_roundtrip(x: ColumnView)
    requires
        column_valid(x),
        column_fits(x),
    ensures
        column_decoded(column_frame(x)) == Ok::<ColumnView, SchemaCodecError>(x),
{
    reveal(column_decoded);
    reveal(column_frame);
    let none = Seq::<(u8, Seq<u8>)>::empty();
    let f1 = none.push((TAG_COLUMN_ID, x.id));
    let f2 = f1.push((TAG_COLUMN_NAME, encode_utf8(x.name)));
    let f3 = f2.push((TAG_COLUMN_AFFINITY, seq![x.affinity.code()]));
    let f4 = match x.strict {
        Some(value) => f3.push((TAG_COLUMN_STRICT, seq![value.code()])),
        None => f3,
    };
    let f5 = f4.push((TAG_COLUMN_INTEGER, flag_bytes(x.integer)));
    let f6 = f5.push((TAG_COLUMN_NOT_NULL, flag_bytes(x.not_null)));
    let f7 = match x.default {
        Some(value) => f6.push((TAG_COLUMN_DEFAULT, encode_utf8(value))),
        None => f6,
    };
    let f8 = match x.primary_key {
        Some(value) => f7.push((TAG_COLUMN_PRIMARY_KEY, be32(value as nat))),
        None => f7,
    };
    let step = column_steps();
    let s0 = column_start();
    assert(fields_fit(none));
    let s1 = ColumnState { id: Some(x.id), ..s0 };
    assert(fold_fields(s0, f1, step) == Ok::<ColumnState, SchemaCodecError>(s1) && fields_fit(f1)) by {
        lemma_fold_push(s0, none, TAG_COLUMN_ID, x.id, step);
        lemma_fit_push(none, TAG_COLUMN_ID, x.id);
        assert(step(s0, TAG_COLUMN_ID, x.id) == Ok::<ColumnState, SchemaCodecError>(s1));
    }
    let s2 = ColumnState { name: Some(x.name), ..s1 };
    assert(fold_fields(s0, f2, step) == Ok::<ColumnState, SchemaCodecError>(s2) && fields_fit(f2)) by {
        lemma_text_field(x.name);
        lemma_fold_push(s0, f1, TAG_COLUMN_NAME, encode_utf8(x.name), step);
        lemma_fit_push(f1, TAG_COLUMN_NAME, encode_utf8(x.name));
        assert(step(s1, TAG_COLUMN_NAME, encode_utf8(x.name)) == Ok::<ColumnState, SchemaCodecError>(s2));
    }
    let s3 = ColumnState { affinity: Some(x.affinity), ..s2 };
    assert(fold_fields(s0, f3, step) == Ok::<ColumnState, SchemaCodecError>(s3) && fields_fit(f3)) by {
        lemma_fold_push(s0, f2, TAG_COLUMN_AFFINITY, seq![x.affinity.code()], step);
        lemma_fit_push(f2, TAG_COLUMN_AFFINITY, seq![x.affinity.code()]);
        assert(step(s2, TAG_COLUMN_AFFINITY, seq![x.affinity.code()]) == Ok::<ColumnState, SchemaCodecError>(s3));
    }
    let s4 = ColumnState { strict: x.strict, ..s3 };
    assert(fold_fields(s0, f4, step) == Ok::<ColumnState, SchemaCodecError>(s4) && fields_fit(f4)) by {
        match x.strict {
            Some(value) => {
                lemma_fold_push(s0, f3, TAG_COLUMN_STRICT, seq![value.code()], step);
                lemma_fit_push(f3, TAG_COLUMN_STRICT, seq![value.code()]);
                assert(step(s3, TAG_COLUMN_STRICT, seq![value.code()]) == Ok::<ColumnState, SchemaCodecError>(s4));
            },
            None => {
                assert(s4 == s3);
            },
        }
    }
    let s5 = ColumnState { integer: Some(x.integer), ..s4 };
    assert(fold_fields(s0, f5, step) == Ok::<ColumnState, SchemaCodecError>(s5) && fields_fit(f5)) by {
        lemma_fold_push(s0, f4, TAG_COLUMN_INTEGER, flag_bytes(x.integer), step);
        lemma_fit_push(f4, TAG_COLUMN_INTEGER, flag_bytes(x.integer));
        assert(step(s4, TAG_COLUMN_INTEGER, flag_bytes(x.integer)) == Ok::<ColumnState, SchemaCodecError>(s5));
    }
    let s6 = ColumnState { not_null: Some(x.not_null), ..s5 };
    assert(fold_fields(s0, f6, step) == Ok::<ColumnState, SchemaCodecError>(s6) && fields_fit(f6)) by {
        lemma_fold_push(s0, f5, TAG_COLUMN_NOT_NULL, flag_bytes(x.not_null), step);
        lemma_fit_push(f5, TAG_COLUMN_NOT_NULL, flag_bytes(x.not_null));
        assert(step(s5, TAG_COLUMN_NOT_NULL, flag_bytes(x.not_null)) == Ok::<ColumnState, SchemaCodecError>(s6));
    }
    let s7 = ColumnState { default: x.default, ..s6 };
    assert(fold_fields(s0, f7, step) == Ok::<ColumnState, SchemaCodecError>(s7) && fields_fit(f7)) by {
        match x.default {
            Some(value) => {
                lemma_text_field(value);
                lemma_fold_push(s0, f6, TAG_COLUMN_DEFAULT, encode_utf8(value), step);
                lemma_fit_push(f6, TAG_COLUMN_DEFAULT, encode_utf8(value));
                assert(step(s6, TAG_COLUMN_DEFAULT, encode_utf8(value)) == Ok::<ColumnState, SchemaCodecError>(s7));
            },
            None => {
                assert(s7 == s6);
            },
        }
    }
    let s8 = ColumnState { primary_key: x.primary_key, ..s7 };
    assert(fold_fields(s0, f8, step) == Ok::<ColumnState, SchemaCodecError>(s8) && fields_fit(f8)) by {
        match x.primary_key {
            Some(value) => {
                lemma_number_field(value);
                lemma_fold_push(s0, f7, TAG_COLUMN_PRIMARY_KEY, be32(value as nat), step);
                lemma_fit_push(f7, TAG_COLUMN_PRIMARY_KEY, be32(value as nat));
                assert(step(s7, TAG_COLUMN_PRIMARY_KEY, be32(value as nat)) == Ok::<ColumnState, SchemaCodecError>(s8));
            },
            None => {
                assert(s8 == s7);
            },
        }
    }
    lemma_run_fold(s0, f8, step, SchemaCodecError::Truncated);
    assert(f8 == column_fields(x));
    assert(column_finish(s8) == Ok::<ColumnView, SchemaCodecError>(x));
}

/// The bytes that known fields of a column take.
pub open spec fn column_size(s: ColumnState) -> nat {
    let id: nat = match s.id {
        Some(value) => 5 + value.len(),
        None => 0,
    };
    let name: nat = match s.name {
        Some(value) => 5 + encode_utf8(value).len(),
        None => 0,
    };
    let affinity: nat = match s.affinity {
        Some(value) => 5 + seq![value.code()].len(),
        None => 0,
    };
    let strict: nat = match s.strict {
        Some(value) => 5 + seq![value.code()].len(),
        None => 0,
    };
    let integer: nat = match s.integer {
        Some(value) => 5 + flag_bytes(value).len(),
        None => 0,
    };
    let not_null: nat = match s.not_null {
        Some(value) => 5 + flag_bytes(value).len(),
        None => 0,
    };
    let default: nat = match s.default {
        Some(value) => 5 + encode_utf8(value).len(),
        None => 0,
    };
    let primary_key: nat = match s.primary_key {
        Some(value) => 5 + be32(value as nat).len(),
        None => 0,
    };
    id + name + affinity + strict + integer + not_null + default + primary_key
}

/// Whether known fields of a column are sound and can be written again.
pub open spec fn column_sound(s: ColumnState) -> bool {
    &&& (s.id matches Some(value) ==> random_uuid(value) && fits(value))
    &&& (s.name matches Some(value) ==> fits(encode_utf8(value)))
    &&& (s.affinity matches Some(value) ==> fits(seq![value.code()]))
    &&& (s.strict matches Some(value) ==> fits(seq![value.code()]))
    &&& (s.integer matches Some(value) ==> fits(flag_bytes(value)))
    &&& (s.not_null matches Some(value) ==> fits(flag_bytes(value)))
    &&& (s.default matches Some(value) ==> fits(encode_utf8(value)))
    &&& (s.primary_key matches Some(value) ==> fits(be32(value as nat)))
}

/// One field adds no more than its own bytes.
proof fn lemma_column_step(s: ColumnState, tag: u8, payload: Seq<u8>)
    requires
        column_sound(s),
        fits(payload),
    ensures
        column_step(s, tag, payload) matches Ok(next) ==> column_sound(next) && column_size(next) <= column_size(
            s,
        ) + 5 + payload.len(),
{
    if let Ok(next) = column_step(s, tag, payload) {
        if tag == TAG_COLUMN_ID {
        } else if tag == TAG_COLUMN_NAME {
            lemma_text_shrinks(payload);
        } else if tag == TAG_COLUMN_AFFINITY {
        } else if tag == TAG_COLUMN_STRICT {
        } else if tag == TAG_COLUMN_INTEGER {
        } else if tag == TAG_COLUMN_NOT_NULL {
        } else if tag == TAG_COLUMN_DEFAULT {
            lemma_text_shrinks(payload);
        } else if tag == TAG_COLUMN_PRIMARY_KEY {
        }
    }
}

/// What decoding gives is sound and takes no more bytes than it was read from.
pub proof fn column_shrinks(b: Seq<u8>)
    ensures
        column_decoded(b) matches Ok(x) ==> column_valid(x) && column_fits(x) && column_frame(x).len() <= b.len(),
{
    reveal(column_decoded);
    reveal(column_frame);
    if let Ok(x) = column_decoded(b) {
        let body = b;
        let good = |s: ColumnState| column_sound(s);
        let size = |s: ColumnState| column_size(s);
        let step = column_steps();
        let s0 = column_start();
        let end = run_fields(s0, body, step, SchemaCodecError::Truncated)->Ok_0;
        assert forall|s: ColumnState, tag: u8, payload: Seq<u8>|
            good(s) && fits(payload) && (#[trigger] step(s, tag, payload)) is Ok implies good(
            step(s, tag, payload)->Ok_0,
        ) && size(step(s, tag, payload)->Ok_0) <= size(s) + 5 + payload.len() by {
            lemma_column_step(s, tag, payload);
        }
        lemma_run_bounded(s0, body, step, good, size, SchemaCodecError::Truncated);
        assert(column_sound(end));
        let none = Seq::<(u8, Seq<u8>)>::empty();
        assert(fields_bytes(none).len() == 0);
        let f1 = none.push((TAG_COLUMN_ID, x.id));
        lemma_fields_len(none, TAG_COLUMN_ID, x.id);
        let f2 = f1.push((TAG_COLUMN_NAME, encode_utf8(x.name)));
        lemma_fields_len(f1, TAG_COLUMN_NAME, encode_utf8(x.name));
        let f3 = f2.push((TAG_COLUMN_AFFINITY, seq![x.affinity.code()]));
        lemma_fields_len(f2, TAG_COLUMN_AFFINITY, seq![x.affinity.code()]);
        let f4 = match x.strict {
            Some(value) => f3.push((TAG_COLUMN_STRICT, seq![value.code()])),
            None => f3,
        };
        if let Some(value) = x.strict {
            lemma_fields_len(f3, TAG_COLUMN_STRICT, seq![value.code()]);
        }
        let f5 = f4.push((TAG_COLUMN_INTEGER, flag_bytes(x.integer)));
        lemma_fields_len(f4, TAG_COLUMN_INTEGER, flag_bytes(x.integer));
        let f6 = f5.push((TAG_COLUMN_NOT_NULL, flag_bytes(x.not_null)));
        lemma_fields_len(f5, TAG_COLUMN_NOT_NULL, flag_bytes(x.not_null));
        let f7 = match x.default {
            Some(value) => f6.push((TAG_COLUMN_DEFAULT, encode_utf8(value))),
            None => f6,
        };
        if let Some(value) = x.default {
            lemma_fields_len(f6, TAG_COLUMN_DEFAULT, encode_utf8(value));
        }
        let f8 = match x.primary_key {
            Some(value) => f7.push((TAG_COLUMN_PRIMARY_KEY, be32(value as nat))),
            None => f7,
        };
        if let Some(value) = x.primary_key {
            lemma_fields_len(f7, TAG_COLUMN_PRIMARY_KEY, be32(value as nat));
        }
        assert(f8 == column_fields(x));
        assert(column_size(s0) == 0);
        assert(fields_bytes(f8).len() == column_size(end));
    }
}

/// One UNIQUE constraint of a table.
#[derive(Debug, PartialEq, Eq)]
pub struct UniqueConstraint {
    pub index: IndexId,
    pub name: Option<SqlName>,
    pub columns: Vec<ColumnId>,
}

/// A UNIQUE constraint as a mathematical value.
#[verifier::ext_equal]
pub struct UniqueView {
    pub index: Seq<u8>,
    pub name: Option<Seq<char>>,
    pub columns: Seq<Seq<u8>>,
}

impl View for UniqueConstraint {
    type V = UniqueView;

    open spec fn view(&self) -> UniqueView {
        UniqueView {
            index: self.index@,
            name: view_of(self.name),
            columns: views(self.columns@),
        }
    }
}

impl Clone for UniqueConstraint {
    fn clone(&self) -> (r: Self)
        ensures
            r@ == self@,
    {
        let name = match &self.name {
            Some(value) => Some(value.clone()),
            None => None,
        };
        UniqueConstraint {
            index: self.index,
            name,
            columns: clone_column_ids(&self.columns),
        }
    }
}

impl UniqueConstraint {
    /// Whether two values are equal.
    pub fn same(&self, other: &UniqueConstraint) -> (r: bool)
        ensures
            r == (self@ == other@),
    {
        self.index.same(&other.index)
            && same_optional_sql_name(&self.name, &other.name)
            && same_column_ids(&self.columns, &other.columns)
    }
}

/// A copy of a list.
pub fn clone_unique_constraints(items: &Vec<UniqueConstraint>) -> (r: Vec<UniqueConstraint>)
    ensures
        views(r@) == views(items@),
{
    let mut r: Vec<UniqueConstraint> = Vec::new();
    let mut i: usize = 0;
    while i < items.len()
        invariant
            i <= items@.len(),
            r@.len() == i,
            forall|j: int| 0 <= j < i ==> (#[trigger] r@[j])@ == items@[j]@,
        decreases items.len() - i,
    {
        r.push(items[i].clone());
        i += 1;
    }
    assert(views(r@) =~= views(items@));
    r
}

/// Whether two lists hold equal items.
pub fn same_unique_constraints(a: &Vec<UniqueConstraint>, b: &Vec<UniqueConstraint>) -> (r: bool)
    ensures
        r == (views(a@) == views(b@)),
{
    if a.len() != b.len() {
        assert(views(a@).len() != views(b@).len());
        return false;
    }
    let mut i: usize = 0;
    while i < a.len()
        invariant
            i <= a@.len(),
            a@.len() == b@.len(),
            forall|j: int| 0 <= j < i ==> views(a@)[j] == views(b@)[j],
        decreases a.len() - i,
    {
        if !a[i].same(&b[i]) {
            assert(views(a@)[i as int] != views(b@)[i as int]);
            return false;
        }
        i += 1;
    }
    assert(views(a@) =~= views(b@));
    true
}

/// The fields of the frame of a UNIQUE constraint.
pub open spec fn unique_constraint_fields(x: UniqueView) -> Seq<(u8, Seq<u8>)> {
    let none = Seq::<(u8, Seq<u8>)>::empty();
    let f1 = none.push((TAG_UNIQUE_INDEX, x.index));
    let f2 = match x.name {
        Some(value) => f1.push((TAG_UNIQUE_NAME, encode_utf8(value))),
        None => f1,
    };
    let f3 = f2 + bytes_list(TAG_UNIQUE_COLUMN, x.columns);
    f3
}

/// The frame of a UNIQUE constraint.
#[verifier::opaque]
pub open spec fn unique_constraint_frame(x: UniqueView) -> Seq<u8> {
    fields_bytes(unique_constraint_fields(x))
}

/// Whether every field of the frame has a length that a `u32` holds.
pub open spec fn unique_constraint_fits(x: UniqueView) -> bool {
    &&& (x.name matches Some(value) ==> fits(encode_utf8(value)))
}

/// The fields of a list under one tag, each with its own frame.
pub open spec fn unique_constraint_list(tag: u8, items: Seq<UniqueView>) -> Seq<(u8, Seq<u8>)> {
    Seq::new(items.len(), |i: int| (tag, unique_constraint_frame(items[i])))
}

/// Write the fields of a list under one tag.
pub fn write_unique_constraints(w: FrameWriter, tag: u8, items: &Vec<UniqueConstraint>) -> (r: FrameWriter)
    requires
        forall|i: int| 0 <= i < items@.len() ==> unique_constraint_fits(#[trigger] views(items@)[i]) && fits(unique_constraint_frame(views(items@)[i])),
    ensures
        r.head() == w.head(),
        r.fields() == w.fields() + unique_constraint_list(tag, views(items@)),
{
    let ghost list = unique_constraint_list(tag, views(items@));
    let ghost head = w.head();
    let ghost before = w.fields();
    let mut w = w;
    let mut i: usize = 0;
    assert(before + list.subrange(0, 0) =~= before);
    while i < items.len()
        invariant
            i <= items@.len(),
            list == unique_constraint_list(tag, views(items@)),
            w.head() == head,
            w.fields() == before + list.subrange(0, i as int),
            forall|i: int| 0 <= i < items@.len() ==> unique_constraint_fits(#[trigger] views(items@)[i]) && fits(unique_constraint_frame(views(items@)[i])),
        decreases items.len() - i,
    {
        assert(views(items@)[i as int] == items@[i as int]@);
        let item = items[i].encode();
        w = w.field(tag, item.as_slice());
        assert(w.fields() =~= before + list.subrange(0, i as int + 1));
        i += 1;
    }
    assert(list.subrange(0, i as int) =~= list);
    w
}

impl UniqueConstraint {
    /// Encode the frame.
    pub fn encode(&self) -> (r: Vec<u8>)
        requires
            unique_constraint_fits(self@),
        ensures
            r@ == unique_constraint_frame(self@),
    {
        assert(self@.columns == views(self.columns@));
        let w = FrameWriter::new();
        let index = copy_bytes(&self.index.as_bytes());
        let w = w.field(TAG_UNIQUE_INDEX, index.as_slice());
        let w = match &self.name {
            Some(value) => {
                let name = copy_bytes(value.value().as_bytes());
                w.field(TAG_UNIQUE_NAME, name.as_slice())
            },
            None => w,
        };
        let w = write_column_ids(w, TAG_UNIQUE_COLUMN, &self.columns);
        assert(w.fields() =~= unique_constraint_fields(self@));
        reveal(unique_constraint_frame);
        w.finish()
    }
}

/// What is known of a UNIQUE constraint after some of its fields.
#[verifier::ext_equal]
pub struct UniqueState {
    pub index: Option<Seq<u8>>,
    pub name: Option<Seq<char>>,
    pub columns: Seq<Seq<u8>>,
}

/// Nothing is known before the first field.
pub open spec fn unique_constraint_start() -> UniqueState {
    UniqueState {
        index: None,
        name: None,
        columns: Seq::empty(),
    }
}

/// What one field adds.
pub open spec fn unique_constraint_step(s: UniqueState, tag: u8, payload: Seq<u8>) -> Result<UniqueState, SchemaCodecError> {
    if tag == TAG_UNIQUE_INDEX {
        match filled(s.index, uuid_field(payload), SchemaCodecError::DuplicateField) {
            Err(error) => Err(error),
            Ok(index) => Ok(UniqueState { index, ..s }),
        }
    } else if tag == TAG_UNIQUE_NAME {
        match filled(s.name, text_field(payload), SchemaCodecError::DuplicateField) {
            Err(error) => Err(error),
            Ok(name) => Ok(UniqueState { name, ..s }),
        }
    } else if tag == TAG_UNIQUE_COLUMN {
        match grown(s.columns, uuid_field(payload)) {
            Err(error) => Err(error),
            Ok(columns) => Ok(UniqueState { columns, ..s }),
        }
    } else {
        Ok(s)
    }
}

/// [`unique_constraint_step`] as a value.
pub open spec fn unique_constraint_steps() -> spec_fn(UniqueState, u8, Seq<u8>) -> Result<UniqueState, SchemaCodecError> {
    |s: UniqueState, tag: u8, payload: Seq<u8>| unique_constraint_step(s, tag, payload)
}

/// A UNIQUE constraint that the fields describe.
pub open spec fn unique_constraint_finish(s: UniqueState) -> Result<UniqueView, SchemaCodecError> {
    if s.index is None {
        Err(SchemaCodecError::MissingField(TAG_UNIQUE_INDEX))
    } else {
        Ok(UniqueView {
            index: s.index->Some_0,
            name: s.name,
            columns: s.columns,
        })
    }
}

/// What decoding a frame gives.
#[verifier::opaque]
pub open spec fn unique_constraint_decoded(b: Seq<u8>) -> Result<UniqueView, SchemaCodecError> {
    match run_fields(unique_constraint_start(), b, unique_constraint_steps(), SchemaCodecError::Truncated) {
        Err(error) => Err(error),
        Ok(s) => unique_constraint_finish(s),
    }
}

impl UniqueConstraint {
    /// Decode one complete frame.
    pub fn decode(frame: &[u8]) -> (r: Result<UniqueConstraint, SchemaCodecError>)
        ensures
            outcome(r) == unique_constraint_decoded(frame@),
    {
        broadcast use lemma_views_push;
        reveal(unique_constraint_decoded);
        let mut reader = Reader::new(frame);
        let mut index: Option<IndexId> = None;
        let mut name: Option<SqlName> = None;
        let mut columns: Vec<ColumnId> = Vec::new();
        let ghost mut state = unique_constraint_start();
        assert(views(columns@) =~= Seq::<Seq<u8>>::empty());
        while !reader.is_empty()
            invariant
                state == (UniqueState {
                    index: view_of(index),
                    name: view_of(name),
                    columns: views(columns@),
                }),
                unique_constraint_decoded(frame@) == (match run_fields(
                    state,
                    reader.remaining(),
                    unique_constraint_steps(),
                    SchemaCodecError::Truncated,
                ) {
                    Err(error) => Err(error),
                    Ok(s) => unique_constraint_finish(s),
                }),
            decreases reader.remaining().len(),
        {
            let (tag, payload) = match reader.field() {
                Ok(Some(field)) => field,
                _ => {
                    return Err(SchemaCodecError::Truncated);
                },
            };
            let ghost next = unique_constraint_step(state, tag, payload@);
            assert(unique_constraint_steps()(state, tag, payload@) == next);
            if tag == TAG_UNIQUE_INDEX {
                match read_uuid(payload) {
                    Err(error) => {
                        return Err(error);
                    },
                    Ok(found) => {
                        if index.is_some() {
                            return Err(SchemaCodecError::DuplicateField);
                        }
                        index = Some(IndexId(found));
                    },
                }
            } else if tag == TAG_UNIQUE_NAME {
                match read_name(payload) {
                    Err(error) => {
                        return Err(error);
                    },
                    Ok(found) => {
                        if name.is_some() {
                            return Err(SchemaCodecError::DuplicateField);
                        }
                        name = Some(found);
                    },
                }
            } else if tag == TAG_UNIQUE_COLUMN {
                match read_uuid(payload) {
                    Err(error) => {
                        return Err(error);
                    },
                    Ok(found) => {
                        columns.push(ColumnId(found));
                    },
                }
            }
            proof {
                state = next->Ok_0;
            }
        }
        let index = match index {
            Some(found) => found,
            None => {
                return Err(SchemaCodecError::MissingField(TAG_UNIQUE_INDEX));
            },
        };
        let r = UniqueConstraint { index, name, columns };
        assert(r@ == unique_constraint_finish(state)->Ok_0);
        Ok(r)
    }
}

/// Whether a value is one that decoding can give.
pub open spec fn unique_constraint_valid(x: UniqueView) -> bool {
    &&& random_uuid(x.index)
    &&& forall|i: int| 0 <= i < x.columns.len() ==> random_uuid(#[trigger] x.columns[i])
}

/// Decoding the frame of a UNIQUE constraint gives it back.
pub proof fn unique_constraint_roundtrip(x: UniqueView)
    requires
        unique_constraint_valid(x),
        unique_constraint_fits(x),
    ensures
        unique_constraint_decoded(unique_constraint_frame(x)) == Ok::<UniqueView, SchemaCodecError>(x),
{
    reveal(unique_constraint_decoded);
    reveal(unique_constraint_frame);
    let none = Seq::<(u8, Seq<u8>)>::empty();
    let f1 = none.push((TAG_UNIQUE_INDEX, x.index));
    let f2 = match x.name {
        Some(value) => f1.push((TAG_UNIQUE_NAME, encode_utf8(value))),
        None => f1,
    };
    let f3 = f2 + bytes_list(TAG_UNIQUE_COLUMN, x.columns);
    let step = unique_constraint_steps();
    let s0 = unique_constraint_start();
    assert(fields_fit(none));
    let s1 = UniqueState { index: Some(x.index), ..s0 };
    assert(fold_fields(s0, f1, step) == Ok::<UniqueState, SchemaCodecError>(s1) && fields_fit(f1)) by {
        lemma_fold_push(s0, none, TAG_UNIQUE_INDEX, x.index, step);
        lemma_fit_push(none, TAG_UNIQUE_INDEX, x.index);
        assert(step(s0, TAG_UNIQUE_INDEX, x.index) == Ok::<UniqueState, SchemaCodecError>(s1));
    }
    let s2 = UniqueState { name: x.name, ..s1 };
    assert(fold_fields(s0, f2, step) == Ok::<UniqueState, SchemaCodecError>(s2) && fields_fit(f2)) by {
        match x.name {
            Some(value) => {
                lemma_text_field(value);
                lemma_fold_push(s0, f1, TAG_UNIQUE_NAME, encode_utf8(value), step);
                lemma_fit_push(f1, TAG_UNIQUE_NAME, encode_utf8(value));
                assert(step(s1, TAG_UNIQUE_NAME, encode_utf8(value)) == Ok::<UniqueState, SchemaCodecError>(s2));
            },
            None => {
                assert(s2 == s1);
            },
        }
    }
    let s3 = UniqueState { columns: x.columns, ..s2 };
    assert(fold_fields(s0, f3, step) == Ok::<UniqueState, SchemaCodecError>(s3) && fields_fit(f3)) by {
        let states = |i: int| UniqueState { columns: x.columns.subrange(0, i), ..s2 };
        let fields = bytes_list(TAG_UNIQUE_COLUMN, x.columns);
        assert forall|i: int| 0 <= i < fields.len() implies #[trigger] step(
            states(i),
            fields[i].0,
            fields[i].1,
        ) == Ok::<UniqueState, SchemaCodecError>(states(i + 1)) by {

            assert(x.columns.subrange(0, i).push(x.columns[i]) =~= x.columns.subrange(0, i + 1));
        }
        assert(states(0) =~= s2);
        lemma_fold_list(s0, f2, fields, states, step);
        assert(states(fields.len() as int) =~= s3);
        assert forall|i: int| 0 <= i < fields.len() implies fits((#[trigger] fields[i]).1) by {
            assert(random_uuid(x.columns[i]));
        }
        lemma_fit_concat(f2, fields);
    }
    lemma_run_fold(s0, f3, step, SchemaCodecError::Truncated);
    assert(f3 == unique_constraint_fields(x));
    assert(unique_constraint_finish(s3) == Ok::<UniqueView, SchemaCodecError>(x));
}

/// The bytes that known fields of a UNIQUE constraint take.
pub open spec fn unique_constraint_size(s: UniqueState) -> nat {
    let index: nat = match s.index {
        Some(value) => 5 + value.len(),
        None => 0,
    };
    let name: nat = match s.name {
        Some(value) => 5 + encode_utf8(value).len(),
        None => 0,
    };
    let columns = fields_bytes(bytes_list(TAG_UNIQUE_COLUMN, s.columns)).len();
    index + name + columns
}

/// Whether known fields of a UNIQUE constraint are sound and can be written again.
pub open spec fn unique_constraint_sound(s: UniqueState) -> bool {
    &&& (s.index matches Some(value) ==> random_uuid(value) && fits(value))
    &&& (s.name matches Some(value) ==> fits(encode_utf8(value)))
    &&& forall|i: int| 0 <= i < s.columns.len() ==> random_uuid(#[trigger] s.columns[i]) && fits(s.columns[i])
}

/// One field adds no more than its own bytes.
proof fn lemma_unique_constraint_step(s: UniqueState, tag: u8, payload: Seq<u8>)
    requires
        unique_constraint_sound(s),
        fits(payload),
    ensures
        unique_constraint_step(s, tag, payload) matches Ok(next) ==> unique_constraint_sound(next) && unique_constraint_size(next) <= unique_constraint_size(
            s,
        ) + 5 + payload.len(),
{
    if let Ok(next) = unique_constraint_step(s, tag, payload) {
        if tag == TAG_UNIQUE_INDEX {
        } else if tag == TAG_UNIQUE_NAME {
            lemma_text_shrinks(payload);
        } else if tag == TAG_UNIQUE_COLUMN {
            let found = uuid_field(payload)->Ok_0;
            assert(bytes_list(TAG_UNIQUE_COLUMN, s.columns.push(found)) =~= bytes_list(TAG_UNIQUE_COLUMN, s.columns).push(
                (TAG_UNIQUE_COLUMN, found),
            ));
            lemma_fields_len(bytes_list(TAG_UNIQUE_COLUMN, s.columns), TAG_UNIQUE_COLUMN, found);
        }
    }
}

/// What decoding gives is sound and takes no more bytes than it was read from.
pub proof fn unique_constraint_shrinks(b: Seq<u8>)
    ensures
        unique_constraint_decoded(b) matches Ok(x) ==> unique_constraint_valid(x) && unique_constraint_fits(x) && unique_constraint_frame(x).len() <= b.len(),
{
    reveal(unique_constraint_decoded);
    reveal(unique_constraint_frame);
    if let Ok(x) = unique_constraint_decoded(b) {
        let body = b;
        let good = |s: UniqueState| unique_constraint_sound(s);
        let size = |s: UniqueState| unique_constraint_size(s);
        let step = unique_constraint_steps();
        let s0 = unique_constraint_start();
        let end = run_fields(s0, body, step, SchemaCodecError::Truncated)->Ok_0;
        assert forall|s: UniqueState, tag: u8, payload: Seq<u8>|
            good(s) && fits(payload) && (#[trigger] step(s, tag, payload)) is Ok implies good(
            step(s, tag, payload)->Ok_0,
        ) && size(step(s, tag, payload)->Ok_0) <= size(s) + 5 + payload.len() by {
            lemma_unique_constraint_step(s, tag, payload);
        }
        lemma_run_bounded(s0, body, step, good, size, SchemaCodecError::Truncated);
        assert(unique_constraint_sound(end));
        let none = Seq::<(u8, Seq<u8>)>::empty();
        assert(fields_bytes(none).len() == 0);
        let f1 = none.push((TAG_UNIQUE_INDEX, x.index));
        lemma_fields_len(none, TAG_UNIQUE_INDEX, x.index);
        let f2 = match x.name {
            Some(value) => f1.push((TAG_UNIQUE_NAME, encode_utf8(value))),
            None => f1,
        };
        if let Some(value) = x.name {
            lemma_fields_len(f1, TAG_UNIQUE_NAME, encode_utf8(value));
        }
        let f3 = f2 + bytes_list(TAG_UNIQUE_COLUMN, x.columns);
        lemma_fields_concat(f2, bytes_list(TAG_UNIQUE_COLUMN, x.columns));
        assert(bytes_list(TAG_UNIQUE_COLUMN, Seq::<Seq<u8>>::empty()) =~= none);
        assert(f3 == unique_constraint_fields(x));
        assert(unique_constraint_size(s0) == 0);
        assert(fields_bytes(f3).len() == unique_constraint_size(end));
    }
}

/// One index that a statement named.
#[derive(Debug, PartialEq, Eq)]
pub struct NamedIndex {
    pub index: IndexId,
    pub name: SqlName,
    pub unique: bool,
    pub active: bool,
    pub columns: Vec<ColumnId>,
}

/// A named index as a mathematical value.
#[verifier::ext_equal]
pub struct NamedIndexView {
    pub index: Seq<u8>,
    pub name: Seq<char>,
    pub unique: bool,
    pub active: bool,
    pub columns: Seq<Seq<u8>>,
}

impl View for NamedIndex {
    type V = NamedIndexView;

    open spec fn view(&self) -> NamedIndexView {
        NamedIndexView {
            index: self.index@,
            name: self.name@,
            unique: self.unique,
            active: self.active,
            columns: views(self.columns@),
        }
    }
}

impl Clone for NamedIndex {
    fn clone(&self) -> (r: Self)
        ensures
            r@ == self@,
    {
        NamedIndex {
            index: self.index,
            name: self.name.clone(),
            unique: self.unique,
            active: self.active,
            columns: clone_column_ids(&self.columns),
        }
    }
}

impl NamedIndex {
    /// Whether two values are equal.
    pub fn same(&self, other: &NamedIndex) -> (r: bool)
        ensures
            r == (self@ == other@),
    {
        self.index.same(&other.index)
            && self.name.same(&other.name)
            && (self.unique == other.unique)
            && (self.active == other.active)
            && same_column_ids(&self.columns, &other.columns)
    }
}

/// A copy of a list.
pub fn clone_named_indexes(items: &Vec<NamedIndex>) -> (r: Vec<NamedIndex>)
    ensures
        views(r@) == views(items@),
{
    let mut r: Vec<NamedIndex> = Vec::new();
    let mut i: usize = 0;
    while i < items.len()
        invariant
            i <= items@.len(),
            r@.len() == i,
            forall|j: int| 0 <= j < i ==> (#[trigger] r@[j])@ == items@[j]@,
        decreases items.len() - i,
    {
        r.push(items[i].clone());
        i += 1;
    }
    assert(views(r@) =~= views(items@));
    r
}

/// Whether two lists hold equal items.
pub fn same_named_indexes(a: &Vec<NamedIndex>, b: &Vec<NamedIndex>) -> (r: bool)
    ensures
        r == (views(a@) == views(b@)),
{
    if a.len() != b.len() {
        assert(views(a@).len() != views(b@).len());
        return false;
    }
    let mut i: usize = 0;
    while i < a.len()
        invariant
            i <= a@.len(),
            a@.len() == b@.len(),
            forall|j: int| 0 <= j < i ==> views(a@)[j] == views(b@)[j],
        decreases a.len() - i,
    {
        if !a[i].same(&b[i]) {
            assert(views(a@)[i as int] != views(b@)[i as int]);
            return false;
        }
        i += 1;
    }
    assert(views(a@) =~= views(b@));
    true
}

/// The fields of the frame of a named index.
pub open spec fn named_index_fields(x: NamedIndexView) -> Seq<(u8, Seq<u8>)> {
    let none = Seq::<(u8, Seq<u8>)>::empty();
    let f1 = none.push((TAG_INDEX_ID, x.index));
    let f2 = f1.push((TAG_INDEX_NAME, encode_utf8(x.name)));
    let f3 = f2.push((TAG_INDEX_UNIQUE, flag_bytes(x.unique)));
    let f4 = f3.push((TAG_INDEX_ACTIVE, flag_bytes(x.active)));
    let f5 = f4 + bytes_list(TAG_INDEX_COLUMN, x.columns);
    f5
}

/// The frame of a named index.
#[verifier::opaque]
pub open spec fn named_index_frame(x: NamedIndexView) -> Seq<u8> {
    fields_bytes(named_index_fields(x))
}

/// Whether every field of the frame has a length that a `u32` holds.
pub open spec fn named_index_fits(x: NamedIndexView) -> bool {
    &&& fits(encode_utf8(x.name))
}

/// The fields of a list under one tag, each with its own frame.
pub open spec fn named_index_list(tag: u8, items: Seq<NamedIndexView>) -> Seq<(u8, Seq<u8>)> {
    Seq::new(items.len(), |i: int| (tag, named_index_frame(items[i])))
}

/// Write the fields of a list under one tag.
pub fn write_named_indexes(w: FrameWriter, tag: u8, items: &Vec<NamedIndex>) -> (r: FrameWriter)
    requires
        forall|i: int| 0 <= i < items@.len() ==> named_index_fits(#[trigger] views(items@)[i]) && fits(named_index_frame(views(items@)[i])),
    ensures
        r.head() == w.head(),
        r.fields() == w.fields() + named_index_list(tag, views(items@)),
{
    let ghost list = named_index_list(tag, views(items@));
    let ghost head = w.head();
    let ghost before = w.fields();
    let mut w = w;
    let mut i: usize = 0;
    assert(before + list.subrange(0, 0) =~= before);
    while i < items.len()
        invariant
            i <= items@.len(),
            list == named_index_list(tag, views(items@)),
            w.head() == head,
            w.fields() == before + list.subrange(0, i as int),
            forall|i: int| 0 <= i < items@.len() ==> named_index_fits(#[trigger] views(items@)[i]) && fits(named_index_frame(views(items@)[i])),
        decreases items.len() - i,
    {
        assert(views(items@)[i as int] == items@[i as int]@);
        let item = items[i].encode();
        w = w.field(tag, item.as_slice());
        assert(w.fields() =~= before + list.subrange(0, i as int + 1));
        i += 1;
    }
    assert(list.subrange(0, i as int) =~= list);
    w
}

impl NamedIndex {
    /// Encode the frame.
    pub fn encode(&self) -> (r: Vec<u8>)
        requires
            named_index_fits(self@),
        ensures
            r@ == named_index_frame(self@),
    {
        assert(self@.columns == views(self.columns@));
        let w = FrameWriter::new();
        let index = copy_bytes(&self.index.as_bytes());
        let w = w.field(TAG_INDEX_ID, index.as_slice());
        let name = copy_bytes(self.name.value().as_bytes());
        let w = w.field(TAG_INDEX_NAME, name.as_slice());
        let unique = one_byte(if self.unique { 1 } else { 0 });
        let w = w.field(TAG_INDEX_UNIQUE, unique.as_slice());
        let active = one_byte(if self.active { 1 } else { 0 });
        let w = w.field(TAG_INDEX_ACTIVE, active.as_slice());
        let w = write_column_ids(w, TAG_INDEX_COLUMN, &self.columns);
        assert(w.fields() =~= named_index_fields(self@));
        reveal(named_index_frame);
        w.finish()
    }
}

/// What is known of a named index after some of its fields.
#[verifier::ext_equal]
pub struct NamedIndexState {
    pub index: Option<Seq<u8>>,
    pub name: Option<Seq<char>>,
    pub unique: Option<bool>,
    pub active: Option<bool>,
    pub columns: Seq<Seq<u8>>,
}

/// Nothing is known before the first field.
pub open spec fn named_index_start() -> NamedIndexState {
    NamedIndexState {
        index: None,
        name: None,
        unique: None,
        active: None,
        columns: Seq::empty(),
    }
}

/// What one field adds.
pub open spec fn named_index_step(s: NamedIndexState, tag: u8, payload: Seq<u8>) -> Result<NamedIndexState, SchemaCodecError> {
    if tag == TAG_INDEX_ID {
        match filled(s.index, uuid_field(payload), SchemaCodecError::DuplicateField) {
            Err(error) => Err(error),
            Ok(index) => Ok(NamedIndexState { index, ..s }),
        }
    } else if tag == TAG_INDEX_NAME {
        match filled(s.name, text_field(payload), SchemaCodecError::DuplicateField) {
            Err(error) => Err(error),
            Ok(name) => Ok(NamedIndexState { name, ..s }),
        }
    } else if tag == TAG_INDEX_UNIQUE {
        match filled(s.unique, flag_field(payload), SchemaCodecError::DuplicateField) {
            Err(error) => Err(error),
            Ok(unique) => Ok(NamedIndexState { unique, ..s }),
        }
    } else if tag == TAG_INDEX_ACTIVE {
        match filled(s.active, flag_field(payload), SchemaCodecError::DuplicateField) {
            Err(error) => Err(error),
            Ok(active) => Ok(NamedIndexState { active, ..s }),
        }
    } else if tag == TAG_INDEX_COLUMN {
        match grown(s.columns, uuid_field(payload)) {
            Err(error) => Err(error),
            Ok(columns) => Ok(NamedIndexState { columns, ..s }),
        }
    } else {
        Ok(s)
    }
}

/// [`named_index_step`] as a value.
pub open spec fn named_index_steps() -> spec_fn(NamedIndexState, u8, Seq<u8>) -> Result<NamedIndexState, SchemaCodecError> {
    |s: NamedIndexState, tag: u8, payload: Seq<u8>| named_index_step(s, tag, payload)
}

/// A named index that the fields describe.
pub open spec fn named_index_finish(s: NamedIndexState) -> Result<NamedIndexView, SchemaCodecError> {
    if s.index is None {
        Err(SchemaCodecError::MissingField(TAG_INDEX_ID))
    } else if s.name is None {
        Err(SchemaCodecError::MissingField(TAG_INDEX_NAME))
    } else if s.unique is None {
        Err(SchemaCodecError::MissingField(TAG_INDEX_UNIQUE))
    } else if s.active is None {
        Err(SchemaCodecError::MissingField(TAG_INDEX_ACTIVE))
    } else {
        Ok(NamedIndexView {
            index: s.index->Some_0,
            name: s.name->Some_0,
            unique: s.unique->Some_0,
            active: s.active->Some_0,
            columns: s.columns,
        })
    }
}

/// What decoding a frame gives.
#[verifier::opaque]
pub open spec fn named_index_decoded(b: Seq<u8>) -> Result<NamedIndexView, SchemaCodecError> {
    match run_fields(named_index_start(), b, named_index_steps(), SchemaCodecError::Truncated) {
        Err(error) => Err(error),
        Ok(s) => named_index_finish(s),
    }
}

impl NamedIndex {
    /// Decode one complete frame.
    pub fn decode(frame: &[u8]) -> (r: Result<NamedIndex, SchemaCodecError>)
        ensures
            outcome(r) == named_index_decoded(frame@),
    {
        broadcast use lemma_views_push;
        reveal(named_index_decoded);
        let mut reader = Reader::new(frame);
        let mut index: Option<IndexId> = None;
        let mut name: Option<SqlName> = None;
        let mut unique: Option<bool> = None;
        let mut active: Option<bool> = None;
        let mut columns: Vec<ColumnId> = Vec::new();
        let ghost mut state = named_index_start();
        assert(views(columns@) =~= Seq::<Seq<u8>>::empty());
        while !reader.is_empty()
            invariant
                state == (NamedIndexState {
                    index: view_of(index),
                    name: view_of(name),
                    unique: unique,
                    active: active,
                    columns: views(columns@),
                }),
                named_index_decoded(frame@) == (match run_fields(
                    state,
                    reader.remaining(),
                    named_index_steps(),
                    SchemaCodecError::Truncated,
                ) {
                    Err(error) => Err(error),
                    Ok(s) => named_index_finish(s),
                }),
            decreases reader.remaining().len(),
        {
            let (tag, payload) = match reader.field() {
                Ok(Some(field)) => field,
                _ => {
                    return Err(SchemaCodecError::Truncated);
                },
            };
            let ghost next = named_index_step(state, tag, payload@);
            assert(named_index_steps()(state, tag, payload@) == next);
            if tag == TAG_INDEX_ID {
                match read_uuid(payload) {
                    Err(error) => {
                        return Err(error);
                    },
                    Ok(found) => {
                        if index.is_some() {
                            return Err(SchemaCodecError::DuplicateField);
                        }
                        index = Some(IndexId(found));
                    },
                }
            } else if tag == TAG_INDEX_NAME {
                match read_name(payload) {
                    Err(error) => {
                        return Err(error);
                    },
                    Ok(found) => {
                        if name.is_some() {
                            return Err(SchemaCodecError::DuplicateField);
                        }
                        name = Some(found);
                    },
                }
            } else if tag == TAG_INDEX_UNIQUE {
                match read_flag(payload) {
                    Err(error) => {
                        return Err(error);
                    },
                    Ok(found) => {
                        if unique.is_some() {
                            return Err(SchemaCodecError::DuplicateField);
                        }
                        unique = Some(found);
                    },
                }
            } else if tag == TAG_INDEX_ACTIVE {
                match read_flag(payload) {
                    Err(error) => {
                        return Err(error);
                    },
                    Ok(found) => {
                        if active.is_some() {
                            return Err(SchemaCodecError::DuplicateField);
                        }
                        active = Some(found);
                    },
                }
            } else if tag == TAG_INDEX_COLUMN {
                match read_uuid(payload) {
                    Err(error) => {
                        return Err(error);
                    },
                    Ok(found) => {
                        columns.push(ColumnId(found));
                    },
                }
            }
            proof {
                state = next->Ok_0;
            }
        }
        let index = match index {
            Some(found) => found,
            None => {
                return Err(SchemaCodecError::MissingField(TAG_INDEX_ID));
            },
        };
        let name = match name {
            Some(found) => found,
            None => {
                return Err(SchemaCodecError::MissingField(TAG_INDEX_NAME));
            },
        };
        let unique = match unique {
            Some(found) => found,
            None => {
                return Err(SchemaCodecError::MissingField(TAG_INDEX_UNIQUE));
            },
        };
        let active = match active {
            Some(found) => found,
            None => {
                return Err(SchemaCodecError::MissingField(TAG_INDEX_ACTIVE));
            },
        };
        let r = NamedIndex { index, name, unique, active, columns };
        assert(r@ == named_index_finish(state)->Ok_0);
        Ok(r)
    }
}

/// Whether a value is one that decoding can give.
pub open spec fn named_index_valid(x: NamedIndexView) -> bool {
    &&& random_uuid(x.index)
    &&& forall|i: int| 0 <= i < x.columns.len() ==> random_uuid(#[trigger] x.columns[i])
}

/// Decoding the frame of a named index gives it back.
pub proof fn named_index_roundtrip(x: NamedIndexView)
    requires
        named_index_valid(x),
        named_index_fits(x),
    ensures
        named_index_decoded(named_index_frame(x)) == Ok::<NamedIndexView, SchemaCodecError>(x),
{
    reveal(named_index_decoded);
    reveal(named_index_frame);
    let none = Seq::<(u8, Seq<u8>)>::empty();
    let f1 = none.push((TAG_INDEX_ID, x.index));
    let f2 = f1.push((TAG_INDEX_NAME, encode_utf8(x.name)));
    let f3 = f2.push((TAG_INDEX_UNIQUE, flag_bytes(x.unique)));
    let f4 = f3.push((TAG_INDEX_ACTIVE, flag_bytes(x.active)));
    let f5 = f4 + bytes_list(TAG_INDEX_COLUMN, x.columns);
    let step = named_index_steps();
    let s0 = named_index_start();
    assert(fields_fit(none));
    let s1 = NamedIndexState { index: Some(x.index), ..s0 };
    assert(fold_fields(s0, f1, step) == Ok::<NamedIndexState, SchemaCodecError>(s1) && fields_fit(f1)) by {
        lemma_fold_push(s0, none, TAG_INDEX_ID, x.index, step);
        lemma_fit_push(none, TAG_INDEX_ID, x.index);
        assert(step(s0, TAG_INDEX_ID, x.index) == Ok::<NamedIndexState, SchemaCodecError>(s1));
    }
    let s2 = NamedIndexState { name: Some(x.name), ..s1 };
    assert(fold_fields(s0, f2, step) == Ok::<NamedIndexState, SchemaCodecError>(s2) && fields_fit(f2)) by {
        lemma_text_field(x.name);
        lemma_fold_push(s0, f1, TAG_INDEX_NAME, encode_utf8(x.name), step);
        lemma_fit_push(f1, TAG_INDEX_NAME, encode_utf8(x.name));
        assert(step(s1, TAG_INDEX_NAME, encode_utf8(x.name)) == Ok::<NamedIndexState, SchemaCodecError>(s2));
    }
    let s3 = NamedIndexState { unique: Some(x.unique), ..s2 };
    assert(fold_fields(s0, f3, step) == Ok::<NamedIndexState, SchemaCodecError>(s3) && fields_fit(f3)) by {
        lemma_fold_push(s0, f2, TAG_INDEX_UNIQUE, flag_bytes(x.unique), step);
        lemma_fit_push(f2, TAG_INDEX_UNIQUE, flag_bytes(x.unique));
        assert(step(s2, TAG_INDEX_UNIQUE, flag_bytes(x.unique)) == Ok::<NamedIndexState, SchemaCodecError>(s3));
    }
    let s4 = NamedIndexState { active: Some(x.active), ..s3 };
    assert(fold_fields(s0, f4, step) == Ok::<NamedIndexState, SchemaCodecError>(s4) && fields_fit(f4)) by {
        lemma_fold_push(s0, f3, TAG_INDEX_ACTIVE, flag_bytes(x.active), step);
        lemma_fit_push(f3, TAG_INDEX_ACTIVE, flag_bytes(x.active));
        assert(step(s3, TAG_INDEX_ACTIVE, flag_bytes(x.active)) == Ok::<NamedIndexState, SchemaCodecError>(s4));
    }
    let s5 = NamedIndexState { columns: x.columns, ..s4 };
    assert(fold_fields(s0, f5, step) == Ok::<NamedIndexState, SchemaCodecError>(s5) && fields_fit(f5)) by {
        let states = |i: int| NamedIndexState { columns: x.columns.subrange(0, i), ..s4 };
        let fields = bytes_list(TAG_INDEX_COLUMN, x.columns);
        assert forall|i: int| 0 <= i < fields.len() implies #[trigger] step(
            states(i),
            fields[i].0,
            fields[i].1,
        ) == Ok::<NamedIndexState, SchemaCodecError>(states(i + 1)) by {

            assert(x.columns.subrange(0, i).push(x.columns[i]) =~= x.columns.subrange(0, i + 1));
        }
        assert(states(0) =~= s4);
        lemma_fold_list(s0, f4, fields, states, step);
        assert(states(fields.len() as int) =~= s5);
        assert forall|i: int| 0 <= i < fields.len() implies fits((#[trigger] fields[i]).1) by {
            assert(random_uuid(x.columns[i]));
        }
        lemma_fit_concat(f4, fields);
    }
    lemma_run_fold(s0, f5, step, SchemaCodecError::Truncated);
    assert(f5 == named_index_fields(x));
    assert(named_index_finish(s5) == Ok::<NamedIndexView, SchemaCodecError>(x));
}

/// The bytes that known fields of a named index take.
pub open spec fn named_index_size(s: NamedIndexState) -> nat {
    let index: nat = match s.index {
        Some(value) => 5 + value.len(),
        None => 0,
    };
    let name: nat = match s.name {
        Some(value) => 5 + encode_utf8(value).len(),
        None => 0,
    };
    let unique: nat = match s.unique {
        Some(value) => 5 + flag_bytes(value).len(),
        None => 0,
    };
    let active: nat = match s.active {
        Some(value) => 5 + flag_bytes(value).len(),
        None => 0,
    };
    let columns = fields_bytes(bytes_list(TAG_INDEX_COLUMN, s.columns)).len();
    index + name + unique + active + columns
}

/// Whether known fields of a named index are sound and can be written again.
pub open spec fn named_index_sound(s: NamedIndexState) -> bool {
    &&& (s.index matches Some(value) ==> random_uuid(value) && fits(value))
    &&& (s.name matches Some(value) ==> fits(encode_utf8(value)))
    &&& (s.unique matches Some(value) ==> fits(flag_bytes(value)))
    &&& (s.active matches Some(value) ==> fits(flag_bytes(value)))
    &&& forall|i: int| 0 <= i < s.columns.len() ==> random_uuid(#[trigger] s.columns[i]) && fits(s.columns[i])
}

/// One field adds no more than its own bytes.
proof fn lemma_named_index_step(s: NamedIndexState, tag: u8, payload: Seq<u8>)
    requires
        named_index_sound(s),
        fits(payload),
    ensures
        named_index_step(s, tag, payload) matches Ok(next) ==> named_index_sound(next) && named_index_size(next) <= named_index_size(
            s,
        ) + 5 + payload.len(),
{
    if let Ok(next) = named_index_step(s, tag, payload) {
        if tag == TAG_INDEX_ID {
        } else if tag == TAG_INDEX_NAME {
            lemma_text_shrinks(payload);
        } else if tag == TAG_INDEX_UNIQUE {
        } else if tag == TAG_INDEX_ACTIVE {
        } else if tag == TAG_INDEX_COLUMN {
            let found = uuid_field(payload)->Ok_0;
            assert(bytes_list(TAG_INDEX_COLUMN, s.columns.push(found)) =~= bytes_list(TAG_INDEX_COLUMN, s.columns).push(
                (TAG_INDEX_COLUMN, found),
            ));
            lemma_fields_len(bytes_list(TAG_INDEX_COLUMN, s.columns), TAG_INDEX_COLUMN, found);
        }
    }
}

/// What decoding gives is sound and takes no more bytes than it was read from.
pub proof fn named_index_shrinks(b: Seq<u8>)
    ensures
        named_index_decoded(b) matches Ok(x) ==> named_index_valid(x) && named_index_fits(x) && named_index_frame(x).len() <= b.len(),
{
    reveal(named_index_decoded);
    reveal(named_index_frame);
    if let Ok(x) = named_index_decoded(b) {
        let body = b;
        let good = |s: NamedIndexState| named_index_sound(s);
        let size = |s: NamedIndexState| named_index_size(s);
        let step = named_index_steps();
        let s0 = named_index_start();
        let end = run_fields(s0, body, step, SchemaCodecError::Truncated)->Ok_0;
        assert forall|s: NamedIndexState, tag: u8, payload: Seq<u8>|
            good(s) && fits(payload) && (#[trigger] step(s, tag, payload)) is Ok implies good(
            step(s, tag, payload)->Ok_0,
        ) && size(step(s, tag, payload)->Ok_0) <= size(s) + 5 + payload.len() by {
            lemma_named_index_step(s, tag, payload);
        }
        lemma_run_bounded(s0, body, step, good, size, SchemaCodecError::Truncated);
        assert(named_index_sound(end));
        let none = Seq::<(u8, Seq<u8>)>::empty();
        assert(fields_bytes(none).len() == 0);
        let f1 = none.push((TAG_INDEX_ID, x.index));
        lemma_fields_len(none, TAG_INDEX_ID, x.index);
        let f2 = f1.push((TAG_INDEX_NAME, encode_utf8(x.name)));
        lemma_fields_len(f1, TAG_INDEX_NAME, encode_utf8(x.name));
        let f3 = f2.push((TAG_INDEX_UNIQUE, flag_bytes(x.unique)));
        lemma_fields_len(f2, TAG_INDEX_UNIQUE, flag_bytes(x.unique));
        let f4 = f3.push((TAG_INDEX_ACTIVE, flag_bytes(x.active)));
        lemma_fields_len(f3, TAG_INDEX_ACTIVE, flag_bytes(x.active));
        let f5 = f4 + bytes_list(TAG_INDEX_COLUMN, x.columns);
        lemma_fields_concat(f4, bytes_list(TAG_INDEX_COLUMN, x.columns));
        assert(bytes_list(TAG_INDEX_COLUMN, Seq::<Seq<u8>>::empty()) =~= none);
        assert(f5 == named_index_fields(x));
        assert(named_index_size(s0) == 0);
        assert(fields_bytes(f5).len() == named_index_size(end));
    }
}

/// One foreign key of a table, by stable identities.
#[derive(Debug, PartialEq, Eq)]
pub struct ForeignKeyDefinition {
    pub id: ForeignKeyId,
    pub name: Option<SqlName>,
    pub columns: Vec<ColumnId>,
    pub referenced_table: TableId,
    pub referenced_index: IndexId,
    pub referenced_columns: Vec<ColumnId>,
    pub active: bool,
}

/// A foreign key as a mathematical value.
#[verifier::ext_equal]
pub struct RelationshipView {
    pub id: Seq<u8>,
    pub name: Option<Seq<char>>,
    pub columns: Seq<Seq<u8>>,
    pub referenced_table: Seq<u8>,
    pub referenced_index: Seq<u8>,
    pub referenced_columns: Seq<Seq<u8>>,
    pub active: bool,
}

impl View for ForeignKeyDefinition {
    type V = RelationshipView;

    open spec fn view(&self) -> RelationshipView {
        RelationshipView {
            id: self.id@,
            name: view_of(self.name),
            columns: views(self.columns@),
            referenced_table: self.referenced_table@,
            referenced_index: self.referenced_index@,
            referenced_columns: views(self.referenced_columns@),
            active: self.active,
        }
    }
}

impl Clone for ForeignKeyDefinition {
    fn clone(&self) -> (r: Self)
        ensures
            r@ == self@,
    {
        let name = match &self.name {
            Some(value) => Some(value.clone()),
            None => None,
        };
        ForeignKeyDefinition {
            id: self.id,
            name,
            columns: clone_column_ids(&self.columns),
            referenced_table: self.referenced_table,
            referenced_index: self.referenced_index,
            referenced_columns: clone_column_ids(&self.referenced_columns),
            active: self.active,
        }
    }
}

impl ForeignKeyDefinition {
    /// Whether two values are equal.
    pub fn same(&self, other: &ForeignKeyDefinition) -> (r: bool)
        ensures
            r == (self@ == other@),
    {
        self.id.same(&other.id)
            && same_optional_sql_name(&self.name, &other.name)
            && same_column_ids(&self.columns, &other.columns)
            && self.referenced_table.same(&other.referenced_table)
            && self.referenced_index.same(&other.referenced_index)
            && same_column_ids(&self.referenced_columns, &other.referenced_columns)
            && (self.active == other.active)
    }
}

/// A copy of a list.
pub fn clone_relationships(items: &Vec<ForeignKeyDefinition>) -> (r: Vec<ForeignKeyDefinition>)
    ensures
        views(r@) == views(items@),
{
    let mut r: Vec<ForeignKeyDefinition> = Vec::new();
    let mut i: usize = 0;
    while i < items.len()
        invariant
            i <= items@.len(),
            r@.len() == i,
            forall|j: int| 0 <= j < i ==> (#[trigger] r@[j])@ == items@[j]@,
        decreases items.len() - i,
    {
        r.push(items[i].clone());
        i += 1;
    }
    assert(views(r@) =~= views(items@));
    r
}

/// Whether two lists hold equal items.
pub fn same_relationships(a: &Vec<ForeignKeyDefinition>, b: &Vec<ForeignKeyDefinition>) -> (r: bool)
    ensures
        r == (views(a@) == views(b@)),
{
    if a.len() != b.len() {
        assert(views(a@).len() != views(b@).len());
        return false;
    }
    let mut i: usize = 0;
    while i < a.len()
        invariant
            i <= a@.len(),
            a@.len() == b@.len(),
            forall|j: int| 0 <= j < i ==> views(a@)[j] == views(b@)[j],
        decreases a.len() - i,
    {
        if !a[i].same(&b[i]) {
            assert(views(a@)[i as int] != views(b@)[i as int]);
            return false;
        }
        i += 1;
    }
    assert(views(a@) =~= views(b@));
    true
}

/// The fields of the frame of a foreign key.
pub open spec fn relationship_fields(x: RelationshipView) -> Seq<(u8, Seq<u8>)> {
    let none = Seq::<(u8, Seq<u8>)>::empty();
    let f1 = none.push((TAG_RELATIONSHIP_ID, x.id));
    let f2 = match x.name {
        Some(value) => f1.push((TAG_RELATIONSHIP_NAME, encode_utf8(value))),
        None => f1,
    };
    let f3 = f2 + bytes_list(TAG_RELATIONSHIP_COLUMN, x.columns);
    let f4 = f3.push((TAG_RELATIONSHIP_TABLE, x.referenced_table));
    let f5 = f4.push((TAG_RELATIONSHIP_INDEX, x.referenced_index));
    let f6 = f5 + bytes_list(TAG_RELATIONSHIP_PARENT_COLUMN, x.referenced_columns);
    let f7 = f6.push((TAG_RELATIONSHIP_ACTIVE, flag_bytes(x.active)));
    f7
}

/// The frame of a foreign key.
#[verifier::opaque]
pub open spec fn relationship_frame(x: RelationshipView) -> Seq<u8> {
    fields_bytes(relationship_fields(x))
}

/// Whether every field of the frame has a length that a `u32` holds.
pub open spec fn relationship_fits(x: RelationshipView) -> bool {
    &&& (x.name matches Some(value) ==> fits(encode_utf8(value)))
}

/// The fields of a list under one tag, each with its own frame.
pub open spec fn relationship_list(tag: u8, items: Seq<RelationshipView>) -> Seq<(u8, Seq<u8>)> {
    Seq::new(items.len(), |i: int| (tag, relationship_frame(items[i])))
}

/// Write the fields of a list under one tag.
pub fn write_relationships(w: FrameWriter, tag: u8, items: &Vec<ForeignKeyDefinition>) -> (r: FrameWriter)
    requires
        forall|i: int| 0 <= i < items@.len() ==> relationship_fits(#[trigger] views(items@)[i]) && fits(relationship_frame(views(items@)[i])),
    ensures
        r.head() == w.head(),
        r.fields() == w.fields() + relationship_list(tag, views(items@)),
{
    let ghost list = relationship_list(tag, views(items@));
    let ghost head = w.head();
    let ghost before = w.fields();
    let mut w = w;
    let mut i: usize = 0;
    assert(before + list.subrange(0, 0) =~= before);
    while i < items.len()
        invariant
            i <= items@.len(),
            list == relationship_list(tag, views(items@)),
            w.head() == head,
            w.fields() == before + list.subrange(0, i as int),
            forall|i: int| 0 <= i < items@.len() ==> relationship_fits(#[trigger] views(items@)[i]) && fits(relationship_frame(views(items@)[i])),
        decreases items.len() - i,
    {
        assert(views(items@)[i as int] == items@[i as int]@);
        let item = items[i].encode();
        w = w.field(tag, item.as_slice());
        assert(w.fields() =~= before + list.subrange(0, i as int + 1));
        i += 1;
    }
    assert(list.subrange(0, i as int) =~= list);
    w
}

impl ForeignKeyDefinition {
    /// Encode the frame.
    pub fn encode(&self) -> (r: Vec<u8>)
        requires
            relationship_fits(self@),
        ensures
            r@ == relationship_frame(self@),
    {
        assert(self@.columns == views(self.columns@));
        assert(self@.referenced_columns == views(self.referenced_columns@));
        let w = FrameWriter::new();
        let id = copy_bytes(&self.id.as_bytes());
        let w = w.field(TAG_RELATIONSHIP_ID, id.as_slice());
        let w = match &self.name {
            Some(value) => {
                let name = copy_bytes(value.value().as_bytes());
                w.field(TAG_RELATIONSHIP_NAME, name.as_slice())
            },
            None => w,
        };
        let w = write_column_ids(w, TAG_RELATIONSHIP_COLUMN, &self.columns);
        let referenced_table = copy_bytes(&self.referenced_table.as_bytes());
        let w = w.field(TAG_RELATIONSHIP_TABLE, referenced_table.as_slice());
        let referenced_index = copy_bytes(&self.referenced_index.as_bytes());
        let w = w.field(TAG_RELATIONSHIP_INDEX, referenced_index.as_slice());
        let w = write_column_ids(w, TAG_RELATIONSHIP_PARENT_COLUMN, &self.referenced_columns);
        let active = one_byte(if self.active { 1 } else { 0 });
        let w = w.field(TAG_RELATIONSHIP_ACTIVE, active.as_slice());
        assert(w.fields() =~= relationship_fields(self@));
        reveal(relationship_frame);
        w.finish()
    }
}

/// What is known of a foreign key after some of its fields.
#[verifier::ext_equal]
pub struct RelationshipState {
    pub id: Option<Seq<u8>>,
    pub name: Option<Seq<char>>,
    pub columns: Seq<Seq<u8>>,
    pub referenced_table: Option<Seq<u8>>,
    pub referenced_index: Option<Seq<u8>>,
    pub referenced_columns: Seq<Seq<u8>>,
    pub active: Option<bool>,
}

/// Nothing is known before the first field.
pub open spec fn relationship_start() -> RelationshipState {
    RelationshipState {
        id: None,
        name: None,
        columns: Seq::empty(),
        referenced_table: None,
        referenced_index: None,
        referenced_columns: Seq::empty(),
        active: None,
    }
}

/// What one field adds.
pub open spec fn relationship_step(s: RelationshipState, tag: u8, payload: Seq<u8>) -> Result<RelationshipState, SchemaCodecError> {
    if tag == TAG_RELATIONSHIP_ID {
        match filled(s.id, uuid_field(payload), SchemaCodecError::DuplicateField) {
            Err(error) => Err(error),
            Ok(id) => Ok(RelationshipState { id, ..s }),
        }
    } else if tag == TAG_RELATIONSHIP_NAME {
        match filled(s.name, text_field(payload), SchemaCodecError::DuplicateField) {
            Err(error) => Err(error),
            Ok(name) => Ok(RelationshipState { name, ..s }),
        }
    } else if tag == TAG_RELATIONSHIP_COLUMN {
        match grown(s.columns, uuid_field(payload)) {
            Err(error) => Err(error),
            Ok(columns) => Ok(RelationshipState { columns, ..s }),
        }
    } else if tag == TAG_RELATIONSHIP_TABLE {
        match filled(s.referenced_table, uuid_field(payload), SchemaCodecError::DuplicateField) {
            Err(error) => Err(error),
            Ok(referenced_table) => Ok(RelationshipState { referenced_table, ..s }),
        }
    } else if tag == TAG_RELATIONSHIP_INDEX {
        match filled(s.referenced_index, uuid_field(payload), SchemaCodecError::DuplicateField) {
            Err(error) => Err(error),
            Ok(referenced_index) => Ok(RelationshipState { referenced_index, ..s }),
        }
    } else if tag == TAG_RELATIONSHIP_PARENT_COLUMN {
        match grown(s.referenced_columns, uuid_field(payload)) {
            Err(error) => Err(error),
            Ok(referenced_columns) => Ok(RelationshipState { referenced_columns, ..s }),
        }
    } else if tag == TAG_RELATIONSHIP_ACTIVE {
        match filled(s.active, flag_field(payload), SchemaCodecError::DuplicateField) {
            Err(error) => Err(error),
            Ok(active) => Ok(RelationshipState { active, ..s }),
        }
    } else {
        Ok(s)
    }
}

/// [`relationship_step`] as a value.
pub open spec fn relationship_steps() -> spec_fn(RelationshipState, u8, Seq<u8>) -> Result<RelationshipState, SchemaCodecError> {
    |s: RelationshipState, tag: u8, payload: Seq<u8>| relationship_step(s, tag, payload)
}

/// A foreign key that the fields describe.
pub open spec fn relationship_finish(s: RelationshipState) -> Result<RelationshipView, SchemaCodecError> {
    if s.id is None {
        Err(SchemaCodecError::MissingField(TAG_RELATIONSHIP_ID))
    } else if s.referenced_table is None {
        Err(SchemaCodecError::MissingField(TAG_RELATIONSHIP_TABLE))
    } else if s.referenced_index is None {
        Err(SchemaCodecError::MissingField(TAG_RELATIONSHIP_INDEX))
    } else if s.active is None {
        Err(SchemaCodecError::MissingField(TAG_RELATIONSHIP_ACTIVE))
    } else {
        Ok(RelationshipView {
            id: s.id->Some_0,
            name: s.name,
            columns: s.columns,
            referenced_table: s.referenced_table->Some_0,
            referenced_index: s.referenced_index->Some_0,
            referenced_columns: s.referenced_columns,
            active: s.active->Some_0,
        })
    }
}

/// What decoding a frame gives.
#[verifier::opaque]
pub open spec fn relationship_decoded(b: Seq<u8>) -> Result<RelationshipView, SchemaCodecError> {
    match run_fields(relationship_start(), b, relationship_steps(), SchemaCodecError::Truncated) {
        Err(error) => Err(error),
        Ok(s) => relationship_finish(s),
    }
}

impl ForeignKeyDefinition {
    /// Decode one complete frame.
    pub fn decode(frame: &[u8]) -> (r: Result<ForeignKeyDefinition, SchemaCodecError>)
        ensures
            outcome(r) == relationship_decoded(frame@),
    {
        broadcast use lemma_views_push;
        reveal(relationship_decoded);
        let mut reader = Reader::new(frame);
        let mut id: Option<ForeignKeyId> = None;
        let mut name: Option<SqlName> = None;
        let mut columns: Vec<ColumnId> = Vec::new();
        let mut referenced_table: Option<TableId> = None;
        let mut referenced_index: Option<IndexId> = None;
        let mut referenced_columns: Vec<ColumnId> = Vec::new();
        let mut active: Option<bool> = None;
        let ghost mut state = relationship_start();
        assert(views(columns@) =~= Seq::<Seq<u8>>::empty());
        assert(views(referenced_columns@) =~= Seq::<Seq<u8>>::empty());
        while !reader.is_empty()
            invariant
                state == (RelationshipState {
                    id: view_of(id),
                    name: view_of(name),
                    columns: views(columns@),
                    referenced_table: view_of(referenced_table),
                    referenced_index: view_of(referenced_index),
                    referenced_columns: views(referenced_columns@),
                    active: active,
                }),
                relationship_decoded(frame@) == (match run_fields(
                    state,
                    reader.remaining(),
                    relationship_steps(),
                    SchemaCodecError::Truncated,
                ) {
                    Err(error) => Err(error),
                    Ok(s) => relationship_finish(s),
                }),
            decreases reader.remaining().len(),
        {
            let (tag, payload) = match reader.field() {
                Ok(Some(field)) => field,
                _ => {
                    return Err(SchemaCodecError::Truncated);
                },
            };
            let ghost next = relationship_step(state, tag, payload@);
            assert(relationship_steps()(state, tag, payload@) == next);
            if tag == TAG_RELATIONSHIP_ID {
                match read_uuid(payload) {
                    Err(error) => {
                        return Err(error);
                    },
                    Ok(found) => {
                        if id.is_some() {
                            return Err(SchemaCodecError::DuplicateField);
                        }
                        id = Some(ForeignKeyId(found));
                    },
                }
            } else if tag == TAG_RELATIONSHIP_NAME {
                match read_name(payload) {
                    Err(error) => {
                        return Err(error);
                    },
                    Ok(found) => {
                        if name.is_some() {
                            return Err(SchemaCodecError::DuplicateField);
                        }
                        name = Some(found);
                    },
                }
            } else if tag == TAG_RELATIONSHIP_COLUMN {
                match read_uuid(payload) {
                    Err(error) => {
                        return Err(error);
                    },
                    Ok(found) => {
                        columns.push(ColumnId(found));
                    },
                }
            } else if tag == TAG_RELATIONSHIP_TABLE {
                match read_uuid(payload) {
                    Err(error) => {
                        return Err(error);
                    },
                    Ok(found) => {
                        if referenced_table.is_some() {
                            return Err(SchemaCodecError::DuplicateField);
                        }
                        referenced_table = Some(TableId(found));
                    },
                }
            } else if tag == TAG_RELATIONSHIP_INDEX {
                match read_uuid(payload) {
                    Err(error) => {
                        return Err(error);
                    },
                    Ok(found) => {
                        if referenced_index.is_some() {
                            return Err(SchemaCodecError::DuplicateField);
                        }
                        referenced_index = Some(IndexId(found));
                    },
                }
            } else if tag == TAG_RELATIONSHIP_PARENT_COLUMN {
                match read_uuid(payload) {
                    Err(error) => {
                        return Err(error);
                    },
                    Ok(found) => {
                        referenced_columns.push(ColumnId(found));
                    },
                }
            } else if tag == TAG_RELATIONSHIP_ACTIVE {
                match read_flag(payload) {
                    Err(error) => {
                        return Err(error);
                    },
                    Ok(found) => {
                        if active.is_some() {
                            return Err(SchemaCodecError::DuplicateField);
                        }
                        active = Some(found);
                    },
                }
            }
            proof {
                state = next->Ok_0;
            }
        }
        let id = match id {
            Some(found) => found,
            None => {
                return Err(SchemaCodecError::MissingField(TAG_RELATIONSHIP_ID));
            },
        };
        let referenced_table = match referenced_table {
            Some(found) => found,
            None => {
                return Err(SchemaCodecError::MissingField(TAG_RELATIONSHIP_TABLE));
            },
        };
        let referenced_index = match referenced_index {
            Some(found) => found,
            None => {
                return Err(SchemaCodecError::MissingField(TAG_RELATIONSHIP_INDEX));
            },
        };
        let active = match active {
            Some(found) => found,
            None => {
                return Err(SchemaCodecError::MissingField(TAG_RELATIONSHIP_ACTIVE));
            },
        };
        let r = ForeignKeyDefinition { id, name, columns, referenced_table, referenced_index, referenced_columns, active };
        assert(r@ == relationship_finish(state)->Ok_0);
        Ok(r)
    }
}

/// Whether a value is one that decoding can give.
pub open spec fn relationship_valid(x: RelationshipView) -> bool {
    &&& random_uuid(x.id)
    &&& forall|i: int| 0 <= i < x.columns.len() ==> random_uuid(#[trigger] x.columns[i])
    &&& random_uuid(x.referenced_table)
    &&& random_uuid(x.referenced_index)
    &&& forall|i: int| 0 <= i < x.referenced_columns.len() ==> random_uuid(#[trigger] x.referenced_columns[i])
}

/// Decoding the frame of a foreign key gives it back.
pub proof fn relationship_roundtrip(x: RelationshipView)
    requires
        relationship_valid(x),
        relationship_fits(x),
    ensures
        relationship_decoded(relationship_frame(x)) == Ok::<RelationshipView, SchemaCodecError>(x),
{
    reveal(relationship_decoded);
    reveal(relationship_frame);
    let none = Seq::<(u8, Seq<u8>)>::empty();
    let f1 = none.push((TAG_RELATIONSHIP_ID, x.id));
    let f2 = match x.name {
        Some(value) => f1.push((TAG_RELATIONSHIP_NAME, encode_utf8(value))),
        None => f1,
    };
    let f3 = f2 + bytes_list(TAG_RELATIONSHIP_COLUMN, x.columns);
    let f4 = f3.push((TAG_RELATIONSHIP_TABLE, x.referenced_table));
    let f5 = f4.push((TAG_RELATIONSHIP_INDEX, x.referenced_index));
    let f6 = f5 + bytes_list(TAG_RELATIONSHIP_PARENT_COLUMN, x.referenced_columns);
    let f7 = f6.push((TAG_RELATIONSHIP_ACTIVE, flag_bytes(x.active)));
    let step = relationship_steps();
    let s0 = relationship_start();
    assert(fields_fit(none));
    let s1 = RelationshipState { id: Some(x.id), ..s0 };
    assert(fold_fields(s0, f1, step) == Ok::<RelationshipState, SchemaCodecError>(s1) && fields_fit(f1)) by {
        lemma_fold_push(s0, none, TAG_RELATIONSHIP_ID, x.id, step);
        lemma_fit_push(none, TAG_RELATIONSHIP_ID, x.id);
        assert(step(s0, TAG_RELATIONSHIP_ID, x.id) == Ok::<RelationshipState, SchemaCodecError>(s1));
    }
    let s2 = RelationshipState { name: x.name, ..s1 };
    assert(fold_fields(s0, f2, step) == Ok::<RelationshipState, SchemaCodecError>(s2) && fields_fit(f2)) by {
        match x.name {
            Some(value) => {
                lemma_text_field(value);
                lemma_fold_push(s0, f1, TAG_RELATIONSHIP_NAME, encode_utf8(value), step);
                lemma_fit_push(f1, TAG_RELATIONSHIP_NAME, encode_utf8(value));
                assert(step(s1, TAG_RELATIONSHIP_NAME, encode_utf8(value)) == Ok::<RelationshipState, SchemaCodecError>(s2));
            },
            None => {
                assert(s2 == s1);
            },
        }
    }
    let s3 = RelationshipState { columns: x.columns, ..s2 };
    assert(fold_fields(s0, f3, step) == Ok::<RelationshipState, SchemaCodecError>(s3) && fields_fit(f3)) by {
        let states = |i: int| RelationshipState { columns: x.columns.subrange(0, i), ..s2 };
        let fields = bytes_list(TAG_RELATIONSHIP_COLUMN, x.columns);
        assert forall|i: int| 0 <= i < fields.len() implies #[trigger] step(
            states(i),
            fields[i].0,
            fields[i].1,
        ) == Ok::<RelationshipState, SchemaCodecError>(states(i + 1)) by {

            assert(x.columns.subrange(0, i).push(x.columns[i]) =~= x.columns.subrange(0, i + 1));
        }
        assert(states(0) =~= s2);
        lemma_fold_list(s0, f2, fields, states, step);
        assert(states(fields.len() as int) =~= s3);
        assert forall|i: int| 0 <= i < fields.len() implies fits((#[trigger] fields[i]).1) by {
            assert(random_uuid(x.columns[i]));
            let item = x.columns[i];
        }
        lemma_fit_concat(f2, fields);
    }
    let s4 = RelationshipState { referenced_table: Some(x.referenced_table), ..s3 };
    assert(fold_fields(s0, f4, step) == Ok::<RelationshipState, SchemaCodecError>(s4) && fields_fit(f4)) by {
        lemma_fold_push(s0, f3, TAG_RELATIONSHIP_TABLE, x.referenced_table, step);
        lemma_fit_push(f3, TAG_RELATIONSHIP_TABLE, x.referenced_table);
        assert(step(s3, TAG_RELATIONSHIP_TABLE, x.referenced_table) == Ok::<RelationshipState, SchemaCodecError>(s4));
    }
    let s5 = RelationshipState { referenced_index: Some(x.referenced_index), ..s4 };
    assert(fold_fields(s0, f5, step) == Ok::<RelationshipState, SchemaCodecError>(s5) && fields_fit(f5)) by {
        lemma_fold_push(s0, f4, TAG_RELATIONSHIP_INDEX, x.referenced_index, step);
        lemma_fit_push(f4, TAG_RELATIONSHIP_INDEX, x.referenced_index);
        assert(step(s4, TAG_RELATIONSHIP_INDEX, x.referenced_index) == Ok::<RelationshipState, SchemaCodecError>(s5));
    }
    let s6 = RelationshipState { referenced_columns: x.referenced_columns, ..s5 };
    assert(fold_fields(s0, f6, step) == Ok::<RelationshipState, SchemaCodecError>(s6) && fields_fit(f6)) by {
        let states = |i: int| RelationshipState { referenced_columns: x.referenced_columns.subrange(0, i), ..s5 };
        let fields = bytes_list(TAG_RELATIONSHIP_PARENT_COLUMN, x.referenced_columns);
        assert forall|i: int| 0 <= i < fields.len() implies #[trigger] step(
            states(i),
            fields[i].0,
            fields[i].1,
        ) == Ok::<RelationshipState, SchemaCodecError>(states(i + 1)) by {

            assert(x.referenced_columns.subrange(0, i).push(x.referenced_columns[i]) =~= x.referenced_columns.subrange(0, i + 1));
        }
        assert(states(0) =~= s5);
        lemma_fold_list(s0, f5, fields, states, step);
        assert(states(fields.len() as int) =~= s6);
        assert forall|i: int| 0 <= i < fields.len() implies fits((#[trigger] fields[i]).1) by {
            assert(random_uuid(x.referenced_columns[i]));
            let item = x.referenced_columns[i];
        }
        lemma_fit_concat(f5, fields);
    }
    let s7 = RelationshipState { active: Some(x.active), ..s6 };
    assert(fold_fields(s0, f7, step) == Ok::<RelationshipState, SchemaCodecError>(s7) && fields_fit(f7)) by {
        lemma_fold_push(s0, f6, TAG_RELATIONSHIP_ACTIVE, flag_bytes(x.active), step);
        lemma_fit_push(f6, TAG_RELATIONSHIP_ACTIVE, flag_bytes(x.active));
        assert(step(s6, TAG_RELATIONSHIP_ACTIVE, flag_bytes(x.active)) == Ok::<RelationshipState, SchemaCodecError>(s7));
    }
    lemma_run_fold(s0, f7, step, SchemaCodecError::Truncated);
    assert(f7 == relationship_fields(x));
    assert(relationship_finish(s7) == Ok::<RelationshipView, SchemaCodecError>(x));
}

/// The bytes that known fields of a foreign key take.
pub open spec fn relationship_size(s: RelationshipState) -> nat {
    let id: nat = match s.id {
        Some(value) => 5 + value.len(),
        None => 0,
    };
    let name: nat = match s.name {
        Some(value) => 5 + encode_utf8(value).len(),
        None => 0,
    };
    let columns = fields_bytes(bytes_list(TAG_RELATIONSHIP_COLUMN, s.columns)).len();
    let referenced_table: nat = match s.referenced_table {
        Some(value) => 5 + value.len(),
        None => 0,
    };
    let referenced_index: nat = match s.referenced_index {
        Some(value) => 5 + value.len(),
        None => 0,
    };
    let referenced_columns = fields_bytes(bytes_list(TAG_RELATIONSHIP_PARENT_COLUMN, s.referenced_columns)).len();
    let active: nat = match s.active {
        Some(value) => 5 + flag_bytes(value).len(),
        None => 0,
    };
    id + name + columns + referenced_table + referenced_index + referenced_columns + active
}

/// Whether known fields of a foreign key are sound and can be written again.
pub open spec fn relationship_sound(s: RelationshipState) -> bool {
    &&& (s.id matches Some(value) ==> random_uuid(value) && fits(value))
    &&& (s.name matches Some(value) ==> fits(encode_utf8(value)))
    &&& forall|i: int| 0 <= i < s.columns.len() ==> random_uuid(#[trigger] s.columns[i]) && fits(s.columns[i])
    &&& (s.referenced_table matches Some(value) ==> random_uuid(value) && fits(value))
    &&& (s.referenced_index matches Some(value) ==> random_uuid(value) && fits(value))
    &&& forall|i: int| 0 <= i < s.referenced_columns.len() ==> random_uuid(#[trigger] s.referenced_columns[i]) && fits(s.referenced_columns[i])
    &&& (s.active matches Some(value) ==> fits(flag_bytes(value)))
}

/// One field adds no more than its own bytes.
proof fn lemma_relationship_step(s: RelationshipState, tag: u8, payload: Seq<u8>)
    requires
        relationship_sound(s),
        fits(payload),
    ensures
        relationship_step(s, tag, payload) matches Ok(next) ==> relationship_sound(next) && relationship_size(next) <= relationship_size(
            s,
        ) + 5 + payload.len(),
{
    if let Ok(next) = relationship_step(s, tag, payload) {
        if tag == TAG_RELATIONSHIP_ID {
        } else if tag == TAG_RELATIONSHIP_NAME {
            lemma_text_shrinks(payload);
        } else if tag == TAG_RELATIONSHIP_COLUMN {
            let found = uuid_field(payload)->Ok_0;
            assert(bytes_list(TAG_RELATIONSHIP_COLUMN, s.columns.push(found)) =~= bytes_list(TAG_RELATIONSHIP_COLUMN, s.columns).push(
                (TAG_RELATIONSHIP_COLUMN, found),
            ));
            lemma_fields_len(bytes_list(TAG_RELATIONSHIP_COLUMN, s.columns), TAG_RELATIONSHIP_COLUMN, found);
        } else if tag == TAG_RELATIONSHIP_TABLE {
        } else if tag == TAG_RELATIONSHIP_INDEX {
        } else if tag == TAG_RELATIONSHIP_PARENT_COLUMN {
            let found = uuid_field(payload)->Ok_0;
            assert(bytes_list(TAG_RELATIONSHIP_PARENT_COLUMN, s.referenced_columns.push(found)) =~= bytes_list(TAG_RELATIONSHIP_PARENT_COLUMN, s.referenced_columns).push(
                (TAG_RELATIONSHIP_PARENT_COLUMN, found),
            ));
            lemma_fields_len(bytes_list(TAG_RELATIONSHIP_PARENT_COLUMN, s.referenced_columns), TAG_RELATIONSHIP_PARENT_COLUMN, found);
        } else if tag == TAG_RELATIONSHIP_ACTIVE {
        }
    }
}

/// What decoding gives is sound and takes no more bytes than it was read from.
pub proof fn relationship_shrinks(b: Seq<u8>)
    ensures
        relationship_decoded(b) matches Ok(x) ==> relationship_valid(x) && relationship_fits(x) && relationship_frame(x).len() <= b.len(),
{
    reveal(relationship_decoded);
    reveal(relationship_frame);
    if let Ok(x) = relationship_decoded(b) {
        let body = b;
        let good = |s: RelationshipState| relationship_sound(s);
        let size = |s: RelationshipState| relationship_size(s);
        let step = relationship_steps();
        let s0 = relationship_start();
        let end = run_fields(s0, body, step, SchemaCodecError::Truncated)->Ok_0;
        assert forall|s: RelationshipState, tag: u8, payload: Seq<u8>|
            good(s) && fits(payload) && (#[trigger] step(s, tag, payload)) is Ok implies good(
            step(s, tag, payload)->Ok_0,
        ) && size(step(s, tag, payload)->Ok_0) <= size(s) + 5 + payload.len() by {
            lemma_relationship_step(s, tag, payload);
        }
        lemma_run_bounded(s0, body, step, good, size, SchemaCodecError::Truncated);
        assert(relationship_sound(end));
        let none = Seq::<(u8, Seq<u8>)>::empty();
        assert(fields_bytes(none).len() == 0);
        let f1 = none.push((TAG_RELATIONSHIP_ID, x.id));
        lemma_fields_len(none, TAG_RELATIONSHIP_ID, x.id);
        let f2 = match x.name {
            Some(value) => f1.push((TAG_RELATIONSHIP_NAME, encode_utf8(value))),
            None => f1,
        };
        if let Some(value) = x.name {
            lemma_fields_len(f1, TAG_RELATIONSHIP_NAME, encode_utf8(value));
        }
        let f3 = f2 + bytes_list(TAG_RELATIONSHIP_COLUMN, x.columns);
        lemma_fields_concat(f2, bytes_list(TAG_RELATIONSHIP_COLUMN, x.columns));
        let f4 = f3.push((TAG_RELATIONSHIP_TABLE, x.referenced_table));
        lemma_fields_len(f3, TAG_RELATIONSHIP_TABLE, x.referenced_table);
        let f5 = f4.push((TAG_RELATIONSHIP_INDEX, x.referenced_index));
        lemma_fields_len(f4, TAG_RELATIONSHIP_INDEX, x.referenced_index);
        let f6 = f5 + bytes_list(TAG_RELATIONSHIP_PARENT_COLUMN, x.referenced_columns);
        lemma_fields_concat(f5, bytes_list(TAG_RELATIONSHIP_PARENT_COLUMN, x.referenced_columns));
        let f7 = f6.push((TAG_RELATIONSHIP_ACTIVE, flag_bytes(x.active)));
        lemma_fields_len(f6, TAG_RELATIONSHIP_ACTIVE, flag_bytes(x.active));
        assert(bytes_list(TAG_RELATIONSHIP_COLUMN, Seq::<Seq<u8>>::empty()) =~= none);
        assert(bytes_list(TAG_RELATIONSHIP_PARENT_COLUMN, Seq::<Seq<u8>>::empty()) =~= none);
        assert(f7 == relationship_fields(x));
        assert(relationship_size(s0) == 0);
        assert(fields_bytes(f7).len() == relationship_size(end));
    }
}

/// One CHECK of a table.
#[derive(Debug, PartialEq, Eq)]
pub struct CheckDefinition {
    pub name: Option<SqlName>,
    pub owner: Option<ColumnId>,
    pub columns: Vec<ColumnId>,
    pub expression: String,
}

/// A CHECK as a mathematical value.
#[verifier::ext_equal]
pub struct CheckView {
    pub name: Option<Seq<char>>,
    pub owner: Option<Seq<u8>>,
    pub columns: Seq<Seq<u8>>,
    pub expression: Seq<char>,
}

impl View for CheckDefinition {
    type V = CheckView;

    open spec fn view(&self) -> CheckView {
        CheckView {
            name: view_of(self.name),
            owner: view_of(self.owner),
            columns: views(self.columns@),
            expression: self.expression@,
        }
    }
}

impl Clone for CheckDefinition {
    fn clone(&self) -> (r: Self)
        ensures
            r@ == self@,
    {
        let name = match &self.name {
            Some(value) => Some(value.clone()),
            None => None,
        };
        let owner = match &self.owner {
            Some(value) => Some(*value),
            None => None,
        };
        CheckDefinition {
            name,
            owner,
            columns: clone_column_ids(&self.columns),
            expression: self.expression.clone(),
        }
    }
}

impl CheckDefinition {
    /// Whether two values are equal.
    pub fn same(&self, other: &CheckDefinition) -> (r: bool)
        ensures
            r == (self@ == other@),
    {
        same_optional_sql_name(&self.name, &other.name)
            && same_optional_column_id(&self.owner, &other.owner)
            && same_column_ids(&self.columns, &other.columns)
            && same_text(self.expression.as_str(), other.expression.as_str())
    }
}

/// A copy of a list.
pub fn clone_checks(items: &Vec<CheckDefinition>) -> (r: Vec<CheckDefinition>)
    ensures
        views(r@) == views(items@),
{
    let mut r: Vec<CheckDefinition> = Vec::new();
    let mut i: usize = 0;
    while i < items.len()
        invariant
            i <= items@.len(),
            r@.len() == i,
            forall|j: int| 0 <= j < i ==> (#[trigger] r@[j])@ == items@[j]@,
        decreases items.len() - i,
    {
        r.push(items[i].clone());
        i += 1;
    }
    assert(views(r@) =~= views(items@));
    r
}

/// Whether two lists hold equal items.
pub fn same_checks(a: &Vec<CheckDefinition>, b: &Vec<CheckDefinition>) -> (r: bool)
    ensures
        r == (views(a@) == views(b@)),
{
    if a.len() != b.len() {
        assert(views(a@).len() != views(b@).len());
        return false;
    }
    let mut i: usize = 0;
    while i < a.len()
        invariant
            i <= a@.len(),
            a@.len() == b@.len(),
            forall|j: int| 0 <= j < i ==> views(a@)[j] == views(b@)[j],
        decreases a.len() - i,
    {
        if !a[i].same(&b[i]) {
            assert(views(a@)[i as int] != views(b@)[i as int]);
            return false;
        }
        i += 1;
    }
    assert(views(a@) =~= views(b@));
    true
}

/// The fields of the frame of a CHECK.
pub open spec fn check_fields(x: CheckView) -> Seq<(u8, Seq<u8>)> {
    let none = Seq::<(u8, Seq<u8>)>::empty();
    let f1 = match x.name {
        Some(value) => none.push((TAG_CHECK_NAME, encode_utf8(value))),
        None => none,
    };
    let f2 = match x.owner {
        Some(value) => f1.push((TAG_CHECK_OWNER, value)),
        None => f1,
    };
    let f3 = f2 + bytes_list(TAG_CHECK_COLUMN, x.columns);
    let f4 = f3.push((TAG_CHECK_EXPRESSION, encode_utf8(x.expression)));
    f4
}

/// The frame of a CHECK.
#[verifier::opaque]
pub open spec fn check_frame(x: CheckView) -> Seq<u8> {
    fields_bytes(check_fields(x))
}

/// Whether every field of the frame has a length that a `u32` holds.
pub open spec fn check_fits(x: CheckView) -> bool {
    &&& (x.name matches Some(value) ==> fits(encode_utf8(value)))
    &&& fits(encode_utf8(x.expression))
}

/// The fields of a list under one tag, each with its own frame.
pub open spec fn check_list(tag: u8, items: Seq<CheckView>) -> Seq<(u8, Seq<u8>)> {
    Seq::new(items.len(), |i: int| (tag, check_frame(items[i])))
}

/// Write the fields of a list under one tag.
pub fn write_checks(w: FrameWriter, tag: u8, items: &Vec<CheckDefinition>) -> (r: FrameWriter)
    requires
        forall|i: int| 0 <= i < items@.len() ==> check_fits(#[trigger] views(items@)[i]) && fits(check_frame(views(items@)[i])),
    ensures
        r.head() == w.head(),
        r.fields() == w.fields() + check_list(tag, views(items@)),
{
    let ghost list = check_list(tag, views(items@));
    let ghost head = w.head();
    let ghost before = w.fields();
    let mut w = w;
    let mut i: usize = 0;
    assert(before + list.subrange(0, 0) =~= before);
    while i < items.len()
        invariant
            i <= items@.len(),
            list == check_list(tag, views(items@)),
            w.head() == head,
            w.fields() == before + list.subrange(0, i as int),
            forall|i: int| 0 <= i < items@.len() ==> check_fits(#[trigger] views(items@)[i]) && fits(check_frame(views(items@)[i])),
        decreases items.len() - i,
    {
        assert(views(items@)[i as int] == items@[i as int]@);
        let item = items[i].encode();
        w = w.field(tag, item.as_slice());
        assert(w.fields() =~= before + list.subrange(0, i as int + 1));
        i += 1;
    }
    assert(list.subrange(0, i as int) =~= list);
    w
}

impl CheckDefinition {
    /// Encode the frame.
    pub fn encode(&self) -> (r: Vec<u8>)
        requires
            check_fits(self@),
        ensures
            r@ == check_frame(self@),
    {
        assert(self@.columns == views(self.columns@));
        let w = FrameWriter::new();
        let w = match &self.name {
            Some(value) => {
                let name = copy_bytes(value.value().as_bytes());
                w.field(TAG_CHECK_NAME, name.as_slice())
            },
            None => w,
        };
        let w = match &self.owner {
            Some(value) => {
                let owner = copy_bytes(&value.as_bytes());
                w.field(TAG_CHECK_OWNER, owner.as_slice())
            },
            None => w,
        };
        let w = write_column_ids(w, TAG_CHECK_COLUMN, &self.columns);
        let expression = copy_bytes(self.expression.as_str().as_bytes());
        let w = w.field(TAG_CHECK_EXPRESSION, expression.as_slice());
        assert(w.fields() =~= check_fields(self@));
        reveal(check_frame);
        w.finish()
    }
}

/// What is known of a CHECK after some of its fields.
#[verifier::ext_equal]
pub struct CheckState {
    pub name: Option<Seq<char>>,
    pub owner: Option<Seq<u8>>,
    pub columns: Seq<Seq<u8>>,
    pub expression: Option<Seq<char>>,
}

/// Nothing is known before the first field.
pub open spec fn check_start() -> CheckState {
    CheckState {
        name: None,
        owner: None,
        columns: Seq::empty(),
        expression: None,
    }
}

/// What one field adds.
pub open spec fn check_step(s: CheckState, tag: u8, payload: Seq<u8>) -> Result<CheckState, SchemaCodecError> {
    if tag == TAG_CHECK_NAME {
        match filled(s.name, text_field(payload), SchemaCodecError::DuplicateField) {
            Err(error) => Err(error),
            Ok(name) => Ok(CheckState { name, ..s }),
        }
    } else if tag == TAG_CHECK_OWNER {
        match filled(s.owner, uuid_field(payload), SchemaCodecError::DuplicateField) {
            Err(error) => Err(error),
            Ok(owner) => Ok(CheckState { owner, ..s }),
        }
    } else if tag == TAG_CHECK_COLUMN {
        match grown(s.columns, uuid_field(payload)) {
            Err(error) => Err(error),
            Ok(columns) => Ok(CheckState { columns, ..s }),
        }
    } else if tag == TAG_CHECK_EXPRESSION {
        match filled(s.expression, text_field(payload), SchemaCodecError::DuplicateField) {
            Err(error) => Err(error),
            Ok(expression) => Ok(CheckState { expression, ..s }),
        }
    } else {
        Ok(s)
    }
}

/// [`check_step`] as a value.
pub open spec fn check_steps() -> spec_fn(CheckState, u8, Seq<u8>) -> Result<CheckState, SchemaCodecError> {
    |s: CheckState, tag: u8, payload: Seq<u8>| check_step(s, tag, payload)
}

/// A CHECK that the fields describe.
pub open spec fn check_finish(s: CheckState) -> Result<CheckView, SchemaCodecError> {
    if s.expression is None {
        Err(SchemaCodecError::MissingField(TAG_CHECK_EXPRESSION))
    } else {
        Ok(CheckView {
            name: s.name,
            owner: s.owner,
            columns: s.columns,
            expression: s.expression->Some_0,
        })
    }
}

/// What decoding a frame gives.
#[verifier::opaque]
pub open spec fn check_decoded(b: Seq<u8>) -> Result<CheckView, SchemaCodecError> {
    match run_fields(check_start(), b, check_steps(), SchemaCodecError::Truncated) {
        Err(error) => Err(error),
        Ok(s) => check_finish(s),
    }
}

impl CheckDefinition {
    /// Decode one complete frame.
    pub fn decode(frame: &[u8]) -> (r: Result<CheckDefinition, SchemaCodecError>)
        ensures
            outcome(r) == check_decoded(frame@),
    {
        broadcast use lemma_views_push;
        reveal(check_decoded);
        let mut reader = Reader::new(frame);
        let mut name: Option<SqlName> = None;
        let mut owner: Option<ColumnId> = None;
        let mut columns: Vec<ColumnId> = Vec::new();
        let mut expression: Option<String> = None;
        let ghost mut state = check_start();
        assert(views(columns@) =~= Seq::<Seq<u8>>::empty());
        while !reader.is_empty()
            invariant
                state == (CheckState {
                    name: view_of(name),
                    owner: view_of(owner),
                    columns: views(columns@),
                    expression: view_of(expression),
                }),
                check_decoded(frame@) == (match run_fields(
                    state,
                    reader.remaining(),
                    check_steps(),
                    SchemaCodecError::Truncated,
                ) {
                    Err(error) => Err(error),
                    Ok(s) => check_finish(s),
                }),
            decreases reader.remaining().len(),
        {
            let (tag, payload) = match reader.field() {
                Ok(Some(field)) => field,
                _ => {
                    return Err(SchemaCodecError::Truncated);
                },
            };
            let ghost next = check_step(state, tag, payload@);
            assert(check_steps()(state, tag, payload@) == next);
            if tag == TAG_CHECK_NAME {
                match read_name(payload) {
                    Err(error) => {
                        return Err(error);
                    },
                    Ok(found) => {
                        if name.is_some() {
                            return Err(SchemaCodecError::DuplicateField);
                        }
                        name = Some(found);
                    },
                }
            } else if tag == TAG_CHECK_OWNER {
                match read_uuid(payload) {
                    Err(error) => {
                        return Err(error);
                    },
                    Ok(found) => {
                        if owner.is_some() {
                            return Err(SchemaCodecError::DuplicateField);
                        }
                        owner = Some(ColumnId(found));
                    },
                }
            } else if tag == TAG_CHECK_COLUMN {
                match read_uuid(payload) {
                    Err(error) => {
                        return Err(error);
                    },
                    Ok(found) => {
                        columns.push(ColumnId(found));
                    },
                }
            } else if tag == TAG_CHECK_EXPRESSION {
                match read_string(payload) {
                    Err(error) => {
                        return Err(error);
                    },
                    Ok(found) => {
                        if expression.is_some() {
                            return Err(SchemaCodecError::DuplicateField);
                        }
                        expression = Some(found);
                    },
                }
            }
            proof {
                state = next->Ok_0;
            }
        }
        let expression = match expression {
            Some(found) => found,
            None => {
                return Err(SchemaCodecError::MissingField(TAG_CHECK_EXPRESSION));
            },
        };
        let r = CheckDefinition { name, owner, columns, expression };
        assert(r@ == check_finish(state)->Ok_0);
        Ok(r)
    }
}

/// Whether a value is one that decoding can give.
pub open spec fn check_valid(x: CheckView) -> bool {
    &&& (x.owner matches Some(value) ==> random_uuid(value))
    &&& forall|i: int| 0 <= i < x.columns.len() ==> random_uuid(#[trigger] x.columns[i])
}

/// Decoding the frame of a CHECK gives it back.
pub proof fn check_roundtrip(x: CheckView)
    requires
        check_valid(x),
        check_fits(x),
    ensures
        check_decoded(check_frame(x)) == Ok::<CheckView, SchemaCodecError>(x),
{
    reveal(check_decoded);
    reveal(check_frame);
    let none = Seq::<(u8, Seq<u8>)>::empty();
    let f1 = match x.name {
        Some(value) => none.push((TAG_CHECK_NAME, encode_utf8(value))),
        None => none,
    };
    let f2 = match x.owner {
        Some(value) => f1.push((TAG_CHECK_OWNER, value)),
        None => f1,
    };
    let f3 = f2 + bytes_list(TAG_CHECK_COLUMN, x.columns);
    let f4 = f3.push((TAG_CHECK_EXPRESSION, encode_utf8(x.expression)));
    let step = check_steps();
    let s0 = check_start();
    assert(fields_fit(none));
    let s1 = CheckState { name: x.name, ..s0 };
    assert(fold_fields(s0, f1, step) == Ok::<CheckState, SchemaCodecError>(s1) && fields_fit(f1)) by {
        match x.name {
            Some(value) => {
                lemma_text_field(value);
                lemma_fold_push(s0, none, TAG_CHECK_NAME, encode_utf8(value), step);
                lemma_fit_push(none, TAG_CHECK_NAME, encode_utf8(value));
                assert(step(s0, TAG_CHECK_NAME, encode_utf8(value)) == Ok::<CheckState, SchemaCodecError>(s1));
            },
            None => {
                assert(s1 == s0);
            },
        }
    }
    let s2 = CheckState { owner: x.owner, ..s1 };
    assert(fold_fields(s0, f2, step) == Ok::<CheckState, SchemaCodecError>(s2) && fields_fit(f2)) by {
        match x.owner {
            Some(value) => {
                lemma_fold_push(s0, f1, TAG_CHECK_OWNER, value, step);
                lemma_fit_push(f1, TAG_CHECK_OWNER, value);
                assert(step(s1, TAG_CHECK_OWNER, value) == Ok::<CheckState, SchemaCodecError>(s2));
            },
            None => {
                assert(s2 == s1);
            },
        }
    }
    let s3 = CheckState { columns: x.columns, ..s2 };
    assert(fold_fields(s0, f3, step) == Ok::<CheckState, SchemaCodecError>(s3) && fields_fit(f3)) by {
        let states = |i: int| CheckState { columns: x.columns.subrange(0, i), ..s2 };
        let fields = bytes_list(TAG_CHECK_COLUMN, x.columns);
        assert forall|i: int| 0 <= i < fields.len() implies #[trigger] step(
            states(i),
            fields[i].0,
            fields[i].1,
        ) == Ok::<CheckState, SchemaCodecError>(states(i + 1)) by {

            assert(x.columns.subrange(0, i).push(x.columns[i]) =~= x.columns.subrange(0, i + 1));
        }
        assert(states(0) =~= s2);
        lemma_fold_list(s0, f2, fields, states, step);
        assert(states(fields.len() as int) =~= s3);
        assert forall|i: int| 0 <= i < fields.len() implies fits((#[trigger] fields[i]).1) by {
            assert(random_uuid(x.columns[i]));
        }
        lemma_fit_concat(f2, fields);
    }
    let s4 = CheckState { expression: Some(x.expression), ..s3 };
    assert(fold_fields(s0, f4, step) == Ok::<CheckState, SchemaCodecError>(s4) && fields_fit(f4)) by {
        lemma_text_field(x.expression);
        lemma_fold_push(s0, f3, TAG_CHECK_EXPRESSION, encode_utf8(x.expression), step);
        lemma_fit_push(f3, TAG_CHECK_EXPRESSION, encode_utf8(x.expression));
        assert(step(s3, TAG_CHECK_EXPRESSION, encode_utf8(x.expression)) == Ok::<CheckState, SchemaCodecError>(s4));
    }
    lemma_run_fold(s0, f4, step, SchemaCodecError::Truncated);
    assert(f4 == check_fields(x));
    assert(check_finish(s4) == Ok::<CheckView, SchemaCodecError>(x));
}

/// The bytes that known fields of a CHECK take.
pub open spec fn check_size(s: CheckState) -> nat {
    let name: nat = match s.name {
        Some(value) => 5 + encode_utf8(value).len(),
        None => 0,
    };
    let owner: nat = match s.owner {
        Some(value) => 5 + value.len(),
        None => 0,
    };
    let columns = fields_bytes(bytes_list(TAG_CHECK_COLUMN, s.columns)).len();
    let expression: nat = match s.expression {
        Some(value) => 5 + encode_utf8(value).len(),
        None => 0,
    };
    name + owner + columns + expression
}

/// Whether known fields of a CHECK are sound and can be written again.
pub open spec fn check_sound(s: CheckState) -> bool {
    &&& (s.name matches Some(value) ==> fits(encode_utf8(value)))
    &&& (s.owner matches Some(value) ==> random_uuid(value) && fits(value))
    &&& forall|i: int| 0 <= i < s.columns.len() ==> random_uuid(#[trigger] s.columns[i]) && fits(s.columns[i])
    &&& (s.expression matches Some(value) ==> fits(encode_utf8(value)))
}

/// One field adds no more than its own bytes.
proof fn lemma_check_step(s: CheckState, tag: u8, payload: Seq<u8>)
    requires
        check_sound(s),
        fits(payload),
    ensures
        check_step(s, tag, payload) matches Ok(next) ==> check_sound(next) && check_size(next) <= check_size(
            s,
        ) + 5 + payload.len(),
{
    if let Ok(next) = check_step(s, tag, payload) {
        if tag == TAG_CHECK_NAME {
            lemma_text_shrinks(payload);
        } else if tag == TAG_CHECK_OWNER {
        } else if tag == TAG_CHECK_COLUMN {
            let found = uuid_field(payload)->Ok_0;
            assert(bytes_list(TAG_CHECK_COLUMN, s.columns.push(found)) =~= bytes_list(TAG_CHECK_COLUMN, s.columns).push(
                (TAG_CHECK_COLUMN, found),
            ));
            lemma_fields_len(bytes_list(TAG_CHECK_COLUMN, s.columns), TAG_CHECK_COLUMN, found);
        } else if tag == TAG_CHECK_EXPRESSION {
            lemma_text_shrinks(payload);
        }
    }
}

/// What decoding gives is sound and takes no more bytes than it was read from.
pub proof fn check_shrinks(b: Seq<u8>)
    ensures
        check_decoded(b) matches Ok(x) ==> check_valid(x) && check_fits(x) && check_frame(x).len() <= b.len(),
{
    reveal(check_decoded);
    reveal(check_frame);
    if let Ok(x) = check_decoded(b) {
        let body = b;
        let good = |s: CheckState| check_sound(s);
        let size = |s: CheckState| check_size(s);
        let step = check_steps();
        let s0 = check_start();
        let end = run_fields(s0, body, step, SchemaCodecError::Truncated)->Ok_0;
        assert forall|s: CheckState, tag: u8, payload: Seq<u8>|
            good(s) && fits(payload) && (#[trigger] step(s, tag, payload)) is Ok implies good(
            step(s, tag, payload)->Ok_0,
        ) && size(step(s, tag, payload)->Ok_0) <= size(s) + 5 + payload.len() by {
            lemma_check_step(s, tag, payload);
        }
        lemma_run_bounded(s0, body, step, good, size, SchemaCodecError::Truncated);
        assert(check_sound(end));
        let none = Seq::<(u8, Seq<u8>)>::empty();
        assert(fields_bytes(none).len() == 0);
        let f1 = match x.name {
            Some(value) => none.push((TAG_CHECK_NAME, encode_utf8(value))),
            None => none,
        };
        if let Some(value) = x.name {
            lemma_fields_len(none, TAG_CHECK_NAME, encode_utf8(value));
        }
        let f2 = match x.owner {
            Some(value) => f1.push((TAG_CHECK_OWNER, value)),
            None => f1,
        };
        if let Some(value) = x.owner {
            lemma_fields_len(f1, TAG_CHECK_OWNER, value);
        }
        let f3 = f2 + bytes_list(TAG_CHECK_COLUMN, x.columns);
        lemma_fields_concat(f2, bytes_list(TAG_CHECK_COLUMN, x.columns));
        let f4 = f3.push((TAG_CHECK_EXPRESSION, encode_utf8(x.expression)));
        lemma_fields_len(f3, TAG_CHECK_EXPRESSION, encode_utf8(x.expression));
        assert(bytes_list(TAG_CHECK_COLUMN, Seq::<Seq<u8>>::empty()) =~= none);
        assert(f4 == check_fields(x));
        assert(check_size(s0) == 0);
        assert(fields_bytes(f4).len() == check_size(end));
    }
}

/// One table definition, by stable identities.
#[derive(Debug, PartialEq, Eq)]
pub struct CreateTable {
    pub mutation: MutationId,
    pub sql: String,
    pub name: SqlName,
    pub table: TableId,
    pub schema_revision: SchemaRevisionId,
    pub primary_index: IndexId,
    pub mode: TableMode,
    pub storage: TableStorage,
    pub columns: Vec<Column>,
    pub unique_constraints: Vec<UniqueConstraint>,
    pub indexes: Vec<NamedIndex>,
    pub foreign_keys: Vec<ForeignKeyDefinition>,
    pub checks: Vec<CheckDefinition>,
}

/// A table as a mathematical value.
#[verifier::ext_equal]
pub struct TableView {
    pub mutation: Seq<u8>,
    pub sql: Seq<char>,
    pub name: Seq<char>,
    pub table: Seq<u8>,
    pub schema_revision: Seq<u8>,
    pub primary_index: Seq<u8>,
    pub mode: TableMode,
    pub storage: TableStorage,
    pub columns: Seq<ColumnView>,
    pub unique_constraints: Seq<UniqueView>,
    pub indexes: Seq<NamedIndexView>,
    pub foreign_keys: Seq<RelationshipView>,
    pub checks: Seq<CheckView>,
}

impl View for CreateTable {
    type V = TableView;

    open spec fn view(&self) -> TableView {
        TableView {
            mutation: self.mutation@,
            sql: self.sql@,
            name: self.name@,
            table: self.table@,
            schema_revision: self.schema_revision@,
            primary_index: self.primary_index@,
            mode: self.mode,
            storage: self.storage,
            columns: views(self.columns@),
            unique_constraints: views(self.unique_constraints@),
            indexes: views(self.indexes@),
            foreign_keys: views(self.foreign_keys@),
            checks: views(self.checks@),
        }
    }
}

impl Clone for CreateTable {
    fn clone(&self) -> (r: Self)
        ensures
            r@ == self@,
    {
        CreateTable {
            mutation: self.mutation,
            sql: self.sql.clone(),
            name: self.name.clone(),
            table: self.table,
            schema_revision: self.schema_revision,
            primary_index: self.primary_index,
            mode: self.mode,
            storage: self.storage,
            columns: clone_columns(&self.columns),
            unique_constraints: clone_unique_constraints(&self.unique_constraints),
            indexes: clone_named_indexes(&self.indexes),
            foreign_keys: clone_relationships(&self.foreign_keys),
            checks: clone_checks(&self.checks),
        }
    }
}

impl CreateTable {
    /// Whether two values are equal.
    pub fn same(&self, other: &CreateTable) -> (r: bool)
        ensures
            r == (self@ == other@),
    {
        self.mutation.same(&other.mutation)
            && same_text(self.sql.as_str(), other.sql.as_str())
            && self.name.same(&other.name)
            && self.table.same(&other.table)
            && self.schema_revision.same(&other.schema_revision)
            && self.primary_index.same(&other.primary_index)
            && (self.mode == other.mode)
            && (self.storage == other.storage)
            && same_columns(&self.columns, &other.columns)
            && same_unique_constraints(&self.unique_constraints, &other.unique_constraints)
            && same_named_indexes(&self.indexes, &other.indexes)
            && same_relationships(&self.foreign_keys, &other.foreign_keys)
            && same_checks(&self.checks, &other.checks)
    }
}

/// The identities of columns, in order.
pub open spec fn column_ids(columns: Seq<ColumnView>) -> Seq<Seq<u8>> {
    Seq::new(columns.len(), |i: int| columns[i].id)
}

/// Whether identities are all among a table's columns, and there is one.
pub open spec fn known_columns(columns: Seq<ColumnView>, ids: Seq<Seq<u8>>) -> bool {
    ids.len() > 0 && forall|i: int|
        0 <= i < ids.len() ==> column_ids(columns).contains(#[trigger] ids[i])
}

/// How many columns belong to the primary key.
pub open spec fn key_width(columns: Seq<ColumnView>) -> nat
    decreases columns.len(),
{
    if columns.len() == 0 {
        0
    } else {
        key_width(columns.drop_last()) + (if columns.last().primary_key is Some {
            1nat
        } else {
            0
        })
    }
}

/// Whether a column stands at a position of the primary key.
pub open spec fn key_position(columns: Seq<ColumnView>, position: int) -> bool {
    0 <= position <= u32::MAX && exists|i: int|
        0 <= i < columns.len() && (#[trigger] columns[i]).primary_key == Some(position as u32)
}

/// Whether a table definition can stand: its columns are distinct, its primary
/// key has a column at every position, and every index names known columns.
pub open spec fn definition_sound(table: TableView) -> bool {
    &&& column_ids(table.columns).no_duplicates()
    &&& key_width(table.columns) > 0
    &&& forall|p: int|
        0 <= p < key_width(table.columns) ==> #[trigger] key_position(table.columns, p)
    &&& forall|i: int|
        0 <= i < table.unique_constraints.len() ==> known_columns(
            table.columns,
            (#[trigger] table.unique_constraints[i]).columns,
        )
    &&& forall|i: int|
        0 <= i < table.indexes.len() && (#[trigger] table.indexes[i]).unique ==> known_columns(
            table.columns,
            table.indexes[i].columns,
        )
}

/// Why a table definition is refused, if it is.
pub open spec fn table_fault(table: TableView) -> Option<SchemaCodecError> {
    if definition_sound(table) {
        None
    } else {
        Some(SchemaCodecError::InvalidSchema)
    }
}

/// Whether no two columns share an identity.
fn distinct_ids(columns: &[Column]) -> (r: bool)
    ensures
        r == column_ids(views(columns@)).no_duplicates(),
{
    let ghost ids = column_ids(views(columns@));
    let mut i: usize = 0;
    while i < columns.len()
        invariant
            i <= columns@.len(),
            ids == column_ids(views(columns@)),
            forall|a: int, b: int| 0 <= a < b < i ==> ids[a] != ids[b],
        decreases columns.len() - i,
    {
        let mut j: usize = 0;
        while j < i
            invariant
                j <= i < columns@.len(),
                ids == column_ids(views(columns@)),
                forall|a: int| 0 <= a < j ==> ids[a] != ids[i as int],
            decreases i - j,
        {
            if columns[j].id.same(&columns[i].id) {
                assert(ids[j as int] == ids[i as int]);
                return false;
            }
            j += 1;
        }
        i += 1;
    }
    true
}

/// Whether an identity is among columns.
pub fn has_column(columns: &[Column], id: ColumnId) -> (r: bool)
    ensures
        r == column_ids(views(columns@)).contains(id@),
{
    let ghost ids = column_ids(views(columns@));
    let mut i: usize = 0;
    while i < columns.len()
        invariant
            i <= columns@.len(),
            ids == column_ids(views(columns@)),
            forall|a: int| 0 <= a < i ==> ids[a] != id@,
        decreases columns.len() - i,
    {
        if columns[i].id.same(&id) {
            assert(ids[i as int] == id@);
            return true;
        }
        i += 1;
    }
    false
}

/// Whether identities are all among a table's columns, and there is one.
fn check_known(columns: &[Column], ids: &[ColumnId]) -> (r: bool)
    ensures
        r == known_columns(views(columns@), views(ids@)),
{
    if ids.len() == 0 {
        return false;
    }
    let ghost wanted = views(ids@);
    let mut i: usize = 0;
    while i < ids.len()
        invariant
            i <= ids@.len(),
            ids@.len() > 0,
            wanted == views(ids@),
            forall|j: int|
                0 <= j < i ==> column_ids(views(columns@)).contains(#[trigger] wanted[j]),
        decreases ids.len() - i,
    {
        assert(wanted[i as int] == ids@[i as int]@);
        if !has_column(columns, ids[i]) {
            return false;
        }
        i += 1;
    }
    true
}

/// How many columns belong to the primary key.
pub fn primary_key_width(columns: &[Column]) -> (r: usize)
    ensures
        r == key_width(views(columns@)),
        r <= columns@.len(),
{
    let ghost view = views(columns@);
    let mut width: usize = 0;
    let mut i: usize = 0;
    assert(view.subrange(0, 0) =~= Seq::<ColumnView>::empty());
    while i < columns.len()
        invariant
            i <= columns@.len(),
            view == views(columns@),
            width == key_width(view.subrange(0, i as int)),
            width <= i,
        decreases columns.len() - i,
    {
        proof {
            assert(view.subrange(0, i as int + 1).drop_last() =~= view.subrange(0, i as int));
            assert(view[i as int] == columns@[i as int]@);
        }
        if columns[i].primary_key.is_some() {
            width += 1;
        }
        i += 1;
    }
    assert(view.subrange(0, i as int) =~= view);
    width
}

/// The column at a position of the primary key.
pub fn find_key_column(columns: &[Column], position: usize) -> (r: Option<usize>)
    ensures
        match r {
            Some(i) => i < columns@.len() && position <= u32::MAX
                && columns@[i as int]@.primary_key == Some(position as u32) && forall|j: int|
                0 <= j < i ==> (#[trigger] columns@[j])@.primary_key != Some(position as u32),
            None => !key_position(views(columns@), position as int),
        },
{
    if position as u64 > u32::MAX as u64 {
        return None;
    }
    let wanted: u32 = position as u32;
    let ghost view = views(columns@);
    let mut i: usize = 0;
    while i < columns.len()
        invariant
            i <= columns@.len(),
            view == views(columns@),
            wanted == position,
            forall|j: int| 0 <= j < i ==> (#[trigger] columns@[j])@.primary_key != Some(wanted),
            forall|j: int| 0 <= j < i ==> (#[trigger] view[j]).primary_key != Some(wanted),
        decreases columns.len() - i,
    {
        assert(view[i as int] == columns@[i as int]@);
        if let Some(found) = columns[i].primary_key {
            if found == wanted {
                return Some(i);
            }
        }
        i += 1;
    }
    None
}

impl CreateTable {
    /// Refuse a definition that no table can have.
    pub fn validate_ir(&self) -> (r: Result<(), SchemaCodecError>)
        ensures
            r == (match table_fault(self@) {
                Some(error) => Err::<(), SchemaCodecError>(error),
                None => Ok(()),
            }),
    {
        let ghost x = self@;
        assert(x.columns == views(self.columns@));
        assert(x.unique_constraints == views(self.unique_constraints@));
        assert(x.indexes == views(self.indexes@));
        if !distinct_ids(self.columns.as_slice()) {
            return Err(SchemaCodecError::InvalidSchema);
        }
        let width: usize = primary_key_width(self.columns.as_slice());
        if width == 0 {
            return Err(SchemaCodecError::InvalidSchema);
        }
        let mut position: usize = 0;
        while position < width
            invariant
                position <= width,
                width == key_width(x.columns),
                x == self@,
                x.columns == views(self.columns@),
                forall|p: int| 0 <= p < position ==> #[trigger] key_position(x.columns, p),
            decreases width - position,
        {
            match find_key_column(self.columns.as_slice(), position) {
                Some(i) => {
                    assert(x.columns[i as int] == self.columns@[i as int]@);
                },
                None => {
                    assert(!key_position(x.columns, position as int));
                    return Err(SchemaCodecError::InvalidSchema);
                },
            }
            position += 1;
        }
        let mut i: usize = 0;
        while i < self.unique_constraints.len()
            invariant
                i <= self.unique_constraints@.len(),
                x == self@,
                x.columns == views(self.columns@),
                x.unique_constraints == views(self.unique_constraints@),
                forall|j: int|
                    0 <= j < i ==> known_columns(
                        x.columns,
                        (#[trigger] x.unique_constraints[j]).columns,
                    ),
            decreases self.unique_constraints.len() - i,
        {
            assert(x.unique_constraints[i as int] == self.unique_constraints@[i as int]@);
            if !check_known(
                self.columns.as_slice(),
                self.unique_constraints[i].columns.as_slice(),
            ) {
                return Err(SchemaCodecError::InvalidSchema);
            }
            i += 1;
        }
        let mut i: usize = 0;
        while i < self.indexes.len()
            invariant
                i <= self.indexes@.len(),
                x == self@,
                x.columns == views(self.columns@),
                x.indexes == views(self.indexes@),
                forall|j: int|
                    0 <= j < i && (#[trigger] x.indexes[j]).unique ==> known_columns(
                        x.columns,
                        x.indexes[j].columns,
                    ),
            decreases self.indexes.len() - i,
        {
            assert(x.indexes[i as int] == self.indexes@[i as int]@);
            if self.indexes[i].unique && !check_known(
                self.columns.as_slice(),
                self.indexes[i].columns.as_slice(),
            ) {
                return Err(SchemaCodecError::InvalidSchema);
            }
            i += 1;
        }
        Ok(())
    }
}

/// The fields of the frame of a table.
pub open spec fn table_fields(x: TableView) -> Seq<(u8, Seq<u8>)> {
    let none = Seq::<(u8, Seq<u8>)>::empty();
    let f1 = none.push((TAG_TABLE_MUTATION, x.mutation));
    let f2 = f1.push((TAG_TABLE_SQL, encode_utf8(x.sql)));
    let f3 = f2.push((TAG_TABLE_NAME, encode_utf8(x.name)));
    let f4 = f3.push((TAG_TABLE_ID, x.table));
    let f5 = f4.push((TAG_TABLE_REVISION, x.schema_revision));
    let f6 = f5.push((TAG_TABLE_PRIMARY_INDEX, x.primary_index));
    let f7 = f6.push((TAG_TABLE_MODE, seq![x.mode.code()]));
    let f8 = f7.push((TAG_TABLE_STORAGE, seq![x.storage.code()]));
    let f9 = f8 + column_list(TAG_TABLE_COLUMN, x.columns);
    let f10 = f9 + unique_constraint_list(TAG_TABLE_UNIQUE, x.unique_constraints);
    let f11 = f10 + named_index_list(TAG_TABLE_INDEX, x.indexes);
    let f12 = f11 + relationship_list(TAG_TABLE_FOREIGN_KEY, x.foreign_keys);
    let f13 = f12 + check_list(TAG_TABLE_CHECK, x.checks);
    f13
}

/// The frame of a table.
#[verifier::opaque]
pub open spec fn table_frame(x: TableView) -> Seq<u8> {
    seq![TABLE_FRAME_VERSION] + fields_bytes(table_fields(x))
}

/// Whether every field of the frame has a length that a `u32` holds.
pub open spec fn table_fits(x: TableView) -> bool {
    &&& fits(encode_utf8(x.sql))
    &&& fits(encode_utf8(x.name))
    &&& forall|i: int| 0 <= i < x.columns.len() ==> column_fits(#[trigger] x.columns[i]) && fits(column_frame(x.columns[i]))
    &&& forall|i: int| 0 <= i < x.unique_constraints.len() ==> unique_constraint_fits(#[trigger] x.unique_constraints[i]) && fits(unique_constraint_frame(x.unique_constraints[i]))
    &&& forall|i: int| 0 <= i < x.indexes.len() ==> named_index_fits(#[trigger] x.indexes[i]) && fits(named_index_frame(x.indexes[i]))
    &&& forall|i: int| 0 <= i < x.foreign_keys.len() ==> relationship_fits(#[trigger] x.foreign_keys[i]) && fits(relationship_frame(x.foreign_keys[i]))
    &&& forall|i: int| 0 <= i < x.checks.len() ==> check_fits(#[trigger] x.checks[i]) && fits(check_frame(x.checks[i]))
}

impl CreateTable {
    /// Encode the frame.
    pub fn encode(&self) -> (r: Vec<u8>)
        requires
            table_fits(self@),
        ensures
            r@ == table_frame(self@),
    {
        assert(self@.columns == views(self.columns@));
        assert(self@.unique_constraints == views(self.unique_constraints@));
        assert(self@.indexes == views(self.indexes@));
        assert(self@.foreign_keys == views(self.foreign_keys@));
        assert(self@.checks == views(self.checks@));
        let w = FrameWriter::versioned(TABLE_FRAME_VERSION);
        let mutation = copy_bytes(&self.mutation.as_bytes());
        let w = w.field(TAG_TABLE_MUTATION, mutation.as_slice());
        let sql = copy_bytes(self.sql.as_str().as_bytes());
        let w = w.field(TAG_TABLE_SQL, sql.as_slice());
        let name = copy_bytes(self.name.value().as_bytes());
        let w = w.field(TAG_TABLE_NAME, name.as_slice());
        let table = copy_bytes(&self.table.as_bytes());
        let w = w.field(TAG_TABLE_ID, table.as_slice());
        let schema_revision = copy_bytes(&self.schema_revision.as_bytes());
        let w = w.field(TAG_TABLE_REVISION, schema_revision.as_slice());
        let primary_index = copy_bytes(&self.primary_index.as_bytes());
        let w = w.field(TAG_TABLE_PRIMARY_INDEX, primary_index.as_slice());
        let mode = one_byte(self.mode.to_u8());
        let w = w.field(TAG_TABLE_MODE, mode.as_slice());
        let storage = one_byte(self.storage.to_u8());
        let w = w.field(TAG_TABLE_STORAGE, storage.as_slice());
        let w = write_columns(w, TAG_TABLE_COLUMN, &self.columns);
        let w = write_unique_constraints(w, TAG_TABLE_UNIQUE, &self.unique_constraints);
        let w = write_named_indexes(w, TAG_TABLE_INDEX, &self.indexes);
        let w = write_relationships(w, TAG_TABLE_FOREIGN_KEY, &self.foreign_keys);
        let w = write_checks(w, TAG_TABLE_CHECK, &self.checks);
        assert(w.fields() =~= table_fields(self@));
        reveal(table_frame);
        w.finish()
    }
}

/// What is known of a table after some of its fields.
#[verifier::ext_equal]
pub struct TableState {
    pub mutation: Option<Seq<u8>>,
    pub sql: Option<Seq<char>>,
    pub name: Option<Seq<char>>,
    pub table: Option<Seq<u8>>,
    pub schema_revision: Option<Seq<u8>>,
    pub primary_index: Option<Seq<u8>>,
    pub mode: Option<TableMode>,
    pub storage: Option<TableStorage>,
    pub columns: Seq<ColumnView>,
    pub unique_constraints: Seq<UniqueView>,
    pub indexes: Seq<NamedIndexView>,
    pub foreign_keys: Seq<RelationshipView>,
    pub checks: Seq<CheckView>,
}

/// Nothing is known before the first field.
pub open spec fn table_start() -> TableState {
    TableState {
        mutation: None,
        sql: None,
        name: None,
        table: None,
        schema_revision: None,
        primary_index: None,
        mode: None,
        storage: None,
        columns: Seq::empty(),
        unique_constraints: Seq::empty(),
        indexes: Seq::empty(),
        foreign_keys: Seq::empty(),
        checks: Seq::empty(),
    }
}

/// What one field adds.
pub open spec fn table_step(s: TableState, tag: u8, payload: Seq<u8>) -> Result<TableState, SchemaCodecError> {
    if tag == TAG_TABLE_MUTATION {
        match filled(s.mutation, uuid_field(payload), SchemaCodecError::DuplicateField) {
            Err(error) => Err(error),
            Ok(mutation) => Ok(TableState { mutation, ..s }),
        }
    } else if tag == TAG_TABLE_SQL {
        match filled(s.sql, text_field(payload), SchemaCodecError::DuplicateField) {
            Err(error) => Err(error),
            Ok(sql) => Ok(TableState { sql, ..s }),
        }
    } else if tag == TAG_TABLE_NAME {
        match filled(s.name, text_field(payload), SchemaCodecError::DuplicateField) {
            Err(error) => Err(error),
            Ok(name) => Ok(TableState { name, ..s }),
        }
    } else if tag == TAG_TABLE_ID {
        match filled(s.table, uuid_field(payload), SchemaCodecError::DuplicateField) {
            Err(error) => Err(error),
            Ok(table) => Ok(TableState { table, ..s }),
        }
    } else if tag == TAG_TABLE_REVISION {
        match filled(s.schema_revision, uuid_field(payload), SchemaCodecError::DuplicateField) {
            Err(error) => Err(error),
            Ok(schema_revision) => Ok(TableState { schema_revision, ..s }),
        }
    } else if tag == TAG_TABLE_PRIMARY_INDEX {
        match filled(s.primary_index, uuid_field(payload), SchemaCodecError::DuplicateField) {
            Err(error) => Err(error),
            Ok(primary_index) => Ok(TableState { primary_index, ..s }),
        }
    } else if tag == TAG_TABLE_MODE {
        match filled(s.mode, table_mode_field(payload), SchemaCodecError::DuplicateField) {
            Err(error) => Err(error),
            Ok(mode) => Ok(TableState { mode, ..s }),
        }
    } else if tag == TAG_TABLE_STORAGE {
        match filled(s.storage, table_storage_field(payload), SchemaCodecError::DuplicateField) {
            Err(error) => Err(error),
            Ok(storage) => Ok(TableState { storage, ..s }),
        }
    } else if tag == TAG_TABLE_COLUMN {
        match grown(s.columns, column_decoded(payload)) {
            Err(error) => Err(error),
            Ok(columns) => Ok(TableState { columns, ..s }),
        }
    } else if tag == TAG_TABLE_UNIQUE {
        match grown(s.unique_constraints, unique_constraint_decoded(payload)) {
            Err(error) => Err(error),
            Ok(unique_constraints) => Ok(TableState { unique_constraints, ..s }),
        }
    } else if tag == TAG_TABLE_INDEX {
        match grown(s.indexes, named_index_decoded(payload)) {
            Err(error) => Err(error),
            Ok(indexes) => Ok(TableState { indexes, ..s }),
        }
    } else if tag == TAG_TABLE_FOREIGN_KEY {
        match grown(s.foreign_keys, relationship_decoded(payload)) {
            Err(error) => Err(error),
            Ok(foreign_keys) => Ok(TableState { foreign_keys, ..s }),
        }
    } else if tag == TAG_TABLE_CHECK {
        match grown(s.checks, check_decoded(payload)) {
            Err(error) => Err(error),
            Ok(checks) => Ok(TableState { checks, ..s }),
        }
    } else {
        Ok(s)
    }
}

/// [`table_step`] as a value.
pub open spec fn table_steps() -> spec_fn(TableState, u8, Seq<u8>) -> Result<TableState, SchemaCodecError> {
    |s: TableState, tag: u8, payload: Seq<u8>| table_step(s, tag, payload)
}

/// A table that the fields describe.
pub open spec fn table_finish(s: TableState) -> Result<TableView, SchemaCodecError> {
    if s.mutation is None {
        Err(SchemaCodecError::MissingField(TAG_TABLE_MUTATION))
    } else if s.sql is None {
        Err(SchemaCodecError::MissingField(TAG_TABLE_SQL))
    } else if s.name is None {
        Err(SchemaCodecError::MissingField(TAG_TABLE_NAME))
    } else if s.table is None {
        Err(SchemaCodecError::MissingField(TAG_TABLE_ID))
    } else if s.schema_revision is None {
        Err(SchemaCodecError::MissingField(TAG_TABLE_REVISION))
    } else if s.primary_index is None {
        Err(SchemaCodecError::MissingField(TAG_TABLE_PRIMARY_INDEX))
    } else if s.mode is None {
        Err(SchemaCodecError::MissingField(TAG_TABLE_MODE))
    } else if s.storage is None {
        Err(SchemaCodecError::MissingField(TAG_TABLE_STORAGE))
    } else {
        let x = TableView {
            mutation: s.mutation->Some_0,
            sql: s.sql->Some_0,
            name: s.name->Some_0,
            table: s.table->Some_0,
            schema_revision: s.schema_revision->Some_0,
            primary_index: s.primary_index->Some_0,
            mode: s.mode->Some_0,
            storage: s.storage->Some_0,
            columns: s.columns,
            unique_constraints: s.unique_constraints,
            indexes: s.indexes,
            foreign_keys: s.foreign_keys,
            checks: s.checks,
        };
        match table_fault(x) {
            Some(error) => Err(error),
            None => Ok(x),
        }
    }
}

/// What decoding a frame gives.
#[verifier::opaque]
pub open spec fn table_decoded(b: Seq<u8>) -> Result<TableView, SchemaCodecError> {
    if b.len() == 0 || b[0] != TABLE_FRAME_VERSION {
        Err(SchemaCodecError::UnknownVersion)
    } else {
        match run_fields(table_start(), b.subrange(1, b.len() as int), table_steps(), SchemaCodecError::Truncated) {
            Err(error) => Err(error),
            Ok(s) => table_finish(s),
        }
    }
}

impl CreateTable {
    /// Decode one complete frame.
    pub fn decode(frame: &[u8]) -> (r: Result<CreateTable, SchemaCodecError>)
        ensures
            outcome(r) == table_decoded(frame@),
    {
        broadcast use lemma_views_push;
        reveal(table_decoded);
        let mut reader = Reader::new(frame);
        if reader.u8() != Some(TABLE_FRAME_VERSION) {
            return Err(SchemaCodecError::UnknownVersion);
        }
        let mut mutation: Option<MutationId> = None;
        let mut sql: Option<String> = None;
        let mut name: Option<SqlName> = None;
        let mut table: Option<TableId> = None;
        let mut schema_revision: Option<SchemaRevisionId> = None;
        let mut primary_index: Option<IndexId> = None;
        let mut mode: Option<TableMode> = None;
        let mut storage: Option<TableStorage> = None;
        let mut columns: Vec<Column> = Vec::new();
        let mut unique_constraints: Vec<UniqueConstraint> = Vec::new();
        let mut indexes: Vec<NamedIndex> = Vec::new();
        let mut foreign_keys: Vec<ForeignKeyDefinition> = Vec::new();
        let mut checks: Vec<CheckDefinition> = Vec::new();
        let ghost mut state = table_start();
        assert(views(columns@) =~= Seq::<ColumnView>::empty());
        assert(views(unique_constraints@) =~= Seq::<UniqueView>::empty());
        assert(views(indexes@) =~= Seq::<NamedIndexView>::empty());
        assert(views(foreign_keys@) =~= Seq::<RelationshipView>::empty());
        assert(views(checks@) =~= Seq::<CheckView>::empty());
        while !reader.is_empty()
            invariant
                state == (TableState {
                    mutation: view_of(mutation),
                    sql: view_of(sql),
                    name: view_of(name),
                    table: view_of(table),
                    schema_revision: view_of(schema_revision),
                    primary_index: view_of(primary_index),
                    mode: mode,
                    storage: storage,
                    columns: views(columns@),
                    unique_constraints: views(unique_constraints@),
                    indexes: views(indexes@),
                    foreign_keys: views(foreign_keys@),
                    checks: views(checks@),
                }),
                table_decoded(frame@) == (match run_fields(
                    state,
                    reader.remaining(),
                    table_steps(),
                    SchemaCodecError::Truncated,
                ) {
                    Err(error) => Err(error),
                    Ok(s) => table_finish(s),
                }),
            decreases reader.remaining().len(),
        {
            let (tag, payload) = match reader.field() {
                Ok(Some(field)) => field,
                _ => {
                    return Err(SchemaCodecError::Truncated);
                },
            };
            let ghost next = table_step(state, tag, payload@);
            assert(table_steps()(state, tag, payload@) == next);
            if tag == TAG_TABLE_MUTATION {
                match read_uuid(payload) {
                    Err(error) => {
                        return Err(error);
                    },
                    Ok(found) => {
                        if mutation.is_some() {
                            return Err(SchemaCodecError::DuplicateField);
                        }
                        mutation = Some(MutationId(found));
                    },
                }
            } else if tag == TAG_TABLE_SQL {
                match read_string(payload) {
                    Err(error) => {
                        return Err(error);
                    },
                    Ok(found) => {
                        if sql.is_some() {
                            return Err(SchemaCodecError::DuplicateField);
                        }
                        sql = Some(found);
                    },
                }
            } else if tag == TAG_TABLE_NAME {
                match read_name(payload) {
                    Err(error) => {
                        return Err(error);
                    },
                    Ok(found) => {
                        if name.is_some() {
                            return Err(SchemaCodecError::DuplicateField);
                        }
                        name = Some(found);
                    },
                }
            } else if tag == TAG_TABLE_ID {
                match read_uuid(payload) {
                    Err(error) => {
                        return Err(error);
                    },
                    Ok(found) => {
                        if table.is_some() {
                            return Err(SchemaCodecError::DuplicateField);
                        }
                        table = Some(TableId(found));
                    },
                }
            } else if tag == TAG_TABLE_REVISION {
                match read_uuid(payload) {
                    Err(error) => {
                        return Err(error);
                    },
                    Ok(found) => {
                        if schema_revision.is_some() {
                            return Err(SchemaCodecError::DuplicateField);
                        }
                        schema_revision = Some(SchemaRevisionId(found));
                    },
                }
            } else if tag == TAG_TABLE_PRIMARY_INDEX {
                match read_uuid(payload) {
                    Err(error) => {
                        return Err(error);
                    },
                    Ok(found) => {
                        if primary_index.is_some() {
                            return Err(SchemaCodecError::DuplicateField);
                        }
                        primary_index = Some(IndexId(found));
                    },
                }
            } else if tag == TAG_TABLE_MODE {
                match read_table_mode(payload) {
                    Err(error) => {
                        return Err(error);
                    },
                    Ok(found) => {
                        if mode.is_some() {
                            return Err(SchemaCodecError::DuplicateField);
                        }
                        mode = Some(found);
                    },
                }
            } else if tag == TAG_TABLE_STORAGE {
                match read_table_storage(payload) {
                    Err(error) => {
                        return Err(error);
                    },
                    Ok(found) => {
                        if storage.is_some() {
                            return Err(SchemaCodecError::DuplicateField);
                        }
                        storage = Some(found);
                    },
                }
            } else if tag == TAG_TABLE_COLUMN {
                match Column::decode(payload) {
                    Err(error) => {
                        return Err(error);
                    },
                    Ok(found) => {
                        columns.push(found);
                    },
                }
            } else if tag == TAG_TABLE_UNIQUE {
                match UniqueConstraint::decode(payload) {
                    Err(error) => {
                        return Err(error);
                    },
                    Ok(found) => {
                        unique_constraints.push(found);
                    },
                }
            } else if tag == TAG_TABLE_INDEX {
                match NamedIndex::decode(payload) {
                    Err(error) => {
                        return Err(error);
                    },
                    Ok(found) => {
                        indexes.push(found);
                    },
                }
            } else if tag == TAG_TABLE_FOREIGN_KEY {
                match ForeignKeyDefinition::decode(payload) {
                    Err(error) => {
                        return Err(error);
                    },
                    Ok(found) => {
                        foreign_keys.push(found);
                    },
                }
            } else if tag == TAG_TABLE_CHECK {
                match CheckDefinition::decode(payload) {
                    Err(error) => {
                        return Err(error);
                    },
                    Ok(found) => {
                        checks.push(found);
                    },
                }
            }
            proof {
                state = next->Ok_0;
            }
        }
        let mutation = match mutation {
            Some(found) => found,
            None => {
                return Err(SchemaCodecError::MissingField(TAG_TABLE_MUTATION));
            },
        };
        let sql = match sql {
            Some(found) => found,
            None => {
                return Err(SchemaCodecError::MissingField(TAG_TABLE_SQL));
            },
        };
        let name = match name {
            Some(found) => found,
            None => {
                return Err(SchemaCodecError::MissingField(TAG_TABLE_NAME));
            },
        };
        let table = match table {
            Some(found) => found,
            None => {
                return Err(SchemaCodecError::MissingField(TAG_TABLE_ID));
            },
        };
        let schema_revision = match schema_revision {
            Some(found) => found,
            None => {
                return Err(SchemaCodecError::MissingField(TAG_TABLE_REVISION));
            },
        };
        let primary_index = match primary_index {
            Some(found) => found,
            None => {
                return Err(SchemaCodecError::MissingField(TAG_TABLE_PRIMARY_INDEX));
            },
        };
        let mode = match mode {
            Some(found) => found,
            None => {
                return Err(SchemaCodecError::MissingField(TAG_TABLE_MODE));
            },
        };
        let storage = match storage {
            Some(found) => found,
            None => {
                return Err(SchemaCodecError::MissingField(TAG_TABLE_STORAGE));
            },
        };
        let r = CreateTable { mutation, sql, name, table, schema_revision, primary_index, mode, storage, columns, unique_constraints, indexes, foreign_keys, checks };
        if let Err(error) = r.validate_ir() {
            return Err(error);
        }
        assert(r@ == table_finish(state)->Ok_0);
        Ok(r)
    }
}

/// Whether a value is one that decoding can give.
pub open spec fn table_valid(x: TableView) -> bool {
    &&& random_uuid(x.mutation)
    &&& random_uuid(x.table)
    &&& random_uuid(x.schema_revision)
    &&& random_uuid(x.primary_index)
    &&& forall|i: int| 0 <= i < x.columns.len() ==> column_valid(#[trigger] x.columns[i])
    &&& forall|i: int| 0 <= i < x.unique_constraints.len() ==> unique_constraint_valid(#[trigger] x.unique_constraints[i])
    &&& forall|i: int| 0 <= i < x.indexes.len() ==> named_index_valid(#[trigger] x.indexes[i])
    &&& forall|i: int| 0 <= i < x.foreign_keys.len() ==> relationship_valid(#[trigger] x.foreign_keys[i])
    &&& forall|i: int| 0 <= i < x.checks.len() ==> check_valid(#[trigger] x.checks[i])
    &&& table_fault(x) is None
}

/// Decoding the frame of a table gives it back.
pub proof fn table_roundtrip(x: TableView)
    requires
        table_valid(x),
        table_fits(x),
    ensures
        table_decoded(table_frame(x)) == Ok::<TableView, SchemaCodecError>(x),
{
    reveal(table_decoded);
    reveal(table_frame);
    let none = Seq::<(u8, Seq<u8>)>::empty();
    let f1 = none.push((TAG_TABLE_MUTATION, x.mutation));
    let f2 = f1.push((TAG_TABLE_SQL, encode_utf8(x.sql)));
    let f3 = f2.push((TAG_TABLE_NAME, encode_utf8(x.name)));
    let f4 = f3.push((TAG_TABLE_ID, x.table));
    let f5 = f4.push((TAG_TABLE_REVISION, x.schema_revision));
    let f6 = f5.push((TAG_TABLE_PRIMARY_INDEX, x.primary_index));
    let f7 = f6.push((TAG_TABLE_MODE, seq![x.mode.code()]));
    let f8 = f7.push((TAG_TABLE_STORAGE, seq![x.storage.code()]));
    let f9 = f8 + column_list(TAG_TABLE_COLUMN, x.columns);
    let f10 = f9 + unique_constraint_list(TAG_TABLE_UNIQUE, x.unique_constraints);
    let f11 = f10 + named_index_list(TAG_TABLE_INDEX, x.indexes);
    let f12 = f11 + relationship_list(TAG_TABLE_FOREIGN_KEY, x.foreign_keys);
    let f13 = f12 + check_list(TAG_TABLE_CHECK, x.checks);
    let step = table_steps();
    let s0 = table_start();
    assert(fields_fit(none));
    let s1 = TableState { mutation: Some(x.mutation), ..s0 };
    assert(fold_fields(s0, f1, step) == Ok::<TableState, SchemaCodecError>(s1) && fields_fit(f1)) by {
        lemma_fold_push(s0, none, TAG_TABLE_MUTATION, x.mutation, step);
        lemma_fit_push(none, TAG_TABLE_MUTATION, x.mutation);
        assert(step(s0, TAG_TABLE_MUTATION, x.mutation) == Ok::<TableState, SchemaCodecError>(s1));
    }
    let s2 = TableState { sql: Some(x.sql), ..s1 };
    assert(fold_fields(s0, f2, step) == Ok::<TableState, SchemaCodecError>(s2) && fields_fit(f2)) by {
        lemma_text_field(x.sql);
        lemma_fold_push(s0, f1, TAG_TABLE_SQL, encode_utf8(x.sql), step);
        lemma_fit_push(f1, TAG_TABLE_SQL, encode_utf8(x.sql));
        assert(step(s1, TAG_TABLE_SQL, encode_utf8(x.sql)) == Ok::<TableState, SchemaCodecError>(s2));
    }
    let s3 = TableState { name: Some(x.name), ..s2 };
    assert(fold_fields(s0, f3, step) == Ok::<TableState, SchemaCodecError>(s3) && fields_fit(f3)) by {
        lemma_text_field(x.name);
        lemma_fold_push(s0, f2, TAG_TABLE_NAME, encode_utf8(x.name), step);
        lemma_fit_push(f2, TAG_TABLE_NAME, encode_utf8(x.name));
        assert(step(s2, TAG_TABLE_NAME, encode_utf8(x.name)) == Ok::<TableState, SchemaCodecError>(s3));
    }
    let s4 = TableState { table: Some(x.table), ..s3 };
    assert(fold_fields(s0, f4, step) == Ok::<TableState, SchemaCodecError>(s4) && fields_fit(f4)) by {
        lemma_fold_push(s0, f3, TAG_TABLE_ID, x.table, step);
        lemma_fit_push(f3, TAG_TABLE_ID, x.table);
        assert(step(s3, TAG_TABLE_ID, x.table) == Ok::<TableState, SchemaCodecError>(s4));
    }
    let s5 = TableState { schema_revision: Some(x.schema_revision), ..s4 };
    assert(fold_fields(s0, f5, step) == Ok::<TableState, SchemaCodecError>(s5) && fields_fit(f5)) by {
        lemma_fold_push(s0, f4, TAG_TABLE_REVISION, x.schema_revision, step);
        lemma_fit_push(f4, TAG_TABLE_REVISION, x.schema_revision);
        assert(step(s4, TAG_TABLE_REVISION, x.schema_revision) == Ok::<TableState, SchemaCodecError>(s5));
    }
    let s6 = TableState { primary_index: Some(x.primary_index), ..s5 };
    assert(fold_fields(s0, f6, step) == Ok::<TableState, SchemaCodecError>(s6) && fields_fit(f6)) by {
        lemma_fold_push(s0, f5, TAG_TABLE_PRIMARY_INDEX, x.primary_index, step);
        lemma_fit_push(f5, TAG_TABLE_PRIMARY_INDEX, x.primary_index);
        assert(step(s5, TAG_TABLE_PRIMARY_INDEX, x.primary_index) == Ok::<TableState, SchemaCodecError>(s6));
    }
    let s7 = TableState { mode: Some(x.mode), ..s6 };
    assert(fold_fields(s0, f7, step) == Ok::<TableState, SchemaCodecError>(s7) && fields_fit(f7)) by {
        lemma_fold_push(s0, f6, TAG_TABLE_MODE, seq![x.mode.code()], step);
        lemma_fit_push(f6, TAG_TABLE_MODE, seq![x.mode.code()]);
        assert(step(s6, TAG_TABLE_MODE, seq![x.mode.code()]) == Ok::<TableState, SchemaCodecError>(s7));
    }
    let s8 = TableState { storage: Some(x.storage), ..s7 };
    assert(fold_fields(s0, f8, step) == Ok::<TableState, SchemaCodecError>(s8) && fields_fit(f8)) by {
        lemma_fold_push(s0, f7, TAG_TABLE_STORAGE, seq![x.storage.code()], step);
        lemma_fit_push(f7, TAG_TABLE_STORAGE, seq![x.storage.code()]);
        assert(step(s7, TAG_TABLE_STORAGE, seq![x.storage.code()]) == Ok::<TableState, SchemaCodecError>(s8));
    }
    let s9 = TableState { columns: x.columns, ..s8 };
    assert(fold_fields(s0, f9, step) == Ok::<TableState, SchemaCodecError>(s9) && fields_fit(f9)) by {
        let states = |i: int| TableState { columns: x.columns.subrange(0, i), ..s8 };
        let fields = column_list(TAG_TABLE_COLUMN, x.columns);
        assert forall|i: int| 0 <= i < fields.len() implies #[trigger] step(
            states(i),
            fields[i].0,
            fields[i].1,
        ) == Ok::<TableState, SchemaCodecError>(states(i + 1)) by {
            column_roundtrip(x.columns[i]);
            assert(x.columns.subrange(0, i).push(x.columns[i]) =~= x.columns.subrange(0, i + 1));
        }
        assert(states(0) =~= s8);
        lemma_fold_list(s0, f8, fields, states, step);
        assert(states(fields.len() as int) =~= s9);
        assert forall|i: int| 0 <= i < fields.len() implies fits((#[trigger] fields[i]).1) by {
            assert(column_valid(x.columns[i]));
            let item = x.columns[i];
        }
        lemma_fit_concat(f8, fields);
    }
    let s10 = TableState { unique_constraints: x.unique_constraints, ..s9 };
    assert(fold_fields(s0, f10, step) == Ok::<TableState, SchemaCodecError>(s10) && fields_fit(f10)) by {
        let states = |i: int| TableState { unique_constraints: x.unique_constraints.subrange(0, i), ..s9 };
        let fields = unique_constraint_list(TAG_TABLE_UNIQUE, x.unique_constraints);
        assert forall|i: int| 0 <= i < fields.len() implies #[trigger] step(
            states(i),
            fields[i].0,
            fields[i].1,
        ) == Ok::<TableState, SchemaCodecError>(states(i + 1)) by {
            unique_constraint_roundtrip(x.unique_constraints[i]);
            assert(x.unique_constraints.subrange(0, i).push(x.unique_constraints[i]) =~= x.unique_constraints.subrange(0, i + 1));
        }
        assert(states(0) =~= s9);
        lemma_fold_list(s0, f9, fields, states, step);
        assert(states(fields.len() as int) =~= s10);
        assert forall|i: int| 0 <= i < fields.len() implies fits((#[trigger] fields[i]).1) by {
            assert(unique_constraint_valid(x.unique_constraints[i]));
            let item = x.unique_constraints[i];
        }
        lemma_fit_concat(f9, fields);
    }
    let s11 = TableState { indexes: x.indexes, ..s10 };
    assert(fold_fields(s0, f11, step) == Ok::<TableState, SchemaCodecError>(s11) && fields_fit(f11)) by {
        let states = |i: int| TableState { indexes: x.indexes.subrange(0, i), ..s10 };
        let fields = named_index_list(TAG_TABLE_INDEX, x.indexes);
        assert forall|i: int| 0 <= i < fields.len() implies #[trigger] step(
            states(i),
            fields[i].0,
            fields[i].1,
        ) == Ok::<TableState, SchemaCodecError>(states(i + 1)) by {
            named_index_roundtrip(x.indexes[i]);
            assert(x.indexes.subrange(0, i).push(x.indexes[i]) =~= x.indexes.subrange(0, i + 1));
        }
        assert(states(0) =~= s10);
        lemma_fold_list(s0, f10, fields, states, step);
        assert(states(fields.len() as int) =~= s11);
        assert forall|i: int| 0 <= i < fields.len() implies fits((#[trigger] fields[i]).1) by {
            assert(named_index_valid(x.indexes[i]));
            let item = x.indexes[i];
        }
        lemma_fit_concat(f10, fields);
    }
    let s12 = TableState { foreign_keys: x.foreign_keys, ..s11 };
    assert(fold_fields(s0, f12, step) == Ok::<TableState, SchemaCodecError>(s12) && fields_fit(f12)) by {
        let states = |i: int| TableState { foreign_keys: x.foreign_keys.subrange(0, i), ..s11 };
        let fields = relationship_list(TAG_TABLE_FOREIGN_KEY, x.foreign_keys);
        assert forall|i: int| 0 <= i < fields.len() implies #[trigger] step(
            states(i),
            fields[i].0,
            fields[i].1,
        ) == Ok::<TableState, SchemaCodecError>(states(i + 1)) by {
            relationship_roundtrip(x.foreign_keys[i]);
            assert(x.foreign_keys.subrange(0, i).push(x.foreign_keys[i]) =~= x.foreign_keys.subrange(0, i + 1));
        }
        assert(states(0) =~= s11);
        lemma_fold_list(s0, f11, fields, states, step);
        assert(states(fields.len() as int) =~= s12);
        assert forall|i: int| 0 <= i < fields.len() implies fits((#[trigger] fields[i]).1) by {
            assert(relationship_valid(x.foreign_keys[i]));
            let item = x.foreign_keys[i];
        }
        lemma_fit_concat(f11, fields);
    }
    let s13 = TableState { checks: x.checks, ..s12 };
    assert(fold_fields(s0, f13, step) == Ok::<TableState, SchemaCodecError>(s13) && fields_fit(f13)) by {
        let states = |i: int| TableState { checks: x.checks.subrange(0, i), ..s12 };
        let fields = check_list(TAG_TABLE_CHECK, x.checks);
        assert forall|i: int| 0 <= i < fields.len() implies #[trigger] step(
            states(i),
            fields[i].0,
            fields[i].1,
        ) == Ok::<TableState, SchemaCodecError>(states(i + 1)) by {
            check_roundtrip(x.checks[i]);
            assert(x.checks.subrange(0, i).push(x.checks[i]) =~= x.checks.subrange(0, i + 1));
        }
        assert(states(0) =~= s12);
        lemma_fold_list(s0, f12, fields, states, step);
        assert(states(fields.len() as int) =~= s13);
        assert forall|i: int| 0 <= i < fields.len() implies fits((#[trigger] fields[i]).1) by {
            assert(check_valid(x.checks[i]));
            let item = x.checks[i];
        }
        lemma_fit_concat(f12, fields);
    }
    lemma_run_fold(s0, f13, step, SchemaCodecError::Truncated);
    assert(f13 == table_fields(x));
    let b = table_frame(x);
    assert(b.subrange(1, b.len() as int) =~= fields_bytes(f13));
    assert(table_finish(s13) == Ok::<TableView, SchemaCodecError>(x));
}

/// The bytes that known fields of a table take.
pub open spec fn table_size(s: TableState) -> nat {
    let mutation: nat = match s.mutation {
        Some(value) => 5 + value.len(),
        None => 0,
    };
    let sql: nat = match s.sql {
        Some(value) => 5 + encode_utf8(value).len(),
        None => 0,
    };
    let name: nat = match s.name {
        Some(value) => 5 + encode_utf8(value).len(),
        None => 0,
    };
    let table: nat = match s.table {
        Some(value) => 5 + value.len(),
        None => 0,
    };
    let schema_revision: nat = match s.schema_revision {
        Some(value) => 5 + value.len(),
        None => 0,
    };
    let primary_index: nat = match s.primary_index {
        Some(value) => 5 + value.len(),
        None => 0,
    };
    let mode: nat = match s.mode {
        Some(value) => 5 + seq![value.code()].len(),
        None => 0,
    };
    let storage: nat = match s.storage {
        Some(value) => 5 + seq![value.code()].len(),
        None => 0,
    };
    let columns = fields_bytes(column_list(TAG_TABLE_COLUMN, s.columns)).len();
    let unique_constraints = fields_bytes(unique_constraint_list(TAG_TABLE_UNIQUE, s.unique_constraints)).len();
    let indexes = fields_bytes(named_index_list(TAG_TABLE_INDEX, s.indexes)).len();
    let foreign_keys = fields_bytes(relationship_list(TAG_TABLE_FOREIGN_KEY, s.foreign_keys)).len();
    let checks = fields_bytes(check_list(TAG_TABLE_CHECK, s.checks)).len();
    mutation + sql + name + table + schema_revision + primary_index + mode + storage + columns + unique_constraints + indexes + foreign_keys + checks
}

/// Whether known fields of a table are sound and can be written again.
pub open spec fn table_sound(s: TableState) -> bool {
    &&& (s.mutation matches Some(value) ==> random_uuid(value) && fits(value))
    &&& (s.sql matches Some(value) ==> fits(encode_utf8(value)))
    &&& (s.name matches Some(value) ==> fits(encode_utf8(value)))
    &&& (s.table matches Some(value) ==> random_uuid(value) && fits(value))
    &&& (s.schema_revision matches Some(value) ==> random_uuid(value) && fits(value))
    &&& (s.primary_index matches Some(value) ==> random_uuid(value) && fits(value))
    &&& (s.mode matches Some(value) ==> fits(seq![value.code()]))
    &&& (s.storage matches Some(value) ==> fits(seq![value.code()]))
    &&& forall|i: int| 0 <= i < s.columns.len() ==> column_valid(#[trigger] s.columns[i]) && fits(column_frame(s.columns[i])) && column_fits(s.columns[i])
    &&& forall|i: int| 0 <= i < s.unique_constraints.len() ==> unique_constraint_valid(#[trigger] s.unique_constraints[i]) && fits(unique_constraint_frame(s.unique_constraints[i])) && unique_constraint_fits(s.unique_constraints[i])
    &&& forall|i: int| 0 <= i < s.indexes.len() ==> named_index_valid(#[trigger] s.indexes[i]) && fits(named_index_frame(s.indexes[i])) && named_index_fits(s.indexes[i])
    &&& forall|i: int| 0 <= i < s.foreign_keys.len() ==> relationship_valid(#[trigger] s.foreign_keys[i]) && fits(relationship_frame(s.foreign_keys[i])) && relationship_fits(s.foreign_keys[i])
    &&& forall|i: int| 0 <= i < s.checks.len() ==> check_valid(#[trigger] s.checks[i]) && fits(check_frame(s.checks[i])) && check_fits(s.checks[i])
}

/// One field adds no more than its own bytes.
proof fn lemma_table_step(s: TableState, tag: u8, payload: Seq<u8>)
    requires
        table_sound(s),
        fits(payload),
    ensures
        table_step(s, tag, payload) matches Ok(next) ==> table_sound(next) && table_size(next) <= table_size(
            s,
        ) + 5 + payload.len(),
{
    if let Ok(next) = table_step(s, tag, payload) {
        if tag == TAG_TABLE_MUTATION {
        } else if tag == TAG_TABLE_SQL {
            lemma_text_shrinks(payload);
        } else if tag == TAG_TABLE_NAME {
            lemma_text_shrinks(payload);
        } else if tag == TAG_TABLE_ID {
        } else if tag == TAG_TABLE_REVISION {
        } else if tag == TAG_TABLE_PRIMARY_INDEX {
        } else if tag == TAG_TABLE_MODE {
        } else if tag == TAG_TABLE_STORAGE {
        } else if tag == TAG_TABLE_COLUMN {
            column_shrinks(payload);
            let found = column_decoded(payload)->Ok_0;
            assert(column_list(TAG_TABLE_COLUMN, s.columns.push(found)) =~= column_list(TAG_TABLE_COLUMN, s.columns).push(
                (TAG_TABLE_COLUMN, column_frame(found)),
            ));
            lemma_fields_len(column_list(TAG_TABLE_COLUMN, s.columns), TAG_TABLE_COLUMN, column_frame(found));
        } else if tag == TAG_TABLE_UNIQUE {
            unique_constraint_shrinks(payload);
            let found = unique_constraint_decoded(payload)->Ok_0;
            assert(unique_constraint_list(TAG_TABLE_UNIQUE, s.unique_constraints.push(found)) =~= unique_constraint_list(TAG_TABLE_UNIQUE, s.unique_constraints).push(
                (TAG_TABLE_UNIQUE, unique_constraint_frame(found)),
            ));
            lemma_fields_len(unique_constraint_list(TAG_TABLE_UNIQUE, s.unique_constraints), TAG_TABLE_UNIQUE, unique_constraint_frame(found));
        } else if tag == TAG_TABLE_INDEX {
            named_index_shrinks(payload);
            let found = named_index_decoded(payload)->Ok_0;
            assert(named_index_list(TAG_TABLE_INDEX, s.indexes.push(found)) =~= named_index_list(TAG_TABLE_INDEX, s.indexes).push(
                (TAG_TABLE_INDEX, named_index_frame(found)),
            ));
            lemma_fields_len(named_index_list(TAG_TABLE_INDEX, s.indexes), TAG_TABLE_INDEX, named_index_frame(found));
        } else if tag == TAG_TABLE_FOREIGN_KEY {
            relationship_shrinks(payload);
            let found = relationship_decoded(payload)->Ok_0;
            assert(relationship_list(TAG_TABLE_FOREIGN_KEY, s.foreign_keys.push(found)) =~= relationship_list(TAG_TABLE_FOREIGN_KEY, s.foreign_keys).push(
                (TAG_TABLE_FOREIGN_KEY, relationship_frame(found)),
            ));
            lemma_fields_len(relationship_list(TAG_TABLE_FOREIGN_KEY, s.foreign_keys), TAG_TABLE_FOREIGN_KEY, relationship_frame(found));
        } else if tag == TAG_TABLE_CHECK {
            check_shrinks(payload);
            let found = check_decoded(payload)->Ok_0;
            assert(check_list(TAG_TABLE_CHECK, s.checks.push(found)) =~= check_list(TAG_TABLE_CHECK, s.checks).push(
                (TAG_TABLE_CHECK, check_frame(found)),
            ));
            lemma_fields_len(check_list(TAG_TABLE_CHECK, s.checks), TAG_TABLE_CHECK, check_frame(found));
        }
    }
}

/// What decoding gives is sound and takes no more bytes than it was read from.
pub proof fn table_shrinks(b: Seq<u8>)
    ensures
        table_decoded(b) matches Ok(x) ==> table_valid(x) && table_fits(x) && table_frame(x).len() <= b.len(),
{
    reveal(table_decoded);
    reveal(table_frame);
    if let Ok(x) = table_decoded(b) {
        let body = b.subrange(1, b.len() as int);
        let good = |s: TableState| table_sound(s);
        let size = |s: TableState| table_size(s);
        let step = table_steps();
        let s0 = table_start();
        let end = run_fields(s0, body, step, SchemaCodecError::Truncated)->Ok_0;
        assert forall|s: TableState, tag: u8, payload: Seq<u8>|
            good(s) && fits(payload) && (#[trigger] step(s, tag, payload)) is Ok implies good(
            step(s, tag, payload)->Ok_0,
        ) && size(step(s, tag, payload)->Ok_0) <= size(s) + 5 + payload.len() by {
            lemma_table_step(s, tag, payload);
        }
        lemma_run_bounded(s0, body, step, good, size, SchemaCodecError::Truncated);
        assert(table_sound(end));
        let none = Seq::<(u8, Seq<u8>)>::empty();
        assert(fields_bytes(none).len() == 0);
        let f1 = none.push((TAG_TABLE_MUTATION, x.mutation));
        lemma_fields_len(none, TAG_TABLE_MUTATION, x.mutation);
        let f2 = f1.push((TAG_TABLE_SQL, encode_utf8(x.sql)));
        lemma_fields_len(f1, TAG_TABLE_SQL, encode_utf8(x.sql));
        let f3 = f2.push((TAG_TABLE_NAME, encode_utf8(x.name)));
        lemma_fields_len(f2, TAG_TABLE_NAME, encode_utf8(x.name));
        let f4 = f3.push((TAG_TABLE_ID, x.table));
        lemma_fields_len(f3, TAG_TABLE_ID, x.table);
        let f5 = f4.push((TAG_TABLE_REVISION, x.schema_revision));
        lemma_fields_len(f4, TAG_TABLE_REVISION, x.schema_revision);
        let f6 = f5.push((TAG_TABLE_PRIMARY_INDEX, x.primary_index));
        lemma_fields_len(f5, TAG_TABLE_PRIMARY_INDEX, x.primary_index);
        let f7 = f6.push((TAG_TABLE_MODE, seq![x.mode.code()]));
        lemma_fields_len(f6, TAG_TABLE_MODE, seq![x.mode.code()]);
        let f8 = f7.push((TAG_TABLE_STORAGE, seq![x.storage.code()]));
        lemma_fields_len(f7, TAG_TABLE_STORAGE, seq![x.storage.code()]);
        let f9 = f8 + column_list(TAG_TABLE_COLUMN, x.columns);
        lemma_fields_concat(f8, column_list(TAG_TABLE_COLUMN, x.columns));
        let f10 = f9 + unique_constraint_list(TAG_TABLE_UNIQUE, x.unique_constraints);
        lemma_fields_concat(f9, unique_constraint_list(TAG_TABLE_UNIQUE, x.unique_constraints));
        let f11 = f10 + named_index_list(TAG_TABLE_INDEX, x.indexes);
        lemma_fields_concat(f10, named_index_list(TAG_TABLE_INDEX, x.indexes));
        let f12 = f11 + relationship_list(TAG_TABLE_FOREIGN_KEY, x.foreign_keys);
        lemma_fields_concat(f11, relationship_list(TAG_TABLE_FOREIGN_KEY, x.foreign_keys));
        let f13 = f12 + check_list(TAG_TABLE_CHECK, x.checks);
        lemma_fields_concat(f12, check_list(TAG_TABLE_CHECK, x.checks));
        assert(column_list(TAG_TABLE_COLUMN, Seq::<ColumnView>::empty()) =~= none);
        assert(unique_constraint_list(TAG_TABLE_UNIQUE, Seq::<UniqueView>::empty()) =~= none);
        assert(named_index_list(TAG_TABLE_INDEX, Seq::<NamedIndexView>::empty()) =~= none);
        assert(relationship_list(TAG_TABLE_FOREIGN_KEY, Seq::<RelationshipView>::empty()) =~= none);
        assert(check_list(TAG_TABLE_CHECK, Seq::<CheckView>::empty()) =~= none);
        assert(f13 == table_fields(x));
        assert(table_size(s0) == 0);
        assert(fields_bytes(f13).len() == table_size(end));
    }
}

} // verus!
