//! The frame of an alteration.

use super::codec::{
    byte_field, lemma_text_field, lemma_text_shrinks, read_byte, read_name, read_schema,
    read_string, read_uuid, same_optional_create_table, schema_field, text_field, uuid_field,
};
use super::error::AlterTableCodecError;
use crate::bytes::{
    copy_bytes, field_bytes, fields_bytes, fields_fit, fits, fold_fields, lemma_fields_len,
    lemma_fit_push, lemma_fold_push, lemma_run_bounded, lemma_run_cut, lemma_run_fold,
    lemma_run_more, run_fields, FrameWriter, Reader,
};
use crate::codec::{filled, lemma_views_push, outcome, view_of};
use crate::identity::{random_uuid, ColumnId, MutationId, SchemaRevisionId, TableId};
use crate::logical::schema::codec::{one_byte, same_optional_column_id, same_optional_sql_name};
use crate::logical::schema::definition::{table_frame, CreateTable, TableView};
use crate::logical::schema::part::{
    encode_part, part_fits, part_roundtrip, part_shrinks, part_valid,
};
use crate::name::{same_text, SqlName};
use vstd::prelude::*;
use vstd::utf8::encode_utf8;

verus! {

/// Version of the frame of an alteration.
pub const ALTER_TABLE_VERSION: u8 = 5;

/// Marks the mutation.
pub const TAG_MUTATION_ID: u8 = 1;

/// Marks the statement.
pub const TAG_SQL: u8 = 2;

/// Marks the table.
pub const TAG_TABLE: u8 = 3;

/// Marks the name before.
pub const TAG_OLD_NAME: u8 = 4;

/// Marks the name after.
pub const TAG_NEW_NAME: u8 = 5;

/// Marks what the alteration does.
pub const TAG_ACTION: u8 = 6;

/// Marks the table's name in the statement.
pub const TAG_SOURCE_TABLE: u8 = 7;

/// Marks the column.
pub const TAG_COLUMN: u8 = 8;

/// Marks the definition before.
pub const TAG_BEFORE: u8 = 9;

/// Marks the definition after.
pub const TAG_AFTER: u8 = 10;

/// Marks the schema revision before.
pub const TAG_SCHEMA_REVISION: u8 = 12;

/// Marks the column before an added one.
pub const TAG_PREDECESSOR: u8 = 13;

/// Marks the rename of a table.
pub const RENAME_TABLE: u8 = 1;

/// Marks the rename of a column.
pub const RENAME_COLUMN: u8 = 2;

/// Marks an added column.
pub const ADD_COLUMN: u8 = 3;

/// Marks a dropped column.
pub const DROP_COLUMN: u8 = 4;

/// Why the fields of a frame do not describe its action, if they do not: the
/// first field that the action lacks, or a field that it does not have.
pub open spec fn shape_fault(
    action: u8,
    column: bool,
    predecessor: bool,
    old_name: bool,
    new_name: bool,
    before: bool,
    after: bool,
) -> Option<AlterTableCodecError> {
    let add = action == ADD_COLUMN;
    let drop = action == DROP_COLUMN;
    let wants_column = action != RENAME_TABLE;
    let wants_old = !add;
    let wants_new = !drop;
    let wants_schema = add || drop;
    if action < RENAME_TABLE || action > DROP_COLUMN {
        Some(AlterTableCodecError::InvalidAction)
    } else if wants_column && !column {
        Some(AlterTableCodecError::MissingField(TAG_COLUMN))
    } else if add && !predecessor {
        Some(AlterTableCodecError::MissingField(TAG_PREDECESSOR))
    } else if wants_old && !old_name {
        Some(AlterTableCodecError::MissingField(TAG_OLD_NAME))
    } else if wants_new && !new_name {
        Some(AlterTableCodecError::MissingField(TAG_NEW_NAME))
    } else if wants_schema && !before {
        Some(AlterTableCodecError::MissingField(TAG_BEFORE))
    } else if wants_schema && !after {
        Some(AlterTableCodecError::MissingField(TAG_AFTER))
    } else if (column && !wants_column) || (predecessor && !add) || (before && !wants_schema) || (
    after && !wants_schema) || (old_name && !wants_old) || (new_name && !wants_new) {
        Some(AlterTableCodecError::InvalidAction)
    } else {
        None
    }
}

/// Why the fields of a frame do not describe its action, if they do not.
fn check_shape(
    action: u8,
    column: bool,
    predecessor: bool,
    old_name: bool,
    new_name: bool,
    before: bool,
    after: bool,
) -> (r: Option<AlterTableCodecError>)
    ensures
        r == shape_fault(action, column, predecessor, old_name, new_name, before, after),
{
    let add = action == ADD_COLUMN;
    let drop = action == DROP_COLUMN;
    let wants_column = action != RENAME_TABLE;
    let wants_old = !add;
    let wants_new = !drop;
    let wants_schema = add || drop;
    if action < RENAME_TABLE || action > DROP_COLUMN {
        return Some(AlterTableCodecError::InvalidAction);
    }
    if wants_column && !column {
        return Some(AlterTableCodecError::MissingField(TAG_COLUMN));
    }
    if add && !predecessor {
        return Some(AlterTableCodecError::MissingField(TAG_PREDECESSOR));
    }
    if wants_old && !old_name {
        return Some(AlterTableCodecError::MissingField(TAG_OLD_NAME));
    }
    if wants_new && !new_name {
        return Some(AlterTableCodecError::MissingField(TAG_NEW_NAME));
    }
    if wants_schema && !before {
        return Some(AlterTableCodecError::MissingField(TAG_BEFORE));
    }
    if wants_schema && !after {
        return Some(AlterTableCodecError::MissingField(TAG_AFTER));
    }
    if (column && !wants_column) || (predecessor && !add) || (before && !wants_schema) || (after
        && !wants_schema) || (old_name && !wants_old) || (new_name && !wants_new) {
        return Some(AlterTableCodecError::InvalidAction);
    }
    None
}

/// The fields of an alteration, those of every action together.
#[derive(Debug, PartialEq, Eq)]
pub struct AlterFrame {
    pub mutation_id: MutationId,
    pub sql: String,
    pub table: TableId,
    pub schema_revision: SchemaRevisionId,
    pub source_table: SqlName,
    pub action: u8,
    pub column: Option<ColumnId>,
    pub predecessor: Option<ColumnId>,
    pub old_name: Option<SqlName>,
    pub new_name: Option<SqlName>,
    pub before: Option<CreateTable>,
    pub after: Option<CreateTable>,
}

/// The fields of an alteration as a mathematical value.
#[verifier::ext_equal]
pub struct AlterFrameView {
    pub mutation_id: Seq<u8>,
    pub sql: Seq<char>,
    pub table: Seq<u8>,
    pub schema_revision: Seq<u8>,
    pub source_table: Seq<char>,
    pub action: u8,
    pub column: Option<Seq<u8>>,
    pub predecessor: Option<Seq<u8>>,
    pub old_name: Option<Seq<char>>,
    pub new_name: Option<Seq<char>>,
    pub before: Option<TableView>,
    pub after: Option<TableView>,
}

impl View for AlterFrame {
    type V = AlterFrameView;

    open spec fn view(&self) -> AlterFrameView {
        AlterFrameView {
            mutation_id: self.mutation_id@,
            sql: self.sql@,
            table: self.table@,
            schema_revision: self.schema_revision@,
            source_table: self.source_table@,
            action: self.action,
            column: view_of(self.column),
            predecessor: view_of(self.predecessor),
            old_name: view_of(self.old_name),
            new_name: view_of(self.new_name),
            before: view_of(self.before),
            after: view_of(self.after),
        }
    }
}

impl Clone for AlterFrame {
    fn clone(&self) -> (r: Self)
        ensures
            r@ == self@,
    {
        let column = match &self.column {
            Some(value) => Some(*value),
            None => None,
        };
        let predecessor = match &self.predecessor {
            Some(value) => Some(*value),
            None => None,
        };
        let old_name = match &self.old_name {
            Some(value) => Some(value.clone()),
            None => None,
        };
        let new_name = match &self.new_name {
            Some(value) => Some(value.clone()),
            None => None,
        };
        let before = match &self.before {
            Some(value) => Some(value.clone()),
            None => None,
        };
        let after = match &self.after {
            Some(value) => Some(value.clone()),
            None => None,
        };
        AlterFrame {
            mutation_id: self.mutation_id,
            sql: self.sql.clone(),
            table: self.table,
            schema_revision: self.schema_revision,
            source_table: self.source_table.clone(),
            action: self.action,
            column,
            predecessor,
            old_name,
            new_name,
            before,
            after,
        }
    }
}

impl AlterFrame {
    /// Whether two values are equal.
    pub fn same(&self, other: &AlterFrame) -> (r: bool)
        ensures
            r == (self@ == other@),
    {
        self.mutation_id.same(&other.mutation_id)
            && same_text(self.sql.as_str(), other.sql.as_str())
            && self.table.same(&other.table)
            && self.schema_revision.same(&other.schema_revision)
            && self.source_table.same(&other.source_table)
            && (self.action == other.action)
            && same_optional_column_id(&self.column, &other.column)
            && same_optional_column_id(&self.predecessor, &other.predecessor)
            && same_optional_sql_name(&self.old_name, &other.old_name)
            && same_optional_sql_name(&self.new_name, &other.new_name)
            && same_optional_create_table(&self.before, &other.before)
            && same_optional_create_table(&self.after, &other.after)
    }
}

/// The fields of the frame of an alteration.
pub open spec fn alter_frame_fields(x: AlterFrameView) -> Seq<(u8, Seq<u8>)> {
    let none = Seq::<(u8, Seq<u8>)>::empty();
    let f1 = none.push((TAG_MUTATION_ID, x.mutation_id));
    let f2 = f1.push((TAG_SQL, encode_utf8(x.sql)));
    let f3 = f2.push((TAG_TABLE, x.table));
    let f4 = f3.push((TAG_SCHEMA_REVISION, x.schema_revision));
    let f5 = f4.push((TAG_SOURCE_TABLE, encode_utf8(x.source_table)));
    let f6 = f5.push((TAG_ACTION, seq![x.action]));
    let f7 = match x.column {
        Some(value) => f6.push((TAG_COLUMN, value)),
        None => f6,
    };
    let f8 = match x.predecessor {
        Some(value) => f7.push((TAG_PREDECESSOR, value)),
        None => f7,
    };
    let f9 = match x.old_name {
        Some(value) => f8.push((TAG_OLD_NAME, encode_utf8(value))),
        None => f8,
    };
    let f10 = match x.new_name {
        Some(value) => f9.push((TAG_NEW_NAME, encode_utf8(value))),
        None => f9,
    };
    let f11 = match x.before {
        Some(value) => f10.push((TAG_BEFORE, table_frame(value))),
        None => f10,
    };
    let f12 = match x.after {
        Some(value) => f11.push((TAG_AFTER, table_frame(value))),
        None => f11,
    };
    f12
}

/// The frame of an alteration.
#[verifier::opaque]
pub open spec fn alter_frame_frame(x: AlterFrameView) -> Seq<u8> {
    seq![ALTER_TABLE_VERSION] + fields_bytes(alter_frame_fields(x))
}

/// Whether every field of the frame has a length that a `u32` holds.
pub open spec fn alter_frame_fits(x: AlterFrameView) -> bool {
    &&& fits(encode_utf8(x.sql))
    &&& fits(encode_utf8(x.source_table))
    &&& (x.old_name matches Some(value) ==> fits(encode_utf8(value)))
    &&& (x.new_name matches Some(value) ==> fits(encode_utf8(value)))
    &&& (x.before matches Some(value) ==> part_fits(value) && fits(table_frame(value)))
    &&& (x.after matches Some(value) ==> part_fits(value) && fits(table_frame(value)))
}

impl AlterFrame {
    /// Encode the frame.
    pub fn encode(&self) -> (r: Vec<u8>)
        requires
            alter_frame_fits(self@),
        ensures
            r@ == alter_frame_frame(self@),
    {
        let w = FrameWriter::versioned(ALTER_TABLE_VERSION);
        let mutation_id = copy_bytes(&self.mutation_id.as_bytes());
        let w = w.field(TAG_MUTATION_ID, mutation_id.as_slice());
        let sql = copy_bytes(self.sql.as_str().as_bytes());
        let w = w.field(TAG_SQL, sql.as_slice());
        let table = copy_bytes(&self.table.as_bytes());
        let w = w.field(TAG_TABLE, table.as_slice());
        let schema_revision = copy_bytes(&self.schema_revision.as_bytes());
        let w = w.field(TAG_SCHEMA_REVISION, schema_revision.as_slice());
        let source_table = copy_bytes(self.source_table.value().as_bytes());
        let w = w.field(TAG_SOURCE_TABLE, source_table.as_slice());
        let action = one_byte(self.action);
        let w = w.field(TAG_ACTION, action.as_slice());
        let w = match &self.column {
            Some(value) => {
                let column = copy_bytes(&value.as_bytes());
                w.field(TAG_COLUMN, column.as_slice())
            },
            None => w,
        };
        let w = match &self.predecessor {
            Some(value) => {
                let predecessor = copy_bytes(&value.as_bytes());
                w.field(TAG_PREDECESSOR, predecessor.as_slice())
            },
            None => w,
        };
        let w = match &self.old_name {
            Some(value) => {
                let old_name = copy_bytes(value.value().as_bytes());
                w.field(TAG_OLD_NAME, old_name.as_slice())
            },
            None => w,
        };
        let w = match &self.new_name {
            Some(value) => {
                let new_name = copy_bytes(value.value().as_bytes());
                w.field(TAG_NEW_NAME, new_name.as_slice())
            },
            None => w,
        };
        let w = match &self.before {
            Some(value) => {
                let before = encode_part(value);
                w.field(TAG_BEFORE, before.as_slice())
            },
            None => w,
        };
        let w = match &self.after {
            Some(value) => {
                let after = encode_part(value);
                w.field(TAG_AFTER, after.as_slice())
            },
            None => w,
        };
        assert(w.fields() =~= alter_frame_fields(self@));
        reveal(alter_frame_frame);
        w.finish()
    }
}

/// What is known of an alteration after some of its fields.
#[verifier::ext_equal]
pub struct AlterFrameState {
    pub mutation_id: Option<Seq<u8>>,
    pub sql: Option<Seq<char>>,
    pub table: Option<Seq<u8>>,
    pub schema_revision: Option<Seq<u8>>,
    pub source_table: Option<Seq<char>>,
    pub action: Option<u8>,
    pub column: Option<Seq<u8>>,
    pub predecessor: Option<Seq<u8>>,
    pub old_name: Option<Seq<char>>,
    pub new_name: Option<Seq<char>>,
    pub before: Option<TableView>,
    pub after: Option<TableView>,
}

/// Nothing is known before the first field.
pub open spec fn alter_frame_start() -> AlterFrameState {
    AlterFrameState {
        mutation_id: None,
        sql: None,
        table: None,
        schema_revision: None,
        source_table: None,
        action: None,
        column: None,
        predecessor: None,
        old_name: None,
        new_name: None,
        before: None,
        after: None,
    }
}

/// What one field adds.
pub open spec fn alter_frame_step(s: AlterFrameState, tag: u8, payload: Seq<u8>) -> Result<AlterFrameState, AlterTableCodecError> {
    if tag == TAG_MUTATION_ID {
        match filled(s.mutation_id, uuid_field(payload), AlterTableCodecError::DuplicateField) {
            Err(error) => Err(error),
            Ok(mutation_id) => Ok(AlterFrameState { mutation_id, ..s }),
        }
    } else if tag == TAG_SQL {
        match filled(s.sql, text_field(payload), AlterTableCodecError::DuplicateField) {
            Err(error) => Err(error),
            Ok(sql) => Ok(AlterFrameState { sql, ..s }),
        }
    } else if tag == TAG_TABLE {
        match filled(s.table, uuid_field(payload), AlterTableCodecError::DuplicateField) {
            Err(error) => Err(error),
            Ok(table) => Ok(AlterFrameState { table, ..s }),
        }
    } else if tag == TAG_SCHEMA_REVISION {
        match filled(s.schema_revision, uuid_field(payload), AlterTableCodecError::DuplicateField) {
            Err(error) => Err(error),
            Ok(schema_revision) => Ok(AlterFrameState { schema_revision, ..s }),
        }
    } else if tag == TAG_SOURCE_TABLE {
        match filled(s.source_table, text_field(payload), AlterTableCodecError::DuplicateField) {
            Err(error) => Err(error),
            Ok(source_table) => Ok(AlterFrameState { source_table, ..s }),
        }
    } else if tag == TAG_ACTION {
        match filled(s.action, byte_field(payload), AlterTableCodecError::DuplicateField) {
            Err(error) => Err(error),
            Ok(action) => Ok(AlterFrameState { action, ..s }),
        }
    } else if tag == TAG_COLUMN {
        match filled(s.column, uuid_field(payload), AlterTableCodecError::DuplicateField) {
            Err(error) => Err(error),
            Ok(column) => Ok(AlterFrameState { column, ..s }),
        }
    } else if tag == TAG_PREDECESSOR {
        match filled(s.predecessor, uuid_field(payload), AlterTableCodecError::DuplicateField) {
            Err(error) => Err(error),
            Ok(predecessor) => Ok(AlterFrameState { predecessor, ..s }),
        }
    } else if tag == TAG_OLD_NAME {
        match filled(s.old_name, text_field(payload), AlterTableCodecError::DuplicateField) {
            Err(error) => Err(error),
            Ok(old_name) => Ok(AlterFrameState { old_name, ..s }),
        }
    } else if tag == TAG_NEW_NAME {
        match filled(s.new_name, text_field(payload), AlterTableCodecError::DuplicateField) {
            Err(error) => Err(error),
            Ok(new_name) => Ok(AlterFrameState { new_name, ..s }),
        }
    } else if tag == TAG_BEFORE {
        match filled(s.before, schema_field(payload), AlterTableCodecError::DuplicateField) {
            Err(error) => Err(error),
            Ok(before) => Ok(AlterFrameState { before, ..s }),
        }
    } else if tag == TAG_AFTER {
        match filled(s.after, schema_field(payload), AlterTableCodecError::DuplicateField) {
            Err(error) => Err(error),
            Ok(after) => Ok(AlterFrameState { after, ..s }),
        }
    } else {
        Ok(s)
    }
}

/// [`alter_frame_step`] as a value.
pub open spec fn alter_frame_steps() -> spec_fn(AlterFrameState, u8, Seq<u8>) -> Result<AlterFrameState, AlterTableCodecError> {
    |s: AlterFrameState, tag: u8, payload: Seq<u8>| alter_frame_step(s, tag, payload)
}

/// The fields of an alteration that the fields describe.
pub open spec fn alter_frame_finish(s: AlterFrameState) -> Result<AlterFrameView, AlterTableCodecError> {
    if s.action is None {
        Err(AlterTableCodecError::MissingField(TAG_ACTION))
    } else if let Some(error) = shape_fault(s.action->Some_0, s.column is Some, s.predecessor is Some, s.old_name is Some, s.new_name is Some, s.before is Some, s.after is Some) {
        Err(error)
    } else if s.mutation_id is None {
        Err(AlterTableCodecError::MissingField(TAG_MUTATION_ID))
    } else if s.sql is None {
        Err(AlterTableCodecError::MissingField(TAG_SQL))
    } else if s.table is None {
        Err(AlterTableCodecError::MissingField(TAG_TABLE))
    } else if s.schema_revision is None {
        Err(AlterTableCodecError::MissingField(TAG_SCHEMA_REVISION))
    } else if s.source_table is None {
        Err(AlterTableCodecError::MissingField(TAG_SOURCE_TABLE))
    } else {
        Ok(AlterFrameView {
            mutation_id: s.mutation_id->Some_0,
            sql: s.sql->Some_0,
            table: s.table->Some_0,
            schema_revision: s.schema_revision->Some_0,
            source_table: s.source_table->Some_0,
            action: s.action->Some_0,
            column: s.column,
            predecessor: s.predecessor,
            old_name: s.old_name,
            new_name: s.new_name,
            before: s.before,
            after: s.after,
        })
    }
}

/// What decoding a frame gives.
#[verifier::opaque]
pub open spec fn alter_frame_decoded(b: Seq<u8>) -> Result<AlterFrameView, AlterTableCodecError> {
    if b.len() == 0 || b[0] != ALTER_TABLE_VERSION {
        Err(AlterTableCodecError::UnknownVersion)
    } else {
        match run_fields(alter_frame_start(), b.subrange(1, b.len() as int), alter_frame_steps(), AlterTableCodecError::Truncated) {
            Err(error) => Err(error),
            Ok(s) => alter_frame_finish(s),
        }
    }
}

impl AlterFrame {
    /// Decode one complete frame.
    pub fn decode(frame: &[u8]) -> (r: Result<AlterFrame, AlterTableCodecError>)
        ensures
            outcome(r) == alter_frame_decoded(frame@),
    {
        broadcast use lemma_views_push;
        reveal(alter_frame_decoded);
        let mut reader = Reader::new(frame);
        if reader.u8() != Some(ALTER_TABLE_VERSION) {
            return Err(AlterTableCodecError::UnknownVersion);
        }
        let mut mutation_id: Option<MutationId> = None;
        let mut sql: Option<String> = None;
        let mut table: Option<TableId> = None;
        let mut schema_revision: Option<SchemaRevisionId> = None;
        let mut source_table: Option<SqlName> = None;
        let mut action: Option<u8> = None;
        let mut column: Option<ColumnId> = None;
        let mut predecessor: Option<ColumnId> = None;
        let mut old_name: Option<SqlName> = None;
        let mut new_name: Option<SqlName> = None;
        let mut before: Option<CreateTable> = None;
        let mut after: Option<CreateTable> = None;
        let ghost mut state = alter_frame_start();
        while !reader.is_empty()
            invariant
                state == (AlterFrameState {
                    mutation_id: view_of(mutation_id),
                    sql: view_of(sql),
                    table: view_of(table),
                    schema_revision: view_of(schema_revision),
                    source_table: view_of(source_table),
                    action: action,
                    column: view_of(column),
                    predecessor: view_of(predecessor),
                    old_name: view_of(old_name),
                    new_name: view_of(new_name),
                    before: view_of(before),
                    after: view_of(after),
                }),
                alter_frame_decoded(frame@) == (match run_fields(
                    state,
                    reader.remaining(),
                    alter_frame_steps(),
                    AlterTableCodecError::Truncated,
                ) {
                    Err(error) => Err(error),
                    Ok(s) => alter_frame_finish(s),
                }),
            decreases reader.remaining().len(),
        {
            let (tag, payload) = match reader.field() {
                Ok(Some(field)) => field,
                _ => {
                    return Err(AlterTableCodecError::Truncated);
                },
            };
            let ghost next = alter_frame_step(state, tag, payload@);
            assert(alter_frame_steps()(state, tag, payload@) == next);
            if tag == TAG_MUTATION_ID {
                match read_uuid(payload) {
                    Err(error) => {
                        return Err(error);
                    },
                    Ok(found) => {
                        if mutation_id.is_some() {
                            return Err(AlterTableCodecError::DuplicateField);
                        }
                        mutation_id = Some(MutationId(found));
                    },
                }
            } else if tag == TAG_SQL {
                match read_string(payload) {
                    Err(error) => {
                        return Err(error);
                    },
                    Ok(found) => {
                        if sql.is_some() {
                            return Err(AlterTableCodecError::DuplicateField);
                        }
                        sql = Some(found);
                    },
                }
            } else if tag == TAG_TABLE {
                match read_uuid(payload) {
                    Err(error) => {
                        return Err(error);
                    },
                    Ok(found) => {
                        if table.is_some() {
                            return Err(AlterTableCodecError::DuplicateField);
                        }
                        table = Some(TableId(found));
                    },
                }
            } else if tag == TAG_SCHEMA_REVISION {
                match read_uuid(payload) {
                    Err(error) => {
                        return Err(error);
                    },
                    Ok(found) => {
                        if schema_revision.is_some() {
                            return Err(AlterTableCodecError::DuplicateField);
                        }
                        schema_revision = Some(SchemaRevisionId(found));
                    },
                }
            } else if tag == TAG_SOURCE_TABLE {
                match read_name(payload) {
                    Err(error) => {
                        return Err(error);
                    },
                    Ok(found) => {
                        if source_table.is_some() {
                            return Err(AlterTableCodecError::DuplicateField);
                        }
                        source_table = Some(found);
                    },
                }
            } else if tag == TAG_ACTION {
                match read_byte(payload) {
                    Err(error) => {
                        return Err(error);
                    },
                    Ok(found) => {
                        if action.is_some() {
                            return Err(AlterTableCodecError::DuplicateField);
                        }
                        action = Some(found);
                    },
                }
            } else if tag == TAG_COLUMN {
                match read_uuid(payload) {
                    Err(error) => {
                        return Err(error);
                    },
                    Ok(found) => {
                        if column.is_some() {
                            return Err(AlterTableCodecError::DuplicateField);
                        }
                        column = Some(ColumnId(found));
                    },
                }
            } else if tag == TAG_PREDECESSOR {
                match read_uuid(payload) {
                    Err(error) => {
                        return Err(error);
                    },
                    Ok(found) => {
                        if predecessor.is_some() {
                            return Err(AlterTableCodecError::DuplicateField);
                        }
                        predecessor = Some(ColumnId(found));
                    },
                }
            } else if tag == TAG_OLD_NAME {
                match read_name(payload) {
                    Err(error) => {
                        return Err(error);
                    },
                    Ok(found) => {
                        if old_name.is_some() {
                            return Err(AlterTableCodecError::DuplicateField);
                        }
                        old_name = Some(found);
                    },
                }
            } else if tag == TAG_NEW_NAME {
                match read_name(payload) {
                    Err(error) => {
                        return Err(error);
                    },
                    Ok(found) => {
                        if new_name.is_some() {
                            return Err(AlterTableCodecError::DuplicateField);
                        }
                        new_name = Some(found);
                    },
                }
            } else if tag == TAG_BEFORE {
                match read_schema(payload) {
                    Err(error) => {
                        return Err(error);
                    },
                    Ok(found) => {
                        if before.is_some() {
                            return Err(AlterTableCodecError::DuplicateField);
                        }
                        before = Some(found);
                    },
                }
            } else if tag == TAG_AFTER {
                match read_schema(payload) {
                    Err(error) => {
                        return Err(error);
                    },
                    Ok(found) => {
                        if after.is_some() {
                            return Err(AlterTableCodecError::DuplicateField);
                        }
                        after = Some(found);
                    },
                }
            }
            proof {
                state = next->Ok_0;
            }
        }
        let action = match action {
            Some(found) => found,
            None => {
                return Err(AlterTableCodecError::MissingField(TAG_ACTION));
            },
        };
        if let Some(error) = check_shape(action, column.is_some(), predecessor.is_some(), old_name.is_some(), new_name.is_some(), before.is_some(), after.is_some()) {
            return Err(error);
        }
        let mutation_id = match mutation_id {
            Some(found) => found,
            None => {
                return Err(AlterTableCodecError::MissingField(TAG_MUTATION_ID));
            },
        };
        let sql = match sql {
            Some(found) => found,
            None => {
                return Err(AlterTableCodecError::MissingField(TAG_SQL));
            },
        };
        let table = match table {
            Some(found) => found,
            None => {
                return Err(AlterTableCodecError::MissingField(TAG_TABLE));
            },
        };
        let schema_revision = match schema_revision {
            Some(found) => found,
            None => {
                return Err(AlterTableCodecError::MissingField(TAG_SCHEMA_REVISION));
            },
        };
        let source_table = match source_table {
            Some(found) => found,
            None => {
                return Err(AlterTableCodecError::MissingField(TAG_SOURCE_TABLE));
            },
        };
        let r = AlterFrame { mutation_id, sql, table, schema_revision, source_table, action, column, predecessor, old_name, new_name, before, after };
        assert(r@ == alter_frame_finish(state)->Ok_0);
        Ok(r)
    }
}

/// Whether a value is one that decoding can give.
pub open spec fn alter_frame_valid(x: AlterFrameView) -> bool {
    &&& random_uuid(x.mutation_id)
    &&& random_uuid(x.table)
    &&& random_uuid(x.schema_revision)
    &&& (x.column matches Some(value) ==> random_uuid(value))
    &&& (x.predecessor matches Some(value) ==> random_uuid(value))
    &&& (x.before matches Some(value) ==> part_valid(value))
    &&& (x.after matches Some(value) ==> part_valid(value))
    &&& shape_fault(x.action, x.column is Some, x.predecessor is Some, x.old_name is Some, x.new_name is Some, x.before is Some, x.after is Some) is None
}

/// What is known of an alteration after all of its fields.
pub open spec fn alter_frame_state(x: AlterFrameView) -> AlterFrameState {
    AlterFrameState {
        mutation_id: Some(x.mutation_id),
        sql: Some(x.sql),
        table: Some(x.table),
        schema_revision: Some(x.schema_revision),
        source_table: Some(x.source_table),
        action: Some(x.action),
        column: x.column,
        predecessor: x.predecessor,
        old_name: x.old_name,
        new_name: x.new_name,
        before: x.before,
        after: x.after,
    }
}

/// The fields of an alteration are read one by one.
proof fn lemma_alter_frame_fields(x: AlterFrameView)
    requires
        alter_frame_valid(x),
        alter_frame_fits(x),
    ensures
        fields_fit(alter_frame_fields(x)),
        fold_fields(alter_frame_start(), alter_frame_fields(x), alter_frame_steps()) == Ok::<
            AlterFrameState,
            AlterTableCodecError,
        >(alter_frame_state(x)),
{
    let none = Seq::<(u8, Seq<u8>)>::empty();
    let f1 = none.push((TAG_MUTATION_ID, x.mutation_id));
    let f2 = f1.push((TAG_SQL, encode_utf8(x.sql)));
    let f3 = f2.push((TAG_TABLE, x.table));
    let f4 = f3.push((TAG_SCHEMA_REVISION, x.schema_revision));
    let f5 = f4.push((TAG_SOURCE_TABLE, encode_utf8(x.source_table)));
    let f6 = f5.push((TAG_ACTION, seq![x.action]));
    let f7 = match x.column {
        Some(value) => f6.push((TAG_COLUMN, value)),
        None => f6,
    };
    let f8 = match x.predecessor {
        Some(value) => f7.push((TAG_PREDECESSOR, value)),
        None => f7,
    };
    let f9 = match x.old_name {
        Some(value) => f8.push((TAG_OLD_NAME, encode_utf8(value))),
        None => f8,
    };
    let f10 = match x.new_name {
        Some(value) => f9.push((TAG_NEW_NAME, encode_utf8(value))),
        None => f9,
    };
    let f11 = match x.before {
        Some(value) => f10.push((TAG_BEFORE, table_frame(value))),
        None => f10,
    };
    let f12 = match x.after {
        Some(value) => f11.push((TAG_AFTER, table_frame(value))),
        None => f11,
    };
    let step = alter_frame_steps();
    let s0 = alter_frame_start();
    assert(fields_fit(none));
    let s1 = AlterFrameState { mutation_id: Some(x.mutation_id), ..s0 };
    assert(fold_fields(s0, f1, step) == Ok::<AlterFrameState, AlterTableCodecError>(s1) && fields_fit(f1)) by {
        lemma_fold_push(s0, none, TAG_MUTATION_ID, x.mutation_id, step);
        lemma_fit_push(none, TAG_MUTATION_ID, x.mutation_id);
        assert(step(s0, TAG_MUTATION_ID, x.mutation_id) == Ok::<AlterFrameState, AlterTableCodecError>(s1));
    }
    let s2 = AlterFrameState { sql: Some(x.sql), ..s1 };
    assert(fold_fields(s0, f2, step) == Ok::<AlterFrameState, AlterTableCodecError>(s2) && fields_fit(f2)) by {
        lemma_text_field(x.sql);
        lemma_fold_push(s0, f1, TAG_SQL, encode_utf8(x.sql), step);
        lemma_fit_push(f1, TAG_SQL, encode_utf8(x.sql));
        assert(step(s1, TAG_SQL, encode_utf8(x.sql)) == Ok::<AlterFrameState, AlterTableCodecError>(s2));
    }
    let s3 = AlterFrameState { table: Some(x.table), ..s2 };
    assert(fold_fields(s0, f3, step) == Ok::<AlterFrameState, AlterTableCodecError>(s3) && fields_fit(f3)) by {
        lemma_fold_push(s0, f2, TAG_TABLE, x.table, step);
        lemma_fit_push(f2, TAG_TABLE, x.table);
        assert(step(s2, TAG_TABLE, x.table) == Ok::<AlterFrameState, AlterTableCodecError>(s3));
    }
    let s4 = AlterFrameState { schema_revision: Some(x.schema_revision), ..s3 };
    assert(fold_fields(s0, f4, step) == Ok::<AlterFrameState, AlterTableCodecError>(s4) && fields_fit(f4)) by {
        lemma_fold_push(s0, f3, TAG_SCHEMA_REVISION, x.schema_revision, step);
        lemma_fit_push(f3, TAG_SCHEMA_REVISION, x.schema_revision);
        assert(step(s3, TAG_SCHEMA_REVISION, x.schema_revision) == Ok::<AlterFrameState, AlterTableCodecError>(s4));
    }
    let s5 = AlterFrameState { source_table: Some(x.source_table), ..s4 };
    assert(fold_fields(s0, f5, step) == Ok::<AlterFrameState, AlterTableCodecError>(s5) && fields_fit(f5)) by {
        lemma_text_field(x.source_table);
        lemma_fold_push(s0, f4, TAG_SOURCE_TABLE, encode_utf8(x.source_table), step);
        lemma_fit_push(f4, TAG_SOURCE_TABLE, encode_utf8(x.source_table));
        assert(step(s4, TAG_SOURCE_TABLE, encode_utf8(x.source_table)) == Ok::<AlterFrameState, AlterTableCodecError>(s5));
    }
    let s6 = AlterFrameState { action: Some(x.action), ..s5 };
    assert(fold_fields(s0, f6, step) == Ok::<AlterFrameState, AlterTableCodecError>(s6) && fields_fit(f6)) by {
        lemma_fold_push(s0, f5, TAG_ACTION, seq![x.action], step);
        lemma_fit_push(f5, TAG_ACTION, seq![x.action]);
        assert(step(s5, TAG_ACTION, seq![x.action]) == Ok::<AlterFrameState, AlterTableCodecError>(s6));
    }
    let s7 = AlterFrameState { column: x.column, ..s6 };
    assert(fold_fields(s0, f7, step) == Ok::<AlterFrameState, AlterTableCodecError>(s7) && fields_fit(f7)) by {
        match x.column {
            Some(value) => {
                lemma_fold_push(s0, f6, TAG_COLUMN, value, step);
                lemma_fit_push(f6, TAG_COLUMN, value);
                assert(step(s6, TAG_COLUMN, value) == Ok::<AlterFrameState, AlterTableCodecError>(s7));
            },
            None => {
                assert(s7 == s6);
            },
        }
    }
    let s8 = AlterFrameState { predecessor: x.predecessor, ..s7 };
    assert(fold_fields(s0, f8, step) == Ok::<AlterFrameState, AlterTableCodecError>(s8) && fields_fit(f8)) by {
        match x.predecessor {
            Some(value) => {
                lemma_fold_push(s0, f7, TAG_PREDECESSOR, value, step);
                lemma_fit_push(f7, TAG_PREDECESSOR, value);
                assert(step(s7, TAG_PREDECESSOR, value) == Ok::<AlterFrameState, AlterTableCodecError>(s8));
            },
            None => {
                assert(s8 == s7);
            },
        }
    }
    let s9 = AlterFrameState { old_name: x.old_name, ..s8 };
    assert(fold_fields(s0, f9, step) == Ok::<AlterFrameState, AlterTableCodecError>(s9) && fields_fit(f9)) by {
        match x.old_name {
            Some(value) => {
                lemma_text_field(value);
                lemma_fold_push(s0, f8, TAG_OLD_NAME, encode_utf8(value), step);
                lemma_fit_push(f8, TAG_OLD_NAME, encode_utf8(value));
                assert(step(s8, TAG_OLD_NAME, encode_utf8(value)) == Ok::<AlterFrameState, AlterTableCodecError>(s9));
            },
            None => {
                assert(s9 == s8);
            },
        }
    }
    let s10 = AlterFrameState { new_name: x.new_name, ..s9 };
    assert(fold_fields(s0, f10, step) == Ok::<AlterFrameState, AlterTableCodecError>(s10) && fields_fit(f10)) by {
        match x.new_name {
            Some(value) => {
                lemma_text_field(value);
                lemma_fold_push(s0, f9, TAG_NEW_NAME, encode_utf8(value), step);
                lemma_fit_push(f9, TAG_NEW_NAME, encode_utf8(value));
                assert(step(s9, TAG_NEW_NAME, encode_utf8(value)) == Ok::<AlterFrameState, AlterTableCodecError>(s10));
            },
            None => {
                assert(s10 == s9);
            },
        }
    }
    let s11 = AlterFrameState { before: x.before, ..s10 };
    assert(fold_fields(s0, f11, step) == Ok::<AlterFrameState, AlterTableCodecError>(s11) && fields_fit(f11)) by {
        match x.before {
            Some(value) => {
                part_roundtrip(value);
                lemma_fold_push(s0, f10, TAG_BEFORE, table_frame(value), step);
                lemma_fit_push(f10, TAG_BEFORE, table_frame(value));
                assert(step(s10, TAG_BEFORE, table_frame(value)) == Ok::<AlterFrameState, AlterTableCodecError>(s11));
            },
            None => {
                assert(s11 == s10);
            },
        }
    }
    let s12 = AlterFrameState { after: x.after, ..s11 };
    assert(fold_fields(s0, f12, step) == Ok::<AlterFrameState, AlterTableCodecError>(s12) && fields_fit(f12)) by {
        match x.after {
            Some(value) => {
                part_roundtrip(value);
                lemma_fold_push(s0, f11, TAG_AFTER, table_frame(value), step);
                lemma_fit_push(f11, TAG_AFTER, table_frame(value));
                assert(step(s11, TAG_AFTER, table_frame(value)) == Ok::<AlterFrameState, AlterTableCodecError>(s12));
            },
            None => {
                assert(s12 == s11);
            },
        }
    }
    assert(f12 == alter_frame_fields(x));
    assert(s12 =~= alter_frame_state(x));
}

/// Decoding the frame of an alteration gives it back.
pub proof fn alter_frame_roundtrip(x: AlterFrameView)
    requires
        alter_frame_valid(x),
        alter_frame_fits(x),
    ensures
        alter_frame_decoded(alter_frame_frame(x)) == Ok::<AlterFrameView, AlterTableCodecError>(x),
{
    reveal(alter_frame_decoded);
    reveal(alter_frame_frame);
    let fields = alter_frame_fields(x);
    lemma_alter_frame_fields(x);
    lemma_run_fold(
        alter_frame_start(),
        fields,
        alter_frame_steps(),
        AlterTableCodecError::Truncated,
    );
    let b = alter_frame_frame(x);
    assert(b.subrange(1, b.len() as int) =~= fields_bytes(fields));
    assert(alter_frame_finish(alter_frame_state(x)) == Ok::<AlterFrameView, AlterTableCodecError>(
        x,
    ));
}

/// The frame of an alteration without its last byte is truncated.
pub proof fn cut_alter_frames_are_truncated(x: AlterFrameView)
    requires
        alter_frame_valid(x),
        alter_frame_fits(x),
    ensures
        alter_frame_decoded(alter_frame_frame(x).drop_last()) == Err::<
            AlterFrameView,
            AlterTableCodecError,
        >(AlterTableCodecError::Truncated),
{
    reveal(alter_frame_decoded);
    reveal(alter_frame_frame);
    let fields = alter_frame_fields(x);
    lemma_alter_frame_fields(x);
    assert(fields.len() > 0);
    lemma_run_cut(
        alter_frame_start(),
        fields,
        alter_frame_steps(),
        AlterTableCodecError::Truncated,
    );
    let b = alter_frame_frame(x).drop_last();
    assert(fields_bytes(fields).len() > 0);
    assert(b[0] == ALTER_TABLE_VERSION);
    assert(b.subrange(1, b.len() as int) =~= fields_bytes(fields).drop_last());
}

/// Whether a field is one that another action has, and the alteration's own has
/// not.
pub open spec fn foreign_field(x: AlterFrameView, tag: u8, payload: Seq<u8>) -> bool {
    ||| tag == TAG_COLUMN && x.column is None && uuid_field(payload) is Ok
    ||| tag == TAG_PREDECESSOR && x.predecessor is None && uuid_field(payload) is Ok
    ||| tag == TAG_OLD_NAME && x.old_name is None && text_field(payload) is Ok
    ||| tag == TAG_NEW_NAME && x.new_name is None && text_field(payload) is Ok
    ||| tag == TAG_BEFORE && x.before is None && schema_field(payload) is Ok
    ||| tag == TAG_AFTER && x.after is None && schema_field(payload) is Ok
}

/// The frame of an alteration with a field that only another action has is
/// refused for its action.
pub proof fn foreign_alter_fields_are_refused(x: AlterFrameView, tag: u8, payload: Seq<u8>)
    requires
        alter_frame_valid(x),
        alter_frame_fits(x),
        fits(payload),
        foreign_field(x, tag, payload),
    ensures
        alter_frame_decoded(alter_frame_frame(x) + field_bytes(tag, payload)) == Err::<
            AlterFrameView,
            AlterTableCodecError,
        >(AlterTableCodecError::InvalidAction),
{
    reveal(alter_frame_decoded);
    reveal(alter_frame_frame);
    let fields = alter_frame_fields(x);
    lemma_alter_frame_fields(x);
    lemma_run_more(
        alter_frame_start(),
        fields,
        tag,
        payload,
        alter_frame_steps(),
        AlterTableCodecError::Truncated,
    );
    let b = alter_frame_frame(x) + field_bytes(tag, payload);
    assert(b[0] == ALTER_TABLE_VERSION);
    assert(b.subrange(1, b.len() as int) =~= fields_bytes(fields) + field_bytes(tag, payload));
}

/// The bytes that known fields of an alteration take.
pub open spec fn alter_frame_size(s: AlterFrameState) -> nat {
    let mutation_id: nat = match s.mutation_id {
        Some(value) => 5 + value.len(),
        None => 0,
    };
    let sql: nat = match s.sql {
        Some(value) => 5 + encode_utf8(value).len(),
        None => 0,
    };
    let table: nat = match s.table {
        Some(value) => 5 + value.len(),
        None => 0,
    };
    let schema_revision: nat = match s.schema_revision {
        Some(value) => 5 + value.len(),
        None => 0,
    };
    let source_table: nat = match s.source_table {
        Some(value) => 5 + encode_utf8(value).len(),
        None => 0,
    };
    let action: nat = match s.action {
        Some(value) => 5 + seq![value].len(),
        None => 0,
    };
    let column: nat = match s.column {
        Some(value) => 5 + value.len(),
        None => 0,
    };
    let predecessor: nat = match s.predecessor {
        Some(value) => 5 + value.len(),
        None => 0,
    };
    let old_name: nat = match s.old_name {
        Some(value) => 5 + encode_utf8(value).len(),
        None => 0,
    };
    let new_name: nat = match s.new_name {
        Some(value) => 5 + encode_utf8(value).len(),
        None => 0,
    };
    let before: nat = match s.before {
        Some(value) => 5 + table_frame(value).len(),
        None => 0,
    };
    let after: nat = match s.after {
        Some(value) => 5 + table_frame(value).len(),
        None => 0,
    };
    mutation_id + sql + table + schema_revision + source_table + action + column + predecessor + old_name + new_name + before + after
}

/// Whether known fields of an alteration are sound and can be written again.
pub open spec fn alter_frame_sound(s: AlterFrameState) -> bool {
    &&& (s.mutation_id matches Some(value) ==> random_uuid(value) && fits(value))
    &&& (s.sql matches Some(value) ==> fits(encode_utf8(value)))
    &&& (s.table matches Some(value) ==> random_uuid(value) && fits(value))
    &&& (s.schema_revision matches Some(value) ==> random_uuid(value) && fits(value))
    &&& (s.source_table matches Some(value) ==> fits(encode_utf8(value)))
    &&& (s.action matches Some(value) ==> fits(seq![value]))
    &&& (s.column matches Some(value) ==> random_uuid(value) && fits(value))
    &&& (s.predecessor matches Some(value) ==> random_uuid(value) && fits(value))
    &&& (s.old_name matches Some(value) ==> fits(encode_utf8(value)))
    &&& (s.new_name matches Some(value) ==> fits(encode_utf8(value)))
    &&& (s.before matches Some(value) ==> part_valid(value) && fits(table_frame(value)) && part_fits(value))
    &&& (s.after matches Some(value) ==> part_valid(value) && fits(table_frame(value)) && part_fits(value))
}

/// One field adds no more than its own bytes.
#[verifier::rlimit(40)]
proof fn lemma_alter_frame_step(s: AlterFrameState, tag: u8, payload: Seq<u8>)
    requires
        alter_frame_sound(s),
        fits(payload),
    ensures
        alter_frame_step(s, tag, payload) matches Ok(next) ==> alter_frame_sound(next) && alter_frame_size(next) <= alter_frame_size(
            s,
        ) + 5 + payload.len(),
{
    if let Ok(next) = alter_frame_step(s, tag, payload) {
        if tag == TAG_MUTATION_ID {
        } else if tag == TAG_SQL {
            lemma_text_shrinks(payload);
        } else if tag == TAG_TABLE {
        } else if tag == TAG_SCHEMA_REVISION {
        } else if tag == TAG_SOURCE_TABLE {
            lemma_text_shrinks(payload);
        } else if tag == TAG_ACTION {
        } else if tag == TAG_COLUMN {
        } else if tag == TAG_PREDECESSOR {
        } else if tag == TAG_OLD_NAME {
            lemma_text_shrinks(payload);
        } else if tag == TAG_NEW_NAME {
            lemma_text_shrinks(payload);
        } else if tag == TAG_BEFORE {
            part_shrinks(payload);
        } else if tag == TAG_AFTER {
            part_shrinks(payload);
        }
    }
}

/// What decoding gives is sound and takes no more bytes than it was read from.
pub proof fn alter_frame_shrinks(b: Seq<u8>)
    ensures
        alter_frame_decoded(b) matches Ok(x) ==> alter_frame_valid(x) && alter_frame_fits(x) && alter_frame_frame(x).len() <= b.len(),
{
    reveal(alter_frame_decoded);
    reveal(alter_frame_frame);
    if let Ok(x) = alter_frame_decoded(b) {
        let body = b.subrange(1, b.len() as int);
        let good = |s: AlterFrameState| alter_frame_sound(s);
        let size = |s: AlterFrameState| alter_frame_size(s);
        let step = alter_frame_steps();
        let s0 = alter_frame_start();
        let end = run_fields(s0, body, step, AlterTableCodecError::Truncated)->Ok_0;
        assert forall|s: AlterFrameState, tag: u8, payload: Seq<u8>|
            good(s) && fits(payload) && (#[trigger] step(s, tag, payload)) is Ok implies good(
            step(s, tag, payload)->Ok_0,
        ) && size(step(s, tag, payload)->Ok_0) <= size(s) + 5 + payload.len() by {
            lemma_alter_frame_step(s, tag, payload);
        }
        lemma_run_bounded(s0, body, step, good, size, AlterTableCodecError::Truncated);
        assert(alter_frame_sound(end));
        let none = Seq::<(u8, Seq<u8>)>::empty();
        assert(fields_bytes(none).len() == 0);
        let f1 = none.push((TAG_MUTATION_ID, x.mutation_id));
        lemma_fields_len(none, TAG_MUTATION_ID, x.mutation_id);
        let f2 = f1.push((TAG_SQL, encode_utf8(x.sql)));
        lemma_fields_len(f1, TAG_SQL, encode_utf8(x.sql));
        let f3 = f2.push((TAG_TABLE, x.table));
        lemma_fields_len(f2, TAG_TABLE, x.table);
        let f4 = f3.push((TAG_SCHEMA_REVISION, x.schema_revision));
        lemma_fields_len(f3, TAG_SCHEMA_REVISION, x.schema_revision);
        let f5 = f4.push((TAG_SOURCE_TABLE, encode_utf8(x.source_table)));
        lemma_fields_len(f4, TAG_SOURCE_TABLE, encode_utf8(x.source_table));
        let f6 = f5.push((TAG_ACTION, seq![x.action]));
        lemma_fields_len(f5, TAG_ACTION, seq![x.action]);
        let f7 = match x.column {
            Some(value) => f6.push((TAG_COLUMN, value)),
            None => f6,
        };
        if let Some(value) = x.column {
            lemma_fields_len(f6, TAG_COLUMN, value);
        }
        let f8 = match x.predecessor {
            Some(value) => f7.push((TAG_PREDECESSOR, value)),
            None => f7,
        };
        if let Some(value) = x.predecessor {
            lemma_fields_len(f7, TAG_PREDECESSOR, value);
        }
        let f9 = match x.old_name {
            Some(value) => f8.push((TAG_OLD_NAME, encode_utf8(value))),
            None => f8,
        };
        if let Some(value) = x.old_name {
            lemma_fields_len(f8, TAG_OLD_NAME, encode_utf8(value));
        }
        let f10 = match x.new_name {
            Some(value) => f9.push((TAG_NEW_NAME, encode_utf8(value))),
            None => f9,
        };
        if let Some(value) = x.new_name {
            lemma_fields_len(f9, TAG_NEW_NAME, encode_utf8(value));
        }
        let f11 = match x.before {
            Some(value) => f10.push((TAG_BEFORE, table_frame(value))),
            None => f10,
        };
        if let Some(value) = x.before {
            lemma_fields_len(f10, TAG_BEFORE, table_frame(value));
        }
        let f12 = match x.after {
            Some(value) => f11.push((TAG_AFTER, table_frame(value))),
            None => f11,
        };
        if let Some(value) = x.after {
            lemma_fields_len(f11, TAG_AFTER, table_frame(value));
        }
        assert(f12 == alter_frame_fields(x));
        assert(alter_frame_size(s0) == 0);
        assert(fields_bytes(f12).len() == alter_frame_size(end));
    }
}

} // verus!
