//! What decides how rows of a table are keyed, indexed, and referenced.

use super::codec::{
    affinity_field, flag_bytes, flag_field, one_byte, read_affinity, read_flag, read_table_storage,
    read_uuid, table_storage_field, uuid_field,
};
use super::error::RowCodecError;
use crate::bytes::{
    copy_bytes, fields_bytes, fields_fit, fits, fold_fields, lemma_fields_concat, lemma_fields_len,
    lemma_fit_concat, lemma_fit_push, lemma_fold_list, lemma_fold_push,
    lemma_run_bounded, lemma_run_fold,
    run_fields, FrameWriter, Reader,
};
use crate::codec::{filled, grown, lemma_views_push, outcome, view_of, views};
use crate::identity::{random_uuid, ColumnId, ForeignKeyId, IndexId, SchemaRevisionId, TableId};
use crate::logical::types::{Affinity, TableStorage};
use vstd::prelude::*;

verus! {

/// Version of the frame of a table's row rules.
pub const ROW_SET_FRAME_VERSION: u8 = 2;

/// Marks the table of row rules.
pub const TAG_SET_TABLE: u8 = 1;

/// Marks the schema revision of row rules.
pub const TAG_SET_SCHEMA_REVISION: u8 = 2;

/// Marks the primary index of row rules.
pub const TAG_SET_PRIMARY_INDEX: u8 = 3;

/// Marks the storage of row rules.
pub const TAG_SET_TABLE_STORAGE: u8 = 4;

/// Marks a primary-key part of row rules.
pub const TAG_SET_KEY_PART: u8 = 5;

/// Marks a UNIQUE index of row rules.
pub const TAG_SET_INDEX_RULES: u8 = 6;

/// Marks a foreign key of row rules.
pub const TAG_SET_FOREIGN_KEY: u8 = 7;

/// Marks a foreign key that points at the table.
pub const TAG_SET_INCOMING_FOREIGN_KEY: u8 = 8;

/// Marks a row of a row set.
pub const TAG_SET_ROW: u8 = 9;

/// Marks a column identity.
pub const TAG_COLUMN_ID: u8 = 1;

/// Marks a column affinity.
pub const TAG_COLUMN_AFFINITY: u8 = 2;

/// Marks the flags of a key part.
pub const TAG_KEY_PART_FLAGS: u8 = 3;

/// Marks the identity of index rules.
pub const TAG_RULES_INDEX_ID: u8 = 1;

/// Marks a part of index rules.
pub const TAG_RULES_INDEX_PART: u8 = 2;

/// Marks the identity of a foreign key.
pub const TAG_FOREIGN_KEY_ID: u8 = 1;

/// Marks the parent table of a foreign key.
pub const TAG_FOREIGN_KEY_PARENT_TABLE: u8 = 2;

/// Marks a part of a foreign key.
pub const TAG_FOREIGN_KEY_PART: u8 = 4;

/// Marks the parent index of a foreign key.
pub const TAG_FOREIGN_KEY_PARENT_INDEX: u8 = 5;

/// Marks the child column of a foreign-key part.
pub const TAG_FOREIGN_KEY_CHILD_COLUMN: u8 = 1;

/// Marks the parent part of a foreign-key part.
pub const TAG_FOREIGN_KEY_PARENT_PART: u8 = 2;

/// Marks the identity of an incoming foreign key.
pub const TAG_INCOMING_FOREIGN_KEY_ID: u8 = 1;

/// Marks the child table of an incoming foreign key.
pub const TAG_INCOMING_CHILD_TABLE: u8 = 2;

/// Marks the primary index of the child table.
pub const TAG_INCOMING_CHILD_PRIMARY_INDEX: u8 = 3;

/// Marks the parent index of an incoming foreign key.
pub const TAG_INCOMING_PARENT_INDEX: u8 = 5;

/// Marks a parent part of an incoming foreign key.
pub const TAG_INCOMING_PARENT_PART: u8 = 6;

/// One column of a key: how its values become key bytes.
#[derive(Clone, Copy, Debug, PartialEq, Eq)]
pub struct KeyPartRules {
    pub column: ColumnId,
    pub affinity: Affinity,
    pub rowid_alias: bool,
}

/// A key part as a mathematical value.
#[verifier::ext_equal]
pub struct KeyPartView {
    pub column: Seq<u8>,
    pub affinity: Affinity,
    pub rowid_alias: bool,
}

impl View for KeyPartRules {
    type V = KeyPartView;

    open spec fn view(&self) -> KeyPartView {
        KeyPartView {
            column: self.column@,
            affinity: self.affinity,
            rowid_alias: self.rowid_alias,
        }
    }
}

impl KeyPartRules {
    /// Whether two values are equal.
    pub fn same(&self, other: &KeyPartRules) -> (r: bool)
        ensures
            r == (self@ == other@),
    {
        self.column.same(&other.column)
            && (self.affinity == other.affinity)
            && (self.rowid_alias == other.rowid_alias)
    }
}

/// A copy of a list.
pub fn clone_key_parts(items: &Vec<KeyPartRules>) -> (r: Vec<KeyPartRules>)
    ensures
        views(r@) == views(items@),
{
    let mut r: Vec<KeyPartRules> = Vec::new();
    let mut i: usize = 0;
    while i < items.len()
        invariant
            i <= items@.len(),
            r@.len() == i,
            forall|j: int| 0 <= j < i ==> (#[trigger] r@[j])@ == items@[j]@,
        decreases items.len() - i,
    {
        r.push(items[i].clone());
        i += 1;
    }
    assert(views(r@) =~= views(items@));
    r
}

/// Whether two lists hold equal items.
pub fn same_key_parts(a: &Vec<KeyPartRules>, b: &Vec<KeyPartRules>) -> (r: bool)
    ensures
        r == (views(a@) == views(b@)),
{
    if a.len() != b.len() {
        assert(views(a@).len() != views(b@).len());
        return false;
    }
    let mut i: usize = 0;
    while i < a.len()
        invariant
            i <= a@.len(),
            a@.len() == b@.len(),
            forall|j: int| 0 <= j < i ==> views(a@)[j] == views(b@)[j],
        decreases a.len() - i,
    {
        if !a[i].same(&b[i]) {
            assert(views(a@)[i as int] != views(b@)[i as int]);
            return false;
        }
        i += 1;
    }
    assert(views(a@) =~= views(b@));
    true
}

/// The fields of the frame of a key part.
pub open spec fn key_part_fields(x: KeyPartView) -> Seq<(u8, Seq<u8>)> {
    let none = Seq::<(u8, Seq<u8>)>::empty();
    let f1 = none.push((TAG_COLUMN_ID, x.column));
    let f2 = f1.push((TAG_COLUMN_AFFINITY, seq![x.affinity.code()]));
    let f3 = f2.push((TAG_KEY_PART_FLAGS, flag_bytes(x.rowid_alias)));
    f3
}

/// The frame of a key part.
#[verifier::opaque]
pub open spec fn key_part_frame(x: KeyPartView) -> Seq<u8> {
    fields_bytes(key_part_fields(x))
}

/// The length of the frame of a key part.
pub proof fn lemma_key_part_len(x: KeyPartView)
    ensures
        key_part_frame(x).len() == x.column.len() + 17,
{
    reveal(key_part_frame);
    let none = Seq::<(u8, Seq<u8>)>::empty();
    assert(fields_bytes(none).len() == 0);
    let f1 = none.push((TAG_COLUMN_ID, x.column));
    lemma_fields_len(none, TAG_COLUMN_ID, x.column);
    let f2 = f1.push((TAG_COLUMN_AFFINITY, seq![x.affinity.code()]));
    lemma_fields_len(f1, TAG_COLUMN_AFFINITY, seq![x.affinity.code()]);
    let f3 = f2.push((TAG_KEY_PART_FLAGS, flag_bytes(x.rowid_alias)));
    lemma_fields_len(f2, TAG_KEY_PART_FLAGS, flag_bytes(x.rowid_alias));
    assert(f3 == key_part_fields(x));
}

/// The fields of a list under one tag, each with its own frame.
pub open spec fn key_part_list(tag: u8, items: Seq<KeyPartView>) -> Seq<(u8, Seq<u8>)> {
    Seq::new(items.len(), |i: int| (tag, key_part_frame(items[i])))
}

/// Write the fields of a list under one tag.
pub fn write_key_parts(w: FrameWriter, tag: u8, items: &Vec<KeyPartRules>) -> (r: FrameWriter)
    ensures
        r.head() == w.head(),
        r.fields() == w.fields() + key_part_list(tag, views(items@)),
{
    let ghost list = key_part_list(tag, views(items@));
    let ghost head = w.head();
    let ghost before = w.fields();
    let mut w = w;
    let mut i: usize = 0;
    assert(before + list.subrange(0, 0) =~= before);
    while i < items.len()
        invariant
            i <= items@.len(),
            list == key_part_list(tag, views(items@)),
            w.head() == head,
            w.fields() == before + list.subrange(0, i as int),
        decreases items.len() - i,
    {
        assert(views(items@)[i as int] == items@[i as int]@);
        let item = items[i].encode();
        proof {
            lemma_key_part_len(items@[i as int]@);
        }
        w = w.field(tag, item.as_slice());
        assert(w.fields() =~= before + list.subrange(0, i as int + 1));
        i += 1;
    }
    assert(list.subrange(0, i as int) =~= list);
    w
}

impl KeyPartRules {
    /// Encode the frame.
    pub fn encode(&self) -> (r: Vec<u8>)
        ensures
            r@ == key_part_frame(self@),
    {
        let w = FrameWriter::new();
        let column = copy_bytes(&self.column.as_bytes());
        let w = w.field(TAG_COLUMN_ID, column.as_slice());
        let affinity = one_byte(self.affinity.to_u8());
        let w = w.field(TAG_COLUMN_AFFINITY, affinity.as_slice());
        let rowid_alias = one_byte(if self.rowid_alias { 1 } else { 0 });
        let w = w.field(TAG_KEY_PART_FLAGS, rowid_alias.as_slice());
        assert(w.fields() =~= key_part_fields(self@));
        reveal(key_part_frame);
        w.finish()
    }
}

/// What is known of a key part after some of its fields.
#[verifier::ext_equal]
pub struct KeyPartState {
    pub column: Option<Seq<u8>>,
    pub affinity: Option<Affinity>,
    pub rowid_alias: Option<bool>,
}

/// Nothing is known before the first field.
pub open spec fn key_part_start() -> KeyPartState {
    KeyPartState {
        column: None,
        affinity: None,
        rowid_alias: None,
    }
}

/// What one field adds.
pub open spec fn key_part_step(s: KeyPartState, tag: u8, payload: Seq<u8>) -> Result<KeyPartState, RowCodecError> {
    if tag == TAG_COLUMN_ID {
        match filled(s.column, uuid_field(payload), RowCodecError::DuplicateField) {
            Err(error) => Err(error),
            Ok(column) => Ok(KeyPartState { column, ..s }),
        }
    } else if tag == TAG_COLUMN_AFFINITY {
        match filled(s.affinity, affinity_field(payload), RowCodecError::DuplicateField) {
            Err(error) => Err(error),
            Ok(affinity) => Ok(KeyPartState { affinity, ..s }),
        }
    } else if tag == TAG_KEY_PART_FLAGS {
        match filled(s.rowid_alias, flag_field(payload), RowCodecError::DuplicateField) {
            Err(error) => Err(error),
            Ok(rowid_alias) => Ok(KeyPartState { rowid_alias, ..s }),
        }
    } else {
        Ok(s)
    }
}

/// [`key_part_step`] as a value.
pub open spec fn key_part_steps() -> spec_fn(KeyPartState, u8, Seq<u8>) -> Result<KeyPartState, RowCodecError> {
    |s: KeyPartState, tag: u8, payload: Seq<u8>| key_part_step(s, tag, payload)
}

/// A key part that the fields describe.
pub open spec fn key_part_finish(s: KeyPartState) -> Result<KeyPartView, RowCodecError> {
    if s.column is None {
        Err(RowCodecError::MissingField(TAG_COLUMN_ID))
    } else if s.affinity is None {
        Err(RowCodecError::MissingField(TAG_COLUMN_AFFINITY))
    } else if s.rowid_alias is None {
        Err(RowCodecError::MissingField(TAG_KEY_PART_FLAGS))
    } else if !(s.rowid_alias == Some(true) ==> s.affinity == Some(Affinity::Integer)) {
        Err(RowCodecError::InvalidRow)
    } else {
        Ok(KeyPartView {
            column: s.column->Some_0,
            affinity: s.affinity->Some_0,
            rowid_alias: s.rowid_alias->Some_0,
        })
    }
}

/// What decoding a frame gives.
#[verifier::opaque]
pub open spec fn key_part_decoded(b: Seq<u8>) -> Result<KeyPartView, RowCodecError> {
    match run_fields(key_part_start(), b, key_part_steps(), RowCodecError::Truncated) {
        Err(error) => Err(error),
        Ok(s) => key_part_finish(s),
    }
}

impl KeyPartRules {
    /// Decode one complete frame.
    pub fn decode(frame: &[u8]) -> (r: Result<KeyPartRules, RowCodecError>)
        ensures
            outcome(r) == key_part_decoded(frame@),
    {
        broadcast use lemma_views_push;
        reveal(key_part_decoded);
        let mut reader = Reader::new(frame);
        let mut column: Option<ColumnId> = None;
        let mut affinity: Option<Affinity> = None;
        let mut rowid_alias: Option<bool> = None;
        let ghost mut state = key_part_start();
        while !reader.is_empty()
            invariant
                state == (KeyPartState {
                    column: view_of(column),
                    affinity: affinity,
                    rowid_alias: rowid_alias,
                }),
                key_part_decoded(frame@) == (match run_fields(
                    state,
                    reader.remaining(),
                    key_part_steps(),
                    RowCodecError::Truncated,
                ) {
                    Err(error) => Err(error),
                    Ok(s) => key_part_finish(s),
                }),
            decreases reader.remaining().len(),
        {
            let (tag, payload) = match reader.field() {
                Ok(Some(field)) => field,
                _ => {
                    return Err(RowCodecError::Truncated);
                },
            };
            let ghost next = key_part_step(state, tag, payload@);
            assert(key_part_steps()(state, tag, payload@) == next);
            if tag == TAG_COLUMN_ID {
                match read_uuid(payload) {
                    Err(error) => {
                        return Err(error);
                    },
                    Ok(found) => {
                        if column.is_some() {
                            return Err(RowCodecError::DuplicateField);
                        }
                        column = Some(ColumnId(found));
                    },
                }
            } else if tag == TAG_COLUMN_AFFINITY {
                match read_affinity(payload) {
                    Err(error) => {
                        return Err(error);
                    },
                    Ok(found) => {
                        if affinity.is_some() {
                            return Err(RowCodecError::DuplicateField);
                        }
                        affinity = Some(found);
                    },
                }
            } else if tag == TAG_KEY_PART_FLAGS {
                match read_flag(payload) {
                    Err(error) => {
                        return Err(error);
                    },
                    Ok(found) => {
                        if rowid_alias.is_some() {
                            return Err(RowCodecError::DuplicateField);
                        }
                        rowid_alias = Some(found);
                    },
                }
            }
            proof {
                state = next->Ok_0;
            }
        }
        let column = match column {
            Some(found) => found,
            None => {
                return Err(RowCodecError::MissingField(TAG_COLUMN_ID));
            },
        };
        let affinity = match affinity {
            Some(found) => found,
            None => {
                return Err(RowCodecError::MissingField(TAG_COLUMN_AFFINITY));
            },
        };
        let rowid_alias = match rowid_alias {
            Some(found) => found,
            None => {
                return Err(RowCodecError::MissingField(TAG_KEY_PART_FLAGS));
            },
        };
        if !(!rowid_alias || affinity == Affinity::Integer) {
            return Err(RowCodecError::InvalidRow);
        }
        let r = KeyPartRules { column, affinity, rowid_alias };
        assert(r@ == key_part_finish(state)->Ok_0);
        Ok(r)
    }
}

/// Whether a value is one that decoding can give.
pub open spec fn key_part_valid(x: KeyPartView) -> bool {
    &&& random_uuid(x.column)
    &&& x.rowid_alias ==> x.affinity == Affinity::Integer
}

/// Decoding the frame of a key part gives it back.
pub proof fn key_part_roundtrip(x: KeyPartView)
    requires
        key_part_valid(x),
    ensures
        key_part_decoded(key_part_frame(x)) == Ok::<KeyPartView, RowCodecError>(x),
{
    reveal(key_part_decoded);
    reveal(key_part_frame);
    let none = Seq::<(u8, Seq<u8>)>::empty();
    let f1 = none.push((TAG_COLUMN_ID, x.column));
    let f2 = f1.push((TAG_COLUMN_AFFINITY, seq![x.affinity.code()]));
    let f3 = f2.push((TAG_KEY_PART_FLAGS, flag_bytes(x.rowid_alias)));
    let step = key_part_steps();
    let s0 = key_part_start();
    assert(fields_fit(none));
    let s1 = KeyPartState { column: Some(x.column), ..s0 };
    assert(fold_fields(s0, f1, step) == Ok::<KeyPartState, RowCodecError>(s1) && fields_fit(f1)) by {
        lemma_fold_push(s0, none, TAG_COLUMN_ID, x.column, step);
        lemma_fit_push(none, TAG_COLUMN_ID, x.column);
        assert(step(s0, TAG_COLUMN_ID, x.column) == Ok::<KeyPartState, RowCodecError>(s1));
    }
    let s2 = KeyPartState { affinity: Some(x.affinity), ..s1 };
    assert(fold_fields(s0, f2, step) == Ok::<KeyPartState, RowCodecError>(s2) && fields_fit(f2)) by {
        lemma_fold_push(s0, f1, TAG_COLUMN_AFFINITY, seq![x.affinity.code()], step);
        lemma_fit_push(f1, TAG_COLUMN_AFFINITY, seq![x.affinity.code()]);
        assert(step(s1, TAG_COLUMN_AFFINITY, seq![x.affinity.code()]) == Ok::<KeyPartState, RowCodecError>(s2));
    }
    let s3 = KeyPartState { rowid_alias: Some(x.rowid_alias), ..s2 };
    assert(fold_fields(s0, f3, step) == Ok::<KeyPartState, RowCodecError>(s3) && fields_fit(f3)) by {
        lemma_fold_push(s0, f2, TAG_KEY_PART_FLAGS, flag_bytes(x.rowid_alias), step);
        lemma_fit_push(f2, TAG_KEY_PART_FLAGS, flag_bytes(x.rowid_alias));
        assert(step(s2, TAG_KEY_PART_FLAGS, flag_bytes(x.rowid_alias)) == Ok::<KeyPartState, RowCodecError>(s3));
    }
    lemma_run_fold(s0, f3, step, RowCodecError::Truncated);
    assert(f3 == key_part_fields(x));
    assert(key_part_finish(s3) == Ok::<KeyPartView, RowCodecError>(x));
}

/// The bytes that known fields of a key part take.
pub open spec fn key_part_size(s: KeyPartState) -> nat {
    let column: nat = match s.column {
        Some(value) => 5 + value.len(),
        None => 0,
    };
    let affinity: nat = match s.affinity {
        Some(value) => 5 + seq![value.code()].len(),
        None => 0,
    };
    let rowid_alias: nat = match s.rowid_alias {
        Some(value) => 5 + flag_bytes(value).len(),
        None => 0,
    };
    column + affinity + rowid_alias
}

/// Whether known fields of a key part are sound and can be written again.
pub open spec fn key_part_sound(s: KeyPartState) -> bool {
    &&& (s.column matches Some(value) ==> random_uuid(value) && fits(value))
    &&& (s.affinity matches Some(value) ==> fits(seq![value.code()]))
    &&& (s.rowid_alias matches Some(value) ==> fits(flag_bytes(value)))
}

/// One field adds no more than its own bytes.
proof fn lemma_key_part_step(s: KeyPartState, tag: u8, payload: Seq<u8>)
    requires
        key_part_sound(s),
        fits(payload),
    ensures
        key_part_step(s, tag, payload) matches Ok(next) ==> key_part_sound(next) && key_part_size(next) <= key_part_size(
            s,
        ) + 5 + payload.len(),
{
    if let Ok(next) = key_part_step(s, tag, payload) {
        if tag == TAG_COLUMN_ID {
        } else if tag == TAG_COLUMN_AFFINITY {
        } else if tag == TAG_KEY_PART_FLAGS {
        }
    }
}

/// What decoding gives is sound and takes no more bytes than it was read from.
pub proof fn key_part_shrinks(b: Seq<u8>)
    ensures
        key_part_decoded(b) matches Ok(x) ==> key_part_valid(x) && key_part_frame(x).len() <= b.len(),
{
    reveal(key_part_decoded);
    reveal(key_part_frame);
    if let Ok(x) = key_part_decoded(b) {
        let body = b;
        let good = |s: KeyPartState| key_part_sound(s);
        let size = |s: KeyPartState| key_part_size(s);
        let step = key_part_steps();
        let s0 = key_part_start();
        let end = run_fields(s0, body, step, RowCodecError::Truncated)->Ok_0;
        assert forall|s: KeyPartState, tag: u8, payload: Seq<u8>|
            good(s) && fits(payload) && (#[trigger] step(s, tag, payload)) is Ok implies good(
            step(s, tag, payload)->Ok_0,
        ) && size(step(s, tag, payload)->Ok_0) <= size(s) + 5 + payload.len() by {
            lemma_key_part_step(s, tag, payload);
        }
        lemma_run_bounded(s0, body, step, good, size, RowCodecError::Truncated);
        assert(key_part_sound(end));
        let none = Seq::<(u8, Seq<u8>)>::empty();
        assert(fields_bytes(none).len() == 0);
        let f1 = none.push((TAG_COLUMN_ID, x.column));
        lemma_fields_len(none, TAG_COLUMN_ID, x.column);
        let f2 = f1.push((TAG_COLUMN_AFFINITY, seq![x.affinity.code()]));
        lemma_fields_len(f1, TAG_COLUMN_AFFINITY, seq![x.affinity.code()]);
        let f3 = f2.push((TAG_KEY_PART_FLAGS, flag_bytes(x.rowid_alias)));
        lemma_fields_len(f2, TAG_KEY_PART_FLAGS, flag_bytes(x.rowid_alias));
        assert(f3 == key_part_fields(x));
        assert(key_part_size(s0) == 0);
        assert(fields_bytes(f3).len() == key_part_size(end));
    }
}

/// The columns of key parts, in order.
pub open spec fn part_columns(parts: Seq<KeyPartView>) -> Seq<Seq<u8>> {
    Seq::new(parts.len(), |i: int| parts[i].column)
}

/// Whether no two key parts share a column.
pub fn distinct_columns(parts: &[KeyPartRules]) -> (r: bool)
    ensures
        r == part_columns(views(parts@)).no_duplicates(),
{
    let ghost columns = part_columns(views(parts@));
    let mut i: usize = 0;
    while i < parts.len()
        invariant
            i <= parts@.len(),
            columns == part_columns(views(parts@)),
            forall|a: int, b: int| 0 <= a < b < i ==> columns[a] != columns[b],
        decreases parts.len() - i,
    {
        let mut j: usize = 0;
        while j < i
            invariant
                j <= i < parts@.len(),
                columns == part_columns(views(parts@)),
                forall|a: int| 0 <= a < j ==> columns[a] != columns[i as int],
            decreases i - j,
        {
            if parts[j].column.same(&parts[i].column) {
                assert(columns[j as int] == columns[i as int]);
                return false;
            }
            j += 1;
        }
        i += 1;
    }
    true
}

/// Ordered comparison rules for one UNIQUE index.
#[derive(Debug, PartialEq, Eq)]
pub struct IndexRules {
    pub index: IndexId,
    pub parts: Vec<KeyPartRules>,
}

/// Index rules as a mathematical value.
#[verifier::ext_equal]
pub struct IndexView {
    pub index: Seq<u8>,
    pub parts: Seq<KeyPartView>,
}

impl View for IndexRules {
    type V = IndexView;

    open spec fn view(&self) -> IndexView {
        IndexView {
            index: self.index@,
            parts: views(self.parts@),
        }
    }
}

impl Clone for IndexRules {
    fn clone(&self) -> (r: Self)
        ensures
            r@ == self@,
    {
        IndexRules {
            index: self.index,
            parts: clone_key_parts(&self.parts),
        }
    }
}

impl IndexRules {
    /// Whether two values are equal.
    pub fn same(&self, other: &IndexRules) -> (r: bool)
        ensures
            r == (self@ == other@),
    {
        self.index.same(&other.index)
            && same_key_parts(&self.parts, &other.parts)
    }
}

/// A copy of a list.
pub fn clone_index_rules_list(items: &Vec<IndexRules>) -> (r: Vec<IndexRules>)
    ensures
        views(r@) == views(items@),
{
    let mut r: Vec<IndexRules> = Vec::new();
    let mut i: usize = 0;
    while i < items.len()
        invariant
            i <= items@.len(),
            r@.len() == i,
            forall|j: int| 0 <= j < i ==> (#[trigger] r@[j])@ == items@[j]@,
        decreases items.len() - i,
    {
        r.push(items[i].clone());
        i += 1;
    }
    assert(views(r@) =~= views(items@));
    r
}

/// Whether two lists hold equal items.
pub fn same_index_rules_list(a: &Vec<IndexRules>, b: &Vec<IndexRules>) -> (r: bool)
    ensures
        r == (views(a@) == views(b@)),
{
    if a.len() != b.len() {
        assert(views(a@).len() != views(b@).len());
        return false;
    }
    let mut i: usize = 0;
    while i < a.len()
        invariant
            i <= a@.len(),
            a@.len() == b@.len(),
            forall|j: int| 0 <= j < i ==> views(a@)[j] == views(b@)[j],
        decreases a.len() - i,
    {
        if !a[i].same(&b[i]) {
            assert(views(a@)[i as int] != views(b@)[i as int]);
            return false;
        }
        i += 1;
    }
    assert(views(a@) =~= views(b@));
    true
}

/// The fields of the frame of index rules.
pub open spec fn index_rules_fields(x: IndexView) -> Seq<(u8, Seq<u8>)> {
    let none = Seq::<(u8, Seq<u8>)>::empty();
    let f1 = none.push((TAG_RULES_INDEX_ID, x.index));
    let f2 = f1 + key_part_list(TAG_RULES_INDEX_PART, x.parts);
    f2
}

/// The frame of index rules.
#[verifier::opaque]
pub open spec fn index_rules_frame(x: IndexView) -> Seq<u8> {
    fields_bytes(index_rules_fields(x))
}

/// The fields of a list under one tag, each with its own frame.
pub open spec fn index_rules_list(tag: u8, items: Seq<IndexView>) -> Seq<(u8, Seq<u8>)> {
    Seq::new(items.len(), |i: int| (tag, index_rules_frame(items[i])))
}

/// Write the fields of a list under one tag.
pub fn write_index_rules_list(w: FrameWriter, tag: u8, items: &Vec<IndexRules>) -> (r: FrameWriter)
    requires
        forall|i: int| 0 <= i < items@.len() ==> fits(index_rules_frame(#[trigger] views(items@)[i])),
    ensures
        r.head() == w.head(),
        r.fields() == w.fields() + index_rules_list(tag, views(items@)),
{
    let ghost list = index_rules_list(tag, views(items@));
    let ghost head = w.head();
    let ghost before = w.fields();
    let mut w = w;
    let mut i: usize = 0;
    assert(before + list.subrange(0, 0) =~= before);
    while i < items.len()
        invariant
            i <= items@.len(),
            list == index_rules_list(tag, views(items@)),
            w.head() == head,
            w.fields() == before + list.subrange(0, i as int),
            forall|i: int| 0 <= i < items@.len() ==> fits(index_rules_frame(#[trigger] views(items@)[i])),
        decreases items.len() - i,
    {
        assert(views(items@)[i as int] == items@[i as int]@);
        let item = items[i].encode();
        w = w.field(tag, item.as_slice());
        assert(w.fields() =~= before + list.subrange(0, i as int + 1));
        i += 1;
    }
    assert(list.subrange(0, i as int) =~= list);
    w
}

impl IndexRules {
    /// Encode the frame.
    pub fn encode(&self) -> (r: Vec<u8>)
        ensures
            r@ == index_rules_frame(self@),
    {
        assert(self@.parts == views(self.parts@));
        let w = FrameWriter::new();
        let index = copy_bytes(&self.index.as_bytes());
        let w = w.field(TAG_RULES_INDEX_ID, index.as_slice());
        let w = write_key_parts(w, TAG_RULES_INDEX_PART, &self.parts);
        assert(w.fields() =~= index_rules_fields(self@));
        reveal(index_rules_frame);
        w.finish()
    }
}

/// What is known of index rules after some of its fields.
#[verifier::ext_equal]
pub struct IndexState {
    pub index: Option<Seq<u8>>,
    pub parts: Seq<KeyPartView>,
}

/// Nothing is known before the first field.
pub open spec fn index_rules_start() -> IndexState {
    IndexState {
        index: None,
        parts: Seq::empty(),
    }
}

/// What one field adds.
pub open spec fn index_rules_step(s: IndexState, tag: u8, payload: Seq<u8>) -> Result<IndexState, RowCodecError> {
    if tag == TAG_RULES_INDEX_ID {
        match filled(s.index, uuid_field(payload), RowCodecError::DuplicateField) {
            Err(error) => Err(error),
            Ok(index) => Ok(IndexState { index, ..s }),
        }
    } else if tag == TAG_RULES_INDEX_PART {
        match grown(s.parts, key_part_decoded(payload)) {
            Err(error) => Err(error),
            Ok(parts) => Ok(IndexState { parts, ..s }),
        }
    } else {
        Ok(s)
    }
}

/// [`index_rules_step`] as a value.
pub open spec fn index_rules_steps() -> spec_fn(IndexState, u8, Seq<u8>) -> Result<IndexState, RowCodecError> {
    |s: IndexState, tag: u8, payload: Seq<u8>| index_rules_step(s, tag, payload)
}

/// Index rules that the fields describe.
pub open spec fn index_rules_finish(s: IndexState) -> Result<IndexView, RowCodecError> {
    if !(s.parts.len() > 0 && part_columns(s.parts).no_duplicates()) {
        Err(RowCodecError::InvalidRow)
    } else if s.index is None {
        Err(RowCodecError::MissingField(TAG_RULES_INDEX_ID))
    } else {
        Ok(IndexView {
            index: s.index->Some_0,
            parts: s.parts,
        })
    }
}

/// What decoding a frame gives.
#[verifier::opaque]
pub open spec fn index_rules_decoded(b: Seq<u8>) -> Result<IndexView, RowCodecError> {
    match run_fields(index_rules_start(), b, index_rules_steps(), RowCodecError::Truncated) {
        Err(error) => Err(error),
        Ok(s) => index_rules_finish(s),
    }
}

impl IndexRules {
    /// Decode one complete frame.
    pub fn decode(frame: &[u8]) -> (r: Result<IndexRules, RowCodecError>)
        ensures
            outcome(r) == index_rules_decoded(frame@),
    {
        broadcast use lemma_views_push;
        reveal(index_rules_decoded);
        let mut reader = Reader::new(frame);
        let mut index: Option<IndexId> = None;
        let mut parts: Vec<KeyPartRules> = Vec::new();
        let ghost mut state = index_rules_start();
        assert(views(parts@) =~= Seq::<KeyPartView>::empty());
        while !reader.is_empty()
            invariant
                state == (IndexState {
                    index: view_of(index),
                    parts: views(parts@),
                }),
                index_rules_decoded(frame@) == (match run_fields(
                    state,
                    reader.remaining(),
                    index_rules_steps(),
                    RowCodecError::Truncated,
                ) {
                    Err(error) => Err(error),
                    Ok(s) => index_rules_finish(s),
                }),
            decreases reader.remaining().len(),
        {
            let (tag, payload) = match reader.field() {
                Ok(Some(field)) => field,
                _ => {
                    return Err(RowCodecError::Truncated);
                },
            };
            let ghost next = index_rules_step(state, tag, payload@);
            assert(index_rules_steps()(state, tag, payload@) == next);
            if tag == TAG_RULES_INDEX_ID {
                match read_uuid(payload) {
                    Err(error) => {
                        return Err(error);
                    },
                    Ok(found) => {
                        if index.is_some() {
                            return Err(RowCodecError::DuplicateField);
                        }
                        index = Some(IndexId(found));
                    },
                }
            } else if tag == TAG_RULES_INDEX_PART {
                match KeyPartRules::decode(payload) {
                    Err(error) => {
                        return Err(error);
                    },
                    Ok(found) => {
                        parts.push(found);
                    },
                }
            }
            proof {
                state = next->Ok_0;
            }
        }
        if !(parts.len() > 0 && distinct_columns(parts.as_slice())) {
            return Err(RowCodecError::InvalidRow);
        }
        let index = match index {
            Some(found) => found,
            None => {
                return Err(RowCodecError::MissingField(TAG_RULES_INDEX_ID));
            },
        };
        let r = IndexRules { index, parts };
        assert(r@ == index_rules_finish(state)->Ok_0);
        Ok(r)
    }
}

/// Whether a value is one that decoding can give.
pub open spec fn index_rules_valid(x: IndexView) -> bool {
    &&& random_uuid(x.index)
    &&& forall|i: int| 0 <= i < x.parts.len() ==> key_part_valid(#[trigger] x.parts[i])
    &&& x.parts.len() > 0 && part_columns(x.parts).no_duplicates()
}

/// Decoding the frame of index rules gives it back.
pub proof fn index_rules_roundtrip(x: IndexView)
    requires
        index_rules_valid(x),
    ensures
        index_rules_decoded(index_rules_frame(x)) == Ok::<IndexView, RowCodecError>(x),
{
    reveal(index_rules_decoded);
    reveal(index_rules_frame);
    let none = Seq::<(u8, Seq<u8>)>::empty();
    let f1 = none.push((TAG_RULES_INDEX_ID, x.index));
    let f2 = f1 + key_part_list(TAG_RULES_INDEX_PART, x.parts);
    let step = index_rules_steps();
    let s0 = index_rules_start();
    assert(fields_fit(none));
    let s1 = IndexState { index: Some(x.index), ..s0 };
    assert(fold_fields(s0, f1, step) == Ok::<IndexState, RowCodecError>(s1) && fields_fit(f1)) by {
        lemma_fold_push(s0, none, TAG_RULES_INDEX_ID, x.index, step);
        lemma_fit_push(none, TAG_RULES_INDEX_ID, x.index);
        assert(step(s0, TAG_RULES_INDEX_ID, x.index) == Ok::<IndexState, RowCodecError>(s1));
    }
    let s2 = IndexState { parts: x.parts, ..s1 };
    assert(fold_fields(s0, f2, step) == Ok::<IndexState, RowCodecError>(s2) && fields_fit(f2)) by {
        let states = |i: int| IndexState { parts: x.parts.subrange(0, i), ..s1 };
        let fields = key_part_list(TAG_RULES_INDEX_PART, x.parts);
        assert forall|i: int| 0 <= i < fields.len() implies #[trigger] step(
            states(i),
            fields[i].0,
            fields[i].1,
        ) == Ok::<IndexState, RowCodecError>(states(i + 1)) by {
            key_part_roundtrip(x.parts[i]);
            assert(x.parts.subrange(0, i).push(x.parts[i]) =~= x.parts.subrange(0, i + 1));
        }
        assert(states(0) =~= s1);
        lemma_fold_list(s0, f1, fields, states, step);
        assert(states(fields.len() as int) =~= s2);
        assert forall|i: int| 0 <= i < fields.len() implies fits((#[trigger] fields[i]).1) by {
            assert(key_part_valid(x.parts[i]));
            lemma_key_part_len(x.parts[i]);
        }
        lemma_fit_concat(f1, fields);
    }
    lemma_run_fold(s0, f2, step, RowCodecError::Truncated);
    assert(f2 == index_rules_fields(x));
    assert(index_rules_finish(s2) == Ok::<IndexView, RowCodecError>(x));
}

/// The bytes that known fields of index rules take.
pub open spec fn index_rules_size(s: IndexState) -> nat {
    let index: nat = match s.index {
        Some(value) => 5 + value.len(),
        None => 0,
    };
    let parts = fields_bytes(key_part_list(TAG_RULES_INDEX_PART, s.parts)).len();
    index + parts
}

/// Whether known fields of index rules are sound and can be written again.
pub open spec fn index_rules_sound(s: IndexState) -> bool {
    &&& (s.index matches Some(value) ==> random_uuid(value) && fits(value))
    &&& forall|i: int| 0 <= i < s.parts.len() ==> key_part_valid(#[trigger] s.parts[i]) && fits(key_part_frame(s.parts[i]))
}

/// One field adds no more than its own bytes.
proof fn lemma_index_rules_step(s: IndexState, tag: u8, payload: Seq<u8>)
    requires
        index_rules_sound(s),
        fits(payload),
    ensures
        index_rules_step(s, tag, payload) matches Ok(next) ==> index_rules_sound(next) && index_rules_size(next) <= index_rules_size(
            s,
        ) + 5 + payload.len(),
{
    if let Ok(next) = index_rules_step(s, tag, payload) {
        if tag == TAG_RULES_INDEX_ID {
        } else if tag == TAG_RULES_INDEX_PART {
            key_part_shrinks(payload);
            let found = key_part_decoded(payload)->Ok_0;
            assert(key_part_list(TAG_RULES_INDEX_PART, s.parts.push(found)) =~= key_part_list(TAG_RULES_INDEX_PART, s.parts).push(
                (TAG_RULES_INDEX_PART, key_part_frame(found)),
            ));
            lemma_fields_len(key_part_list(TAG_RULES_INDEX_PART, s.parts), TAG_RULES_INDEX_PART, key_part_frame(found));
        }
    }
}

/// What decoding gives is sound and takes no more bytes than it was read from.
pub proof fn index_rules_shrinks(b: Seq<u8>)
    ensures
        index_rules_decoded(b) matches Ok(x) ==> index_rules_valid(x) && index_rules_frame(x).len() <= b.len(),
{
    reveal(index_rules_decoded);
    reveal(index_rules_frame);
    if let Ok(x) = index_rules_decoded(b) {
        let body = b;
        let good = |s: IndexState| index_rules_sound(s);
        let size = |s: IndexState| index_rules_size(s);
        let step = index_rules_steps();
        let s0 = index_rules_start();
        let end = run_fields(s0, body, step, RowCodecError::Truncated)->Ok_0;
        assert forall|s: IndexState, tag: u8, payload: Seq<u8>|
            good(s) && fits(payload) && (#[trigger] step(s, tag, payload)) is Ok implies good(
            step(s, tag, payload)->Ok_0,
        ) && size(step(s, tag, payload)->Ok_0) <= size(s) + 5 + payload.len() by {
            lemma_index_rules_step(s, tag, payload);
        }
        lemma_run_bounded(s0, body, step, good, size, RowCodecError::Truncated);
        assert(index_rules_sound(end));
        let none = Seq::<(u8, Seq<u8>)>::empty();
        assert(fields_bytes(none).len() == 0);
        let f1 = none.push((TAG_RULES_INDEX_ID, x.index));
        lemma_fields_len(none, TAG_RULES_INDEX_ID, x.index);
        let f2 = f1 + key_part_list(TAG_RULES_INDEX_PART, x.parts);
        lemma_fields_concat(f1, key_part_list(TAG_RULES_INDEX_PART, x.parts));
        assert(key_part_list(TAG_RULES_INDEX_PART, Seq::<KeyPartView>::empty()) =~= none);
        assert(f2 == index_rules_fields(x));
        assert(index_rules_size(s0) == 0);
        assert(fields_bytes(f2).len() == index_rules_size(end));
    }
}

/// One child column and the parent key part that it refers to.
#[derive(Clone, Copy, Debug, PartialEq, Eq)]
pub struct ForeignKeyPartRules {
    pub child_column: ColumnId,
    pub parent: KeyPartRules,
}

/// A foreign-key part as a mathematical value.
#[verifier::ext_equal]
pub struct ForeignKeyPartView {
    pub child_column: Seq<u8>,
    pub parent: KeyPartView,
}

impl View for ForeignKeyPartRules {
    type V = ForeignKeyPartView;

    open spec fn view(&self) -> ForeignKeyPartView {
        ForeignKeyPartView {
            child_column: self.child_column@,
            parent: self.parent@,
        }
    }
}

impl ForeignKeyPartRules {
    /// Whether two values are equal.
    pub fn same(&self, other: &ForeignKeyPartRules) -> (r: bool)
        ensures
            r == (self@ == other@),
    {
        self.child_column.same(&other.child_column)
            && self.parent.same(&other.parent)
    }
}

/// A copy of a list.
pub fn clone_foreign_key_parts(items: &Vec<ForeignKeyPartRules>) -> (r: Vec<ForeignKeyPartRules>)
    ensures
        views(r@) == views(items@),
{
    let mut r: Vec<ForeignKeyPartRules> = Vec::new();
    let mut i: usize = 0;
    while i < items.len()
        invariant
            i <= items@.len(),
            r@.len() == i,
            forall|j: int| 0 <= j < i ==> (#[trigger] r@[j])@ == items@[j]@,
        decreases items.len() - i,
    {
        r.push(items[i].clone());
        i += 1;
    }
    assert(views(r@) =~= views(items@));
    r
}

/// Whether two lists hold equal items.
pub fn same_foreign_key_parts(a: &Vec<ForeignKeyPartRules>, b: &Vec<ForeignKeyPartRules>) -> (r: bool)
    ensures
        r == (views(a@) == views(b@)),
{
    if a.len() != b.len() {
        assert(views(a@).len() != views(b@).len());
        return false;
    }
    let mut i: usize = 0;
    while i < a.len()
        invariant
            i <= a@.len(),
            a@.len() == b@.len(),
            forall|j: int| 0 <= j < i ==> views(a@)[j] == views(b@)[j],
        decreases a.len() - i,
    {
        if !a[i].same(&b[i]) {
            assert(views(a@)[i as int] != views(b@)[i as int]);
            return false;
        }
        i += 1;
    }
    assert(views(a@) =~= views(b@));
    true
}

/// The fields of the frame of a foreign-key part.
pub open spec fn foreign_key_part_fields(x: ForeignKeyPartView) -> Seq<(u8, Seq<u8>)> {
    let none = Seq::<(u8, Seq<u8>)>::empty();
    let f1 = none.push((TAG_FOREIGN_KEY_CHILD_COLUMN, x.child_column));
    let f2 = f1.push((TAG_FOREIGN_KEY_PARENT_PART, key_part_frame(x.parent)));
    f2
}

/// The frame of a foreign-key part.
#[verifier::opaque]
pub open spec fn foreign_key_part_frame(x: ForeignKeyPartView) -> Seq<u8> {
    fields_bytes(foreign_key_part_fields(x))
}

/// The length of the frame of a foreign-key part.
pub proof fn lemma_foreign_key_part_len(x: ForeignKeyPartView)
    ensures
        foreign_key_part_frame(x).len() == x.child_column.len() + x.parent.column.len() + 27,
{
    reveal(foreign_key_part_frame);
    lemma_key_part_len(x.parent);
    let none = Seq::<(u8, Seq<u8>)>::empty();
    assert(fields_bytes(none).len() == 0);
    let f1 = none.push((TAG_FOREIGN_KEY_CHILD_COLUMN, x.child_column));
    lemma_fields_len(none, TAG_FOREIGN_KEY_CHILD_COLUMN, x.child_column);
    let f2 = f1.push((TAG_FOREIGN_KEY_PARENT_PART, key_part_frame(x.parent)));
    lemma_fields_len(f1, TAG_FOREIGN_KEY_PARENT_PART, key_part_frame(x.parent));
    assert(f2 == foreign_key_part_fields(x));
}

/// The fields of a list under one tag, each with its own frame.
pub open spec fn foreign_key_part_list(tag: u8, items: Seq<ForeignKeyPartView>) -> Seq<(u8, Seq<u8>)> {
    Seq::new(items.len(), |i: int| (tag, foreign_key_part_frame(items[i])))
}

/// Write the fields of a list under one tag.
pub fn write_foreign_key_parts(w: FrameWriter, tag: u8, items: &Vec<ForeignKeyPartRules>) -> (r: FrameWriter)
    ensures
        r.head() == w.head(),
        r.fields() == w.fields() + foreign_key_part_list(tag, views(items@)),
{
    let ghost list = foreign_key_part_list(tag, views(items@));
    let ghost head = w.head();
    let ghost before = w.fields();
    let mut w = w;
    let mut i: usize = 0;
    assert(before + list.subrange(0, 0) =~= before);
    while i < items.len()
        invariant
            i <= items@.len(),
            list == foreign_key_part_list(tag, views(items@)),
            w.head() == head,
            w.fields() == before + list.subrange(0, i as int),
        decreases items.len() - i,
    {
        assert(views(items@)[i as int] == items@[i as int]@);
        let item = items[i].encode();
        proof {
            lemma_foreign_key_part_len(items@[i as int]@);
        }
        w = w.field(tag, item.as_slice());
        assert(w.fields() =~= before + list.subrange(0, i as int + 1));
        i += 1;
    }
    assert(list.subrange(0, i as int) =~= list);
    w
}

impl ForeignKeyPartRules {
    /// Encode the frame.
    pub fn encode(&self) -> (r: Vec<u8>)
        ensures
            r@ == foreign_key_part_frame(self@),
    {
        let w = FrameWriter::new();
        let child_column = copy_bytes(&self.child_column.as_bytes());
        let w = w.field(TAG_FOREIGN_KEY_CHILD_COLUMN, child_column.as_slice());
        let parent = self.parent.encode();
        proof {
            lemma_key_part_len(self@.parent);
        }
        let w = w.field(TAG_FOREIGN_KEY_PARENT_PART, parent.as_slice());
        assert(w.fields() =~= foreign_key_part_fields(self@));
        reveal(foreign_key_part_frame);
        w.finish()
    }
}

/// What is known of a foreign-key part after some of its fields.
#[verifier::ext_equal]
pub struct ForeignKeyPartState {
    pub child_column: Option<Seq<u8>>,
    pub parent: Option<KeyPartView>,
}

/// Nothing is known before the first field.
pub open spec fn foreign_key_part_start() -> ForeignKeyPartState {
    ForeignKeyPartState {
        child_column: None,
        parent: None,
    }
}

/// What one field adds.
pub open spec fn foreign_key_part_step(s: ForeignKeyPartState, tag: u8, payload: Seq<u8>) -> Result<ForeignKeyPartState, RowCodecError> {
    if tag == TAG_FOREIGN_KEY_CHILD_COLUMN {
        match filled(s.child_column, uuid_field(payload), RowCodecError::DuplicateField) {
            Err(error) => Err(error),
            Ok(child_column) => Ok(ForeignKeyPartState { child_column, ..s }),
        }
    } else if tag == TAG_FOREIGN_KEY_PARENT_PART {
        match filled(s.parent, key_part_decoded(payload), RowCodecError::DuplicateField) {
            Err(error) => Err(error),
            Ok(parent) => Ok(ForeignKeyPartState { parent, ..s }),
        }
    } else {
        Ok(s)
    }
}

/// [`foreign_key_part_step`] as a value.
pub open spec fn foreign_key_part_steps() -> spec_fn(ForeignKeyPartState, u8, Seq<u8>) -> Result<ForeignKeyPartState, RowCodecError> {
    |s: ForeignKeyPartState, tag: u8, payload: Seq<u8>| foreign_key_part_step(s, tag, payload)
}

/// A foreign-key part that the fields describe.
pub open spec fn foreign_key_part_finish(s: ForeignKeyPartState) -> Result<ForeignKeyPartView, RowCodecError> {
    if s.child_column is None {
        Err(RowCodecError::MissingField(TAG_FOREIGN_KEY_CHILD_COLUMN))
    } else if s.parent is None {
        Err(RowCodecError::MissingField(TAG_FOREIGN_KEY_PARENT_PART))
    } else {
        Ok(ForeignKeyPartView {
            child_column: s.child_column->Some_0,
            parent: s.parent->Some_0,
        })
    }
}

/// What decoding a frame gives.
#[verifier::opaque]
pub open spec fn foreign_key_part_decoded(b: Seq<u8>) -> Result<ForeignKeyPartView, RowCodecError> {
    match run_fields(foreign_key_part_start(), b, foreign_key_part_steps(), RowCodecError::Truncated) {
        Err(error) => Err(error),
        Ok(s) => foreign_key_part_finish(s),
    }
}

impl ForeignKeyPartRules {
    /// Decode one complete frame.
    pub fn decode(frame: &[u8]) -> (r: Result<ForeignKeyPartRules, RowCodecError>)
        ensures
            outcome(r) == foreign_key_part_decoded(frame@),
    {
        broadcast use lemma_views_push;
        reveal(foreign_key_part_decoded);
        let mut reader = Reader::new(frame);
        let mut child_column: Option<ColumnId> = None;
        let mut parent: Option<KeyPartRules> = None;
        let ghost mut state = foreign_key_part_start();
        while !reader.is_empty()
            invariant
                state == (ForeignKeyPartState {
                    child_column: view_of(child_column),
                    parent: view_of(parent),
                }),
                foreign_key_part_decoded(frame@) == (match run_fields(
                    state,
                    reader.remaining(),
                    foreign_key_part_steps(),
                    RowCodecError::Truncated,
                ) {
                    Err(error) => Err(error),
                    Ok(s) => foreign_key_part_finish(s),
                }),
            decreases reader.remaining().len(),
        {
            let (tag, payload) = match reader.field() {
                Ok(Some(field)) => field,
                _ => {
                    return Err(RowCodecError::Truncated);
                },
            };
            let ghost next = foreign_key_part_step(state, tag, payload@);
            assert(foreign_key_part_steps()(state, tag, payload@) == next);
            if tag == TAG_FOREIGN_KEY_CHILD_COLUMN {
                match read_uuid(payload) {
                    Err(error) => {
                        return Err(error);
                    },
                    Ok(found) => {
                        if child_column.is_some() {
                            return Err(RowCodecError::DuplicateField);
                        }
                        child_column = Some(ColumnId(found));
                    },
                }
            } else if tag == TAG_FOREIGN_KEY_PARENT_PART {
                match KeyPartRules::decode(payload) {
                    Err(error) => {
                        return Err(error);
                    },
                    Ok(found) => {
                        if parent.is_some() {
                            return Err(RowCodecError::DuplicateField);
                        }
                        parent = Some(found);
                    },
                }
            }
            proof {
                state = next->Ok_0;
            }
        }
        let child_column = match child_column {
            Some(found) => found,
            None => {
                return Err(RowCodecError::MissingField(TAG_FOREIGN_KEY_CHILD_COLUMN));
            },
        };
        let parent = match parent {
            Some(found) => found,
            None => {
                return Err(RowCodecError::MissingField(TAG_FOREIGN_KEY_PARENT_PART));
            },
        };
        let r = ForeignKeyPartRules { child_column, parent };
        assert(r@ == foreign_key_part_finish(state)->Ok_0);
        Ok(r)
    }
}

/// Whether a value is one that decoding can give.
pub open spec fn foreign_key_part_valid(x: ForeignKeyPartView) -> bool {
    &&& random_uuid(x.child_column)
    &&& key_part_valid(x.parent)
}

/// Decoding the frame of a foreign-key part gives it back.
pub proof fn foreign_key_part_roundtrip(x: ForeignKeyPartView)
    requires
        foreign_key_part_valid(x),
    ensures
        foreign_key_part_decoded(foreign_key_part_frame(x)) == Ok::<ForeignKeyPartView, RowCodecError>(x),
{
    reveal(foreign_key_part_decoded);
    reveal(foreign_key_part_frame);
    let none = Seq::<(u8, Seq<u8>)>::empty();
    let f1 = none.push((TAG_FOREIGN_KEY_CHILD_COLUMN, x.child_column));
    let f2 = f1.push((TAG_FOREIGN_KEY_PARENT_PART, key_part_frame(x.parent)));
    let step = foreign_key_part_steps();
    let s0 = foreign_key_part_start();
    assert(fields_fit(none));
    let s1 = ForeignKeyPartState { child_column: Some(x.child_column), ..s0 };
    assert(fold_fields(s0, f1, step) == Ok::<ForeignKeyPartState, RowCodecError>(s1) && fields_fit(f1)) by {
        lemma_fold_push(s0, none, TAG_FOREIGN_KEY_CHILD_COLUMN, x.child_column, step);
        lemma_fit_push(none, TAG_FOREIGN_KEY_CHILD_COLUMN, x.child_column);
        assert(step(s0, TAG_FOREIGN_KEY_CHILD_COLUMN, x.child_column) == Ok::<ForeignKeyPartState, RowCodecError>(s1));
    }
    let s2 = ForeignKeyPartState { parent: Some(x.parent), ..s1 };
    assert(fold_fields(s0, f2, step) == Ok::<ForeignKeyPartState, RowCodecError>(s2) && fields_fit(f2)) by {
        key_part_roundtrip(x.parent);
        lemma_key_part_len(x.parent);
        lemma_fold_push(s0, f1, TAG_FOREIGN_KEY_PARENT_PART, key_part_frame(x.parent), step);
        lemma_fit_push(f1, TAG_FOREIGN_KEY_PARENT_PART, key_part_frame(x.parent));
        assert(step(s1, TAG_FOREIGN_KEY_PARENT_PART, key_part_frame(x.parent)) == Ok::<ForeignKeyPartState, RowCodecError>(s2));
    }
    lemma_run_fold(s0, f2, step, RowCodecError::Truncated);
    assert(f2 == foreign_key_part_fields(x));
    assert(foreign_key_part_finish(s2) == Ok::<ForeignKeyPartView, RowCodecError>(x));
}

/// The bytes that known fields of a foreign-key part take.
pub open spec fn foreign_key_part_size(s: ForeignKeyPartState) -> nat {
    let child_column: nat = match s.child_column {
        Some(value) => 5 + value.len(),
        None => 0,
    };
    let parent: nat = match s.parent {
        Some(value) => 5 + key_part_frame(value).len(),
        None => 0,
    };
    child_column + parent
}

/// Whether known fields of a foreign-key part are sound and can be written again.
pub open spec fn foreign_key_part_sound(s: ForeignKeyPartState) -> bool {
    &&& (s.child_column matches Some(value) ==> random_uuid(value) && fits(value))
    &&& (s.parent matches Some(value) ==> key_part_valid(value) && fits(key_part_frame(value)))
}

/// One field adds no more than its own bytes.
proof fn lemma_foreign_key_part_step(s: ForeignKeyPartState, tag: u8, payload: Seq<u8>)
    requires
        foreign_key_part_sound(s),
        fits(payload),
    ensures
        foreign_key_part_step(s, tag, payload) matches Ok(next) ==> foreign_key_part_sound(next) && foreign_key_part_size(next) <= foreign_key_part_size(
            s,
        ) + 5 + payload.len(),
{
    if let Ok(next) = foreign_key_part_step(s, tag, payload) {
        if tag == TAG_FOREIGN_KEY_CHILD_COLUMN {
        } else if tag == TAG_FOREIGN_KEY_PARENT_PART {
            key_part_shrinks(payload);
        }
    }
}

/// What decoding gives is sound and takes no more bytes than it was read from.
pub proof fn foreign_key_part_shrinks(b: Seq<u8>)
    ensures
        foreign_key_part_decoded(b) matches Ok(x) ==> foreign_key_part_valid(x) && foreign_key_part_frame(x).len() <= b.len(),
{
    reveal(foreign_key_part_decoded);
    reveal(foreign_key_part_frame);
    if let Ok(x) = foreign_key_part_decoded(b) {
        let body = b;
        let good = |s: ForeignKeyPartState| foreign_key_part_sound(s);
        let size = |s: ForeignKeyPartState| foreign_key_part_size(s);
        let step = foreign_key_part_steps();
        let s0 = foreign_key_part_start();
        let end = run_fields(s0, body, step, RowCodecError::Truncated)->Ok_0;
        assert forall|s: ForeignKeyPartState, tag: u8, payload: Seq<u8>|
            good(s) && fits(payload) && (#[trigger] step(s, tag, payload)) is Ok implies good(
            step(s, tag, payload)->Ok_0,
        ) && size(step(s, tag, payload)->Ok_0) <= size(s) + 5 + payload.len() by {
            lemma_foreign_key_part_step(s, tag, payload);
        }
        lemma_run_bounded(s0, body, step, good, size, RowCodecError::Truncated);
        assert(foreign_key_part_sound(end));
        let none = Seq::<(u8, Seq<u8>)>::empty();
        assert(fields_bytes(none).len() == 0);
        let f1 = none.push((TAG_FOREIGN_KEY_CHILD_COLUMN, x.child_column));
        lemma_fields_len(none, TAG_FOREIGN_KEY_CHILD_COLUMN, x.child_column);
        let f2 = f1.push((TAG_FOREIGN_KEY_PARENT_PART, key_part_frame(x.parent)));
        lemma_fields_len(f1, TAG_FOREIGN_KEY_PARENT_PART, key_part_frame(x.parent));
        assert(f2 == foreign_key_part_fields(x));
        assert(foreign_key_part_size(s0) == 0);
        assert(fields_bytes(f2).len() == foreign_key_part_size(end));
    }
}

/// One child-to-parent key mapping used for reverse-reference assertions.
#[derive(Debug, PartialEq, Eq)]
pub struct ForeignKeyRules {
    pub id: ForeignKeyId,
    pub parent_table: TableId,
    pub parent_index: IndexId,
    pub key_parts: Vec<ForeignKeyPartRules>,
}

/// A foreign key as a mathematical value.
#[verifier::ext_equal]
pub struct ForeignKeyView {
    pub id: Seq<u8>,
    pub parent_table: Seq<u8>,
    pub parent_index: Seq<u8>,
    pub key_parts: Seq<ForeignKeyPartView>,
}

impl View for ForeignKeyRules {
    type V = ForeignKeyView;

    open spec fn view(&self) -> ForeignKeyView {
        ForeignKeyView {
            id: self.id@,
            parent_table: self.parent_table@,
            parent_index: self.parent_index@,
            key_parts: views(self.key_parts@),
        }
    }
}

impl Clone for ForeignKeyRules {
    fn clone(&self) -> (r: Self)
        ensures
            r@ == self@,
    {
        ForeignKeyRules {
            id: self.id,
            parent_table: self.parent_table,
            parent_index: self.parent_index,
            key_parts: clone_foreign_key_parts(&self.key_parts),
        }
    }
}

impl ForeignKeyRules {
    /// Whether two values are equal.
    pub fn same(&self, other: &ForeignKeyRules) -> (r: bool)
        ensures
            r == (self@ == other@),
    {
        self.id.same(&other.id)
            && self.parent_table.same(&other.parent_table)
            && self.parent_index.same(&other.parent_index)
            && same_foreign_key_parts(&self.key_parts, &other.key_parts)
    }
}

/// A copy of a list.
pub fn clone_foreign_keys(items: &Vec<ForeignKeyRules>) -> (r: Vec<ForeignKeyRules>)
    ensures
        views(r@) == views(items@),
{
    let mut r: Vec<ForeignKeyRules> = Vec::new();
    let mut i: usize = 0;
    while i < items.len()
        invariant
            i <= items@.len(),
            r@.len() == i,
            forall|j: int| 0 <= j < i ==> (#[trigger] r@[j])@ == items@[j]@,
        decreases items.len() - i,
    {
        r.push(items[i].clone());
        i += 1;
    }
    assert(views(r@) =~= views(items@));
    r
}

/// Whether two lists hold equal items.
pub fn same_foreign_keys(a: &Vec<ForeignKeyRules>, b: &Vec<ForeignKeyRules>) -> (r: bool)
    ensures
        r == (views(a@) == views(b@)),
{
    if a.len() != b.len() {
        assert(views(a@).len() != views(b@).len());
        return false;
    }
    let mut i: usize = 0;
    while i < a.len()
        invariant
            i <= a@.len(),
            a@.len() == b@.len(),
            forall|j: int| 0 <= j < i ==> views(a@)[j] == views(b@)[j],
        decreases a.len() - i,
    {
        if !a[i].same(&b[i]) {
            assert(views(a@)[i as int] != views(b@)[i as int]);
            return false;
        }
        i += 1;
    }
    assert(views(a@) =~= views(b@));
    true
}

/// The fields of the frame of a foreign key.
pub open spec fn foreign_key_fields(x: ForeignKeyView) -> Seq<(u8, Seq<u8>)> {
    let none = Seq::<(u8, Seq<u8>)>::empty();
    let f1 = none.push((TAG_FOREIGN_KEY_ID, x.id));
    let f2 = f1.push((TAG_FOREIGN_KEY_PARENT_TABLE, x.parent_table));
    let f3 = f2.push((TAG_FOREIGN_KEY_PARENT_INDEX, x.parent_index));
    let f4 = f3 + foreign_key_part_list(TAG_FOREIGN_KEY_PART, x.key_parts);
    f4
}

/// The frame of a foreign key.
#[verifier::opaque]
pub open spec fn foreign_key_frame(x: ForeignKeyView) -> Seq<u8> {
    fields_bytes(foreign_key_fields(x))
}

/// The fields of a list under one tag, each with its own frame.
pub open spec fn foreign_key_list(tag: u8, items: Seq<ForeignKeyView>) -> Seq<(u8, Seq<u8>)> {
    Seq::new(items.len(), |i: int| (tag, foreign_key_frame(items[i])))
}

/// Write the fields of a list under one tag.
pub fn write_foreign_keys(w: FrameWriter, tag: u8, items: &Vec<ForeignKeyRules>) -> (r: FrameWriter)
    requires
        forall|i: int| 0 <= i < items@.len() ==> fits(foreign_key_frame(#[trigger] views(items@)[i])),
    ensures
        r.head() == w.head(),
        r.fields() == w.fields() + foreign_key_list(tag, views(items@)),
{
    let ghost list = foreign_key_list(tag, views(items@));
    let ghost head = w.head();
    let ghost before = w.fields();
    let mut w = w;
    let mut i: usize = 0;
    assert(before + list.subrange(0, 0) =~= before);
    while i < items.len()
        invariant
            i <= items@.len(),
            list == foreign_key_list(tag, views(items@)),
            w.head() == head,
            w.fields() == before + list.subrange(0, i as int),
            forall|i: int| 0 <= i < items@.len() ==> fits(foreign_key_frame(#[trigger] views(items@)[i])),
        decreases items.len() - i,
    {
        assert(views(items@)[i as int] == items@[i as int]@);
        let item = items[i].encode();
        w = w.field(tag, item.as_slice());
        assert(w.fields() =~= before + list.subrange(0, i as int + 1));
        i += 1;
    }
    assert(list.subrange(0, i as int) =~= list);
    w
}

impl ForeignKeyRules {
    /// Encode the frame.
    pub fn encode(&self) -> (r: Vec<u8>)
        ensures
            r@ == foreign_key_frame(self@),
    {
        assert(self@.key_parts == views(self.key_parts@));
        let w = FrameWriter::new();
        let id = copy_bytes(&self.id.as_bytes());
        let w = w.field(TAG_FOREIGN_KEY_ID, id.as_slice());
        let parent_table = copy_bytes(&self.parent_table.as_bytes());
        let w = w.field(TAG_FOREIGN_KEY_PARENT_TABLE, parent_table.as_slice());
        let parent_index = copy_bytes(&self.parent_index.as_bytes());
        let w = w.field(TAG_FOREIGN_KEY_PARENT_INDEX, parent_index.as_slice());
        let w = write_foreign_key_parts(w, TAG_FOREIGN_KEY_PART, &self.key_parts);
        assert(w.fields() =~= foreign_key_fields(self@));
        reveal(foreign_key_frame);
        w.finish()
    }
}

/// What is known of a foreign key after some of its fields.
#[verifier::ext_equal]
pub struct ForeignKeyState {
    pub id: Option<Seq<u8>>,
    pub parent_table: Option<Seq<u8>>,
    pub parent_index: Option<Seq<u8>>,
    pub key_parts: Seq<ForeignKeyPartView>,
}

/// Nothing is known before the first field.
pub open spec fn foreign_key_start() -> ForeignKeyState {
    ForeignKeyState {
        id: None,
        parent_table: None,
        parent_index: None,
        key_parts: Seq::empty(),
    }
}

/// What one field adds.
pub open spec fn foreign_key_step(s: ForeignKeyState, tag: u8, payload: Seq<u8>) -> Result<ForeignKeyState, RowCodecError> {
    if tag == TAG_FOREIGN_KEY_ID {
        match filled(s.id, uuid_field(payload), RowCodecError::DuplicateField) {
            Err(error) => Err(error),
            Ok(id) => Ok(ForeignKeyState { id, ..s }),
        }
    } else if tag == TAG_FOREIGN_KEY_PARENT_TABLE {
        match filled(s.parent_table, uuid_field(payload), RowCodecError::DuplicateField) {
            Err(error) => Err(error),
            Ok(parent_table) => Ok(ForeignKeyState { parent_table, ..s }),
        }
    } else if tag == TAG_FOREIGN_KEY_PARENT_INDEX {
        match filled(s.parent_index, uuid_field(payload), RowCodecError::DuplicateField) {
            Err(error) => Err(error),
            Ok(parent_index) => Ok(ForeignKeyState { parent_index, ..s }),
        }
    } else if tag == TAG_FOREIGN_KEY_PART {
        match grown(s.key_parts, foreign_key_part_decoded(payload)) {
            Err(error) => Err(error),
            Ok(key_parts) => Ok(ForeignKeyState { key_parts, ..s }),
        }
    } else {
        Ok(s)
    }
}

/// [`foreign_key_step`] as a value.
pub open spec fn foreign_key_steps() -> spec_fn(ForeignKeyState, u8, Seq<u8>) -> Result<ForeignKeyState, RowCodecError> {
    |s: ForeignKeyState, tag: u8, payload: Seq<u8>| foreign_key_step(s, tag, payload)
}

/// A foreign key that the fields describe.
pub open spec fn foreign_key_finish(s: ForeignKeyState) -> Result<ForeignKeyView, RowCodecError> {
    if !(s.key_parts.len() > 0) {
        Err(RowCodecError::InvalidRow)
    } else if s.id is None {
        Err(RowCodecError::MissingField(TAG_FOREIGN_KEY_ID))
    } else if s.parent_table is None {
        Err(RowCodecError::MissingField(TAG_FOREIGN_KEY_PARENT_TABLE))
    } else if s.parent_index is None {
        Err(RowCodecError::MissingField(TAG_FOREIGN_KEY_PARENT_INDEX))
    } else {
        Ok(ForeignKeyView {
            id: s.id->Some_0,
            parent_table: s.parent_table->Some_0,
            parent_index: s.parent_index->Some_0,
            key_parts: s.key_parts,
        })
    }
}

/// What decoding a frame gives.
#[verifier::opaque]
pub open spec fn foreign_key_decoded(b: Seq<u8>) -> Result<ForeignKeyView, RowCodecError> {
    match run_fields(foreign_key_start(), b, foreign_key_steps(), RowCodecError::Truncated) {
        Err(error) => Err(error),
        Ok(s) => foreign_key_finish(s),
    }
}

impl ForeignKeyRules {
    /// Decode one complete frame.
    pub fn decode(frame: &[u8]) -> (r: Result<ForeignKeyRules, RowCodecError>)
        ensures
            outcome(r) == foreign_key_decoded(frame@),
    {
        broadcast use lemma_views_push;
        reveal(foreign_key_decoded);
        let mut reader = Reader::new(frame);
        let mut id: Option<ForeignKeyId> = None;
        let mut parent_table: Option<TableId> = None;
        let mut parent_index: Option<IndexId> = None;
        let mut key_parts: Vec<ForeignKeyPartRules> = Vec::new();
        let ghost mut state = foreign_key_start();
        assert(views(key_parts@) =~= Seq::<ForeignKeyPartView>::empty());
        while !reader.is_empty()
            invariant
                state == (ForeignKeyState {
                    id: view_of(id),
                    parent_table: view_of(parent_table),
                    parent_index: view_of(parent_index),
                    key_parts: views(key_parts@),
                }),
                foreign_key_decoded(frame@) == (match run_fields(
                    state,
                    reader.remaining(),
                    foreign_key_steps(),
                    RowCodecError::Truncated,
                ) {
                    Err(error) => Err(error),
                    Ok(s) => foreign_key_finish(s),
                }),
            decreases reader.remaining().len(),
        {
            let (tag, payload) = match reader.field() {
                Ok(Some(field)) => field,
                _ => {
                    return Err(RowCodecError::Truncated);
                },
            };
            let ghost next = foreign_key_step(state, tag, payload@);
            assert(foreign_key_steps()(state, tag, payload@) == next);
            if tag == TAG_FOREIGN_KEY_ID {
                match read_uuid(payload) {
                    Err(error) => {
                        return Err(error);
                    },
                    Ok(found) => {
                        if id.is_some() {
                            return Err(RowCodecError::DuplicateField);
                        }
                        id = Some(ForeignKeyId(found));
                    },
                }
            } else if tag == TAG_FOREIGN_KEY_PARENT_TABLE {
                match read_uuid(payload) {
                    Err(error) => {
                        return Err(error);
                    },
                    Ok(found) => {
                        if parent_table.is_some() {
                            return Err(RowCodecError::DuplicateField);
                        }
                        parent_table = Some(TableId(found));
                    },
                }
            } else if tag == TAG_FOREIGN_KEY_PARENT_INDEX {
                match read_uuid(payload) {
                    Err(error) => {
                        return Err(error);
                    },
                    Ok(found) => {
                        if parent_index.is_some() {
                            return Err(RowCodecError::DuplicateField);
                        }
                        parent_index = Some(IndexId(found));
                    },
                }
            } else if tag == TAG_FOREIGN_KEY_PART {
                match ForeignKeyPartRules::decode(payload) {
                    Err(error) => {
                        return Err(error);
                    },
                    Ok(found) => {
                        key_parts.push(found);
                    },
                }
            }
            proof {
                state = next->Ok_0;
            }
        }
        if !(key_parts.len() > 0) {
            return Err(RowCodecError::InvalidRow);
        }
        let id = match id {
            Some(found) => found,
            None => {
                return Err(RowCodecError::MissingField(TAG_FOREIGN_KEY_ID));
            },
        };
        let parent_table = match parent_table {
            Some(found) => found,
            None => {
                return Err(RowCodecError::MissingField(TAG_FOREIGN_KEY_PARENT_TABLE));
            },
        };
        let parent_index = match parent_index {
            Some(found) => found,
            None => {
                return Err(RowCodecError::MissingField(TAG_FOREIGN_KEY_PARENT_INDEX));
            },
        };
        let r = ForeignKeyRules { id, parent_table, parent_index, key_parts };
        assert(r@ == foreign_key_finish(state)->Ok_0);
        Ok(r)
    }
}

/// Whether a value is one that decoding can give.
pub open spec fn foreign_key_valid(x: ForeignKeyView) -> bool {
    &&& random_uuid(x.id)
    &&& random_uuid(x.parent_table)
    &&& random_uuid(x.parent_index)
    &&& forall|i: int| 0 <= i < x.key_parts.len() ==> foreign_key_part_valid(#[trigger] x.key_parts[i])
    &&& x.key_parts.len() > 0
}

/// Decoding the frame of a foreign key gives it back.
pub proof fn foreign_key_roundtrip(x: ForeignKeyView)
    requires
        foreign_key_valid(x),
    ensures
        foreign_key_decoded(foreign_key_frame(x)) == Ok::<ForeignKeyView, RowCodecError>(x),
{
    reveal(foreign_key_decoded);
    reveal(foreign_key_frame);
    let none = Seq::<(u8, Seq<u8>)>::empty();
    let f1 = none.push((TAG_FOREIGN_KEY_ID, x.id));
    let f2 = f1.push((TAG_FOREIGN_KEY_PARENT_TABLE, x.parent_table));
    let f3 = f2.push((TAG_FOREIGN_KEY_PARENT_INDEX, x.parent_index));
    let f4 = f3 + foreign_key_part_list(TAG_FOREIGN_KEY_PART, x.key_parts);
    let step = foreign_key_steps();
    let s0 = foreign_key_start();
    assert(fields_fit(none));
    let s1 = ForeignKeyState { id: Some(x.id), ..s0 };
    assert(fold_fields(s0, f1, step) == Ok::<ForeignKeyState, RowCodecError>(s1) && fields_fit(f1)) by {
        lemma_fold_push(s0, none, TAG_FOREIGN_KEY_ID, x.id, step);
        lemma_fit_push(none, TAG_FOREIGN_KEY_ID, x.id);
        assert(step(s0, TAG_FOREIGN_KEY_ID, x.id) == Ok::<ForeignKeyState, RowCodecError>(s1));
    }
    let s2 = ForeignKeyState { parent_table: Some(x.parent_table), ..s1 };
    assert(fold_fields(s0, f2, step) == Ok::<ForeignKeyState, RowCodecError>(s2) && fields_fit(f2)) by {
        lemma_fold_push(s0, f1, TAG_FOREIGN_KEY_PARENT_TABLE, x.parent_table, step);
        lemma_fit_push(f1, TAG_FOREIGN_KEY_PARENT_TABLE, x.parent_table);
        assert(step(s1, TAG_FOREIGN_KEY_PARENT_TABLE, x.parent_table) == Ok::<ForeignKeyState, RowCodecError>(s2));
    }
    let s3 = ForeignKeyState { parent_index: Some(x.parent_index), ..s2 };
    assert(fold_fields(s0, f3, step) == Ok::<ForeignKeyState, RowCodecError>(s3) && fields_fit(f3)) by {
        lemma_fold_push(s0, f2, TAG_FOREIGN_KEY_PARENT_INDEX, x.parent_index, step);
        lemma_fit_push(f2, TAG_FOREIGN_KEY_PARENT_INDEX, x.parent_index);
        assert(step(s2, TAG_FOREIGN_KEY_PARENT_INDEX, x.parent_index) == Ok::<ForeignKeyState, RowCodecError>(s3));
    }
    let s4 = ForeignKeyState { key_parts: x.key_parts, ..s3 };
    assert(fold_fields(s0, f4, step) == Ok::<ForeignKeyState, RowCodecError>(s4) && fields_fit(f4)) by {
        let states = |i: int| ForeignKeyState { key_parts: x.key_parts.subrange(0, i), ..s3 };
        let fields = foreign_key_part_list(TAG_FOREIGN_KEY_PART, x.key_parts);
        assert forall|i: int| 0 <= i < fields.len() implies #[trigger] step(
            states(i),
            fields[i].0,
            fields[i].1,
        ) == Ok::<ForeignKeyState, RowCodecError>(states(i + 1)) by {
            foreign_key_part_roundtrip(x.key_parts[i]);
            assert(x.key_parts.subrange(0, i).push(x.key_parts[i]) =~= x.key_parts.subrange(0, i + 1));
        }
        assert(states(0) =~= s3);
        lemma_fold_list(s0, f3, fields, states, step);
        assert(states(fields.len() as int) =~= s4);
        assert forall|i: int| 0 <= i < fields.len() implies fits((#[trigger] fields[i]).1) by {
            assert(foreign_key_part_valid(x.key_parts[i]));
            lemma_foreign_key_part_len(x.key_parts[i]);
        }
        lemma_fit_concat(f3, fields);
    }
    lemma_run_fold(s0, f4, step, RowCodecError::Truncated);
    assert(f4 == foreign_key_fields(x));
    assert(foreign_key_finish(s4) == Ok::<ForeignKeyView, RowCodecError>(x));
}

/// The bytes that known fields of a foreign key take.
pub open spec fn foreign_key_size(s: ForeignKeyState) -> nat {
    let id: nat = match s.id {
        Some(value) => 5 + value.len(),
        None => 0,
    };
    let parent_table: nat = match s.parent_table {
        Some(value) => 5 + value.len(),
        None => 0,
    };
    let parent_index: nat = match s.parent_index {
        Some(value) => 5 + value.len(),
        None => 0,
    };
    let key_parts = fields_bytes(foreign_key_part_list(TAG_FOREIGN_KEY_PART, s.key_parts)).len();
    id + parent_table + parent_index + key_parts
}

/// Whether known fields of a foreign key are sound and can be written again.
pub open spec fn foreign_key_sound(s: ForeignKeyState) -> bool {
    &&& (s.id matches Some(value) ==> random_uuid(value) && fits(value))
    &&& (s.parent_table matches Some(value) ==> random_uuid(value) && fits(value))
    &&& (s.parent_index matches Some(value) ==> random_uuid(value) && fits(value))
    &&& forall|i: int| 0 <= i < s.key_parts.len() ==> foreign_key_part_valid(#[trigger] s.key_parts[i]) && fits(foreign_key_part_frame(s.key_parts[i]))
}

/// One field adds no more than its own bytes.
proof fn lemma_foreign_key_step(s: ForeignKeyState, tag: u8, payload: Seq<u8>)
    requires
        foreign_key_sound(s),
        fits(payload),
    ensures
        foreign_key_step(s, tag, payload) matches Ok(next) ==> foreign_key_sound(next) && foreign_key_size(next) <= foreign_key_size(
            s,
        ) + 5 + payload.len(),
{
    if let Ok(next) = foreign_key_step(s, tag, payload) {
        if tag == TAG_FOREIGN_KEY_ID {
        } else if tag == TAG_FOREIGN_KEY_PARENT_TABLE {
        } else if tag == TAG_FOREIGN_KEY_PARENT_INDEX {
        } else if tag == TAG_FOREIGN_KEY_PART {
            foreign_key_part_shrinks(payload);
            let found = foreign_key_part_decoded(payload)->Ok_0;
            assert(foreign_key_part_list(TAG_FOREIGN_KEY_PART, s.key_parts.push(found)) =~= foreign_key_part_list(TAG_FOREIGN_KEY_PART, s.key_parts).push(
                (TAG_FOREIGN_KEY_PART, foreign_key_part_frame(found)),
            ));
            lemma_fields_len(foreign_key_part_list(TAG_FOREIGN_KEY_PART, s.key_parts), TAG_FOREIGN_KEY_PART, foreign_key_part_frame(found));
        }
    }
}

/// What decoding gives is sound and takes no more bytes than it was read from.
pub proof fn foreign_key_shrinks(b: Seq<u8>)
    ensures
        foreign_key_decoded(b) matches Ok(x) ==> foreign_key_valid(x) && foreign_key_frame(x).len() <= b.len(),
{
    reveal(foreign_key_decoded);
    reveal(foreign_key_frame);
    if let Ok(x) = foreign_key_decoded(b) {
        let body = b;
        let good = |s: ForeignKeyState| foreign_key_sound(s);
        let size = |s: ForeignKeyState| foreign_key_size(s);
        let step = foreign_key_steps();
        let s0 = foreign_key_start();
        let end = run_fields(s0, body, step, RowCodecError::Truncated)->Ok_0;
        assert forall|s: ForeignKeyState, tag: u8, payload: Seq<u8>|
            good(s) && fits(payload) && (#[trigger] step(s, tag, payload)) is Ok implies good(
            step(s, tag, payload)->Ok_0,
        ) && size(step(s, tag, payload)->Ok_0) <= size(s) + 5 + payload.len() by {
            lemma_foreign_key_step(s, tag, payload);
        }
        lemma_run_bounded(s0, body, step, good, size, RowCodecError::Truncated);
        assert(foreign_key_sound(end));
        let none = Seq::<(u8, Seq<u8>)>::empty();
        assert(fields_bytes(none).len() == 0);
        let f1 = none.push((TAG_FOREIGN_KEY_ID, x.id));
        lemma_fields_len(none, TAG_FOREIGN_KEY_ID, x.id);
        let f2 = f1.push((TAG_FOREIGN_KEY_PARENT_TABLE, x.parent_table));
        lemma_fields_len(f1, TAG_FOREIGN_KEY_PARENT_TABLE, x.parent_table);
        let f3 = f2.push((TAG_FOREIGN_KEY_PARENT_INDEX, x.parent_index));
        lemma_fields_len(f2, TAG_FOREIGN_KEY_PARENT_INDEX, x.parent_index);
        let f4 = f3 + foreign_key_part_list(TAG_FOREIGN_KEY_PART, x.key_parts);
        lemma_fields_concat(f3, foreign_key_part_list(TAG_FOREIGN_KEY_PART, x.key_parts));
        assert(foreign_key_part_list(TAG_FOREIGN_KEY_PART, Seq::<ForeignKeyPartView>::empty()) =~= none);
        assert(f4 == foreign_key_fields(x));
        assert(foreign_key_size(s0) == 0);
        assert(fields_bytes(f4).len() == foreign_key_size(end));
    }
}

/// One child primary index that may prevent deletion of this table's rows.
#[derive(Debug, PartialEq, Eq)]
pub struct IncomingForeignKeyRules {
    pub id: ForeignKeyId,
    pub child_table: TableId,
    pub child_primary_index: IndexId,
    pub parent_index: IndexId,
    pub parent_key_parts: Vec<KeyPartRules>,
}

/// An incoming foreign key as a mathematical value.
#[verifier::ext_equal]
pub struct IncomingView {
    pub id: Seq<u8>,
    pub child_table: Seq<u8>,
    pub child_primary_index: Seq<u8>,
    pub parent_index: Seq<u8>,
    pub parent_key_parts: Seq<KeyPartView>,
}

impl View for IncomingForeignKeyRules {
    type V = IncomingView;

    open spec fn view(&self) -> IncomingView {
        IncomingView {
            id: self.id@,
            child_table: self.child_table@,
            child_primary_index: self.child_primary_index@,
            parent_index: self.parent_index@,
            parent_key_parts: views(self.parent_key_parts@),
        }
    }
}

impl Clone for IncomingForeignKeyRules {
    fn clone(&self) -> (r: Self)
        ensures
            r@ == self@,
    {
        IncomingForeignKeyRules {
            id: self.id,
            child_table: self.child_table,
            child_primary_index: self.child_primary_index,
            parent_index: self.parent_index,
            parent_key_parts: clone_key_parts(&self.parent_key_parts),
        }
    }
}

impl IncomingForeignKeyRules {
    /// Whether two values are equal.
    pub fn same(&self, other: &IncomingForeignKeyRules) -> (r: bool)
        ensures
            r == (self@ == other@),
    {
        self.id.same(&other.id)
            && self.child_table.same(&other.child_table)
            && self.child_primary_index.same(&other.child_primary_index)
            && self.parent_index.same(&other.parent_index)
            && same_key_parts(&self.parent_key_parts, &other.parent_key_parts)
    }
}

/// A copy of a list.
pub fn clone_incoming_keys(items: &Vec<IncomingForeignKeyRules>) -> (r: Vec<IncomingForeignKeyRules>)
    ensures
        views(r@) == views(items@),
{
    let mut r: Vec<IncomingForeignKeyRules> = Vec::new();
    let mut i: usize = 0;
    while i < items.len()
        invariant
            i <= items@.len(),
            r@.len() == i,
            forall|j: int| 0 <= j < i ==> (#[trigger] r@[j])@ == items@[j]@,
        decreases items.len() - i,
    {
        r.push(items[i].clone());
        i += 1;
    }
    assert(views(r@) =~= views(items@));
    r
}

/// Whether two lists hold equal items.
pub fn same_incoming_keys(a: &Vec<IncomingForeignKeyRules>, b: &Vec<IncomingForeignKeyRules>) -> (r: bool)
    ensures
        r == (views(a@) == views(b@)),
{
    if a.len() != b.len() {
        assert(views(a@).len() != views(b@).len());
        return false;
    }
    let mut i: usize = 0;
    while i < a.len()
        invariant
            i <= a@.len(),
            a@.len() == b@.len(),
            forall|j: int| 0 <= j < i ==> views(a@)[j] == views(b@)[j],
        decreases a.len() - i,
    {
        if !a[i].same(&b[i]) {
            assert(views(a@)[i as int] != views(b@)[i as int]);
            return false;
        }
        i += 1;
    }
    assert(views(a@) =~= views(b@));
    true
}

/// The fields of the frame of an incoming foreign key.
pub open spec fn incoming_fields(x: IncomingView) -> Seq<(u8, Seq<u8>)> {
    let none = Seq::<(u8, Seq<u8>)>::empty();
    let f1 = none.push((TAG_INCOMING_FOREIGN_KEY_ID, x.id));
    let f2 = f1.push((TAG_INCOMING_CHILD_TABLE, x.child_table));
    let f3 = f2.push((TAG_INCOMING_CHILD_PRIMARY_INDEX, x.child_primary_index));
    let f4 = f3.push((TAG_INCOMING_PARENT_INDEX, x.parent_index));
    let f5 = f4 + key_part_list(TAG_INCOMING_PARENT_PART, x.parent_key_parts);
    f5
}

/// The frame of an incoming foreign key.
#[verifier::opaque]
pub open spec fn incoming_frame(x: IncomingView) -> Seq<u8> {
    fields_bytes(incoming_fields(x))
}

/// The fields of a list under one tag, each with its own frame.
pub open spec fn incoming_list(tag: u8, items: Seq<IncomingView>) -> Seq<(u8, Seq<u8>)> {
    Seq::new(items.len(), |i: int| (tag, incoming_frame(items[i])))
}

/// Write the fields of a list under one tag.
pub fn write_incoming_keys(w: FrameWriter, tag: u8, items: &Vec<IncomingForeignKeyRules>) -> (r: FrameWriter)
    requires
        forall|i: int| 0 <= i < items@.len() ==> fits(incoming_frame(#[trigger] views(items@)[i])),
    ensures
        r.head() == w.head(),
        r.fields() == w.fields() + incoming_list(tag, views(items@)),
{
    let ghost list = incoming_list(tag, views(items@));
    let ghost head = w.head();
    let ghost before = w.fields();
    let mut w = w;
    let mut i: usize = 0;
    assert(before + list.subrange(0, 0) =~= before);
    while i < items.len()
        invariant
            i <= items@.len(),
            list == incoming_list(tag, views(items@)),
            w.head() == head,
            w.fields() == before + list.subrange(0, i as int),
            forall|i: int| 0 <= i < items@.len() ==> fits(incoming_frame(#[trigger] views(items@)[i])),
        decreases items.len() - i,
    {
        assert(views(items@)[i as int] == items@[i as int]@);
        let item = items[i].encode();
        w = w.field(tag, item.as_slice());
        assert(w.fields() =~= before + list.subrange(0, i as int + 1));
        i += 1;
    }
    assert(list.subrange(0, i as int) =~= list);
    w
}

impl IncomingForeignKeyRules {
    /// Encode the frame.
    pub fn encode(&self) -> (r: Vec<u8>)
        ensures
            r@ == incoming_frame(self@),
    {
        assert(self@.parent_key_parts == views(self.parent_key_parts@));
        let w = FrameWriter::new();
        let id = copy_bytes(&self.id.as_bytes());
        let w = w.field(TAG_INCOMING_FOREIGN_KEY_ID, id.as_slice());
        let child_table = copy_bytes(&self.child_table.as_bytes());
        let w = w.field(TAG_INCOMING_CHILD_TABLE, child_table.as_slice());
        let child_primary_index = copy_bytes(&self.child_primary_index.as_bytes());
        let w = w.field(TAG_INCOMING_CHILD_PRIMARY_INDEX, child_primary_index.as_slice());
        let parent_index = copy_bytes(&self.parent_index.as_bytes());
        let w = w.field(TAG_INCOMING_PARENT_INDEX, parent_index.as_slice());
        let w = write_key_parts(w, TAG_INCOMING_PARENT_PART, &self.parent_key_parts);
        assert(w.fields() =~= incoming_fields(self@));
        reveal(incoming_frame);
        w.finish()
    }
}

/// What is known of an incoming foreign key after some of its fields.
#[verifier::ext_equal]
pub struct IncomingState {
    pub id: Option<Seq<u8>>,
    pub child_table: Option<Seq<u8>>,
    pub child_primary_index: Option<Seq<u8>>,
    pub parent_index: Option<Seq<u8>>,
    pub parent_key_parts: Seq<KeyPartView>,
}

/// Nothing is known before the first field.
pub open spec fn incoming_start() -> IncomingState {
    IncomingState {
        id: None,
        child_table: None,
        child_primary_index: None,
        parent_index: None,
        parent_key_parts: Seq::empty(),
    }
}

/// What one field adds.
pub open spec fn incoming_step(s: IncomingState, tag: u8, payload: Seq<u8>) -> Result<IncomingState, RowCodecError> {
    if tag == TAG_INCOMING_FOREIGN_KEY_ID {
        match filled(s.id, uuid_field(payload), RowCodecError::DuplicateField) {
            Err(error) => Err(error),
            Ok(id) => Ok(IncomingState { id, ..s }),
        }
    } else if tag == TAG_INCOMING_CHILD_TABLE {
        match filled(s.child_table, uuid_field(payload), RowCodecError::DuplicateField) {
            Err(error) => Err(error),
            Ok(child_table) => Ok(IncomingState { child_table, ..s }),
        }
    } else if tag == TAG_INCOMING_CHILD_PRIMARY_INDEX {
        match filled(s.child_primary_index, uuid_field(payload), RowCodecError::DuplicateField) {
            Err(error) => Err(error),
            Ok(child_primary_index) => Ok(IncomingState { child_primary_index, ..s }),
        }
    } else if tag == TAG_INCOMING_PARENT_INDEX {
        match filled(s.parent_index, uuid_field(payload), RowCodecError::DuplicateField) {
            Err(error) => Err(error),
            Ok(parent_index) => Ok(IncomingState { parent_index, ..s }),
        }
    } else if tag == TAG_INCOMING_PARENT_PART {
        match grown(s.parent_key_parts, key_part_decoded(payload)) {
            Err(error) => Err(error),
            Ok(parent_key_parts) => Ok(IncomingState { parent_key_parts, ..s }),
        }
    } else {
        Ok(s)
    }
}

/// [`incoming_step`] as a value.
pub open spec fn incoming_steps() -> spec_fn(IncomingState, u8, Seq<u8>) -> Result<IncomingState, RowCodecError> {
    |s: IncomingState, tag: u8, payload: Seq<u8>| incoming_step(s, tag, payload)
}

/// An incoming foreign key that the fields describe.
pub open spec fn incoming_finish(s: IncomingState) -> Result<IncomingView, RowCodecError> {
    if !(s.parent_key_parts.len() > 0) {
        Err(RowCodecError::InvalidRow)
    } else if s.id is None {
        Err(RowCodecError::MissingField(TAG_INCOMING_FOREIGN_KEY_ID))
    } else if s.child_table is None {
        Err(RowCodecError::MissingField(TAG_INCOMING_CHILD_TABLE))
    } else if s.child_primary_index is None {
        Err(RowCodecError::MissingField(TAG_INCOMING_CHILD_PRIMARY_INDEX))
    } else if s.parent_index is None {
        Err(RowCodecError::MissingField(TAG_INCOMING_PARENT_INDEX))
    } else {
        Ok(IncomingView {
            id: s.id->Some_0,
            child_table: s.child_table->Some_0,
            child_primary_index: s.child_primary_index->Some_0,
            parent_index: s.parent_index->Some_0,
            parent_key_parts: s.parent_key_parts,
        })
    }
}

/// What decoding a frame gives.
#[verifier::opaque]
pub open spec fn incoming_decoded(b: Seq<u8>) -> Result<IncomingView, RowCodecError> {
    match run_fields(incoming_start(), b, incoming_steps(), RowCodecError::Truncated) {
        Err(error) => Err(error),
        Ok(s) => incoming_finish(s),
    }
}

impl IncomingForeignKeyRules {
    /// Decode one complete frame.
    pub fn decode(frame: &[u8]) -> (r: Result<IncomingForeignKeyRules, RowCodecError>)
        ensures
            outcome(r) == incoming_decoded(frame@),
    {
        broadcast use lemma_views_push;
        reveal(incoming_decoded);
        let mut reader = Reader::new(frame);
        let mut id: Option<ForeignKeyId> = None;
        let mut child_table: Option<TableId> = None;
        let mut child_primary_index: Option<IndexId> = None;
        let mut parent_index: Option<IndexId> = None;
        let mut parent_key_parts: Vec<KeyPartRules> = Vec::new();
        let ghost mut state = incoming_start();
        assert(views(parent_key_parts@) =~= Seq::<KeyPartView>::empty());
        while !reader.is_empty()
            invariant
                state == (IncomingState {
                    id: view_of(id),
                    child_table: view_of(child_table),
                    child_primary_index: view_of(child_primary_index),
                    parent_index: view_of(parent_index),
                    parent_key_parts: views(parent_key_parts@),
                }),
                incoming_decoded(frame@) == (match run_fields(
                    state,
                    reader.remaining(),
                    incoming_steps(),
                    RowCodecError::Truncated,
                ) {
                    Err(error) => Err(error),
                    Ok(s) => incoming_finish(s),
                }),
            decreases reader.remaining().len(),
        {
            let (tag, payload) = match reader.field() {
                Ok(Some(field)) => field,
                _ => {
                    return Err(RowCodecError::Truncated);
                },
            };
            let ghost next = incoming_step(state, tag, payload@);
            assert(incoming_steps()(state, tag, payload@) == next);
            if tag == TAG_INCOMING_FOREIGN_KEY_ID {
                match read_uuid(payload) {
                    Err(error) => {
                        return Err(error);
                    },
                    Ok(found) => {
                        if id.is_some() {
                            return Err(RowCodecError::DuplicateField);
                        }
                        id = Some(ForeignKeyId(found));
                    },
                }
            } else if tag == TAG_INCOMING_CHILD_TABLE {
                match read_uuid(payload) {
                    Err(error) => {
                        return Err(error);
                    },
                    Ok(found) => {
                        if child_table.is_some() {
                            return Err(RowCodecError::DuplicateField);
                        }
                        child_table = Some(TableId(found));
                    },
                }
            } else if tag == TAG_INCOMING_CHILD_PRIMARY_INDEX {
                match read_uuid(payload) {
                    Err(error) => {
                        return Err(error);
                    },
                    Ok(found) => {
                        if child_primary_index.is_some() {
                            return Err(RowCodecError::DuplicateField);
                        }
                        child_primary_index = Some(IndexId(found));
                    },
                }
            } else if tag == TAG_INCOMING_PARENT_INDEX {
                match read_uuid(payload) {
                    Err(error) => {
                        return Err(error);
                    },
                    Ok(found) => {
                        if parent_index.is_some() {
                            return Err(RowCodecError::DuplicateField);
                        }
                        parent_index = Some(IndexId(found));
                    },
                }
            } else if tag == TAG_INCOMING_PARENT_PART {
                match KeyPartRules::decode(payload) {
                    Err(error) => {
                        return Err(error);
                    },
                    Ok(found) => {
                        parent_key_parts.push(found);
                    },
                }
            }
            proof {
                state = next->Ok_0;
            }
        }
        if !(parent_key_parts.len() > 0) {
            return Err(RowCodecError::InvalidRow);
        }
        let id = match id {
            Some(found) => found,
            None => {
                return Err(RowCodecError::MissingField(TAG_INCOMING_FOREIGN_KEY_ID));
            },
        };
        let child_table = match child_table {
            Some(found) => found,
            None => {
                return Err(RowCodecError::MissingField(TAG_INCOMING_CHILD_TABLE));
            },
        };
        let child_primary_index = match child_primary_index {
            Some(found) => found,
            None => {
                return Err(RowCodecError::MissingField(TAG_INCOMING_CHILD_PRIMARY_INDEX));
            },
        };
        let parent_index = match parent_index {
            Some(found) => found,
            None => {
                return Err(RowCodecError::MissingField(TAG_INCOMING_PARENT_INDEX));
            },
        };
        let r = IncomingForeignKeyRules { id, child_table, child_primary_index, parent_index, parent_key_parts };
        assert(r@ == incoming_finish(state)->Ok_0);
        Ok(r)
    }
}

/// Whether a value is one that decoding can give.
pub open spec fn incoming_valid(x: IncomingView) -> bool {
    &&& random_uuid(x.id)
    &&& random_uuid(x.child_table)
    &&& random_uuid(x.child_primary_index)
    &&& random_uuid(x.parent_index)
    &&& forall|i: int| 0 <= i < x.parent_key_parts.len() ==> key_part_valid(#[trigger] x.parent_key_parts[i])
    &&& x.parent_key_parts.len() > 0
}

/// Decoding the frame of an incoming foreign key gives it back.
pub proof fn incoming_roundtrip(x: IncomingView)
    requires
        incoming_valid(x),
    ensures
        incoming_decoded(incoming_frame(x)) == Ok::<IncomingView, RowCodecError>(x),
{
    reveal(incoming_decoded);
    reveal(incoming_frame);
    let none = Seq::<(u8, Seq<u8>)>::empty();
    let f1 = none.push((TAG_INCOMING_FOREIGN_KEY_ID, x.id));
    let f2 = f1.push((TAG_INCOMING_CHILD_TABLE, x.child_table));
    let f3 = f2.push((TAG_INCOMING_CHILD_PRIMARY_INDEX, x.child_primary_index));
    let f4 = f3.push((TAG_INCOMING_PARENT_INDEX, x.parent_index));
    let f5 = f4 + key_part_list(TAG_INCOMING_PARENT_PART, x.parent_key_parts);
    let step = incoming_steps();
    let s0 = incoming_start();
    assert(fields_fit(none));
    let s1 = IncomingState { id: Some(x.id), ..s0 };
    assert(fold_fields(s0, f1, step) == Ok::<IncomingState, RowCodecError>(s1) && fields_fit(f1)) by {
        lemma_fold_push(s0, none, TAG_INCOMING_FOREIGN_KEY_ID, x.id, step);
        lemma_fit_push(none, TAG_INCOMING_FOREIGN_KEY_ID, x.id);
        assert(step(s0, TAG_INCOMING_FOREIGN_KEY_ID, x.id) == Ok::<IncomingState, RowCodecError>(s1));
    }
    let s2 = IncomingState { child_table: Some(x.child_table), ..s1 };
    assert(fold_fields(s0, f2, step) == Ok::<IncomingState, RowCodecError>(s2) && fields_fit(f2)) by {
        lemma_fold_push(s0, f1, TAG_INCOMING_CHILD_TABLE, x.child_table, step);
        lemma_fit_push(f1, TAG_INCOMING_CHILD_TABLE, x.child_table);
        assert(step(s1, TAG_INCOMING_CHILD_TABLE, x.child_table) == Ok::<IncomingState, RowCodecError>(s2));
    }
    let s3 = IncomingState { child_primary_index: Some(x.child_primary_index), ..s2 };
    assert(fold_fields(s0, f3, step) == Ok::<IncomingState, RowCodecError>(s3) && fields_fit(f3)) by {
        lemma_fold_push(s0, f2, TAG_INCOMING_CHILD_PRIMARY_INDEX, x.child_primary_index, step);
        lemma_fit_push(f2, TAG_INCOMING_CHILD_PRIMARY_INDEX, x.child_primary_index);
        assert(step(s2, TAG_INCOMING_CHILD_PRIMARY_INDEX, x.child_primary_index) == Ok::<IncomingState, RowCodecError>(s3));
    }
    let s4 = IncomingState { parent_index: Some(x.parent_index), ..s3 };
    assert(fold_fields(s0, f4, step) == Ok::<IncomingState, RowCodecError>(s4) && fields_fit(f4)) by {
        lemma_fold_push(s0, f3, TAG_INCOMING_PARENT_INDEX, x.parent_index, step);
        lemma_fit_push(f3, TAG_INCOMING_PARENT_INDEX, x.parent_index);
        assert(step(s3, TAG_INCOMING_PARENT_INDEX, x.parent_index) == Ok::<IncomingState, RowCodecError>(s4));
    }
    let s5 = IncomingState { parent_key_parts: x.parent_key_parts, ..s4 };
    assert(fold_fields(s0, f5, step) == Ok::<IncomingState, RowCodecError>(s5) && fields_fit(f5)) by {
        let states = |i: int| IncomingState { parent_key_parts: x.parent_key_parts.subrange(0, i), ..s4 };
        let fields = key_part_list(TAG_INCOMING_PARENT_PART, x.parent_key_parts);
        assert forall|i: int| 0 <= i < fields.len() implies #[trigger] step(
            states(i),
            fields[i].0,
            fields[i].1,
        ) == Ok::<IncomingState, RowCodecError>(states(i + 1)) by {
            key_part_roundtrip(x.parent_key_parts[i]);
            assert(x.parent_key_parts.subrange(0, i).push(x.parent_key_parts[i]) =~= x.parent_key_parts.subrange(0, i + 1));
        }
        assert(states(0) =~= s4);
        lemma_fold_list(s0, f4, fields, states, step);
        assert(states(fields.len() as int) =~= s5);
        assert forall|i: int| 0 <= i < fields.len() implies fits((#[trigger] fields[i]).1) by {
            assert(key_part_valid(x.parent_key_parts[i]));
            lemma_key_part_len(x.parent_key_parts[i]);
        }
        lemma_fit_concat(f4, fields);
    }
    lemma_run_fold(s0, f5, step, RowCodecError::Truncated);
    assert(f5 == incoming_fields(x));
    assert(incoming_finish(s5) == Ok::<IncomingView, RowCodecError>(x));
}

/// The bytes that known fields of an incoming foreign key take.
pub open spec fn incoming_size(s: IncomingState) -> nat {
    let id: nat = match s.id {
        Some(value) => 5 + value.len(),
        None => 0,
    };
    let child_table: nat = match s.child_table {
        Some(value) => 5 + value.len(),
        None => 0,
    };
    let child_primary_index: nat = match s.child_primary_index {
        Some(value) => 5 + value.len(),
        None => 0,
    };
    let parent_index: nat = match s.parent_index {
        Some(value) => 5 + value.len(),
        None => 0,
    };
    let parent_key_parts = fields_bytes(key_part_list(TAG_INCOMING_PARENT_PART, s.parent_key_parts)).len();
    id + child_table + child_primary_index + parent_index + parent_key_parts
}

/// Whether known fields of an incoming foreign key are sound and can be written again.
pub open spec fn incoming_sound(s: IncomingState) -> bool {
    &&& (s.id matches Some(value) ==> random_uuid(value) && fits(value))
    &&& (s.child_table matches Some(value) ==> random_uuid(value) && fits(value))
    &&& (s.child_primary_index matches Some(value) ==> random_uuid(value) && fits(value))
    &&& (s.parent_index matches Some(value) ==> random_uuid(value) && fits(value))
    &&& forall|i: int| 0 <= i < s.parent_key_parts.len() ==> key_part_valid(#[trigger] s.parent_key_parts[i]) && fits(key_part_frame(s.parent_key_parts[i]))
}

/// One field adds no more than its own bytes.
proof fn lemma_incoming_step(s: IncomingState, tag: u8, payload: Seq<u8>)
    requires
        incoming_sound(s),
        fits(payload),
    ensures
        incoming_step(s, tag, payload) matches Ok(next) ==> incoming_sound(next) && incoming_size(next) <= incoming_size(
            s,
        ) + 5 + payload.len(),
{
    if let Ok(next) = incoming_step(s, tag, payload) {
        if tag == TAG_INCOMING_FOREIGN_KEY_ID {
        } else if tag == TAG_INCOMING_CHILD_TABLE {
        } else if tag == TAG_INCOMING_CHILD_PRIMARY_INDEX {
        } else if tag == TAG_INCOMING_PARENT_INDEX {
        } else if tag == TAG_INCOMING_PARENT_PART {
            key_part_shrinks(payload);
            let found = key_part_decoded(payload)->Ok_0;
            assert(key_part_list(TAG_INCOMING_PARENT_PART, s.parent_key_parts.push(found)) =~= key_part_list(TAG_INCOMING_PARENT_PART, s.parent_key_parts).push(
                (TAG_INCOMING_PARENT_PART, key_part_frame(found)),
            ));
            lemma_fields_len(key_part_list(TAG_INCOMING_PARENT_PART, s.parent_key_parts), TAG_INCOMING_PARENT_PART, key_part_frame(found));
        }
    }
}

/// What decoding gives is sound and takes no more bytes than it was read from.
pub proof fn incoming_shrinks(b: Seq<u8>)
    ensures
        incoming_decoded(b) matches Ok(x) ==> incoming_valid(x) && incoming_frame(x).len() <= b.len(),
{
    reveal(incoming_decoded);
    reveal(incoming_frame);
    if let Ok(x) = incoming_decoded(b) {
        let body = b;
        let good = |s: IncomingState| incoming_sound(s);
        let size = |s: IncomingState| incoming_size(s);
        let step = incoming_steps();
        let s0 = incoming_start();
        let end = run_fields(s0, body, step, RowCodecError::Truncated)->Ok_0;
        assert forall|s: IncomingState, tag: u8, payload: Seq<u8>|
            good(s) && fits(payload) && (#[trigger] step(s, tag, payload)) is Ok implies good(
            step(s, tag, payload)->Ok_0,
        ) && size(step(s, tag, payload)->Ok_0) <= size(s) + 5 + payload.len() by {
            lemma_incoming_step(s, tag, payload);
        }
        lemma_run_bounded(s0, body, step, good, size, RowCodecError::Truncated);
        assert(incoming_sound(end));
        let none = Seq::<(u8, Seq<u8>)>::empty();
        assert(fields_bytes(none).len() == 0);
        let f1 = none.push((TAG_INCOMING_FOREIGN_KEY_ID, x.id));
        lemma_fields_len(none, TAG_INCOMING_FOREIGN_KEY_ID, x.id);
        let f2 = f1.push((TAG_INCOMING_CHILD_TABLE, x.child_table));
        lemma_fields_len(f1, TAG_INCOMING_CHILD_TABLE, x.child_table);
        let f3 = f2.push((TAG_INCOMING_CHILD_PRIMARY_INDEX, x.child_primary_index));
        lemma_fields_len(f2, TAG_INCOMING_CHILD_PRIMARY_INDEX, x.child_primary_index);
        let f4 = f3.push((TAG_INCOMING_PARENT_INDEX, x.parent_index));
        lemma_fields_len(f3, TAG_INCOMING_PARENT_INDEX, x.parent_index);
        let f5 = f4 + key_part_list(TAG_INCOMING_PARENT_PART, x.parent_key_parts);
        lemma_fields_concat(f4, key_part_list(TAG_INCOMING_PARENT_PART, x.parent_key_parts));
        assert(key_part_list(TAG_INCOMING_PARENT_PART, Seq::<KeyPartView>::empty()) =~= none);
        assert(f5 == incoming_fields(x));
        assert(incoming_size(s0) == 0);
        assert(fields_bytes(f5).len() == incoming_size(end));
    }
}

/// Whether the indexes of row rules are usable: each has parts over distinct
/// columns, none of them a rowid alias, and no identity occurs twice.
pub open spec fn indexes_valid(indexes: Seq<IndexView>) -> bool {
    &&& forall|i: int|
        0 <= i < indexes.len() ==> {
            let index = #[trigger] indexes[i];
            &&& index.parts.len() > 0
            &&& part_columns(index.parts).no_duplicates()
            &&& forall|j: int|
                0 <= j < index.parts.len() ==> !(#[trigger] index.parts[j]).rowid_alias
        }
    &&& forall|i: int, j: int|
        0 <= i < j < indexes.len() ==> (#[trigger] indexes[i]).index != (
        #[trigger] indexes[j]).index
}

/// The child columns of foreign-key parts, in order.
pub open spec fn child_columns(parts: Seq<ForeignKeyPartView>) -> Seq<Seq<u8>> {
    Seq::new(parts.len(), |i: int| parts[i].child_column)
}

/// Whether the foreign keys of row rules are usable: each has parts over
/// distinct child columns, and no identity occurs twice.
pub open spec fn foreign_keys_valid(foreign_keys: Seq<ForeignKeyView>) -> bool {
    &&& forall|i: int|
        0 <= i < foreign_keys.len() ==> {
            let foreign_key = #[trigger] foreign_keys[i];
            &&& foreign_key.key_parts.len() > 0
            &&& child_columns(foreign_key.key_parts).no_duplicates()
        }
    &&& forall|i: int, j: int|
        0 <= i < j < foreign_keys.len() ==> (#[trigger] foreign_keys[i]).id != (
        #[trigger] foreign_keys[j]).id
}

/// Whether the incoming foreign keys of row rules are usable: each has parts
/// over distinct parent columns, and no identity occurs twice.
pub open spec fn incoming_keys_valid(incoming: Seq<IncomingView>) -> bool {
    &&& forall|i: int|
        0 <= i < incoming.len() ==> {
            let foreign_key = #[trigger] incoming[i];
            &&& foreign_key.parent_key_parts.len() > 0
            &&& part_columns(foreign_key.parent_key_parts).no_duplicates()
        }
    &&& forall|i: int, j: int|
        0 <= i < j < incoming.len() ==> (#[trigger] incoming[i]).id != (#[trigger] incoming[j]).id
}

/// Whether primary-key parts are usable: their columns are distinct, and a
/// rowid alias is the only part and has integer affinity.
pub open spec fn key_parts_valid(parts: Seq<KeyPartView>) -> bool {
    &&& part_columns(parts).no_duplicates()
    &&& forall|i: int|
        0 <= i < parts.len() && (#[trigger] parts[i]).rowid_alias ==> parts.len() == 1
            && parts[0].affinity == Affinity::Integer
}

/// Why row rules are refused, if they are.
pub open spec fn rules_fault(rules: RulesView) -> Option<RowCodecError> {
    if rules.key_parts.len() == 0 {
        Some(RowCodecError::InvalidRow)
    } else if !key_parts_valid(rules.key_parts) {
        Some(RowCodecError::DuplicateField)
    } else if !indexes_valid(rules.indexes) || !foreign_keys_valid(rules.foreign_keys)
        || !incoming_keys_valid(rules.incoming_foreign_keys) {
        Some(RowCodecError::InvalidRow)
    } else {
        None
    }
}

/// Whether no key part is a rowid alias.
fn no_rowid_alias(parts: &[KeyPartRules]) -> (r: bool)
    ensures
        r == (forall|j: int| 0 <= j < parts@.len() ==> !(#[trigger] views(parts@)[j]).rowid_alias),
{
    let mut i: usize = 0;
    while i < parts.len()
        invariant
            i <= parts@.len(),
            forall|j: int| 0 <= j < i ==> !(#[trigger] views(parts@)[j]).rowid_alias,
        decreases parts.len() - i,
    {
        if parts[i].rowid_alias {
            assert(views(parts@)[i as int].rowid_alias);
            return false;
        }
        i += 1;
    }
    true
}

/// Whether no two foreign-key parts share a child column.
fn distinct_child_columns(parts: &[ForeignKeyPartRules]) -> (r: bool)
    ensures
        r == child_columns(views(parts@)).no_duplicates(),
{
    let ghost columns = child_columns(views(parts@));
    let mut i: usize = 0;
    while i < parts.len()
        invariant
            i <= parts@.len(),
            columns == child_columns(views(parts@)),
            forall|a: int, b: int| 0 <= a < b < i ==> columns[a] != columns[b],
        decreases parts.len() - i,
    {
        let mut j: usize = 0;
        while j < i
            invariant
                j <= i < parts@.len(),
                columns == child_columns(views(parts@)),
                forall|a: int| 0 <= a < j ==> columns[a] != columns[i as int],
            decreases i - j,
        {
            if parts[j].child_column.same(&parts[i].child_column) {
                assert(columns[j as int] == columns[i as int]);
                return false;
            }
            j += 1;
        }
        i += 1;
    }
    true
}

/// Whether primary-key parts are usable.
fn check_key_parts(parts: &[KeyPartRules]) -> (r: bool)
    ensures
        r == key_parts_valid(views(parts@)),
{
    if !distinct_columns(parts) {
        return false;
    }
    if no_rowid_alias(parts) {
        return true;
    }
    let r = parts.len() == 1 && parts[0].affinity == Affinity::Integer;
    proof {
        let view = views(parts@);
        assert(exists|j: int| 0 <= j < view.len() && (#[trigger] view[j]).rowid_alias);
        if r {
            assert(view[0].affinity == Affinity::Integer);
        } else if parts.len() == 1 {
            assert(view[0] == parts@[0]@);
        }
    }
    r
}

/// Whether the indexes of row rules are usable.
fn check_indexes(indexes: &[IndexRules]) -> (r: bool)
    ensures
        r == indexes_valid(views(indexes@)),
{
    let ghost view = views(indexes@);
    let mut i: usize = 0;
    while i < indexes.len()
        invariant
            i <= indexes@.len(),
            view == views(indexes@),
            indexes_valid(view.subrange(0, i as int)),
        decreases indexes.len() - i,
    {
        let index = &indexes[i];
        assert(view[i as int] == index@);
        assert(views(index.parts@) == index@.parts);
        if index.parts.len() == 0 || !no_rowid_alias(index.parts.as_slice()) || !distinct_columns(
            index.parts.as_slice(),
        ) {
            return false;
        }
        let mut j: usize = 0;
        while j < i
            invariant
                j <= i < indexes@.len(),
                view == views(indexes@),
                index@ == view[i as int],
                forall|a: int| 0 <= a < j ==> (#[trigger] view[a]).index != view[i as int].index,
            decreases i - j,
        {
            if indexes[j].index.same(&index.index) {
                assert(view[j as int].index == view[i as int].index);
                return false;
            }
            j += 1;
        }
        proof {
            let seen = view.subrange(0, i as int);
            let more = view.subrange(0, i as int + 1);
            assert forall|a: int, b: int| 0 <= a < b < more.len() implies (
            #[trigger] more[a]).index != (#[trigger] more[b]).index by {
                if b < i {
                    assert(seen[a].index != seen[b].index);
                } else {
                    assert(view[a].index != view[i as int].index);
                }
            }
            assert forall|a: int| 0 <= a < more.len() implies {
                let item = #[trigger] more[a];
                &&& item.parts.len() > 0
                &&& part_columns(item.parts).no_duplicates()
                &&& forall|b: int|
                    0 <= b < item.parts.len() ==> !(#[trigger] item.parts[b]).rowid_alias
            } by {
                if a < i {
                    assert(seen[a] == more[a]);
                } else {
                    assert(more[a] == index@);
                }
            }
        }
        i += 1;
    }
    assert(view.subrange(0, i as int) =~= view);
    true
}

/// Whether the foreign keys of row rules are usable.
fn check_foreign_keys(foreign_keys: &[ForeignKeyRules]) -> (r: bool)
    ensures
        r == foreign_keys_valid(views(foreign_keys@)),
{
    let ghost view = views(foreign_keys@);
    let mut i: usize = 0;
    while i < foreign_keys.len()
        invariant
            i <= foreign_keys@.len(),
            view == views(foreign_keys@),
            foreign_keys_valid(view.subrange(0, i as int)),
        decreases foreign_keys.len() - i,
    {
        let foreign_key = &foreign_keys[i];
        assert(view[i as int] == foreign_key@);
        if foreign_key.key_parts.len() == 0 || !distinct_child_columns(
            foreign_key.key_parts.as_slice(),
        ) {
            return false;
        }
        let mut j: usize = 0;
        while j < i
            invariant
                j <= i < foreign_keys@.len(),
                view == views(foreign_keys@),
                foreign_key@ == view[i as int],
                forall|a: int| 0 <= a < j ==> (#[trigger] view[a]).id != view[i as int].id,
            decreases i - j,
        {
            if foreign_keys[j].id.same(&foreign_key.id) {
                assert(view[j as int].id == view[i as int].id);
                return false;
            }
            j += 1;
        }
        proof {
            let seen = view.subrange(0, i as int);
            let more = view.subrange(0, i as int + 1);
            assert forall|a: int, b: int| 0 <= a < b < more.len() implies (
            #[trigger] more[a]).id != (#[trigger] more[b]).id by {
                if b < i {
                    assert(seen[a].id != seen[b].id);
                } else {
                    assert(view[a].id != view[i as int].id);
                }
            }
            assert forall|a: int| 0 <= a < more.len() implies {
                let item = #[trigger] more[a];
                &&& item.key_parts.len() > 0
                &&& child_columns(item.key_parts).no_duplicates()
            } by {
                if a < i {
                    assert(seen[a] == more[a]);
                } else {
                    assert(more[a] == foreign_key@);
                }
            }
        }
        i += 1;
    }
    assert(view.subrange(0, i as int) =~= view);
    true
}

/// Whether the incoming foreign keys of row rules are usable.
fn check_incoming(incoming: &[IncomingForeignKeyRules]) -> (r: bool)
    ensures
        r == incoming_keys_valid(views(incoming@)),
{
    let ghost view = views(incoming@);
    let mut i: usize = 0;
    while i < incoming.len()
        invariant
            i <= incoming@.len(),
            view == views(incoming@),
            incoming_keys_valid(view.subrange(0, i as int)),
        decreases incoming.len() - i,
    {
        let foreign_key = &incoming[i];
        assert(view[i as int] == foreign_key@);
        if foreign_key.parent_key_parts.len() == 0 || !distinct_columns(
            foreign_key.parent_key_parts.as_slice(),
        ) {
            return false;
        }
        let mut j: usize = 0;
        while j < i
            invariant
                j <= i < incoming@.len(),
                view == views(incoming@),
                foreign_key@ == view[i as int],
                forall|a: int| 0 <= a < j ==> (#[trigger] view[a]).id != view[i as int].id,
            decreases i - j,
        {
            if incoming[j].id.same(&foreign_key.id) {
                assert(view[j as int].id == view[i as int].id);
                return false;
            }
            j += 1;
        }
        proof {
            let seen = view.subrange(0, i as int);
            let more = view.subrange(0, i as int + 1);
            assert forall|a: int, b: int| 0 <= a < b < more.len() implies (
            #[trigger] more[a]).id != (#[trigger] more[b]).id by {
                if b < i {
                    assert(seen[a].id != seen[b].id);
                } else {
                    assert(view[a].id != view[i as int].id);
                }
            }
            assert forall|a: int| 0 <= a < more.len() implies {
                let item = #[trigger] more[a];
                &&& item.parent_key_parts.len() > 0
                &&& part_columns(item.parent_key_parts).no_duplicates()
            } by {
                if a < i {
                    assert(seen[a] == more[a]);
                } else {
                    assert(more[a] == foreign_key@);
                }
            }
        }
        i += 1;
    }
    assert(view.subrange(0, i as int) =~= view);
    true
}

impl RowRules {
    /// Refuse rules that no table can have.
    pub fn validate(&self) -> (r: Result<(), RowCodecError>)
        ensures
            r == (match rules_fault(self@) {
                Some(error) => Err::<(), RowCodecError>(error),
                None => Ok(()),
            }),
    {
        if self.key_parts.len() == 0 {
            return Err(RowCodecError::InvalidRow);
        }
        if !check_key_parts(self.key_parts.as_slice()) {
            return Err(RowCodecError::DuplicateField);
        }
        if !check_indexes(self.indexes.as_slice()) {
            return Err(RowCodecError::InvalidRow);
        }
        if !check_foreign_keys(self.foreign_keys.as_slice()) || !check_incoming(
            self.incoming_foreign_keys.as_slice(),
        ) {
            return Err(RowCodecError::InvalidRow);
        }
        Ok(())
    }
}

/// Immutable interpretation rules shared by every row in one operation.
#[derive(Debug, PartialEq, Eq)]
pub struct RowRules {
    pub table: TableId,
    pub schema_revision: SchemaRevisionId,
    pub primary_index: IndexId,
    pub storage: TableStorage,
    pub key_parts: Vec<KeyPartRules>,
    pub indexes: Vec<IndexRules>,
    pub foreign_keys: Vec<ForeignKeyRules>,
    pub incoming_foreign_keys: Vec<IncomingForeignKeyRules>,
}

/// Row rules as a mathematical value.
#[verifier::ext_equal]
pub struct RulesView {
    pub table: Seq<u8>,
    pub schema_revision: Seq<u8>,
    pub primary_index: Seq<u8>,
    pub storage: TableStorage,
    pub key_parts: Seq<KeyPartView>,
    pub indexes: Seq<IndexView>,
    pub foreign_keys: Seq<ForeignKeyView>,
    pub incoming_foreign_keys: Seq<IncomingView>,
}

impl View for RowRules {
    type V = RulesView;

    open spec fn view(&self) -> RulesView {
        RulesView {
            table: self.table@,
            schema_revision: self.schema_revision@,
            primary_index: self.primary_index@,
            storage: self.storage,
            key_parts: views(self.key_parts@),
            indexes: views(self.indexes@),
            foreign_keys: views(self.foreign_keys@),
            incoming_foreign_keys: views(self.incoming_foreign_keys@),
        }
    }
}

impl Clone for RowRules {
    fn clone(&self) -> (r: Self)
        ensures
            r@ == self@,
    {
        RowRules {
            table: self.table,
            schema_revision: self.schema_revision,
            primary_index: self.primary_index,
            storage: self.storage,
            key_parts: clone_key_parts(&self.key_parts),
            indexes: clone_index_rules_list(&self.indexes),
            foreign_keys: clone_foreign_keys(&self.foreign_keys),
            incoming_foreign_keys: clone_incoming_keys(&self.incoming_foreign_keys),
        }
    }
}

impl RowRules {
    /// Whether two values are equal.
    pub fn same(&self, other: &RowRules) -> (r: bool)
        ensures
            r == (self@ == other@),
    {
        self.table.same(&other.table)
            && self.schema_revision.same(&other.schema_revision)
            && self.primary_index.same(&other.primary_index)
            && (self.storage == other.storage)
            && same_key_parts(&self.key_parts, &other.key_parts)
            && same_index_rules_list(&self.indexes, &other.indexes)
            && same_foreign_keys(&self.foreign_keys, &other.foreign_keys)
            && same_incoming_keys(&self.incoming_foreign_keys, &other.incoming_foreign_keys)
    }
}

/// The fields of the frame of row rules.
pub open spec fn rules_fields(x: RulesView) -> Seq<(u8, Seq<u8>)> {
    let none = Seq::<(u8, Seq<u8>)>::empty();
    let f1 = none.push((TAG_SET_TABLE, x.table));
    let f2 = f1.push((TAG_SET_SCHEMA_REVISION, x.schema_revision));
    let f3 = f2.push((TAG_SET_PRIMARY_INDEX, x.primary_index));
    let f4 = f3.push((TAG_SET_TABLE_STORAGE, seq![x.storage.code()]));
    let f5 = f4 + key_part_list(TAG_SET_KEY_PART, x.key_parts);
    let f6 = f5 + index_rules_list(TAG_SET_INDEX_RULES, x.indexes);
    let f7 = f6 + foreign_key_list(TAG_SET_FOREIGN_KEY, x.foreign_keys);
    let f8 = f7 + incoming_list(TAG_SET_INCOMING_FOREIGN_KEY, x.incoming_foreign_keys);
    f8
}

/// The frame of row rules.
#[verifier::opaque]
pub open spec fn rules_frame(x: RulesView) -> Seq<u8> {
    seq![ROW_SET_FRAME_VERSION] + fields_bytes(rules_fields(x))
}

/// Whether every field of the frame has a length that a `u32` holds.
pub open spec fn rules_fits(x: RulesView) -> bool {
    &&& forall|i: int| 0 <= i < x.indexes.len() ==> fits(index_rules_frame(#[trigger] x.indexes[i]))
    &&& forall|i: int| 0 <= i < x.foreign_keys.len() ==> fits(foreign_key_frame(#[trigger] x.foreign_keys[i]))
    &&& forall|i: int| 0 <= i < x.incoming_foreign_keys.len() ==> fits(incoming_frame(#[trigger] x.incoming_foreign_keys[i]))
}

impl RowRules {
    /// Encode the frame.
    pub fn encode(&self) -> (r: Vec<u8>)
        requires
            rules_fits(self@),
        ensures
            r@ == rules_frame(self@),
    {
        assert(self@.key_parts == views(self.key_parts@));
        assert(self@.indexes == views(self.indexes@));
        assert(self@.foreign_keys == views(self.foreign_keys@));
        assert(self@.incoming_foreign_keys == views(self.incoming_foreign_keys@));
        let w = FrameWriter::versioned(ROW_SET_FRAME_VERSION);
        let table = copy_bytes(&self.table.as_bytes());
        let w = w.field(TAG_SET_TABLE, table.as_slice());
        let schema_revision = copy_bytes(&self.schema_revision.as_bytes());
        let w = w.field(TAG_SET_SCHEMA_REVISION, schema_revision.as_slice());
        let primary_index = copy_bytes(&self.primary_index.as_bytes());
        let w = w.field(TAG_SET_PRIMARY_INDEX, primary_index.as_slice());
        let storage = one_byte(self.storage.to_u8());
        let w = w.field(TAG_SET_TABLE_STORAGE, storage.as_slice());
        let w = write_key_parts(w, TAG_SET_KEY_PART, &self.key_parts);
        let w = write_index_rules_list(w, TAG_SET_INDEX_RULES, &self.indexes);
        let w = write_foreign_keys(w, TAG_SET_FOREIGN_KEY, &self.foreign_keys);
        let w = write_incoming_keys(w, TAG_SET_INCOMING_FOREIGN_KEY, &self.incoming_foreign_keys);
        assert(w.fields() =~= rules_fields(self@));
        reveal(rules_frame);
        w.finish()
    }
}

/// What is known of row rules after some of its fields.
#[verifier::ext_equal]
pub struct RulesState {
    pub table: Option<Seq<u8>>,
    pub schema_revision: Option<Seq<u8>>,
    pub primary_index: Option<Seq<u8>>,
    pub storage: Option<TableStorage>,
    pub key_parts: Seq<KeyPartView>,
    pub indexes: Seq<IndexView>,
    pub foreign_keys: Seq<ForeignKeyView>,
    pub incoming_foreign_keys: Seq<IncomingView>,
}

/// Nothing is known before the first field.
pub open spec fn rules_start() -> RulesState {
    RulesState {
        table: None,
        schema_revision: None,
        primary_index: None,
        storage: None,
        key_parts: Seq::empty(),
        indexes: Seq::empty(),
        foreign_keys: Seq::empty(),
        incoming_foreign_keys: Seq::empty(),
    }
}

/// What one field adds.
pub open spec fn rules_step(s: RulesState, tag: u8, payload: Seq<u8>) -> Result<RulesState, RowCodecError> {
    if tag == TAG_SET_TABLE {
        match filled(s.table, uuid_field(payload), RowCodecError::DuplicateField) {
            Err(error) => Err(error),
            Ok(table) => Ok(RulesState { table, ..s }),
        }
    } else if tag == TAG_SET_SCHEMA_REVISION {
        match filled(s.schema_revision, uuid_field(payload), RowCodecError::DuplicateField) {
            Err(error) => Err(error),
            Ok(schema_revision) => Ok(RulesState { schema_revision, ..s }),
        }
    } else if tag == TAG_SET_PRIMARY_INDEX {
        match filled(s.primary_index, uuid_field(payload), RowCodecError::DuplicateField) {
            Err(error) => Err(error),
            Ok(primary_index) => Ok(RulesState { primary_index, ..s }),
        }
    } else if tag == TAG_SET_TABLE_STORAGE {
        match filled(s.storage, table_storage_field(payload), RowCodecError::DuplicateField) {
            Err(error) => Err(error),
            Ok(storage) => Ok(RulesState { storage, ..s }),
        }
    } else if tag == TAG_SET_KEY_PART {
        match grown(s.key_parts, key_part_decoded(payload)) {
            Err(error) => Err(error),
            Ok(key_parts) => Ok(RulesState { key_parts, ..s }),
        }
    } else if tag == TAG_SET_INDEX_RULES {
        match grown(s.indexes, index_rules_decoded(payload)) {
            Err(error) => Err(error),
            Ok(indexes) => Ok(RulesState { indexes, ..s }),
        }
    } else if tag == TAG_SET_FOREIGN_KEY {
        match grown(s.foreign_keys, foreign_key_decoded(payload)) {
            Err(error) => Err(error),
            Ok(foreign_keys) => Ok(RulesState { foreign_keys, ..s }),
        }
    } else if tag == TAG_SET_INCOMING_FOREIGN_KEY {
        match grown(s.incoming_foreign_keys, incoming_decoded(payload)) {
            Err(error) => Err(error),
            Ok(incoming_foreign_keys) => Ok(RulesState { incoming_foreign_keys, ..s }),
        }
    } else if tag == TAG_SET_ROW {
        Err(RowCodecError::InvalidRow)
    } else {
        Ok(s)
    }
}

/// [`rules_step`] as a value.
pub open spec fn rules_steps() -> spec_fn(RulesState, u8, Seq<u8>) -> Result<RulesState, RowCodecError> {
    |s: RulesState, tag: u8, payload: Seq<u8>| rules_step(s, tag, payload)
}

/// Row rules that the fields describe.
pub open spec fn rules_finish(s: RulesState) -> Result<RulesView, RowCodecError> {
    if s.table is None {
        Err(RowCodecError::MissingField(TAG_SET_TABLE))
    } else if s.schema_revision is None {
        Err(RowCodecError::MissingField(TAG_SET_SCHEMA_REVISION))
    } else if s.primary_index is None {
        Err(RowCodecError::MissingField(TAG_SET_PRIMARY_INDEX))
    } else if s.storage is None {
        Err(RowCodecError::MissingField(TAG_SET_TABLE_STORAGE))
    } else {
        let x = RulesView {
            table: s.table->Some_0,
            schema_revision: s.schema_revision->Some_0,
            primary_index: s.primary_index->Some_0,
            storage: s.storage->Some_0,
            key_parts: s.key_parts,
            indexes: s.indexes,
            foreign_keys: s.foreign_keys,
            incoming_foreign_keys: s.incoming_foreign_keys,
        };
        match rules_fault(x) {
            Some(error) => Err(error),
            None => Ok(x),
        }
    }
}

/// What decoding a frame gives.
#[verifier::opaque]
pub open spec fn rules_decoded(b: Seq<u8>) -> Result<RulesView, RowCodecError> {
    if b.len() == 0 || b[0] != ROW_SET_FRAME_VERSION {
        Err(RowCodecError::UnknownVersion)
    } else {
        match run_fields(rules_start(), b.subrange(1, b.len() as int), rules_steps(), RowCodecError::Truncated) {
            Err(error) => Err(error),
            Ok(s) => rules_finish(s),
        }
    }
}

impl RowRules {
    /// Decode one complete frame.
    pub fn decode(frame: &[u8]) -> (r: Result<RowRules, RowCodecError>)
        ensures
            outcome(r) == rules_decoded(frame@),
    {
        broadcast use lemma_views_push;
        reveal(rules_decoded);
        let mut reader = Reader::new(frame);
        if reader.u8() != Some(ROW_SET_FRAME_VERSION) {
            return Err(RowCodecError::UnknownVersion);
        }
        let mut table: Option<TableId> = None;
        let mut schema_revision: Option<SchemaRevisionId> = None;
        let mut primary_index: Option<IndexId> = None;
        let mut storage: Option<TableStorage> = None;
        let mut key_parts: Vec<KeyPartRules> = Vec::new();
        let mut indexes: Vec<IndexRules> = Vec::new();
        let mut foreign_keys: Vec<ForeignKeyRules> = Vec::new();
        let mut incoming_foreign_keys: Vec<IncomingForeignKeyRules> = Vec::new();
        let ghost mut state = rules_start();
        assert(views(key_parts@) =~= Seq::<KeyPartView>::empty());
        assert(views(indexes@) =~= Seq::<IndexView>::empty());
        assert(views(foreign_keys@) =~= Seq::<ForeignKeyView>::empty());
        assert(views(incoming_foreign_keys@) =~= Seq::<IncomingView>::empty());
        while !reader.is_empty()
            invariant
                state == (RulesState {
                    table: view_of(table),
                    schema_revision: view_of(schema_revision),
                    primary_index: view_of(primary_index),
                    storage: storage,
                    key_parts: views(key_parts@),
                    indexes: views(indexes@),
                    foreign_keys: views(foreign_keys@),
                    incoming_foreign_keys: views(incoming_foreign_keys@),
                }),
                rules_decoded(frame@) == (match run_fields(
                    state,
                    reader.remaining(),
                    rules_steps(),
                    RowCodecError::Truncated,
                ) {
                    Err(error) => Err(error),
                    Ok(s) => rules_finish(s),
                }),
            decreases reader.remaining().len(),
        {
            let (tag, payload) = match reader.field() {
                Ok(Some(field)) => field,
                _ => {
                    return Err(RowCodecError::Truncated);
                },
            };
            let ghost next = rules_step(state, tag, payload@);
            assert(rules_steps()(state, tag, payload@) == next);
            if tag == TAG_SET_TABLE {
                match read_uuid(payload) {
                    Err(error) => {
                        return Err(error);
                    },
                    Ok(found) => {
                        if table.is_some() {
                            return Err(RowCodecError::DuplicateField);
                        }
                        table = Some(TableId(found));
                    },
                }
            } else if tag == TAG_SET_SCHEMA_REVISION {
                match read_uuid(payload) {
                    Err(error) => {
                        return Err(error);
                    },
                    Ok(found) => {
                        if schema_revision.is_some() {
                            return Err(RowCodecError::DuplicateField);
                        }
                        schema_revision = Some(SchemaRevisionId(found));
                    },
                }
            } else if tag == TAG_SET_PRIMARY_INDEX {
                match read_uuid(payload) {
                    Err(error) => {
                        return Err(error);
                    },
                    Ok(found) => {
                        if primary_index.is_some() {
                            return Err(RowCodecError::DuplicateField);
                        }
                        primary_index = Some(IndexId(found));
                    },
                }
            } else if tag == TAG_SET_TABLE_STORAGE {
                match read_table_storage(payload) {
                    Err(error) => {
                        return Err(error);
                    },
                    Ok(found) => {
                        if storage.is_some() {
                            return Err(RowCodecError::DuplicateField);
                        }
                        storage = Some(found);
                    },
                }
            } else if tag == TAG_SET_KEY_PART {
                match KeyPartRules::decode(payload) {
                    Err(error) => {
                        return Err(error);
                    },
                    Ok(found) => {
                        key_parts.push(found);
                    },
                }
            } else if tag == TAG_SET_INDEX_RULES {
                match IndexRules::decode(payload) {
                    Err(error) => {
                        return Err(error);
                    },
                    Ok(found) => {
                        indexes.push(found);
                    },
                }
            } else if tag == TAG_SET_FOREIGN_KEY {
                match ForeignKeyRules::decode(payload) {
                    Err(error) => {
                        return Err(error);
                    },
                    Ok(found) => {
                        foreign_keys.push(found);
                    },
                }
            } else if tag == TAG_SET_INCOMING_FOREIGN_KEY {
                match IncomingForeignKeyRules::decode(payload) {
                    Err(error) => {
                        return Err(error);
                    },
                    Ok(found) => {
                        incoming_foreign_keys.push(found);
                    },
                }
            } else if tag == TAG_SET_ROW {
                return Err(RowCodecError::InvalidRow);
            }
            proof {
                state = next->Ok_0;
            }
        }
        let table = match table {
            Some(found) => found,
            None => {
                return Err(RowCodecError::MissingField(TAG_SET_TABLE));
            },
        };
        let schema_revision = match schema_revision {
            Some(found) => found,
            None => {
                return Err(RowCodecError::MissingField(TAG_SET_SCHEMA_REVISION));
            },
        };
        let primary_index = match primary_index {
            Some(found) => found,
            None => {
                return Err(RowCodecError::MissingField(TAG_SET_PRIMARY_INDEX));
            },
        };
        let storage = match storage {
            Some(found) => found,
            None => {
                return Err(RowCodecError::MissingField(TAG_SET_TABLE_STORAGE));
            },
        };
        let r = RowRules { table, schema_revision, primary_index, storage, key_parts, indexes, foreign_keys, incoming_foreign_keys };
        if let Err(error) = r.validate() {
            return Err(error);
        }
        assert(r@ == rules_finish(state)->Ok_0);
        Ok(r)
    }
}

/// Whether a value is one that decoding can give.
pub open spec fn rules_valid(x: RulesView) -> bool {
    &&& random_uuid(x.table)
    &&& random_uuid(x.schema_revision)
    &&& random_uuid(x.primary_index)
    &&& forall|i: int| 0 <= i < x.key_parts.len() ==> key_part_valid(#[trigger] x.key_parts[i])
    &&& forall|i: int| 0 <= i < x.indexes.len() ==> index_rules_valid(#[trigger] x.indexes[i])
    &&& forall|i: int| 0 <= i < x.foreign_keys.len() ==> foreign_key_valid(#[trigger] x.foreign_keys[i])
    &&& forall|i: int| 0 <= i < x.incoming_foreign_keys.len() ==> incoming_valid(#[trigger] x.incoming_foreign_keys[i])
    &&& rules_fault(x) is None
}

/// Decoding the frame of row rules gives it back.
pub proof fn rules_roundtrip(x: RulesView)
    requires
        rules_valid(x),
        rules_fits(x),
    ensures
        rules_decoded(rules_frame(x)) == Ok::<RulesView, RowCodecError>(x),
{
    reveal(rules_decoded);
    reveal(rules_frame);
    let none = Seq::<(u8, Seq<u8>)>::empty();
    let f1 = none.push((TAG_SET_TABLE, x.table));
    let f2 = f1.push((TAG_SET_SCHEMA_REVISION, x.schema_revision));
    let f3 = f2.push((TAG_SET_PRIMARY_INDEX, x.primary_index));
    let f4 = f3.push((TAG_SET_TABLE_STORAGE, seq![x.storage.code()]));
    let f5 = f4 + key_part_list(TAG_SET_KEY_PART, x.key_parts);
    let f6 = f5 + index_rules_list(TAG_SET_INDEX_RULES, x.indexes);
    let f7 = f6 + foreign_key_list(TAG_SET_FOREIGN_KEY, x.foreign_keys);
    let f8 = f7 + incoming_list(TAG_SET_INCOMING_FOREIGN_KEY, x.incoming_foreign_keys);
    let step = rules_steps();
    let s0 = rules_start();
    assert(fields_fit(none));
    let s1 = RulesState { table: Some(x.table), ..s0 };
    assert(fold_fields(s0, f1, step) == Ok::<RulesState, RowCodecError>(s1) && fields_fit(f1)) by {
        lemma_fold_push(s0, none, TAG_SET_TABLE, x.table, step);
        lemma_fit_push(none, TAG_SET_TABLE, x.table);
        assert(step(s0, TAG_SET_TABLE, x.table) == Ok::<RulesState, RowCodecError>(s1));
    }
    let s2 = RulesState { schema_revision: Some(x.schema_revision), ..s1 };
    assert(fold_fields(s0, f2, step) == Ok::<RulesState, RowCodecError>(s2) && fields_fit(f2)) by {
        lemma_fold_push(s0, f1, TAG_SET_SCHEMA_REVISION, x.schema_revision, step);
        lemma_fit_push(f1, TAG_SET_SCHEMA_REVISION, x.schema_revision);
        assert(step(s1, TAG_SET_SCHEMA_REVISION, x.schema_revision) == Ok::<RulesState, RowCodecError>(s2));
    }
    let s3 = RulesState { primary_index: Some(x.primary_index), ..s2 };
    assert(fold_fields(s0, f3, step) == Ok::<RulesState, RowCodecError>(s3) && fields_fit(f3)) by {
        lemma_fold_push(s0, f2, TAG_SET_PRIMARY_INDEX, x.primary_index, step);
        lemma_fit_push(f2, TAG_SET_PRIMARY_INDEX, x.primary_index);
        assert(step(s2, TAG_SET_PRIMARY_INDEX, x.primary_index) == Ok::<RulesState, RowCodecError>(s3));
    }
    let s4 = RulesState { storage: Some(x.storage), ..s3 };
    assert(fold_fields(s0, f4, step) == Ok::<RulesState, RowCodecError>(s4) && fields_fit(f4)) by {
        lemma_fold_push(s0, f3, TAG_SET_TABLE_STORAGE, seq![x.storage.code()], step);
        lemma_fit_push(f3, TAG_SET_TABLE_STORAGE, seq![x.storage.code()]);
        assert(step(s3, TAG_SET_TABLE_STORAGE, seq![x.storage.code()]) == Ok::<RulesState, RowCodecError>(s4));
    }
    let s5 = RulesState { key_parts: x.key_parts, ..s4 };
    assert(fold_fields(s0, f5, step) == Ok::<RulesState, RowCodecError>(s5) && fields_fit(f5)) by {
        let states = |i: int| RulesState { key_parts: x.key_parts.subrange(0, i), ..s4 };
        let fields = key_part_list(TAG_SET_KEY_PART, x.key_parts);
        assert forall|i: int| 0 <= i < fields.len() implies #[trigger] step(
            states(i),
            fields[i].0,
            fields[i].1,
        ) == Ok::<RulesState, RowCodecError>(states(i + 1)) by {
            key_part_roundtrip(x.key_parts[i]);
            assert(x.key_parts.subrange(0, i).push(x.key_parts[i]) =~= x.key_parts.subrange(0, i + 1));
        }
        assert(states(0) =~= s4);
        lemma_fold_list(s0, f4, fields, states, step);
        assert(states(fields.len() as int) =~= s5);
        assert forall|i: int| 0 <= i < fields.len() implies fits((#[trigger] fields[i]).1) by {
            assert(key_part_valid(x.key_parts[i]));
            lemma_key_part_len(x.key_parts[i]);
        }
        lemma_fit_concat(f4, fields);
    }
    let s6 = RulesState { indexes: x.indexes, ..s5 };
    assert(fold_fields(s0, f6, step) == Ok::<RulesState, RowCodecError>(s6) && fields_fit(f6)) by {
        let states = |i: int| RulesState { indexes: x.indexes.subrange(0, i), ..s5 };
        let fields = index_rules_list(TAG_SET_INDEX_RULES, x.indexes);
        assert forall|i: int| 0 <= i < fields.len() implies #[trigger] step(
            states(i),
            fields[i].0,
            fields[i].1,
        ) == Ok::<RulesState, RowCodecError>(states(i + 1)) by {
            index_rules_roundtrip(x.indexes[i]);
            assert(x.indexes.subrange(0, i).push(x.indexes[i]) =~= x.indexes.subrange(0, i + 1));
        }
        assert(states(0) =~= s5);
        lemma_fold_list(s0, f5, fields, states, step);
        assert(states(fields.len() as int) =~= s6);
        assert forall|i: int| 0 <= i < fields.len() implies fits((#[trigger] fields[i]).1) by {
            assert(index_rules_valid(x.indexes[i]));
            let item = x.indexes[i];
        }
        lemma_fit_concat(f5, fields);
    }
    let s7 = RulesState { foreign_keys: x.foreign_keys, ..s6 };
    assert(fold_fields(s0, f7, step) == Ok::<RulesState, RowCodecError>(s7) && fields_fit(f7)) by {
        let states = |i: int| RulesState { foreign_keys: x.foreign_keys.subrange(0, i), ..s6 };
        let fields = foreign_key_list(TAG_SET_FOREIGN_KEY, x.foreign_keys);
        assert forall|i: int| 0 <= i < fields.len() implies #[trigger] step(
            states(i),
            fields[i].0,
            fields[i].1,
        ) == Ok::<RulesState, RowCodecError>(states(i + 1)) by {
            foreign_key_roundtrip(x.foreign_keys[i]);
            assert(x.foreign_keys.subrange(0, i).push(x.foreign_keys[i]) =~= x.foreign_keys.subrange(0, i + 1));
        }
        assert(states(0) =~= s6);
        lemma_fold_list(s0, f6, fields, states, step);
        assert(states(fields.len() as int) =~= s7);
        assert forall|i: int| 0 <= i < fields.len() implies fits((#[trigger] fields[i]).1) by {
            assert(foreign_key_valid(x.foreign_keys[i]));
            let item = x.foreign_keys[i];
        }
        lemma_fit_concat(f6, fields);
    }
    let s8 = RulesState { incoming_foreign_keys: x.incoming_foreign_keys, ..s7 };
    assert(fold_fields(s0, f8, step) == Ok::<RulesState, RowCodecError>(s8) && fields_fit(f8)) by {
        let states = |i: int| RulesState { incoming_foreign_keys: x.incoming_foreign_keys.subrange(0, i), ..s7 };
        let fields = incoming_list(TAG_SET_INCOMING_FOREIGN_KEY, x.incoming_foreign_keys);
        assert forall|i: int| 0 <= i < fields.len() implies #[trigger] step(
            states(i),
            fields[i].0,
            fields[i].1,
        ) == Ok::<RulesState, RowCodecError>(states(i + 1)) by {
            incoming_roundtrip(x.incoming_foreign_keys[i]);
            assert(x.incoming_foreign_keys.subrange(0, i).push(x.incoming_foreign_keys[i]) =~= x.incoming_foreign_keys.subrange(0, i + 1));
        }
        assert(states(0) =~= s7);
        lemma_fold_list(s0, f7, fields, states, step);
        assert(states(fields.len() as int) =~= s8);
        assert forall|i: int| 0 <= i < fields.len() implies fits((#[trigger] fields[i]).1) by {
            assert(incoming_valid(x.incoming_foreign_keys[i]));
            let item = x.incoming_foreign_keys[i];
        }
        lemma_fit_concat(f7, fields);
    }
    lemma_run_fold(s0, f8, step, RowCodecError::Truncated);
    assert(f8 == rules_fields(x));
    let b = rules_frame(x);
    assert(b.subrange(1, b.len() as int) =~= fields_bytes(f8));
    assert(rules_finish(s8) == Ok::<RulesView, RowCodecError>(x));
}

/// The bytes that known fields of row rules take.
pub open spec fn rules_size(s: RulesState) -> nat {
    let table: nat = match s.table {
        Some(value) => 5 + value.len(),
        None => 0,
    };
    let schema_revision: nat = match s.schema_revision {
        Some(value) => 5 + value.len(),
        None => 0,
    };
    let primary_index: nat = match s.primary_index {
        Some(value) => 5 + value.len(),
        None => 0,
    };
    let storage: nat = match s.storage {
        Some(value) => 5 + seq![value.code()].len(),
        None => 0,
    };
    let key_parts = fields_bytes(key_part_list(TAG_SET_KEY_PART, s.key_parts)).len();
    let indexes = fields_bytes(index_rules_list(TAG_SET_INDEX_RULES, s.indexes)).len();
    let foreign_keys = fields_bytes(foreign_key_list(TAG_SET_FOREIGN_KEY, s.foreign_keys)).len();
    let incoming_foreign_keys = fields_bytes(incoming_list(TAG_SET_INCOMING_FOREIGN_KEY, s.incoming_foreign_keys)).len();
    table + schema_revision + primary_index + storage + key_parts + indexes + foreign_keys + incoming_foreign_keys
}

/// Whether known fields of row rules are sound and can be written again.
pub open spec fn rules_sound(s: RulesState) -> bool {
    &&& (s.table matches Some(value) ==> random_uuid(value) && fits(value))
    &&& (s.schema_revision matches Some(value) ==> random_uuid(value) && fits(value))
    &&& (s.primary_index matches Some(value) ==> random_uuid(value) && fits(value))
    &&& (s.storage matches Some(value) ==> fits(seq![value.code()]))
    &&& forall|i: int| 0 <= i < s.key_parts.len() ==> key_part_valid(#[trigger] s.key_parts[i]) && fits(key_part_frame(s.key_parts[i]))
    &&& forall|i: int| 0 <= i < s.indexes.len() ==> index_rules_valid(#[trigger] s.indexes[i]) && fits(index_rules_frame(s.indexes[i]))
    &&& forall|i: int| 0 <= i < s.foreign_keys.len() ==> foreign_key_valid(#[trigger] s.foreign_keys[i]) && fits(foreign_key_frame(s.foreign_keys[i]))
    &&& forall|i: int| 0 <= i < s.incoming_foreign_keys.len() ==> incoming_valid(#[trigger] s.incoming_foreign_keys[i]) && fits(incoming_frame(s.incoming_foreign_keys[i]))
}

/// One field adds no more than its own bytes.
proof fn lemma_rules_step(s: RulesState, tag: u8, payload: Seq<u8>)
    requires
        rules_sound(s),
        fits(payload),
    ensures
        rules_step(s, tag, payload) matches Ok(next) ==> rules_sound(next) && rules_size(next) <= rules_size(
            s,
        ) + 5 + payload.len(),
{
    if let Ok(next) = rules_step(s, tag, payload) {
        if tag == TAG_SET_TABLE {
        } else if tag == TAG_SET_SCHEMA_REVISION {
        } else if tag == TAG_SET_PRIMARY_INDEX {
        } else if tag == TAG_SET_TABLE_STORAGE {
        } else if tag == TAG_SET_KEY_PART {
            key_part_shrinks(payload);
            let found = key_part_decoded(payload)->Ok_0;
            assert(key_part_list(TAG_SET_KEY_PART, s.key_parts.push(found)) =~= key_part_list(TAG_SET_KEY_PART, s.key_parts).push(
                (TAG_SET_KEY_PART, key_part_frame(found)),
            ));
            lemma_fields_len(key_part_list(TAG_SET_KEY_PART, s.key_parts), TAG_SET_KEY_PART, key_part_frame(found));
        } else if tag == TAG_SET_INDEX_RULES {
            index_rules_shrinks(payload);
            let found = index_rules_decoded(payload)->Ok_0;
            assert(index_rules_list(TAG_SET_INDEX_RULES, s.indexes.push(found)) =~= index_rules_list(TAG_SET_INDEX_RULES, s.indexes).push(
                (TAG_SET_INDEX_RULES, index_rules_frame(found)),
            ));
            lemma_fields_len(index_rules_list(TAG_SET_INDEX_RULES, s.indexes), TAG_SET_INDEX_RULES, index_rules_frame(found));
        } else if tag == TAG_SET_FOREIGN_KEY {
            foreign_key_shrinks(payload);
            let found = foreign_key_decoded(payload)->Ok_0;
            assert(foreign_key_list(TAG_SET_FOREIGN_KEY, s.foreign_keys.push(found)) =~= foreign_key_list(TAG_SET_FOREIGN_KEY, s.foreign_keys).push(
                (TAG_SET_FOREIGN_KEY, foreign_key_frame(found)),
            ));
            lemma_fields_len(foreign_key_list(TAG_SET_FOREIGN_KEY, s.foreign_keys), TAG_SET_FOREIGN_KEY, foreign_key_frame(found));
        } else if tag == TAG_SET_INCOMING_FOREIGN_KEY {
            incoming_shrinks(payload);
            let found = incoming_decoded(payload)->Ok_0;
            assert(incoming_list(TAG_SET_INCOMING_FOREIGN_KEY, s.incoming_foreign_keys.push(found)) =~= incoming_list(TAG_SET_INCOMING_FOREIGN_KEY, s.incoming_foreign_keys).push(
                (TAG_SET_INCOMING_FOREIGN_KEY, incoming_frame(found)),
            ));
            lemma_fields_len(incoming_list(TAG_SET_INCOMING_FOREIGN_KEY, s.incoming_foreign_keys), TAG_SET_INCOMING_FOREIGN_KEY, incoming_frame(found));
        }
    }
}

/// What decoding gives is sound and takes no more bytes than it was read from.
pub proof fn rules_shrinks(b: Seq<u8>)
    ensures
        rules_decoded(b) matches Ok(x) ==> rules_valid(x) && rules_fits(x) && rules_frame(x).len() <= b.len(),
{
    reveal(rules_decoded);
    reveal(rules_frame);
    if let Ok(x) = rules_decoded(b) {
        let body = b.subrange(1, b.len() as int);
        let good = |s: RulesState| rules_sound(s);
        let size = |s: RulesState| rules_size(s);
        let step = rules_steps();
        let s0 = rules_start();
        let end = run_fields(s0, body, step, RowCodecError::Truncated)->Ok_0;
        assert forall|s: RulesState, tag: u8, payload: Seq<u8>|
            good(s) && fits(payload) && (#[trigger] step(s, tag, payload)) is Ok implies good(
            step(s, tag, payload)->Ok_0,
        ) && size(step(s, tag, payload)->Ok_0) <= size(s) + 5 + payload.len() by {
            lemma_rules_step(s, tag, payload);
        }
        lemma_run_bounded(s0, body, step, good, size, RowCodecError::Truncated);
        assert(rules_sound(end));
        let none = Seq::<(u8, Seq<u8>)>::empty();
        assert(fields_bytes(none).len() == 0);
        let f1 = none.push((TAG_SET_TABLE, x.table));
        lemma_fields_len(none, TAG_SET_TABLE, x.table);
        let f2 = f1.push((TAG_SET_SCHEMA_REVISION, x.schema_revision));
        lemma_fields_len(f1, TAG_SET_SCHEMA_REVISION, x.schema_revision);
        let f3 = f2.push((TAG_SET_PRIMARY_INDEX, x.primary_index));
        lemma_fields_len(f2, TAG_SET_PRIMARY_INDEX, x.primary_index);
        let f4 = f3.push((TAG_SET_TABLE_STORAGE, seq![x.storage.code()]));
        lemma_fields_len(f3, TAG_SET_TABLE_STORAGE, seq![x.storage.code()]);
        let f5 = f4 + key_part_list(TAG_SET_KEY_PART, x.key_parts);
        lemma_fields_concat(f4, key_part_list(TAG_SET_KEY_PART, x.key_parts));
        let f6 = f5 + index_rules_list(TAG_SET_INDEX_RULES, x.indexes);
        lemma_fields_concat(f5, index_rules_list(TAG_SET_INDEX_RULES, x.indexes));
        let f7 = f6 + foreign_key_list(TAG_SET_FOREIGN_KEY, x.foreign_keys);
        lemma_fields_concat(f6, foreign_key_list(TAG_SET_FOREIGN_KEY, x.foreign_keys));
        let f8 = f7 + incoming_list(TAG_SET_INCOMING_FOREIGN_KEY, x.incoming_foreign_keys);
        lemma_fields_concat(f7, incoming_list(TAG_SET_INCOMING_FOREIGN_KEY, x.incoming_foreign_keys));
        assert(key_part_list(TAG_SET_KEY_PART, Seq::<KeyPartView>::empty()) =~= none);
        assert(index_rules_list(TAG_SET_INDEX_RULES, Seq::<IndexView>::empty()) =~= none);
        assert(foreign_key_list(TAG_SET_FOREIGN_KEY, Seq::<ForeignKeyView>::empty()) =~= none);
        assert(incoming_list(TAG_SET_INCOMING_FOREIGN_KEY, Seq::<IncomingView>::empty()) =~= none);
        assert(f8 == rules_fields(x));
        assert(rules_size(s0) == 0);
        assert(fields_bytes(f8).len() == rules_size(end));
    }
}

} // verus!
