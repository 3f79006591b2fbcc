//! Row images and their frames.

use super::codec::{decode_stored_value, read_uuid, stored_value_field, uuid_field};
use super::error::RowCodecError;
use super::rules::{RowRules, TAG_COLUMN_ID};
use crate::bytes::{
    copy_bytes, fields_bytes, fields_fit, fits, fold_fields, lemma_fields_concat, lemma_fields_len, lemma_fit_concat,
    lemma_fit_push, lemma_fold_list, lemma_fold_push, lemma_run_bounded, lemma_run_fold,
    run_fields, FrameWriter,
    Reader,
};
use crate::codec::{filled, grown, lemma_views_push, outcome, view_of, views};
use crate::identity::{random_uuid, ColumnId, SchemaRevisionId};
use crate::value::{value_frame, value_roundtrip, value_shrinks, StoredValue, ValueView};
use vstd::prelude::*;

verus! {

/// Version of the frame under which a row is stored.
pub const ROW_FRAME_VERSION: u8 = 6;

/// Version of the frame of a row image inside an operation.
pub const ROW_IMAGE_FRAME_VERSION: u8 = 1;

/// Version of the frame of a row's change.
pub const ROW_DELTA_FRAME_VERSION: u8 = 1;

/// Marks the schema revision of a stored row.
pub const TAG_SCHEMA_REVISION: u8 = 1;

/// Marks a value in its column.
pub const TAG_VALUE: u8 = 2;

/// Marks a column's value in a row.
pub const TAG_COLUMN_VALUE: u8 = 4;

/// Marks the image before a change.
pub const TAG_DELTA_BEFORE: u8 = 1;

/// Marks the image after a change.
pub const TAG_DELTA_AFTER: u8 = 2;

/// One column of a row and its value.
#[derive(Debug, PartialEq, Eq)]
pub struct Cell {
    pub column: ColumnId,
    pub value: StoredValue,
}

/// A cell as a mathematical value.
#[verifier::ext_equal]
pub struct CellView {
    pub column: Seq<u8>,
    pub value: ValueView,
}

impl View for Cell {
    type V = CellView;

    open spec fn view(&self) -> CellView {
        CellView {
            column: self.column@,
            value: self.value@,
        }
    }
}

impl Clone for Cell {
    fn clone(&self) -> (r: Self)
        ensures
            r@ == self@,
    {
        Cell {
            column: self.column,
            value: self.value.clone(),
        }
    }
}

impl Cell {
    /// Whether two values are equal.
    pub fn same(&self, other: &Cell) -> (r: bool)
        ensures
            r == (self@ == other@),
    {
        self.column.same(&other.column)
            && self.value.same(&other.value)
    }
}

/// A copy of a list.
pub fn clone_cells(items: &Vec<Cell>) -> (r: Vec<Cell>)
    ensures
        views(r@) == views(items@),
{
    let mut r: Vec<Cell> = Vec::new();
    let mut i: usize = 0;
    while i < items.len()
        invariant
            i <= items@.len(),
            r@.len() == i,
            forall|j: int| 0 <= j < i ==> (#[trigger] r@[j])@ == items@[j]@,
        decreases items.len() - i,
    {
        r.push(items[i].clone());
        i += 1;
    }
    assert(views(r@) =~= views(items@));
    r
}

/// Whether two lists hold equal items.
pub fn same_cells(a: &Vec<Cell>, b: &Vec<Cell>) -> (r: bool)
    ensures
        r == (views(a@) == views(b@)),
{
    if a.len() != b.len() {
        assert(views(a@).len() != views(b@).len());
        return false;
    }
    let mut i: usize = 0;
    while i < a.len()
        invariant
            i <= a@.len(),
            a@.len() == b@.len(),
            forall|j: int| 0 <= j < i ==> views(a@)[j] == views(b@)[j],
        decreases a.len() - i,
    {
        if !a[i].same(&b[i]) {
            assert(views(a@)[i as int] != views(b@)[i as int]);
            return false;
        }
        i += 1;
    }
    assert(views(a@) =~= views(b@));
    true
}

/// The fields of the frame of a cell.
pub open spec fn cell_fields(x: CellView) -> Seq<(u8, Seq<u8>)> {
    let none = Seq::<(u8, Seq<u8>)>::empty();
    let f1 = none.push((TAG_COLUMN_ID, x.column));
    let f2 = f1.push((TAG_VALUE, value_frame(x.value)));
    f2
}

/// The frame of a cell.
#[verifier::opaque]
pub open spec fn cell_frame(x: CellView) -> Seq<u8> {
    fields_bytes(cell_fields(x))
}

/// Whether every field of the frame has a length that a `u32` holds.
pub open spec fn cell_fits(x: CellView) -> bool {
    &&& fits(value_frame(x.value))
}

/// The fields of a list under one tag, each with its own frame.
pub open spec fn cell_list(tag: u8, items: Seq<CellView>) -> Seq<(u8, Seq<u8>)> {
    Seq::new(items.len(), |i: int| (tag, cell_frame(items[i])))
}

/// Write the fields of a list under one tag.
pub fn write_cells(w: FrameWriter, tag: u8, items: &Vec<Cell>) -> (r: FrameWriter)
    requires
        forall|i: int| 0 <= i < items@.len() ==> cell_fits(#[trigger] views(items@)[i]) && fits(cell_frame(views(items@)[i])),
    ensures
        r.head() == w.head(),
        r.fields() == w.fields() + cell_list(tag, views(items@)),
{
    let ghost list = cell_list(tag, views(items@));
    let ghost head = w.head();
    let ghost before = w.fields();
    let mut w = w;
    let mut i: usize = 0;
    assert(before + list.subrange(0, 0) =~= before);
    while i < items.len()
        invariant
            i <= items@.len(),
            list == cell_list(tag, views(items@)),
            w.head() == head,
            w.fields() == before + list.subrange(0, i as int),
            forall|i: int| 0 <= i < items@.len() ==> cell_fits(#[trigger] views(items@)[i]) && fits(cell_frame(views(items@)[i])),
        decreases items.len() - i,
    {
        assert(views(items@)[i as int] == items@[i as int]@);
        let item = items[i].encode();
        w = w.field(tag, item.as_slice());
        assert(w.fields() =~= before + list.subrange(0, i as int + 1));
        i += 1;
    }
    assert(list.subrange(0, i as int) =~= list);
    w
}

impl Cell {
    /// Encode the frame.
    pub fn encode(&self) -> (r: Vec<u8>)
        requires
            cell_fits(self@),
        ensures
            r@ == cell_frame(self@),
    {
        let w = FrameWriter::new();
        let column = copy_bytes(&self.column.as_bytes());
        let w = w.field(TAG_COLUMN_ID, column.as_slice());
        let value = self.value.encode();
        let w = w.field(TAG_VALUE, value.as_slice());
        assert(w.fields() =~= cell_fields(self@));
        reveal(cell_frame);
        w.finish()
    }
}

/// What is known of a cell after some of its fields.
#[verifier::ext_equal]
pub struct CellState {
    pub column: Option<Seq<u8>>,
    pub value: Option<ValueView>,
}

/// Nothing is known before the first field.
pub open spec fn cell_start() -> CellState {
    CellState {
        column: None,
        value: None,
    }
}

/// What one field adds.
pub open spec fn cell_step(s: CellState, tag: u8, payload: Seq<u8>) -> Result<CellState, RowCodecError> {
    if tag == TAG_COLUMN_ID {
        match filled(s.column, uuid_field(payload), RowCodecError::DuplicateField) {
            Err(error) => Err(error),
            Ok(column) => Ok(CellState { column, ..s }),
        }
    } else if tag == TAG_VALUE {
        match filled(s.value, stored_value_field(payload), RowCodecError::DuplicateField) {
            Err(error) => Err(error),
            Ok(value) => Ok(CellState { value, ..s }),
        }
    } else {
        Ok(s)
    }
}

/// [`cell_step`] as a value.
pub open spec fn cell_steps() -> spec_fn(CellState, u8, Seq<u8>) -> Result<CellState, RowCodecError> {
    |s: CellState, tag: u8, payload: Seq<u8>| cell_step(s, tag, payload)
}

/// A cell that the fields describe.
pub open spec fn cell_finish(s: CellState) -> Result<CellView, RowCodecError> {
    if s.column is None {
        Err(RowCodecError::MissingField(TAG_COLUMN_ID))
    } else if s.value is None {
        Err(RowCodecError::MissingField(TAG_VALUE))
    } else {
        Ok(CellView {
            column: s.column->Some_0,
            value: s.value->Some_0,
        })
    }
}

/// What decoding a frame gives.
#[verifier::opaque]
pub open spec fn cell_decoded(b: Seq<u8>) -> Result<CellView, RowCodecError> {
    match run_fields(cell_start(), b, cell_steps(), RowCodecError::Truncated) {
        Err(error) => Err(error),
        Ok(s) => cell_finish(s),
    }
}

impl Cell {
    /// Decode one complete frame.
    pub fn decode(frame: &[u8]) -> (r: Result<Cell, RowCodecError>)
        ensures
            outcome(r) == cell_decoded(frame@),
    {
        broadcast use lemma_views_push;
        reveal(cell_decoded);
        let mut reader = Reader::new(frame);
        let mut column: Option<ColumnId> = None;
        let mut value: Option<StoredValue> = None;
        let ghost mut state = cell_start();
        while !reader.is_empty()
            invariant
                state == (CellState {
                    column: view_of(column),
                    value: view_of(value),
                }),
                cell_decoded(frame@) == (match run_fields(
                    state,
                    reader.remaining(),
                    cell_steps(),
                    RowCodecError::Truncated,
                ) {
                    Err(error) => Err(error),
                    Ok(s) => cell_finish(s),
                }),
            decreases reader.remaining().len(),
        {
            let (tag, payload) = match reader.field() {
                Ok(Some(field)) => field,
                _ => {
                    return Err(RowCodecError::Truncated);
                },
            };
            let ghost next = cell_step(state, tag, payload@);
            assert(cell_steps()(state, tag, payload@) == next);
            if tag == TAG_COLUMN_ID {
                match read_uuid(payload) {
                    Err(error) => {
                        return Err(error);
                    },
                    Ok(found) => {
                        if column.is_some() {
                            return Err(RowCodecError::DuplicateField);
                        }
                        column = Some(ColumnId(found));
                    },
                }
            } else if tag == TAG_VALUE {
                match decode_stored_value(payload) {
                    Err(error) => {
                        return Err(error);
                    },
                    Ok(found) => {
                        if value.is_some() {
                            return Err(RowCodecError::DuplicateField);
                        }
                        value = Some(found);
                    },
                }
            }
            proof {
                state = next->Ok_0;
            }
        }
        let column = match column {
            Some(found) => found,
            None => {
                return Err(RowCodecError::MissingField(TAG_COLUMN_ID));
            },
        };
        let value = match value {
            Some(found) => found,
            None => {
                return Err(RowCodecError::MissingField(TAG_VALUE));
            },
        };
        let r = Cell { column, value };
        assert(r@ == cell_finish(state)->Ok_0);
        Ok(r)
    }
}

/// Whether a value is one that decoding can give.
pub open spec fn cell_valid(x: CellView) -> bool {
    &&& random_uuid(x.column)
}

/// Decoding the frame of a cell gives it back.
pub proof fn cell_roundtrip(x: CellView)
    requires
        cell_valid(x),
        cell_fits(x),
    ensures
        cell_decoded(cell_frame(x)) == Ok::<CellView, RowCodecError>(x),
{
    reveal(cell_decoded);
    reveal(cell_frame);
    let none = Seq::<(u8, Seq<u8>)>::empty();
    let f1 = none.push((TAG_COLUMN_ID, x.column));
    let f2 = f1.push((TAG_VALUE, value_frame(x.value)));
    let step = cell_steps();
    let s0 = cell_start();
    assert(fields_fit(none));
    let s1 = CellState { column: Some(x.column), ..s0 };
    assert(fold_fields(s0, f1, step) == Ok::<CellState, RowCodecError>(s1) && fields_fit(f1)) by {
        lemma_fold_push(s0, none, TAG_COLUMN_ID, x.column, step);
        lemma_fit_push(none, TAG_COLUMN_ID, x.column);
        assert(step(s0, TAG_COLUMN_ID, x.column) == Ok::<CellState, RowCodecError>(s1));
    }
    let s2 = CellState { value: Some(x.value), ..s1 };
    assert(fold_fields(s0, f2, step) == Ok::<CellState, RowCodecError>(s2) && fields_fit(f2)) by {
        value_roundtrip(x.value);
        lemma_fold_push(s0, f1, TAG_VALUE, value_frame(x.value), step);
        lemma_fit_push(f1, TAG_VALUE, value_frame(x.value));
        assert(step(s1, TAG_VALUE, value_frame(x.value)) == Ok::<CellState, RowCodecError>(s2));
    }
    lemma_run_fold(s0, f2, step, RowCodecError::Truncated);
    assert(f2 == cell_fields(x));
    assert(cell_finish(s2) == Ok::<CellView, RowCodecError>(x));
}

/// The bytes that known fields of a cell take.
pub open spec fn cell_size(s: CellState) -> nat {
    let column: nat = match s.column {
        Some(value) => 5 + value.len(),
        None => 0,
    };
    let value: nat = match s.value {
        Some(value) => 5 + value_frame(value).len(),
        None => 0,
    };
    column + value
}

/// Whether known fields of a cell are sound and can be written again.
pub open spec fn cell_sound(s: CellState) -> bool {
    &&& (s.column matches Some(value) ==> random_uuid(value) && fits(value))
    &&& (s.value matches Some(value) ==> fits(value_frame(value)))
}

/// One field adds no more than its own bytes.
proof fn lemma_cell_step(s: CellState, tag: u8, payload: Seq<u8>)
    requires
        cell_sound(s),
        fits(payload),
    ensures
        cell_step(s, tag, payload) matches Ok(next) ==> cell_sound(next) && cell_size(next) <= cell_size(
            s,
        ) + 5 + payload.len(),
{
    if let Ok(next) = cell_step(s, tag, payload) {
        if tag == TAG_COLUMN_ID {
        } else if tag == TAG_VALUE {
            value_shrinks(payload);
        }
    }
}

/// What decoding gives is sound and takes no more bytes than it was read from.
pub proof fn cell_shrinks(b: Seq<u8>)
    ensures
        cell_decoded(b) matches Ok(x) ==> cell_valid(x) && cell_fits(x) && cell_frame(x).len() <= b.len(),
{
    reveal(cell_decoded);
    reveal(cell_frame);
    if let Ok(x) = cell_decoded(b) {
        let body = b;
        let good = |s: CellState| cell_sound(s);
        let size = |s: CellState| cell_size(s);
        let step = cell_steps();
        let s0 = cell_start();
        let end = run_fields(s0, body, step, RowCodecError::Truncated)->Ok_0;
        assert forall|s: CellState, tag: u8, payload: Seq<u8>|
            good(s) && fits(payload) && (#[trigger] step(s, tag, payload)) is Ok implies good(
            step(s, tag, payload)->Ok_0,
        ) && size(step(s, tag, payload)->Ok_0) <= size(s) + 5 + payload.len() by {
            lemma_cell_step(s, tag, payload);
        }
        lemma_run_bounded(s0, body, step, good, size, RowCodecError::Truncated);
        assert(cell_sound(end));
        let none = Seq::<(u8, Seq<u8>)>::empty();
        assert(fields_bytes(none).len() == 0);
        let f1 = none.push((TAG_COLUMN_ID, x.column));
        lemma_fields_len(none, TAG_COLUMN_ID, x.column);
        let f2 = f1.push((TAG_VALUE, value_frame(x.value)));
        lemma_fields_len(f1, TAG_VALUE, value_frame(x.value));
        assert(f2 == cell_fields(x));
        assert(cell_size(s0) == 0);
        assert(fields_bytes(f2).len() == cell_size(end));
    }
}

/// The columns of cells, in order.
pub open spec fn cell_columns(values: Seq<CellView>) -> Seq<Seq<u8>> {
    Seq::new(values.len(), |i: int| values[i].column)
}

/// The value of the first cell of a column.
pub open spec fn value_in(values: Seq<CellView>, column: Seq<u8>) -> Option<ValueView>
    decreases values.len(),
{
    if values.len() == 0 {
        None
    } else if values[0].column == column {
        Some(values[0].value)
    } else {
        value_in(values.drop_first(), column)
    }
}

/// Whether no two cells share a column.
fn distinct_cells(values: &[Cell]) -> (r: bool)
    ensures
        r == cell_columns(views(values@)).no_duplicates(),
{
    let ghost columns = cell_columns(views(values@));
    let mut i: usize = 0;
    while i < values.len()
        invariant
            i <= values@.len(),
            columns == cell_columns(views(values@)),
            forall|a: int, b: int| 0 <= a < b < i ==> columns[a] != columns[b],
        decreases values.len() - i,
    {
        let mut j: usize = 0;
        while j < i
            invariant
                j <= i < values@.len(),
                columns == cell_columns(views(values@)),
                forall|a: int| 0 <= a < j ==> columns[a] != columns[i as int],
            decreases i - j,
        {
            if values[j].column.same(&values[i].column) {
                assert(columns[j as int] == columns[i as int]);
                return false;
            }
            j += 1;
        }
        i += 1;
    }
    true
}

/// One complete row image.
#[derive(Debug, PartialEq, Eq)]
pub struct Row {
    pub values: Vec<Cell>,
}

/// A row as a mathematical value.
#[verifier::ext_equal]
pub struct RowView {
    pub values: Seq<CellView>,
}

impl View for Row {
    type V = RowView;

    open spec fn view(&self) -> RowView {
        RowView {
            values: views(self.values@),
        }
    }
}

impl Clone for Row {
    fn clone(&self) -> (r: Self)
        ensures
            r@ == self@,
    {
        Row {
            values: clone_cells(&self.values),
        }
    }
}

impl Row {
    /// Whether two values are equal.
    pub fn same(&self, other: &Row) -> (r: bool)
        ensures
            r == (self@ == other@),
    {
        same_cells(&self.values, &other.values)
    }
}

/// A copy of a list.
pub fn clone_rows(items: &Vec<Row>) -> (r: Vec<Row>)
    ensures
        views(r@) == views(items@),
{
    let mut r: Vec<Row> = Vec::new();
    let mut i: usize = 0;
    while i < items.len()
        invariant
            i <= items@.len(),
            r@.len() == i,
            forall|j: int| 0 <= j < i ==> (#[trigger] r@[j])@ == items@[j]@,
        decreases items.len() - i,
    {
        r.push(items[i].clone());
        i += 1;
    }
    assert(views(r@) =~= views(items@));
    r
}

/// Whether two lists hold equal items.
pub fn same_rows(a: &Vec<Row>, b: &Vec<Row>) -> (r: bool)
    ensures
        r == (views(a@) == views(b@)),
{
    if a.len() != b.len() {
        assert(views(a@).len() != views(b@).len());
        return false;
    }
    let mut i: usize = 0;
    while i < a.len()
        invariant
            i <= a@.len(),
            a@.len() == b@.len(),
            forall|j: int| 0 <= j < i ==> views(a@)[j] == views(b@)[j],
        decreases a.len() - i,
    {
        if !a[i].same(&b[i]) {
            assert(views(a@)[i as int] != views(b@)[i as int]);
            return false;
        }
        i += 1;
    }
    assert(views(a@) =~= views(b@));
    true
}

/// The fields of the frame of a row image.
pub open spec fn row_fields(x: RowView) -> Seq<(u8, Seq<u8>)> {
    let none = Seq::<(u8, Seq<u8>)>::empty();
    let f1 = none + cell_list(TAG_COLUMN_VALUE, x.values);
    f1
}

/// The frame of a row image.
#[verifier::opaque]
pub open spec fn row_frame(x: RowView) -> Seq<u8> {
    seq![ROW_IMAGE_FRAME_VERSION] + fields_bytes(row_fields(x))
}

/// Whether every field of the frame has a length that a `u32` holds.
pub open spec fn row_fits(x: RowView) -> bool {
    &&& forall|i: int| 0 <= i < x.values.len() ==> cell_fits(#[trigger] x.values[i]) && fits(cell_frame(x.values[i]))
}

/// The fields of a list under one tag, each with its own frame.
pub open spec fn row_list(tag: u8, items: Seq<RowView>) -> Seq<(u8, Seq<u8>)> {
    Seq::new(items.len(), |i: int| (tag, row_frame(items[i])))
}

/// Write the fields of a list under one tag.
pub fn write_rows(w: FrameWriter, tag: u8, items: &Vec<Row>) -> (r: FrameWriter)
    requires
        forall|i: int| 0 <= i < items@.len() ==> row_fits(#[trigger] views(items@)[i]) && fits(row_frame(views(items@)[i])),
    ensures
        r.head() == w.head(),
        r.fields() == w.fields() + row_list(tag, views(items@)),
{
    let ghost list = row_list(tag, views(items@));
    let ghost head = w.head();
    let ghost before = w.fields();
    let mut w = w;
    let mut i: usize = 0;
    assert(before + list.subrange(0, 0) =~= before);
    while i < items.len()
        invariant
            i <= items@.len(),
            list == row_list(tag, views(items@)),
            w.head() == head,
            w.fields() == before + list.subrange(0, i as int),
            forall|i: int| 0 <= i < items@.len() ==> row_fits(#[trigger] views(items@)[i]) && fits(row_frame(views(items@)[i])),
        decreases items.len() - i,
    {
        assert(views(items@)[i as int] == items@[i as int]@);
        let item = items[i].encode();
        w = w.field(tag, item.as_slice());
        assert(w.fields() =~= before + list.subrange(0, i as int + 1));
        i += 1;
    }
    assert(list.subrange(0, i as int) =~= list);
    w
}

impl Row {
    /// Encode the frame.
    pub fn encode(&self) -> (r: Vec<u8>)
        requires
            row_fits(self@),
        ensures
            r@ == row_frame(self@),
    {
        assert(self@.values == views(self.values@));
        let w = FrameWriter::versioned(ROW_IMAGE_FRAME_VERSION);
        let w = write_cells(w, TAG_COLUMN_VALUE, &self.values);
        assert(w.fields() =~= row_fields(self@));
        reveal(row_frame);
        w.finish()
    }
}

/// What is known of a row image after some of its fields.
#[verifier::ext_equal]
pub struct RowState {
    pub values: Seq<CellView>,
}

/// Nothing is known before the first field.
pub open spec fn row_start() -> RowState {
    RowState {
        values: Seq::empty(),
    }
}

/// What one field adds.
pub open spec fn row_step(s: RowState, tag: u8, payload: Seq<u8>) -> Result<RowState, RowCodecError> {
    if tag == TAG_COLUMN_VALUE {
        match grown(s.values, cell_decoded(payload)) {
            Err(error) => Err(error),
            Ok(values) => Ok(RowState { values, ..s }),
        }
    } else {
        Ok(s)
    }
}

/// [`row_step`] as a value.
pub open spec fn row_steps() -> spec_fn(RowState, u8, Seq<u8>) -> Result<RowState, RowCodecError> {
    |s: RowState, tag: u8, payload: Seq<u8>| row_step(s, tag, payload)
}

/// A row that the fields describe.
pub open spec fn row_finish(s: RowState) -> Result<RowView, RowCodecError> {
    if !(s.values.len() > 0) {
        Err(RowCodecError::InvalidRow)
    } else if !(cell_columns(s.values).no_duplicates()) {
        Err(RowCodecError::DuplicateField)
    } else {
        Ok(RowView {
            values: s.values,
        })
    }
}

/// What decoding a frame gives.
#[verifier::opaque]
pub open spec fn row_decoded(b: Seq<u8>) -> Result<RowView, RowCodecError> {
    if b.len() == 0 || b[0] != ROW_IMAGE_FRAME_VERSION {
        Err(RowCodecError::UnknownVersion)
    } else {
        match run_fields(row_start(), b.subrange(1, b.len() as int), row_steps(), RowCodecError::Truncated) {
            Err(error) => Err(error),
            Ok(s) => row_finish(s),
        }
    }
}

impl Row {
    /// Decode one complete frame.
    pub fn decode(frame: &[u8]) -> (r: Result<Row, RowCodecError>)
        ensures
            outcome(r) == row_decoded(frame@),
    {
        broadcast use lemma_views_push;
        reveal(row_decoded);
        let mut reader = Reader::new(frame);
        if reader.u8() != Some(ROW_IMAGE_FRAME_VERSION) {
            return Err(RowCodecError::UnknownVersion);
        }
        let mut values: Vec<Cell> = Vec::new();
        let ghost mut state = row_start();
        assert(views(values@) =~= Seq::<CellView>::empty());
        while !reader.is_empty()
            invariant
                state == (RowState {
                    values: views(values@),
                }),
                row_decoded(frame@) == (match run_fields(
                    state,
                    reader.remaining(),
                    row_steps(),
                    RowCodecError::Truncated,
                ) {
                    Err(error) => Err(error),
                    Ok(s) => row_finish(s),
                }),
            decreases reader.remaining().len(),
        {
            let (tag, payload) = match reader.field() {
                Ok(Some(field)) => field,
                _ => {
                    return Err(RowCodecError::Truncated);
                },
            };
            let ghost next = row_step(state, tag, payload@);
            assert(row_steps()(state, tag, payload@) == next);
            if tag == TAG_COLUMN_VALUE {
                match Cell::decode(payload) {
                    Err(error) => {
                        return Err(error);
                    },
                    Ok(found) => {
                        values.push(found);
                    },
                }
            }
            proof {
                state = next->Ok_0;
            }
        }
        if !(values.len() > 0) {
            return Err(RowCodecError::InvalidRow);
        }
        if !(distinct_cells(values.as_slice())) {
            return Err(RowCodecError::DuplicateField);
        }
        let r = Row { values };
        assert(r@ == row_finish(state)->Ok_0);
        Ok(r)
    }
}

/// Whether a value is one that decoding can give.
pub open spec fn row_valid(x: RowView) -> bool {
    &&& forall|i: int| 0 <= i < x.values.len() ==> cell_valid(#[trigger] x.values[i])
    &&& x.values.len() > 0
    &&& cell_columns(x.values).no_duplicates()
}

/// Decoding the frame of a row image gives it back.
pub proof fn row_roundtrip(x: RowView)
    requires
        row_valid(x),
        row_fits(x),
    ensures
        row_decoded(row_frame(x)) == Ok::<RowView, RowCodecError>(x),
{
    reveal(row_decoded);
    reveal(row_frame);
    let none = Seq::<(u8, Seq<u8>)>::empty();
    let f1 = none + cell_list(TAG_COLUMN_VALUE, x.values);
    let step = row_steps();
    let s0 = row_start();
    assert(fields_fit(none));
    let s1 = RowState { values: x.values, ..s0 };
    assert(fold_fields(s0, f1, step) == Ok::<RowState, RowCodecError>(s1) && fields_fit(f1)) by {
        let states = |i: int| RowState { values: x.values.subrange(0, i), ..s0 };
        let fields = cell_list(TAG_COLUMN_VALUE, x.values);
        assert forall|i: int| 0 <= i < fields.len() implies #[trigger] step(
            states(i),
            fields[i].0,
            fields[i].1,
        ) == Ok::<RowState, RowCodecError>(states(i + 1)) by {
            cell_roundtrip(x.values[i]);
            assert(x.values.subrange(0, i).push(x.values[i]) =~= x.values.subrange(0, i + 1));
        }
        assert(states(0) =~= s0);
        lemma_fold_list(s0, none, fields, states, step);
        assert(states(fields.len() as int) =~= s1);
        assert forall|i: int| 0 <= i < fields.len() implies fits((#[trigger] fields[i]).1) by {
            assert(cell_valid(x.values[i]));
        }
        lemma_fit_concat(none, fields);
    }
    lemma_run_fold(s0, f1, step, RowCodecError::Truncated);
    assert(f1 == row_fields(x));
    let b = row_frame(x);
    assert(b.subrange(1, b.len() as int) =~= fields_bytes(f1));
    assert(row_finish(s1) == Ok::<RowView, RowCodecError>(x));
}

/// The bytes that known fields of a row image take.
pub open spec fn row_size(s: RowState) -> nat {
    let values = fields_bytes(cell_list(TAG_COLUMN_VALUE, s.values)).len();
    values
}

/// Whether known fields of a row image are sound and can be written again.
pub open spec fn row_sound(s: RowState) -> bool {
    &&& forall|i: int| 0 <= i < s.values.len() ==> cell_valid(#[trigger] s.values[i]) && fits(cell_frame(s.values[i])) && cell_fits(s.values[i])
}

/// One field adds no more than its own bytes.
proof fn lemma_row_step(s: RowState, tag: u8, payload: Seq<u8>)
    requires
        row_sound(s),
        fits(payload),
    ensures
        row_step(s, tag, payload) matches Ok(next) ==> row_sound(next) && row_size(next) <= row_size(
            s,
        ) + 5 + payload.len(),
{
    if let Ok(next) = row_step(s, tag, payload) {
        if tag == TAG_COLUMN_VALUE {
            cell_shrinks(payload);
            let found = cell_decoded(payload)->Ok_0;
            assert(cell_list(TAG_COLUMN_VALUE, s.values.push(found)) =~= cell_list(TAG_COLUMN_VALUE, s.values).push(
                (TAG_COLUMN_VALUE, cell_frame(found)),
            ));
            lemma_fields_len(cell_list(TAG_COLUMN_VALUE, s.values), TAG_COLUMN_VALUE, cell_frame(found));
        }
    }
}

/// What decoding gives is sound and takes no more bytes than it was read from.
pub proof fn row_shrinks(b: Seq<u8>)
    ensures
        row_decoded(b) matches Ok(x) ==> row_valid(x) && row_fits(x) && row_frame(x).len() <= b.len(),
{
    reveal(row_decoded);
    reveal(row_frame);
    if let Ok(x) = row_decoded(b) {
        let body = b.subrange(1, b.len() as int);
        let good = |s: RowState| row_sound(s);
        let size = |s: RowState| row_size(s);
        let step = row_steps();
        let s0 = row_start();
        let end = run_fields(s0, body, step, RowCodecError::Truncated)->Ok_0;
        assert forall|s: RowState, tag: u8, payload: Seq<u8>|
            good(s) && fits(payload) && (#[trigger] step(s, tag, payload)) is Ok implies good(
            step(s, tag, payload)->Ok_0,
        ) && size(step(s, tag, payload)->Ok_0) <= size(s) + 5 + payload.len() by {
            lemma_row_step(s, tag, payload);
        }
        lemma_run_bounded(s0, body, step, good, size, RowCodecError::Truncated);
        assert(row_sound(end));
        let none = Seq::<(u8, Seq<u8>)>::empty();
        assert(fields_bytes(none).len() == 0);
        let f1 = none + cell_list(TAG_COLUMN_VALUE, x.values);
        lemma_fields_concat(none, cell_list(TAG_COLUMN_VALUE, x.values));
        assert(cell_list(TAG_COLUMN_VALUE, Seq::<CellView>::empty()) =~= none);
        assert(f1 == row_fields(x));
        assert(row_size(s0) == 0);
        assert(fields_bytes(f1).len() == row_size(end));
    }
}

/// Whether two optional values are equal.
pub fn same_optional_row(a: &Option<Row>, b: &Option<Row>) -> (r: bool)
    ensures
        r == (view_of(*a) == view_of(*b)),
{
    match (a, b) {
        (None, None) => true,
        (Some(a), Some(b)) => a.same(b),
        _ => false,
    }
}

impl RowView {
    /// The value of a column.
    pub open spec fn value(self, column: Seq<u8>) -> Option<ValueView> {
        value_in(self.values, column)
    }
}

impl Row {
    /// The position of a column's first cell.
    fn position(&self, column: ColumnId) -> (r: Option<usize>)
        ensures
            match r {
                Some(i) => i < self.values@.len() && self.values@[i as int]@.column == column@
                    && self@.value(column@) == Some(self.values@[i as int]@.value) && forall|
                    j: int,
                |
                    0 <= j < i ==> (#[trigger] self.values@[j])@.column != column@,
                None => self@.value(column@) is None,
            },
    {
        let ghost values = views(self.values@);
        let mut i: usize = 0;
        assert(values.subrange(0, values.len() as int) =~= values);
        while i < self.values.len()
            invariant
                i <= self.values@.len(),
                values == views(self.values@),
                value_in(values, column@) == value_in(
                    values.subrange(i as int, values.len() as int),
                    column@,
                ),
                forall|j: int| 0 <= j < i ==> (#[trigger] self.values@[j])@.column != column@,
            decreases self.values.len() - i,
        {
            let ghost rest = values.subrange(i as int, values.len() as int);
            assert(rest[0] == self.values@[i as int]@);
            if self.values[i].column.same(&column) {
                return Some(i);
            }
            assert(rest.drop_first() =~= values.subrange(i as int + 1, values.len() as int));
            i += 1;
        }
        None
    }

    /// The value of a column.
    pub fn value(&self, column: ColumnId) -> (r: Option<&StoredValue>)
        ensures
            match r {
                Some(value) => self@.value(column@) == Some(value@),
                None => self@.value(column@) is None,
            },
    {
        match self.position(column) {
            Some(i) => Some(&self.values[i].value),
            None => None,
        }
    }
}

/// A row as it is stored under its key.
#[derive(Debug, PartialEq, Eq)]
pub struct StoredRow {
    pub schema_revision: SchemaRevisionId,
    pub values: Vec<Cell>,
}

/// A stored row as a mathematical value.
#[verifier::ext_equal]
pub struct StoredRowView {
    pub schema_revision: Seq<u8>,
    pub values: Seq<CellView>,
}

impl View for StoredRow {
    type V = StoredRowView;

    open spec fn view(&self) -> StoredRowView {
        StoredRowView {
            schema_revision: self.schema_revision@,
            values: views(self.values@),
        }
    }
}

impl Clone for StoredRow {
    fn clone(&self) -> (r: Self)
        ensures
            r@ == self@,
    {
        StoredRow {
            schema_revision: self.schema_revision,
            values: clone_cells(&self.values),
        }
    }
}

impl StoredRow {
    /// Whether two values are equal.
    pub fn same(&self, other: &StoredRow) -> (r: bool)
        ensures
            r == (self@ == other@),
    {
        self.schema_revision.same(&other.schema_revision)
            && same_cells(&self.values, &other.values)
    }
}

/// The fields of the frame of a stored row.
pub open spec fn stored_row_fields(x: StoredRowView) -> Seq<(u8, Seq<u8>)> {
    let none = Seq::<(u8, Seq<u8>)>::empty();
    let f1 = none.push((TAG_SCHEMA_REVISION, x.schema_revision));
    let f2 = f1 + cell_list(TAG_COLUMN_VALUE, x.values);
    f2
}

/// The frame of a stored row.
#[verifier::opaque]
pub open spec fn stored_row_frame(x: StoredRowView) -> Seq<u8> {
    seq![ROW_FRAME_VERSION] + fields_bytes(stored_row_fields(x))
}

/// Whether every field of the frame has a length that a `u32` holds.
pub open spec fn stored_row_fits(x: StoredRowView) -> bool {
    &&& forall|i: int| 0 <= i < x.values.len() ==> cell_fits(#[trigger] x.values[i]) && fits(cell_frame(x.values[i]))
}

/// What is known of a stored row after some of its fields.
#[verifier::ext_equal]
pub struct StoredRowState {
    pub schema_revision: Option<Seq<u8>>,
    pub values: Seq<CellView>,
}

/// Nothing is known before the first field.
pub open spec fn stored_row_start() -> StoredRowState {
    StoredRowState {
        schema_revision: None,
        values: Seq::empty(),
    }
}

/// What one field adds.
pub open spec fn stored_row_step(s: StoredRowState, tag: u8, payload: Seq<u8>) -> Result<StoredRowState, RowCodecError> {
    if tag == TAG_SCHEMA_REVISION {
        match filled(s.schema_revision, uuid_field(payload), RowCodecError::DuplicateField) {
            Err(error) => Err(error),
            Ok(schema_revision) => Ok(StoredRowState { schema_revision, ..s }),
        }
    } else if tag == TAG_COLUMN_VALUE {
        match grown(s.values, cell_decoded(payload)) {
            Err(error) => Err(error),
            Ok(values) => Ok(StoredRowState { values, ..s }),
        }
    } else {
        Ok(s)
    }
}

/// [`stored_row_step`] as a value.
pub open spec fn stored_row_steps() -> spec_fn(StoredRowState, u8, Seq<u8>) -> Result<StoredRowState, RowCodecError> {
    |s: StoredRowState, tag: u8, payload: Seq<u8>| stored_row_step(s, tag, payload)
}

/// A stored row that the fields describe.
pub open spec fn stored_row_finish(s: StoredRowState) -> Result<StoredRowView, RowCodecError> {
    if s.schema_revision is None {
        Err(RowCodecError::MissingField(TAG_SCHEMA_REVISION))
    } else if !(s.values.len() > 0) {
        Err(RowCodecError::InvalidRow)
    } else if !(cell_columns(s.values).no_duplicates()) {
        Err(RowCodecError::DuplicateField)
    } else {
        Ok(StoredRowView {
            schema_revision: s.schema_revision->Some_0,
            values: s.values,
        })
    }
}

/// What decoding a frame gives.
#[verifier::opaque]
pub open spec fn stored_row_decoded(b: Seq<u8>) -> Result<StoredRowView, RowCodecError> {
    if b.len() == 0 || b[0] != ROW_FRAME_VERSION {
        Err(RowCodecError::UnknownVersion)
    } else {
        match run_fields(stored_row_start(), b.subrange(1, b.len() as int), stored_row_steps(), RowCodecError::Truncated) {
            Err(error) => Err(error),
            Ok(s) => stored_row_finish(s),
        }
    }
}

impl StoredRow {
    /// Decode one complete frame.
    pub fn decode(frame: &[u8]) -> (r: Result<StoredRow, RowCodecError>)
        ensures
            outcome(r) == stored_row_decoded(frame@),
    {
        broadcast use lemma_views_push;
        reveal(stored_row_decoded);
        let mut reader = Reader::new(frame);
        if reader.u8() != Some(ROW_FRAME_VERSION) {
            return Err(RowCodecError::UnknownVersion);
        }
        let mut schema_revision: Option<SchemaRevisionId> = None;
        let mut values: Vec<Cell> = Vec::new();
        let ghost mut state = stored_row_start();
        assert(views(values@) =~= Seq::<CellView>::empty());
        while !reader.is_empty()
            invariant
                state == (StoredRowState {
                    schema_revision: view_of(schema_revision),
                    values: views(values@),
                }),
                stored_row_decoded(frame@) == (match run_fields(
                    state,
                    reader.remaining(),
                    stored_row_steps(),
                    RowCodecError::Truncated,
                ) {
                    Err(error) => Err(error),
                    Ok(s) => stored_row_finish(s),
                }),
            decreases reader.remaining().len(),
        {
            let (tag, payload) = match reader.field() {
                Ok(Some(field)) => field,
                _ => {
                    return Err(RowCodecError::Truncated);
                },
            };
            let ghost next = stored_row_step(state, tag, payload@);
            assert(stored_row_steps()(state, tag, payload@) == next);
            if tag == TAG_SCHEMA_REVISION {
                match read_uuid(payload) {
                    Err(error) => {
                        return Err(error);
                    },
                    Ok(found) => {
                        if schema_revision.is_some() {
                            return Err(RowCodecError::DuplicateField);
                        }
                        schema_revision = Some(SchemaRevisionId(found));
                    },
                }
            } else if tag == TAG_COLUMN_VALUE {
                match Cell::decode(payload) {
                    Err(error) => {
                        return Err(error);
                    },
                    Ok(found) => {
                        values.push(found);
                    },
                }
            }
            proof {
                state = next->Ok_0;
            }
        }
        let schema_revision = match schema_revision {
            Some(found) => found,
            None => {
                return Err(RowCodecError::MissingField(TAG_SCHEMA_REVISION));
            },
        };
        if !(values.len() > 0) {
            return Err(RowCodecError::InvalidRow);
        }
        if !(distinct_cells(values.as_slice())) {
            return Err(RowCodecError::DuplicateField);
        }
        let r = StoredRow { schema_revision, values };
        assert(r@ == stored_row_finish(state)->Ok_0);
        Ok(r)
    }
}

/// Whether a value is one that decoding can give.
pub open spec fn stored_row_valid(x: StoredRowView) -> bool {
    &&& random_uuid(x.schema_revision)
    &&& forall|i: int| 0 <= i < x.values.len() ==> cell_valid(#[trigger] x.values[i])
    &&& x.values.len() > 0
    &&& cell_columns(x.values).no_duplicates()
}

/// Decoding the frame of a stored row gives it back.
pub proof fn stored_row_roundtrip(x: StoredRowView)
    requires
        stored_row_valid(x),
        stored_row_fits(x),
    ensures
        stored_row_decoded(stored_row_frame(x)) == Ok::<StoredRowView, RowCodecError>(x),
{
    reveal(stored_row_decoded);
    reveal(stored_row_frame);
    let none = Seq::<(u8, Seq<u8>)>::empty();
    let f1 = none.push((TAG_SCHEMA_REVISION, x.schema_revision));
    let f2 = f1 + cell_list(TAG_COLUMN_VALUE, x.values);
    let step = stored_row_steps();
    let s0 = stored_row_start();
    assert(fields_fit(none));
    let s1 = StoredRowState { schema_revision: Some(x.schema_revision), ..s0 };
    assert(fold_fields(s0, f1, step) == Ok::<StoredRowState, RowCodecError>(s1) && fields_fit(f1)) by {
        lemma_fold_push(s0, none, TAG_SCHEMA_REVISION, x.schema_revision, step);
        lemma_fit_push(none, TAG_SCHEMA_REVISION, x.schema_revision);
        assert(step(s0, TAG_SCHEMA_REVISION, x.schema_revision) == Ok::<StoredRowState, RowCodecError>(s1));
    }
    let s2 = StoredRowState { values: x.values, ..s1 };
    assert(fold_fields(s0, f2, step) == Ok::<StoredRowState, RowCodecError>(s2) && fields_fit(f2)) by {
        let states = |i: int| StoredRowState { values: x.values.subrange(0, i), ..s1 };
        let fields = cell_list(TAG_COLUMN_VALUE, x.values);
        assert forall|i: int| 0 <= i < fields.len() implies #[trigger] step(
            states(i),
            fields[i].0,
            fields[i].1,
        ) == Ok::<StoredRowState, RowCodecError>(states(i + 1)) by {
            cell_roundtrip(x.values[i]);
            assert(x.values.subrange(0, i).push(x.values[i]) =~= x.values.subrange(0, i + 1));
        }
        assert(states(0) =~= s1);
        lemma_fold_list(s0, f1, fields, states, step);
        assert(states(fields.len() as int) =~= s2);
        assert forall|i: int| 0 <= i < fields.len() implies fits((#[trigger] fields[i]).1) by {
            assert(cell_valid(x.values[i]));
        }
        lemma_fit_concat(f1, fields);
    }
    lemma_run_fold(s0, f2, step, RowCodecError::Truncated);
    assert(f2 == stored_row_fields(x));
    let b = stored_row_frame(x);
    assert(b.subrange(1, b.len() as int) =~= fields_bytes(f2));
    assert(stored_row_finish(s2) == Ok::<StoredRowView, RowCodecError>(x));
}

/// The bytes that known fields of a stored row take.
pub open spec fn stored_row_size(s: StoredRowState) -> nat {
    let schema_revision: nat = match s.schema_revision {
        Some(value) => 5 + value.len(),
        None => 0,
    };
    let values = fields_bytes(cell_list(TAG_COLUMN_VALUE, s.values)).len();
    schema_revision + values
}

/// Whether known fields of a stored row are sound and can be written again.
pub open spec fn stored_row_sound(s: StoredRowState) -> bool {
    &&& (s.schema_revision matches Some(value) ==> random_uuid(value) && fits(value))
    &&& forall|i: int| 0 <= i < s.values.len() ==> cell_valid(#[trigger] s.values[i]) && fits(cell_frame(s.values[i])) && cell_fits(s.values[i])
}

/// One field adds no more than its own bytes.
proof fn lemma_stored_row_step(s: StoredRowState, tag: u8, payload: Seq<u8>)
    requires
        stored_row_sound(s),
        fits(payload),
    ensures
        stored_row_step(s, tag, payload) matches Ok(next) ==> stored_row_sound(next) && stored_row_size(next) <= stored_row_size(
            s,
        ) + 5 + payload.len(),
{
    if let Ok(next) = stored_row_step(s, tag, payload) {
        if tag == TAG_SCHEMA_REVISION {
        } else if tag == TAG_COLUMN_VALUE {
            cell_shrinks(payload);
            let found = cell_decoded(payload)->Ok_0;
            assert(cell_list(TAG_COLUMN_VALUE, s.values.push(found)) =~= cell_list(TAG_COLUMN_VALUE, s.values).push(
                (TAG_COLUMN_VALUE, cell_frame(found)),
            ));
            lemma_fields_len(cell_list(TAG_COLUMN_VALUE, s.values), TAG_COLUMN_VALUE, cell_frame(found));
        }
    }
}

/// What decoding gives is sound and takes no more bytes than it was read from.
pub proof fn stored_row_shrinks(b: Seq<u8>)
    ensures
        stored_row_decoded(b) matches Ok(x) ==> stored_row_valid(x) && stored_row_fits(x) && stored_row_frame(x).len() <= b.len(),
{
    reveal(stored_row_decoded);
    reveal(stored_row_frame);
    if let Ok(x) = stored_row_decoded(b) {
        let body = b.subrange(1, b.len() as int);
        let good = |s: StoredRowState| stored_row_sound(s);
        let size = |s: StoredRowState| stored_row_size(s);
        let step = stored_row_steps();
        let s0 = stored_row_start();
        let end = run_fields(s0, body, step, RowCodecError::Truncated)->Ok_0;
        assert forall|s: StoredRowState, tag: u8, payload: Seq<u8>|
            good(s) && fits(payload) && (#[trigger] step(s, tag, payload)) is Ok implies good(
            step(s, tag, payload)->Ok_0,
        ) && size(step(s, tag, payload)->Ok_0) <= size(s) + 5 + payload.len() by {
            lemma_stored_row_step(s, tag, payload);
        }
        lemma_run_bounded(s0, body, step, good, size, RowCodecError::Truncated);
        assert(stored_row_sound(end));
        let none = Seq::<(u8, Seq<u8>)>::empty();
        assert(fields_bytes(none).len() == 0);
        let f1 = none.push((TAG_SCHEMA_REVISION, x.schema_revision));
        lemma_fields_len(none, TAG_SCHEMA_REVISION, x.schema_revision);
        let f2 = f1 + cell_list(TAG_COLUMN_VALUE, x.values);
        lemma_fields_concat(f1, cell_list(TAG_COLUMN_VALUE, x.values));
        assert(cell_list(TAG_COLUMN_VALUE, Seq::<CellView>::empty()) =~= none);
        assert(f2 == stored_row_fields(x));
        assert(stored_row_size(s0) == 0);
        assert(fields_bytes(f2).len() == stored_row_size(end));
    }
}

/// A stored row's frame, read as its image.
pub open spec fn stored_image(frame: Seq<u8>) -> Result<RowView, RowCodecError> {
    match stored_row_decoded(frame) {
        Err(error) => Err(error),
        Ok(stored) => Ok(RowView { values: stored.values }),
    }
}

/// Read a stored row's image.
pub fn decode_stored_row(frame: &[u8]) -> (r: Result<Row, RowCodecError>)
    ensures
        outcome(r) == stored_image(frame@),
{
    match StoredRow::decode(frame) {
        Err(error) => Err(error),
        Ok(stored) => Ok(Row { values: stored.values }),
    }
}

impl RowRules {
    /// Encode a row as it is stored.
    pub fn encode_row(&self, row: &Row) -> (r: Vec<u8>)
        requires
            row_fits(row@),
        ensures
            r@ == stored_row_frame(
                StoredRowView {
                    schema_revision: self@.schema_revision,
                    values: row@.values,
                },
            ),
    {
        assert(row@.values == views(row.values@));
        let w = FrameWriter::versioned(ROW_FRAME_VERSION);
        let schema_revision = copy_bytes(&self.schema_revision.as_bytes());
        let w = w.field(TAG_SCHEMA_REVISION, schema_revision.as_slice());
        let w = write_cells(w, TAG_COLUMN_VALUE, &row.values);
        let ghost stored = StoredRowView {
            schema_revision: self@.schema_revision,
            values: row@.values,
        };
        assert(w.fields() =~= stored_row_fields(stored));
        reveal(stored_row_frame);
        w.finish()
    }
}

/// One row before and after a statement.
#[derive(Debug, PartialEq, Eq)]
pub struct RowDelta {
    pub before: Option<Row>,
    pub after: Option<Row>,
}

/// A row's change as a mathematical value.
#[verifier::ext_equal]
pub struct DeltaView {
    pub before: Option<RowView>,
    pub after: Option<RowView>,
}

impl View for RowDelta {
    type V = DeltaView;

    open spec fn view(&self) -> DeltaView {
        DeltaView {
            before: view_of(self.before),
            after: view_of(self.after),
        }
    }
}

impl Clone for RowDelta {
    fn clone(&self) -> (r: Self)
        ensures
            r@ == self@,
    {
        let before = match &self.before {
            Some(value) => Some(value.clone()),
            None => None,
        };
        let after = match &self.after {
            Some(value) => Some(value.clone()),
            None => None,
        };
        RowDelta {
            before,
            after,
        }
    }
}

impl RowDelta {
    /// Whether two values are equal.
    pub fn same(&self, other: &RowDelta) -> (r: bool)
        ensures
            r == (self@ == other@),
    {
        same_optional_row(&self.before, &other.before)
            && same_optional_row(&self.after, &other.after)
    }
}

/// A copy of a list.
pub fn clone_deltas(items: &Vec<RowDelta>) -> (r: Vec<RowDelta>)
    ensures
        views(r@) == views(items@),
{
    let mut r: Vec<RowDelta> = Vec::new();
    let mut i: usize = 0;
    while i < items.len()
        invariant
            i <= items@.len(),
            r@.len() == i,
            forall|j: int| 0 <= j < i ==> (#[trigger] r@[j])@ == items@[j]@,
        decreases items.len() - i,
    {
        r.push(items[i].clone());
        i += 1;
    }
    assert(views(r@) =~= views(items@));
    r
}

/// Whether two lists hold equal items.
pub fn same_deltas(a: &Vec<RowDelta>, b: &Vec<RowDelta>) -> (r: bool)
    ensures
        r == (views(a@) == views(b@)),
{
    if a.len() != b.len() {
        assert(views(a@).len() != views(b@).len());
        return false;
    }
    let mut i: usize = 0;
    while i < a.len()
        invariant
            i <= a@.len(),
            a@.len() == b@.len(),
            forall|j: int| 0 <= j < i ==> views(a@)[j] == views(b@)[j],
        decreases a.len() - i,
    {
        if !a[i].same(&b[i]) {
            assert(views(a@)[i as int] != views(b@)[i as int]);
            return false;
        }
        i += 1;
    }
    assert(views(a@) =~= views(b@));
    true
}

/// The fields of the frame of a row's change.
pub open spec fn delta_fields(x: DeltaView) -> Seq<(u8, Seq<u8>)> {
    let none = Seq::<(u8, Seq<u8>)>::empty();
    let f1 = match x.before {
        Some(value) => none.push((TAG_DELTA_BEFORE, row_frame(value))),
        None => none,
    };
    let f2 = match x.after {
        Some(value) => f1.push((TAG_DELTA_AFTER, row_frame(value))),
        None => f1,
    };
    f2
}

/// The frame of a row's change.
#[verifier::opaque]
pub open spec fn delta_frame(x: DeltaView) -> Seq<u8> {
    seq![ROW_DELTA_FRAME_VERSION] + fields_bytes(delta_fields(x))
}

/// Whether every field of the frame has a length that a `u32` holds.
pub open spec fn delta_fits(x: DeltaView) -> bool {
    &&& (x.before matches Some(value) ==> row_fits(value) && fits(row_frame(value)))
    &&& (x.after matches Some(value) ==> row_fits(value) && fits(row_frame(value)))
}

/// The fields of a list under one tag, each with its own frame.
pub open spec fn delta_list(tag: u8, items: Seq<DeltaView>) -> Seq<(u8, Seq<u8>)> {
    Seq::new(items.len(), |i: int| (tag, delta_frame(items[i])))
}

/// Write the fields of a list under one tag.
pub fn write_deltas(w: FrameWriter, tag: u8, items: &Vec<RowDelta>) -> (r: FrameWriter)
    requires
        forall|i: int| 0 <= i < items@.len() ==> delta_fits(#[trigger] views(items@)[i]) && fits(delta_frame(views(items@)[i])),
    ensures
        r.head() == w.head(),
        r.fields() == w.fields() + delta_list(tag, views(items@)),
{
    let ghost list = delta_list(tag, views(items@));
    let ghost head = w.head();
    let ghost before = w.fields();
    let mut w = w;
    let mut i: usize = 0;
    assert(before + list.subrange(0, 0) =~= before);
    while i < items.len()
        invariant
            i <= items@.len(),
            list == delta_list(tag, views(items@)),
            w.head() == head,
            w.fields() == before + list.subrange(0, i as int),
            forall|i: int| 0 <= i < items@.len() ==> delta_fits(#[trigger] views(items@)[i]) && fits(delta_frame(views(items@)[i])),
        decreases items.len() - i,
    {
        assert(views(items@)[i as int] == items@[i as int]@);
        let item = items[i].encode();
        w = w.field(tag, item.as_slice());
        assert(w.fields() =~= before + list.subrange(0, i as int + 1));
        i += 1;
    }
    assert(list.subrange(0, i as int) =~= list);
    w
}

impl RowDelta {
    /// Encode the frame.
    pub fn encode(&self) -> (r: Vec<u8>)
        requires
            delta_fits(self@),
        ensures
            r@ == delta_frame(self@),
    {
        let w = FrameWriter::versioned(ROW_DELTA_FRAME_VERSION);
        let w = match &self.before {
            Some(value) => {
                let before = value.encode();
                w.field(TAG_DELTA_BEFORE, before.as_slice())
            },
            None => w,
        };
        let w = match &self.after {
            Some(value) => {
                let after = value.encode();
                w.field(TAG_DELTA_AFTER, after.as_slice())
            },
            None => w,
        };
        assert(w.fields() =~= delta_fields(self@));
        reveal(delta_frame);
        w.finish()
    }
}

/// What is known of a row's change after some of its fields.
#[verifier::ext_equal]
pub struct DeltaState {
    pub before: Option<RowView>,
    pub after: Option<RowView>,
}

/// Nothing is known before the first field.
pub open spec fn delta_start() -> DeltaState {
    DeltaState {
        before: None,
        after: None,
    }
}

/// What one field adds.
pub open spec fn delta_step(s: DeltaState, tag: u8, payload: Seq<u8>) -> Result<DeltaState, RowCodecError> {
    if tag == TAG_DELTA_BEFORE {
        match filled(s.before, row_decoded(payload), RowCodecError::DuplicateField) {
            Err(error) => Err(error),
            Ok(before) => Ok(DeltaState { before, ..s }),
        }
    } else if tag == TAG_DELTA_AFTER {
        match filled(s.after, row_decoded(payload), RowCodecError::DuplicateField) {
            Err(error) => Err(error),
            Ok(after) => Ok(DeltaState { after, ..s }),
        }
    } else {
        Ok(s)
    }
}

/// [`delta_step`] as a value.
pub open spec fn delta_steps() -> spec_fn(DeltaState, u8, Seq<u8>) -> Result<DeltaState, RowCodecError> {
    |s: DeltaState, tag: u8, payload: Seq<u8>| delta_step(s, tag, payload)
}

/// A row's change that the fields describe.
pub open spec fn delta_finish(s: DeltaState) -> Result<DeltaView, RowCodecError> {
    {
        Ok(DeltaView {
            before: s.before,
            after: s.after,
        })
    }
}

/// What decoding a frame gives.
#[verifier::opaque]
pub open spec fn delta_decoded(b: Seq<u8>) -> Result<DeltaView, RowCodecError> {
    if b.len() == 0 || b[0] != ROW_DELTA_FRAME_VERSION {
        Err(RowCodecError::UnknownVersion)
    } else {
        match run_fields(delta_start(), b.subrange(1, b.len() as int), delta_steps(), RowCodecError::Truncated) {
            Err(error) => Err(error),
            Ok(s) => delta_finish(s),
        }
    }
}

impl RowDelta {
    /// Decode one complete frame.
    pub fn decode(frame: &[u8]) -> (r: Result<RowDelta, RowCodecError>)
        ensures
            outcome(r) == delta_decoded(frame@),
    {
        broadcast use lemma_views_push;
        reveal(delta_decoded);
        let mut reader = Reader::new(frame);
        if reader.u8() != Some(ROW_DELTA_FRAME_VERSION) {
            return Err(RowCodecError::UnknownVersion);
        }
        let mut before: Option<Row> = None;
        let mut after: Option<Row> = None;
        let ghost mut state = delta_start();
        while !reader.is_empty()
            invariant
                state == (DeltaState {
                    before: view_of(before),
                    after: view_of(after),
                }),
                delta_decoded(frame@) == (match run_fields(
                    state,
                    reader.remaining(),
                    delta_steps(),
                    RowCodecError::Truncated,
                ) {
                    Err(error) => Err(error),
                    Ok(s) => delta_finish(s),
                }),
            decreases reader.remaining().len(),
        {
            let (tag, payload) = match reader.field() {
                Ok(Some(field)) => field,
                _ => {
                    return Err(RowCodecError::Truncated);
                },
            };
            let ghost next = delta_step(state, tag, payload@);
            assert(delta_steps()(state, tag, payload@) == next);
            if tag == TAG_DELTA_BEFORE {
                match Row::decode(payload) {
                    Err(error) => {
                        return Err(error);
                    },
                    Ok(found) => {
                        if before.is_some() {
                            return Err(RowCodecError::DuplicateField);
                        }
                        before = Some(found);
                    },
                }
            } else if tag == TAG_DELTA_AFTER {
                match Row::decode(payload) {
                    Err(error) => {
                        return Err(error);
                    },
                    Ok(found) => {
                        if after.is_some() {
                            return Err(RowCodecError::DuplicateField);
                        }
                        after = Some(found);
                    },
                }
            }
            proof {
                state = next->Ok_0;
            }
        }
        let r = RowDelta { before, after };
        assert(r@ == delta_finish(state)->Ok_0);
        Ok(r)
    }
}

/// Whether a value is one that decoding can give.
pub open spec fn delta_valid(x: DeltaView) -> bool {
    &&& (x.before matches Some(value) ==> row_valid(value))
    &&& (x.after matches Some(value) ==> row_valid(value))
}

/// Decoding the frame of a row's change gives it back.
pub proof fn delta_roundtrip(x: DeltaView)
    requires
        delta_valid(x),
        delta_fits(x),
    ensures
        delta_decoded(delta_frame(x)) == Ok::<DeltaView, RowCodecError>(x),
{
    reveal(delta_decoded);
    reveal(delta_frame);
    let none = Seq::<(u8, Seq<u8>)>::empty();
    let f1 = match x.before {
        Some(value) => none.push((TAG_DELTA_BEFORE, row_frame(value))),
        None => none,
    };
    let f2 = match x.after {
        Some(value) => f1.push((TAG_DELTA_AFTER, row_frame(value))),
        None => f1,
    };
    let step = delta_steps();
    let s0 = delta_start();
    assert(fields_fit(none));
    let s1 = DeltaState { before: x.before, ..s0 };
    assert(fold_fields(s0, f1, step) == Ok::<DeltaState, RowCodecError>(s1) && fields_fit(f1)) by {
        match x.before {
            Some(value) => {
                row_roundtrip(value);
                lemma_fold_push(s0, none, TAG_DELTA_BEFORE, row_frame(value), step);
                lemma_fit_push(none, TAG_DELTA_BEFORE, row_frame(value));
                assert(step(s0, TAG_DELTA_BEFORE, row_frame(value)) == Ok::<DeltaState, RowCodecError>(s1));
            },
            None => {
                assert(s1 == s0);
            },
        }
    }
    let s2 = DeltaState { after: x.after, ..s1 };
    assert(fold_fields(s0, f2, step) == Ok::<DeltaState, RowCodecError>(s2) && fields_fit(f2)) by {
        match x.after {
            Some(value) => {
                row_roundtrip(value);
                lemma_fold_push(s0, f1, TAG_DELTA_AFTER, row_frame(value), step);
                lemma_fit_push(f1, TAG_DELTA_AFTER, row_frame(value));
                assert(step(s1, TAG_DELTA_AFTER, row_frame(value)) == Ok::<DeltaState, RowCodecError>(s2));
            },
            None => {
                assert(s2 == s1);
            },
        }
    }
    lemma_run_fold(s0, f2, step, RowCodecError::Truncated);
    assert(f2 == delta_fields(x));
    let b = delta_frame(x);
    assert(b.subrange(1, b.len() as int) =~= fields_bytes(f2));
    assert(delta_finish(s2) == Ok::<DeltaView, RowCodecError>(x));
}

/// The bytes that known fields of a row's change take.
pub open spec fn delta_size(s: DeltaState) -> nat {
    let before: nat = match s.before {
        Some(value) => 5 + row_frame(value).len(),
        None => 0,
    };
    let after: nat = match s.after {
        Some(value) => 5 + row_frame(value).len(),
        None => 0,
    };
    before + after
}

/// Whether known fields of a row's change are sound and can be written again.
pub open spec fn delta_sound(s: DeltaState) -> bool {
    &&& (s.before matches Some(value) ==> row_valid(value) && fits(row_frame(value)) && row_fits(value))
    &&& (s.after matches Some(value) ==> row_valid(value) && fits(row_frame(value)) && row_fits(value))
}

/// One field adds no more than its own bytes.
proof fn lemma_delta_step(s: DeltaState, tag: u8, payload: Seq<u8>)
    requires
        delta_sound(s),
        fits(payload),
    ensures
        delta_step(s, tag, payload) matches Ok(next) ==> delta_sound(next) && delta_size(next) <= delta_size(
            s,
        ) + 5 + payload.len(),
{
    if let Ok(next) = delta_step(s, tag, payload) {
        if tag == TAG_DELTA_BEFORE {
            row_shrinks(payload);
        } else if tag == TAG_DELTA_AFTER {
            row_shrinks(payload);
        }
    }
}

/// What decoding gives is sound and takes no more bytes than it was read from.
pub proof fn delta_shrinks(b: Seq<u8>)
    ensures
        delta_decoded(b) matches Ok(x) ==> delta_valid(x) && delta_fits(x) && delta_frame(x).len() <= b.len(),
{
    reveal(delta_decoded);
    reveal(delta_frame);
    if let Ok(x) = delta_decoded(b) {
        let body = b.subrange(1, b.len() as int);
        let good = |s: DeltaState| delta_sound(s);
        let size = |s: DeltaState| delta_size(s);
        let step = delta_steps();
        let s0 = delta_start();
        let end = run_fields(s0, body, step, RowCodecError::Truncated)->Ok_0;
        assert forall|s: DeltaState, tag: u8, payload: Seq<u8>|
            good(s) && fits(payload) && (#[trigger] step(s, tag, payload)) is Ok implies good(
            step(s, tag, payload)->Ok_0,
        ) && size(step(s, tag, payload)->Ok_0) <= size(s) + 5 + payload.len() by {
            lemma_delta_step(s, tag, payload);
        }
        lemma_run_bounded(s0, body, step, good, size, RowCodecError::Truncated);
        assert(delta_sound(end));
        let none = Seq::<(u8, Seq<u8>)>::empty();
        assert(fields_bytes(none).len() == 0);
        let f1 = match x.before {
            Some(value) => none.push((TAG_DELTA_BEFORE, row_frame(value))),
            None => none,
        };
        if let Some(value) = x.before {
            lemma_fields_len(none, TAG_DELTA_BEFORE, row_frame(value));
        }
        let f2 = match x.after {
            Some(value) => f1.push((TAG_DELTA_AFTER, row_frame(value))),
            None => f1,
        };
        if let Some(value) = x.after {
            lemma_fields_len(f1, TAG_DELTA_AFTER, row_frame(value));
        }
        assert(f2 == delta_fields(x));
        assert(delta_size(s0) == 0);
        assert(fields_bytes(f2).len() == delta_size(end));
    }
}

} // verus!
