//! The frames of a change of a view.

use super::codec::{
    lemma_text_field, lemma_text_shrinks, read_name, read_string, read_uuid, read_view_action,
    text_field, uuid_field, view_action_field,
};
use super::error::ViewCodecError;
use crate::bytes::{
    copy_bytes, fields_bytes, fields_fit, fits, fold_fields, lemma_fields_concat, lemma_fields_len,
    lemma_fit_concat, lemma_fit_push, lemma_fold_list, lemma_fold_push, lemma_run_bounded,
    lemma_run_fold, run_fields, FrameWriter, Reader,
};
use crate::codec::{filled, grown, lemma_views_push, outcome, view_of, views};
use crate::identity::{random_uuid, ColumnId, MutationId, TableId};
use crate::logical::schema::codec::one_byte;
use crate::name::{same_text, SqlName};
use vstd::prelude::*;
use vstd::utf8::encode_utf8;

verus! {

/// Version of the frame of a change of a view.
pub const VERSION: u8 = 1;

/// Version of the frame of a dependency.
pub const DEPENDENCY_VERSION: u8 = 1;

/// Version of the frame of a column dependency.
pub const COLUMN_DEPENDENCY_VERSION: u8 = 1;

/// Marks the mutation.
pub const TAG_MUTATION_ID: u8 = 1;

/// Marks what happens to the view.
pub const TAG_ACTION: u8 = 2;

/// Marks the view's name.
pub const TAG_NAME: u8 = 3;

/// Marks the statement that creates the view.
pub const TAG_CREATE_SQL: u8 = 4;

/// Marks a table that the view reads.
pub const TAG_DEPENDENCY: u8 = 5;

/// Marks the table of a dependency.
pub const TAG_TABLE_ID: u8 = 1;

/// Marks the name of a dependency's table.
pub const TAG_TABLE_NAME: u8 = 2;

/// Marks a column of a dependency.
pub const TAG_COLUMN_DEPENDENCY: u8 = 3;

/// Marks the column of a column dependency.
pub const TAG_COLUMN_ID: u8 = 1;

/// Marks the name of a column dependency's column.
pub const TAG_COLUMN_NAME: u8 = 2;

/// What happens to a view.
#[derive(Clone, Copy, Debug, PartialEq, Eq, Structural)]
pub enum ViewAction {
    Create,
    Drop,
}

impl ViewAction {
    /// The byte that stands for an action in a frame.
    pub open spec fn code(self) -> u8 {
        match self {
            ViewAction::Create => 1,
            ViewAction::Drop => 2,
        }
    }

    /// The action that a byte stands for.
    pub open spec fn of_code(code: u8) -> Option<ViewAction> {
        if code == 1 {
            Some(ViewAction::Create)
        } else if code == 2 {
            Some(ViewAction::Drop)
        } else {
            None
        }
    }

    /// The byte that stands for an action in a frame.
    pub fn to_u8(self) -> (r: u8)
        ensures
            r == self.code(),
    {
        match self {
            ViewAction::Create => 1,
            ViewAction::Drop => 2,
        }
    }

    /// The action that a byte stands for.
    pub fn from_u8(code: u8) -> (r: Option<ViewAction>)
        ensures
            r == ViewAction::of_code(code),
    {
        if code == 1 {
            Some(ViewAction::Create)
        } else if code == 2 {
            Some(ViewAction::Drop)
        } else {
            None
        }
    }
}

/// A column that a view depends on, with its name.
#[derive(Debug, PartialEq, Eq)]
pub struct ViewColumnDependency {
    pub column: ColumnId,
    pub name: SqlName,
}

/// A column that a view depends on as a mathematical value.
#[verifier::ext_equal]
pub struct ViewColumnView {
    pub column: Seq<u8>,
    pub name: Seq<char>,
}

impl View for ViewColumnDependency {
    type V = ViewColumnView;

    open spec fn view(&self) -> ViewColumnView {
        ViewColumnView {
            column: self.column@,
            name: self.name@,
        }
    }
}

impl Clone for ViewColumnDependency {
    fn clone(&self) -> (r: Self)
        ensures
            r@ == self@,
    {
        ViewColumnDependency {
            column: self.column,
            name: self.name.clone(),
        }
    }
}

impl ViewColumnDependency {
    /// Whether two values are equal.
    pub fn same(&self, other: &ViewColumnDependency) -> (r: bool)
        ensures
            r == (self@ == other@),
    {
        self.column.same(&other.column)
            && self.name.same(&other.name)
    }
}

/// A copy of a list.
pub fn clone_view_columns(items: &Vec<ViewColumnDependency>) -> (r: Vec<ViewColumnDependency>)
    ensures
        views(r@) == views(items@),
{
    let mut r: Vec<ViewColumnDependency> = Vec::new();
    let mut i: usize = 0;
    while i < items.len()
        invariant
            i <= items@.len(),
            r@.len() == i,
            forall|j: int| 0 <= j < i ==> (#[trigger] r@[j])@ == items@[j]@,
        decreases items.len() - i,
    {
        r.push(items[i].clone());
        i += 1;
    }
    assert(views(r@) =~= views(items@));
    r
}

/// Whether two lists hold equal items.
pub fn same_view_columns(a: &Vec<ViewColumnDependency>, b: &Vec<ViewColumnDependency>) -> (r: bool)
    ensures
        r == (views(a@) == views(b@)),
{
    if a.len() != b.len() {
        assert(views(a@).len() != views(b@).len());
        return false;
    }
    let mut i: usize = 0;
    while i < a.len()
        invariant
            i <= a@.len(),
            a@.len() == b@.len(),
            forall|j: int| 0 <= j < i ==> views(a@)[j] == views(b@)[j],
        decreases a.len() - i,
    {
        if !a[i].same(&b[i]) {
            assert(views(a@)[i as int] != views(b@)[i as int]);
            return false;
        }
        i += 1;
    }
    assert(views(a@) =~= views(b@));
    true
}

/// The fields of the frame of a column dependency.
pub open spec fn view_column_fields(x: ViewColumnView) -> Seq<(u8, Seq<u8>)> {
    let none = Seq::<(u8, Seq<u8>)>::empty();
    let f1 = none.push((TAG_COLUMN_ID, x.column));
    let f2 = f1.push((TAG_COLUMN_NAME, encode_utf8(x.name)));
    f2
}

/// The frame of a column dependency.
#[verifier::opaque]
pub open spec fn view_column_frame(x: ViewColumnView) -> Seq<u8> {
    seq![COLUMN_DEPENDENCY_VERSION] + fields_bytes(view_column_fields(x))
}

/// Whether every field of the frame has a length that a `u32` holds.
pub open spec fn view_column_fits(x: ViewColumnView) -> bool {
    &&& fits(encode_utf8(x.name))
}

/// The fields of a list under one tag, each with its own frame.
pub open spec fn view_column_list(tag: u8, items: Seq<ViewColumnView>) -> Seq<(u8, Seq<u8>)> {
    Seq::new(items.len(), |i: int| (tag, view_column_frame(items[i])))
}

/// Write the fields of a list under one tag.
pub fn write_view_columns(w: FrameWriter, tag: u8, items: &Vec<ViewColumnDependency>) -> (r: FrameWriter)
    requires
        forall|i: int| 0 <= i < items@.len() ==> view_column_fits(#[trigger] views(items@)[i]) && fits(view_column_frame(views(items@)[i])),
    ensures
        r.head() == w.head(),
        r.fields() == w.fields() + view_column_list(tag, views(items@)),
{
    let ghost list = view_column_list(tag, views(items@));
    let ghost head = w.head();
    let ghost before = w.fields();
    let mut w = w;
    let mut i: usize = 0;
    assert(before + list.subrange(0, 0) =~= before);
    while i < items.len()
        invariant
            i <= items@.len(),
            list == view_column_list(tag, views(items@)),
            w.head() == head,
            w.fields() == before + list.subrange(0, i as int),
            forall|i: int| 0 <= i < items@.len() ==> view_column_fits(#[trigger] views(items@)[i]) && fits(view_column_frame(views(items@)[i])),
        decreases items.len() - i,
    {
        assert(views(items@)[i as int] == items@[i as int]@);
        let item = items[i].encode();
        w = w.field(tag, item.as_slice());
        assert(w.fields() =~= before + list.subrange(0, i as int + 1));
        i += 1;
    }
    assert(list.subrange(0, i as int) =~= list);
    w
}

impl ViewColumnDependency {
    /// Encode the frame.
    pub fn encode(&self) -> (r: Vec<u8>)
        requires
            view_column_fits(self@),
        ensures
            r@ == view_column_frame(self@),
    {
        let w = FrameWriter::versioned(COLUMN_DEPENDENCY_VERSION);
        let column = copy_bytes(&self.column.as_bytes());
        let w = w.field(TAG_COLUMN_ID, column.as_slice());
        let name = copy_bytes(self.name.value().as_bytes());
        let w = w.field(TAG_COLUMN_NAME, name.as_slice());
        assert(w.fields() =~= view_column_fields(self@));
        reveal(view_column_frame);
        w.finish()
    }
}

/// What is known of a column dependency after some of its fields.
#[verifier::ext_equal]
pub struct ViewColumnState {
    pub column: Option<Seq<u8>>,
    pub name: Option<Seq<char>>,
}

/// Nothing is known before the first field.
pub open spec fn view_column_start() -> ViewColumnState {
    ViewColumnState {
        column: None,
        name: None,
    }
}

/// What one field adds.
pub open spec fn view_column_step(s: ViewColumnState, tag: u8, payload: Seq<u8>) -> Result<ViewColumnState, ViewCodecError> {
    if tag == TAG_COLUMN_ID {
        match filled(s.column, uuid_field(payload), ViewCodecError::DuplicateField) {
            Err(error) => Err(error),
            Ok(column) => Ok(ViewColumnState { column, ..s }),
        }
    } else if tag == TAG_COLUMN_NAME {
        match filled(s.name, text_field(payload), ViewCodecError::DuplicateField) {
            Err(error) => Err(error),
            Ok(name) => Ok(ViewColumnState { name, ..s }),
        }
    } else {
        Ok(s)
    }
}

/// [`view_column_step`] as a value.
pub open spec fn view_column_steps() -> spec_fn(ViewColumnState, u8, Seq<u8>) -> Result<ViewColumnState, ViewCodecError> {
    |s: ViewColumnState, tag: u8, payload: Seq<u8>| view_column_step(s, tag, payload)
}

/// A column that a view depends on that the fields describe.
pub open spec fn view_column_finish(s: ViewColumnState) -> Result<ViewColumnView, ViewCodecError> {
    if s.column is None {
        Err(ViewCodecError::MissingField(TAG_COLUMN_ID))
    } else if s.name is None {
        Err(ViewCodecError::MissingField(TAG_COLUMN_NAME))
    } else {
        Ok(ViewColumnView {
            column: s.column->Some_0,
            name: s.name->Some_0,
        })
    }
}

/// What decoding a frame gives.
#[verifier::opaque]
pub open spec fn view_column_decoded(b: Seq<u8>) -> Result<ViewColumnView, ViewCodecError> {
    if b.len() == 0 || b[0] != COLUMN_DEPENDENCY_VERSION {
        Err(ViewCodecError::UnknownVersion)
    } else {
        match run_fields(view_column_start(), b.subrange(1, b.len() as int), view_column_steps(), ViewCodecError::Truncated) {
            Err(error) => Err(error),
            Ok(s) => view_column_finish(s),
        }
    }
}

impl ViewColumnDependency {
    /// Decode one complete frame.
    pub fn decode(frame: &[u8]) -> (r: Result<ViewColumnDependency, ViewCodecError>)
        ensures
            outcome(r) == view_column_decoded(frame@),
    {
        broadcast use lemma_views_push;
        reveal(view_column_decoded);
        let mut reader = Reader::new(frame);
        if reader.u8() != Some(COLUMN_DEPENDENCY_VERSION) {
            return Err(ViewCodecError::UnknownVersion);
        }
        let mut column: Option<ColumnId> = None;
        let mut name: Option<SqlName> = None;
        let ghost mut state = view_column_start();
        while !reader.is_empty()
            invariant
                state == (ViewColumnState {
                    column: view_of(column),
                    name: view_of(name),
                }),
                view_column_decoded(frame@) == (match run_fields(
                    state,
                    reader.remaining(),
                    view_column_steps(),
                    ViewCodecError::Truncated,
                ) {
                    Err(error) => Err(error),
                    Ok(s) => view_column_finish(s),
                }),
            decreases reader.remaining().len(),
        {
            let (tag, payload) = match reader.field() {
                Ok(Some(field)) => field,
                _ => {
                    return Err(ViewCodecError::Truncated);
                },
            };
            let ghost next = view_column_step(state, tag, payload@);
            assert(view_column_steps()(state, tag, payload@) == next);
            if tag == TAG_COLUMN_ID {
                match read_uuid(payload) {
                    Err(error) => {
                        return Err(error);
                    },
                    Ok(found) => {
                        if column.is_some() {
                            return Err(ViewCodecError::DuplicateField);
                        }
                        column = Some(ColumnId(found));
                    },
                }
            } else if tag == TAG_COLUMN_NAME {
                match read_name(payload) {
                    Err(error) => {
                        return Err(error);
                    },
                    Ok(found) => {
                        if name.is_some() {
                            return Err(ViewCodecError::DuplicateField);
                        }
                        name = Some(found);
                    },
                }
            }
            proof {
                state = next->Ok_0;
            }
        }
        let column = match column {
            Some(found) => found,
            None => {
                return Err(ViewCodecError::MissingField(TAG_COLUMN_ID));
            },
        };
        let name = match name {
            Some(found) => found,
            None => {
                return Err(ViewCodecError::MissingField(TAG_COLUMN_NAME));
            },
        };
        let r = ViewColumnDependency { column, name };
        assert(r@ == view_column_finish(state)->Ok_0);
        Ok(r)
    }
}

/// Whether a value is one that decoding can give.
pub open spec fn view_column_valid(x: ViewColumnView) -> bool {
    &&& random_uuid(x.column)
}

/// Decoding the frame of a column dependency gives it back.
pub proof fn view_column_roundtrip(x: ViewColumnView)
    requires
        view_column_valid(x),
        view_column_fits(x),
    ensures
        view_column_decoded(view_column_frame(x)) == Ok::<ViewColumnView, ViewCodecError>(x),
{
    reveal(view_column_decoded);
    reveal(view_column_frame);
    let none = Seq::<(u8, Seq<u8>)>::empty();
    let f1 = none.push((TAG_COLUMN_ID, x.column));
    let f2 = f1.push((TAG_COLUMN_NAME, encode_utf8(x.name)));
    let step = view_column_steps();
    let s0 = view_column_start();
    assert(fields_fit(none));
    let s1 = ViewColumnState { column: Some(x.column), ..s0 };
    assert(fold_fields(s0, f1, step) == Ok::<ViewColumnState, ViewCodecError>(s1) && fields_fit(f1)) by {
        lemma_fold_push(s0, none, TAG_COLUMN_ID, x.column, step);
        lemma_fit_push(none, TAG_COLUMN_ID, x.column);
        assert(step(s0, TAG_COLUMN_ID, x.column) == Ok::<ViewColumnState, ViewCodecError>(s1));
    }
    let s2 = ViewColumnState { name: Some(x.name), ..s1 };
    assert(fold_fields(s0, f2, step) == Ok::<ViewColumnState, ViewCodecError>(s2) && fields_fit(f2)) by {
        lemma_text_field(x.name);
        lemma_fold_push(s0, f1, TAG_COLUMN_NAME, encode_utf8(x.name), step);
        lemma_fit_push(f1, TAG_COLUMN_NAME, encode_utf8(x.name));
        assert(step(s1, TAG_COLUMN_NAME, encode_utf8(x.name)) == Ok::<ViewColumnState, ViewCodecError>(s2));
    }
    lemma_run_fold(s0, f2, step, ViewCodecError::Truncated);
    assert(f2 == view_column_fields(x));
    let b = view_column_frame(x);
    assert(b.subrange(1, b.len() as int) =~= fields_bytes(f2));
    assert(view_column_finish(s2) == Ok::<ViewColumnView, ViewCodecError>(x));
}

/// The bytes that known fields of a column dependency take.
pub open spec fn view_column_size(s: ViewColumnState) -> nat {
    let column: nat = match s.column {
        Some(value) => 5 + value.len(),
        None => 0,
    };
    let name: nat = match s.name {
        Some(value) => 5 + encode_utf8(value).len(),
        None => 0,
    };
    column + name
}

/// Whether known fields of a column dependency are sound and can be written again.
pub open spec fn view_column_sound(s: ViewColumnState) -> bool {
    &&& (s.column matches Some(value) ==> random_uuid(value) && fits(value))
    &&& (s.name matches Some(value) ==> fits(encode_utf8(value)))
}

/// One field adds no more than its own bytes.
proof fn lemma_view_column_step(s: ViewColumnState, tag: u8, payload: Seq<u8>)
    requires
        view_column_sound(s),
        fits(payload),
    ensures
        view_column_step(s, tag, payload) matches Ok(next) ==> view_column_sound(next) && view_column_size(next) <= view_column_size(
            s,
        ) + 5 + payload.len(),
{
    if let Ok(next) = view_column_step(s, tag, payload) {
        if tag == TAG_COLUMN_ID {
        } else if tag == TAG_COLUMN_NAME {
            lemma_text_shrinks(payload);
        }
    }
}

/// What decoding gives is sound and takes no more bytes than it was read from.
pub proof fn view_column_shrinks(b: Seq<u8>)
    ensures
        view_column_decoded(b) matches Ok(x) ==> view_column_valid(x) && view_column_fits(x) && view_column_frame(x).len() <= b.len(),
{
    reveal(view_column_decoded);
    reveal(view_column_frame);
    if let Ok(x) = view_column_decoded(b) {
        let body = b.subrange(1, b.len() as int);
        let good = |s: ViewColumnState| view_column_sound(s);
        let size = |s: ViewColumnState| view_column_size(s);
        let step = view_column_steps();
        let s0 = view_column_start();
        let end = run_fields(s0, body, step, ViewCodecError::Truncated)->Ok_0;
        assert forall|s: ViewColumnState, tag: u8, payload: Seq<u8>|
            good(s) && fits(payload) && (#[trigger] step(s, tag, payload)) is Ok implies good(
            step(s, tag, payload)->Ok_0,
        ) && size(step(s, tag, payload)->Ok_0) <= size(s) + 5 + payload.len() by {
            lemma_view_column_step(s, tag, payload);
        }
        lemma_run_bounded(s0, body, step, good, size, ViewCodecError::Truncated);
        assert(view_column_sound(end));
        let none = Seq::<(u8, Seq<u8>)>::empty();
        assert(fields_bytes(none).len() == 0);
        let f1 = none.push((TAG_COLUMN_ID, x.column));
        lemma_fields_len(none, TAG_COLUMN_ID, x.column);
        let f2 = f1.push((TAG_COLUMN_NAME, encode_utf8(x.name)));
        lemma_fields_len(f1, TAG_COLUMN_NAME, encode_utf8(x.name));
        assert(f2 == view_column_fields(x));
        assert(view_column_size(s0) == 0);
        assert(fields_bytes(f2).len() == view_column_size(end));
    }
}

/// A table that a view reads, with its name and columns.
#[derive(Debug, PartialEq, Eq)]
pub struct ViewDependency {
    pub table: TableId,
    pub name: SqlName,
    pub columns: Vec<ViewColumnDependency>,
}

/// A table that a view reads as a mathematical value.
#[verifier::ext_equal]
pub struct ViewDependencyView {
    pub table: Seq<u8>,
    pub name: Seq<char>,
    pub columns: Seq<ViewColumnView>,
}

impl View for ViewDependency {
    type V = ViewDependencyView;

    open spec fn view(&self) -> ViewDependencyView {
        ViewDependencyView {
            table: self.table@,
            name: self.name@,
            columns: views(self.columns@),
        }
    }
}

impl Clone for ViewDependency {
    fn clone(&self) -> (r: Self)
        ensures
            r@ == self@,
    {
        ViewDependency {
            table: self.table,
            name: self.name.clone(),
            columns: clone_view_columns(&self.columns),
        }
    }
}

impl ViewDependency {
    /// Whether two values are equal.
    pub fn same(&self, other: &ViewDependency) -> (r: bool)
        ensures
            r == (self@ == other@),
    {
        self.table.same(&other.table)
            && self.name.same(&other.name)
            && same_view_columns(&self.columns, &other.columns)
    }
}

/// A copy of a list.
pub fn clone_view_dependencies(items: &Vec<ViewDependency>) -> (r: Vec<ViewDependency>)
    ensures
        views(r@) == views(items@),
{
    let mut r: Vec<ViewDependency> = Vec::new();
    let mut i: usize = 0;
    while i < items.len()
        invariant
            i <= items@.len(),
            r@.len() == i,
            forall|j: int| 0 <= j < i ==> (#[trigger] r@[j])@ == items@[j]@,
        decreases items.len() - i,
    {
        r.push(items[i].clone());
        i += 1;
    }
    assert(views(r@) =~= views(items@));
    r
}

/// Whether two lists hold equal items.
pub fn same_view_dependencies(a: &Vec<ViewDependency>, b: &Vec<ViewDependency>) -> (r: bool)
    ensures
        r == (views(a@) == views(b@)),
{
    if a.len() != b.len() {
        assert(views(a@).len() != views(b@).len());
        return false;
    }
    let mut i: usize = 0;
    while i < a.len()
        invariant
            i <= a@.len(),
            a@.len() == b@.len(),
            forall|j: int| 0 <= j < i ==> views(a@)[j] == views(b@)[j],
        decreases a.len() - i,
    {
        if !a[i].same(&b[i]) {
            assert(views(a@)[i as int] != views(b@)[i as int]);
            return false;
        }
        i += 1;
    }
    assert(views(a@) =~= views(b@));
    true
}

/// The fields of the frame of a dependency.
pub open spec fn view_dependency_fields(x: ViewDependencyView) -> Seq<(u8, Seq<u8>)> {
    let none = Seq::<(u8, Seq<u8>)>::empty();
    let f1 = none.push((TAG_TABLE_ID, x.table));
    let f2 = f1.push((TAG_TABLE_NAME, encode_utf8(x.name)));
    let f3 = f2 + view_column_list(TAG_COLUMN_DEPENDENCY, x.columns);
    f3
}

/// The frame of a dependency.
#[verifier::opaque]
pub open spec fn view_dependency_frame(x: ViewDependencyView) -> Seq<u8> {
    seq![DEPENDENCY_VERSION] + fields_bytes(view_dependency_fields(x))
}

/// Whether every field of the frame has a length that a `u32` holds.
pub open spec fn view_dependency_fits(x: ViewDependencyView) -> bool {
    &&& fits(encode_utf8(x.name))
    &&& forall|i: int| 0 <= i < x.columns.len() ==> view_column_fits(#[trigger] x.columns[i]) && fits(view_column_frame(x.columns[i]))
}

/// The fields of a list under one tag, each with its own frame.
pub open spec fn view_dependency_list(tag: u8, items: Seq<ViewDependencyView>) -> Seq<(u8, Seq<u8>)> {
    Seq::new(items.len(), |i: int| (tag, view_dependency_frame(items[i])))
}

/// Write the fields of a list under one tag.
pub fn write_view_dependencies(w: FrameWriter, tag: u8, items: &Vec<ViewDependency>) -> (r: FrameWriter)
    requires
        forall|i: int| 0 <= i < items@.len() ==> view_dependency_fits(#[trigger] views(items@)[i]) && fits(view_dependency_frame(views(items@)[i])),
    ensures
        r.head() == w.head(),
        r.fields() == w.fields() + view_dependency_list(tag, views(items@)),
{
    let ghost list = view_dependency_list(tag, views(items@));
    let ghost head = w.head();
    let ghost before = w.fields();
    let mut w = w;
    let mut i: usize = 0;
    assert(before + list.subrange(0, 0) =~= before);
    while i < items.len()
        invariant
            i <= items@.len(),
            list == view_dependency_list(tag, views(items@)),
            w.head() == head,
            w.fields() == before + list.subrange(0, i as int),
            forall|i: int| 0 <= i < items@.len() ==> view_dependency_fits(#[trigger] views(items@)[i]) && fits(view_dependency_frame(views(items@)[i])),
        decreases items.len() - i,
    {
        assert(views(items@)[i as int] == items@[i as int]@);
        let item = items[i].encode();
        w = w.field(tag, item.as_slice());
        assert(w.fields() =~= before + list.subrange(0, i as int + 1));
        i += 1;
    }
    assert(list.subrange(0, i as int) =~= list);
    w
}

impl ViewDependency {
    /// Encode the frame.
    pub fn encode(&self) -> (r: Vec<u8>)
        requires
            view_dependency_fits(self@),
        ensures
            r@ == view_dependency_frame(self@),
    {
        assert(self@.columns == views(self.columns@));
        let w = FrameWriter::versioned(DEPENDENCY_VERSION);
        let table = copy_bytes(&self.table.as_bytes());
        let w = w.field(TAG_TABLE_ID, table.as_slice());
        let name = copy_bytes(self.name.value().as_bytes());
        let w = w.field(TAG_TABLE_NAME, name.as_slice());
        let w = write_view_columns(w, TAG_COLUMN_DEPENDENCY, &self.columns);
        assert(w.fields() =~= view_dependency_fields(self@));
        reveal(view_dependency_frame);
        w.finish()
    }
}

/// What is known of a dependency after some of its fields.
#[verifier::ext_equal]
pub struct ViewDependencyState {
    pub table: Option<Seq<u8>>,
    pub name: Option<Seq<char>>,
    pub columns: Seq<ViewColumnView>,
}

/// Nothing is known before the first field.
pub open spec fn view_dependency_start() -> ViewDependencyState {
    ViewDependencyState {
        table: None,
        name: None,
        columns: Seq::empty(),
    }
}

/// What one field adds.
pub open spec fn view_dependency_step(s: ViewDependencyState, tag: u8, payload: Seq<u8>) -> Result<ViewDependencyState, ViewCodecError> {
    if tag == TAG_TABLE_ID {
        match filled(s.table, uuid_field(payload), ViewCodecError::DuplicateField) {
            Err(error) => Err(error),
            Ok(table) => Ok(ViewDependencyState { table, ..s }),
        }
    } else if tag == TAG_TABLE_NAME {
        match filled(s.name, text_field(payload), ViewCodecError::DuplicateField) {
            Err(error) => Err(error),
            Ok(name) => Ok(ViewDependencyState { name, ..s }),
        }
    } else if tag == TAG_COLUMN_DEPENDENCY {
        match grown(s.columns, view_column_decoded(payload)) {
            Err(error) => Err(error),
            Ok(columns) => Ok(ViewDependencyState { columns, ..s }),
        }
    } else {
        Ok(s)
    }
}

/// [`view_dependency_step`] as a value.
pub open spec fn view_dependency_steps() -> spec_fn(ViewDependencyState, u8, Seq<u8>) -> Result<ViewDependencyState, ViewCodecError> {
    |s: ViewDependencyState, tag: u8, payload: Seq<u8>| view_dependency_step(s, tag, payload)
}

/// A table that a view reads that the fields describe.
pub open spec fn view_dependency_finish(s: ViewDependencyState) -> Result<ViewDependencyView, ViewCodecError> {
    if s.table is None {
        Err(ViewCodecError::MissingField(TAG_TABLE_ID))
    } else if s.name is None {
        Err(ViewCodecError::MissingField(TAG_TABLE_NAME))
    } else {
        Ok(ViewDependencyView {
            table: s.table->Some_0,
            name: s.name->Some_0,
            columns: s.columns,
        })
    }
}

/// What decoding a frame gives.
#[verifier::opaque]
pub open spec fn view_dependency_decoded(b: Seq<u8>) -> Result<ViewDependencyView, ViewCodecError> {
    if b.len() == 0 || b[0] != DEPENDENCY_VERSION {
        Err(ViewCodecError::UnknownVersion)
    } else {
        match run_fields(view_dependency_start(), b.subrange(1, b.len() as int), view_dependency_steps(), ViewCodecError::Truncated) {
            Err(error) => Err(error),
            Ok(s) => view_dependency_finish(s),
        }
    }
}

impl ViewDependency {
    /// Decode one complete frame.
    pub fn decode(frame: &[u8]) -> (r: Result<ViewDependency, ViewCodecError>)
        ensures
            outcome(r) == view_dependency_decoded(frame@),
    {
        broadcast use lemma_views_push;
        reveal(view_dependency_decoded);
        let mut reader = Reader::new(frame);
        if reader.u8() != Some(DEPENDENCY_VERSION) {
            return Err(ViewCodecError::UnknownVersion);
        }
        let mut table: Option<TableId> = None;
        let mut name: Option<SqlName> = None;
        let mut columns: Vec<ViewColumnDependency> = Vec::new();
        let ghost mut state = view_dependency_start();
        assert(views(columns@) =~= Seq::<ViewColumnView>::empty());
        while !reader.is_empty()
            invariant
                state == (ViewDependencyState {
                    table: view_of(table),
                    name: view_of(name),
                    columns: views(columns@),
                }),
                view_dependency_decoded(frame@) == (match run_fields(
                    state,
                    reader.remaining(),
                    view_dependency_steps(),
                    ViewCodecError::Truncated,
                ) {
                    Err(error) => Err(error),
                    Ok(s) => view_dependency_finish(s),
                }),
            decreases reader.remaining().len(),
        {
            let (tag, payload) = match reader.field() {
                Ok(Some(field)) => field,
                _ => {
                    return Err(ViewCodecError::Truncated);
                },
            };
            let ghost next = view_dependency_step(state, tag, payload@);
            assert(view_dependency_steps()(state, tag, payload@) == next);
            if tag == TAG_TABLE_ID {
                match read_uuid(payload) {
                    Err(error) => {
                        return Err(error);
                    },
                    Ok(found) => {
                        if table.is_some() {
                            return Err(ViewCodecError::DuplicateField);
                        }
                        table = Some(TableId(found));
                    },
                }
            } else if tag == TAG_TABLE_NAME {
                match read_name(payload) {
                    Err(error) => {
                        return Err(error);
                    },
                    Ok(found) => {
                        if name.is_some() {
                            return Err(ViewCodecError::DuplicateField);
                        }
                        name = Some(found);
                    },
                }
            } else if tag == TAG_COLUMN_DEPENDENCY {
                match ViewColumnDependency::decode(payload) {
                    Err(error) => {
                        return Err(error);
                    },
                    Ok(found) => {
                        columns.push(found);
                    },
                }
            }
            proof {
                state = next->Ok_0;
            }
        }
        let table = match table {
            Some(found) => found,
            None => {
                return Err(ViewCodecError::MissingField(TAG_TABLE_ID));
            },
        };
        let name = match name {
            Some(found) => found,
            None => {
                return Err(ViewCodecError::MissingField(TAG_TABLE_NAME));
            },
        };
        let r = ViewDependency { table, name, columns };
        assert(r@ == view_dependency_finish(state)->Ok_0);
        Ok(r)
    }
}

/// Whether a value is one that decoding can give.
pub open spec fn view_dependency_valid(x: ViewDependencyView) -> bool {
    &&& random_uuid(x.table)
    &&& forall|i: int| 0 <= i < x.columns.len() ==> view_column_valid(#[trigger] x.columns[i])
}

/// Decoding the frame of a dependency gives it back.
pub proof fn view_dependency_roundtrip(x: ViewDependencyView)
    requires
        view_dependency_valid(x),
        view_dependency_fits(x),
    ensures
        view_dependency_decoded(view_dependency_frame(x)) == Ok::<ViewDependencyView, ViewCodecError>(x),
{
    reveal(view_dependency_decoded);
    reveal(view_dependency_frame);
    let none = Seq::<(u8, Seq<u8>)>::empty();
    let f1 = none.push((TAG_TABLE_ID, x.table));
    let f2 = f1.push((TAG_TABLE_NAME, encode_utf8(x.name)));
    let f3 = f2 + view_column_list(TAG_COLUMN_DEPENDENCY, x.columns);
    let step = view_dependency_steps();
    let s0 = view_dependency_start();
    assert(fields_fit(none));
    let s1 = ViewDependencyState { table: Some(x.table), ..s0 };
    assert(fold_fields(s0, f1, step) == Ok::<ViewDependencyState, ViewCodecError>(s1) && fields_fit(f1)) by {
        lemma_fold_push(s0, none, TAG_TABLE_ID, x.table, step);
        lemma_fit_push(none, TAG_TABLE_ID, x.table);
        assert(step(s0, TAG_TABLE_ID, x.table) == Ok::<ViewDependencyState, ViewCodecError>(s1));
    }
    let s2 = ViewDependencyState { name: Some(x.name), ..s1 };
    assert(fold_fields(s0, f2, step) == Ok::<ViewDependencyState, ViewCodecError>(s2) && fields_fit(f2)) by {
        lemma_text_field(x.name);
        lemma_fold_push(s0, f1, TAG_TABLE_NAME, encode_utf8(x.name), step);
        lemma_fit_push(f1, TAG_TABLE_NAME, encode_utf8(x.name));
        assert(step(s1, TAG_TABLE_NAME, encode_utf8(x.name)) == Ok::<ViewDependencyState, ViewCodecError>(s2));
    }
    let s3 = ViewDependencyState { columns: x.columns, ..s2 };
    assert(fold_fields(s0, f3, step) == Ok::<ViewDependencyState, ViewCodecError>(s3) && fields_fit(f3)) by {
        let states = |i: int| ViewDependencyState { columns: x.columns.subrange(0, i), ..s2 };
        let fields = view_column_list(TAG_COLUMN_DEPENDENCY, x.columns);
        assert forall|i: int| 0 <= i < fields.len() implies #[trigger] step(
            states(i),
            fields[i].0,
            fields[i].1,
        ) == Ok::<ViewDependencyState, ViewCodecError>(states(i + 1)) by {
            view_column_roundtrip(x.columns[i]);
            assert(x.columns.subrange(0, i).push(x.columns[i]) =~= x.columns.subrange(0, i + 1));
        }
        assert(states(0) =~= s2);
        lemma_fold_list(s0, f2, fields, states, step);
        assert(states(fields.len() as int) =~= s3);
        assert forall|i: int| 0 <= i < fields.len() implies fits((#[trigger] fields[i]).1) by {
            assert(view_column_valid(x.columns[i]));
        }
        lemma_fit_concat(f2, fields);
    }
    lemma_run_fold(s0, f3, step, ViewCodecError::Truncated);
    assert(f3 == view_dependency_fields(x));
    let b = view_dependency_frame(x);
    assert(b.subrange(1, b.len() as int) =~= fields_bytes(f3));
    assert(view_dependency_finish(s3) == Ok::<ViewDependencyView, ViewCodecError>(x));
}

/// The bytes that known fields of a dependency take.
pub open spec fn view_dependency_size(s: ViewDependencyState) -> nat {
    let table: nat = match s.table {
        Some(value) => 5 + value.len(),
        None => 0,
    };
    let name: nat = match s.name {
        Some(value) => 5 + encode_utf8(value).len(),
        None => 0,
    };
    let columns = fields_bytes(view_column_list(TAG_COLUMN_DEPENDENCY, s.columns)).len();
    table + name + columns
}

/// Whether known fields of a dependency are sound and can be written again.
pub open spec fn view_dependency_sound(s: ViewDependencyState) -> bool {
    &&& (s.table matches Some(value) ==> random_uuid(value) && fits(value))
    &&& (s.name matches Some(value) ==> fits(encode_utf8(value)))
    &&& forall|i: int| 0 <= i < s.columns.len() ==> view_column_valid(#[trigger] s.columns[i]) && fits(view_column_frame(s.columns[i])) && view_column_fits(s.columns[i])
}

/// One field adds no more than its own bytes.
proof fn lemma_view_dependency_step(s: ViewDependencyState, tag: u8, payload: Seq<u8>)
    requires
        view_dependency_sound(s),
        fits(payload),
    ensures
        view_dependency_step(s, tag, payload) matches Ok(next) ==> view_dependency_sound(next) && view_dependency_size(next) <= view_dependency_size(
            s,
        ) + 5 + payload.len(),
{
    if let Ok(next) = view_dependency_step(s, tag, payload) {
        if tag == TAG_TABLE_ID {
        } else if tag == TAG_TABLE_NAME {
            lemma_text_shrinks(payload);
        } else if tag == TAG_COLUMN_DEPENDENCY {
            view_column_shrinks(payload);
            let found = view_column_decoded(payload)->Ok_0;
            assert(view_column_list(TAG_COLUMN_DEPENDENCY, s.columns.push(found)) =~= view_column_list(TAG_COLUMN_DEPENDENCY, s.columns).push(
                (TAG_COLUMN_DEPENDENCY, view_column_frame(found)),
            ));
            lemma_fields_len(view_column_list(TAG_COLUMN_DEPENDENCY, s.columns), TAG_COLUMN_DEPENDENCY, view_column_frame(found));
        }
    }
}

/// What decoding gives is sound and takes no more bytes than it was read from.
pub proof fn view_dependency_shrinks(b: Seq<u8>)
    ensures
        view_dependency_decoded(b) matches Ok(x) ==> view_dependency_valid(x) && view_dependency_fits(x) && view_dependency_frame(x).len() <= b.len(),
{
    reveal(view_dependency_decoded);
    reveal(view_dependency_frame);
    if let Ok(x) = view_dependency_decoded(b) {
        let body = b.subrange(1, b.len() as int);
        let good = |s: ViewDependencyState| view_dependency_sound(s);
        let size = |s: ViewDependencyState| view_dependency_size(s);
        let step = view_dependency_steps();
        let s0 = view_dependency_start();
        let end = run_fields(s0, body, step, ViewCodecError::Truncated)->Ok_0;
        assert forall|s: ViewDependencyState, tag: u8, payload: Seq<u8>|
            good(s) && fits(payload) && (#[trigger] step(s, tag, payload)) is Ok implies good(
            step(s, tag, payload)->Ok_0,
        ) && size(step(s, tag, payload)->Ok_0) <= size(s) + 5 + payload.len() by {
            lemma_view_dependency_step(s, tag, payload);
        }
        lemma_run_bounded(s0, body, step, good, size, ViewCodecError::Truncated);
        assert(view_dependency_sound(end));
        let none = Seq::<(u8, Seq<u8>)>::empty();
        assert(fields_bytes(none).len() == 0);
        let f1 = none.push((TAG_TABLE_ID, x.table));
        lemma_fields_len(none, TAG_TABLE_ID, x.table);
        let f2 = f1.push((TAG_TABLE_NAME, encode_utf8(x.name)));
        lemma_fields_len(f1, TAG_TABLE_NAME, encode_utf8(x.name));
        let f3 = f2 + view_column_list(TAG_COLUMN_DEPENDENCY, x.columns);
        lemma_fields_concat(f2, view_column_list(TAG_COLUMN_DEPENDENCY, x.columns));
        assert(view_column_list(TAG_COLUMN_DEPENDENCY, Seq::<ViewColumnView>::empty()) =~= none);
        assert(f3 == view_dependency_fields(x));
        assert(view_dependency_size(s0) == 0);
        assert(fields_bytes(f3).len() == view_dependency_size(end));
    }
}

/// The creation or the drop of a view.
#[derive(Debug, PartialEq, Eq)]
pub struct ViewOperation {
    pub mutation_id: MutationId,
    pub action: ViewAction,
    pub name: SqlName,
    pub create_sql: String,
    pub dependencies: Vec<ViewDependency>,
}

/// A change of a view as a mathematical value.
#[verifier::ext_equal]
pub struct ViewOperationView {
    pub mutation_id: Seq<u8>,
    pub action: ViewAction,
    pub name: Seq<char>,
    pub create_sql: Seq<char>,
    pub dependencies: Seq<ViewDependencyView>,
}

impl View for ViewOperation {
    type V = ViewOperationView;

    open spec fn view(&self) -> ViewOperationView {
        ViewOperationView {
            mutation_id: self.mutation_id@,
            action: self.action,
            name: self.name@,
            create_sql: self.create_sql@,
            dependencies: views(self.dependencies@),
        }
    }
}

impl Clone for ViewOperation {
    fn clone(&self) -> (r: Self)
        ensures
            r@ == self@,
    {
        ViewOperation {
            mutation_id: self.mutation_id,
            action: self.action,
            name: self.name.clone(),
            create_sql: self.create_sql.clone(),
            dependencies: clone_view_dependencies(&self.dependencies),
        }
    }
}

impl ViewOperation {
    /// Whether two values are equal.
    pub fn same(&self, other: &ViewOperation) -> (r: bool)
        ensures
            r == (self@ == other@),
    {
        self.mutation_id.same(&other.mutation_id)
            && (self.action == other.action)
            && self.name.same(&other.name)
            && same_text(self.create_sql.as_str(), other.create_sql.as_str())
            && same_view_dependencies(&self.dependencies, &other.dependencies)
    }
}

/// The fields of the frame of a change of a view.
pub open spec fn view_operation_fields(x: ViewOperationView) -> Seq<(u8, Seq<u8>)> {
    let none = Seq::<(u8, Seq<u8>)>::empty();
    let f1 = none.push((TAG_MUTATION_ID, x.mutation_id));
    let f2 = f1.push((TAG_ACTION, seq![x.action.code()]));
    let f3 = f2.push((TAG_NAME, encode_utf8(x.name)));
    let f4 = f3.push((TAG_CREATE_SQL, encode_utf8(x.create_sql)));
    let f5 = f4 + view_dependency_list(TAG_DEPENDENCY, x.dependencies);
    f5
}

/// The frame of a change of a view.
#[verifier::opaque]
pub open spec fn view_operation_frame(x: ViewOperationView) -> Seq<u8> {
    seq![VERSION] + fields_bytes(view_operation_fields(x))
}

/// Whether every field of the frame has a length that a `u32` holds.
pub open spec fn view_operation_fits(x: ViewOperationView) -> bool {
    &&& fits(encode_utf8(x.name))
    &&& fits(encode_utf8(x.create_sql))
    &&& forall|i: int| 0 <= i < x.dependencies.len() ==> view_dependency_fits(#[trigger] x.dependencies[i]) && fits(view_dependency_frame(x.dependencies[i]))
}

impl ViewOperation {
    /// Encode the frame.
    pub fn encode(&self) -> (r: Vec<u8>)
        requires
            view_operation_fits(self@),
        ensures
            r@ == view_operation_frame(self@),
    {
        assert(self@.dependencies == views(self.dependencies@));
        let w = FrameWriter::versioned(VERSION);
        let mutation_id = copy_bytes(&self.mutation_id.as_bytes());
        let w = w.field(TAG_MUTATION_ID, mutation_id.as_slice());
        let action = one_byte(self.action.to_u8());
        let w = w.field(TAG_ACTION, action.as_slice());
        let name = copy_bytes(self.name.value().as_bytes());
        let w = w.field(TAG_NAME, name.as_slice());
        let create_sql = copy_bytes(self.create_sql.as_str().as_bytes());
        let w = w.field(TAG_CREATE_SQL, create_sql.as_slice());
        let w = write_view_dependencies(w, TAG_DEPENDENCY, &self.dependencies);
        assert(w.fields() =~= view_operation_fields(self@));
        reveal(view_operation_frame);
        w.finish()
    }
}

/// What is known of a change of a view after some of its fields.
#[verifier::ext_equal]
pub struct ViewOperationState {
    pub mutation_id: Option<Seq<u8>>,
    pub action: Option<ViewAction>,
    pub name: Option<Seq<char>>,
    pub create_sql: Option<Seq<char>>,
    pub dependencies: Seq<ViewDependencyView>,
}

/// Nothing is known before the first field.
pub open spec fn view_operation_start() -> ViewOperationState {
    ViewOperationState {
        mutation_id: None,
        action: None,
        name: None,
        create_sql: None,
        dependencies: Seq::empty(),
    }
}

/// What one field adds.
pub open spec fn view_operation_step(s: ViewOperationState, tag: u8, payload: Seq<u8>) -> Result<ViewOperationState, ViewCodecError> {
    if tag == TAG_MUTATION_ID {
        match filled(s.mutation_id, uuid_field(payload), ViewCodecError::DuplicateField) {
            Err(error) => Err(error),
            Ok(mutation_id) => Ok(ViewOperationState { mutation_id, ..s }),
        }
    } else if tag == TAG_ACTION {
        match filled(s.action, view_action_field(payload), ViewCodecError::DuplicateField) {
            Err(error) => Err(error),
            Ok(action) => Ok(ViewOperationState { action, ..s }),
        }
    } else if tag == TAG_NAME {
        match filled(s.name, text_field(payload), ViewCodecError::DuplicateField) {
            Err(error) => Err(error),
            Ok(name) => Ok(ViewOperationState { name, ..s }),
        }
    } else if tag == TAG_CREATE_SQL {
        match filled(s.create_sql, text_field(payload), ViewCodecError::DuplicateField) {
            Err(error) => Err(error),
            Ok(create_sql) => Ok(ViewOperationState { create_sql, ..s }),
        }
    } else if tag == TAG_DEPENDENCY {
        match grown(s.dependencies, view_dependency_decoded(payload)) {
            Err(error) => Err(error),
            Ok(dependencies) => Ok(ViewOperationState { dependencies, ..s }),
        }
    } else {
        Ok(s)
    }
}

/// [`view_operation_step`] as a value.
pub open spec fn view_operation_steps() -> spec_fn(ViewOperationState, u8, Seq<u8>) -> Result<ViewOperationState, ViewCodecError> {
    |s: ViewOperationState, tag: u8, payload: Seq<u8>| view_operation_step(s, tag, payload)
}

/// A change of a view that the fields describe.
pub open spec fn view_operation_finish(s: ViewOperationState) -> Result<ViewOperationView, ViewCodecError> {
    if s.mutation_id is None {
        Err(ViewCodecError::MissingField(TAG_MUTATION_ID))
    } else if s.action is None {
        Err(ViewCodecError::MissingField(TAG_ACTION))
    } else if s.name is None {
        Err(ViewCodecError::MissingField(TAG_NAME))
    } else if s.create_sql is None {
        Err(ViewCodecError::MissingField(TAG_CREATE_SQL))
    } else {
        Ok(ViewOperationView {
            mutation_id: s.mutation_id->Some_0,
            action: s.action->Some_0,
            name: s.name->Some_0,
            create_sql: s.create_sql->Some_0,
            dependencies: s.dependencies,
        })
    }
}

/// What decoding a frame gives.
#[verifier::opaque]
pub open spec fn view_operation_decoded(b: Seq<u8>) -> Result<ViewOperationView, ViewCodecError> {
    if b.len() == 0 || b[0] != VERSION {
        Err(ViewCodecError::UnknownVersion)
    } else {
        match run_fields(view_operation_start(), b.subrange(1, b.len() as int), view_operation_steps(), ViewCodecError::Truncated) {
            Err(error) => Err(error),
            Ok(s) => view_operation_finish(s),
        }
    }
}

impl ViewOperation {
    /// Decode one complete frame.
    pub fn decode_fields(frame: &[u8]) -> (r: Result<ViewOperation, ViewCodecError>)
        ensures
            outcome(r) == view_operation_decoded(frame@),
    {
        broadcast use lemma_views_push;
        reveal(view_operation_decoded);
        let mut reader = Reader::new(frame);
        if reader.u8() != Some(VERSION) {
            return Err(ViewCodecError::UnknownVersion);
        }
        let mut mutation_id: Option<MutationId> = None;
        let mut action: Option<ViewAction> = None;
        let mut name: Option<SqlName> = None;
        let mut create_sql: Option<String> = None;
        let mut dependencies: Vec<ViewDependency> = Vec::new();
        let ghost mut state = view_operation_start();
        assert(views(dependencies@) =~= Seq::<ViewDependencyView>::empty());
        while !reader.is_empty()
            invariant
                state == (ViewOperationState {
                    mutation_id: view_of(mutation_id),
                    action: action,
                    name: view_of(name),
                    create_sql: view_of(create_sql),
                    dependencies: views(dependencies@),
                }),
                view_operation_decoded(frame@) == (match run_fields(
                    state,
                    reader.remaining(),
                    view_operation_steps(),
                    ViewCodecError::Truncated,
                ) {
                    Err(error) => Err(error),
                    Ok(s) => view_operation_finish(s),
                }),
            decreases reader.remaining().len(),
        {
            let (tag, payload) = match reader.field() {
                Ok(Some(field)) => field,
                _ => {
                    return Err(ViewCodecError::Truncated);
                },
            };
            let ghost next = view_operation_step(state, tag, payload@);
            assert(view_operation_steps()(state, tag, payload@) == next);
            if tag == TAG_MUTATION_ID {
                match read_uuid(payload) {
                    Err(error) => {
                        return Err(error);
                    },
                    Ok(found) => {
                        if mutation_id.is_some() {
                            return Err(ViewCodecError::DuplicateField);
                        }
                        mutation_id = Some(MutationId(found));
                    },
                }
            } else if tag == TAG_ACTION {
                match read_view_action(payload) {
                    Err(error) => {
                        return Err(error);
                    },
                    Ok(found) => {
                        if action.is_some() {
                            return Err(ViewCodecError::DuplicateField);
                        }
                        action = Some(found);
                    },
                }
            } else if tag == TAG_NAME {
                match read_name(payload) {
                    Err(error) => {
                        return Err(error);
                    },
                    Ok(found) => {
                        if name.is_some() {
                            return Err(ViewCodecError::DuplicateField);
                        }
                        name = Some(found);
                    },
                }
            } else if tag == TAG_CREATE_SQL {
                match read_string(payload) {
                    Err(error) => {
                        return Err(error);
                    },
                    Ok(found) => {
                        if create_sql.is_some() {
                            return Err(ViewCodecError::DuplicateField);
                        }
                        create_sql = Some(found);
                    },
                }
            } else if tag == TAG_DEPENDENCY {
                match ViewDependency::decode(payload) {
                    Err(error) => {
                        return Err(error);
                    },
                    Ok(found) => {
                        dependencies.push(found);
                    },
                }
            }
            proof {
                state = next->Ok_0;
            }
        }
        let mutation_id = match mutation_id {
            Some(found) => found,
            None => {
                return Err(ViewCodecError::MissingField(TAG_MUTATION_ID));
            },
        };
        let action = match action {
            Some(found) => found,
            None => {
                return Err(ViewCodecError::MissingField(TAG_ACTION));
            },
        };
        let name = match name {
            Some(found) => found,
            None => {
                return Err(ViewCodecError::MissingField(TAG_NAME));
            },
        };
        let create_sql = match create_sql {
            Some(found) => found,
            None => {
                return Err(ViewCodecError::MissingField(TAG_CREATE_SQL));
            },
        };
        let r = ViewOperation { mutation_id, action, name, create_sql, dependencies };
        assert(r@ == view_operation_finish(state)->Ok_0);
        Ok(r)
    }
}

/// Whether a value is one that decoding can give.
pub open spec fn view_operation_valid(x: ViewOperationView) -> bool {
    &&& random_uuid(x.mutation_id)
    &&& forall|i: int| 0 <= i < x.dependencies.len() ==> view_dependency_valid(#[trigger] x.dependencies[i])
}

/// Decoding the frame of a change of a view gives it back.
pub proof fn view_operation_roundtrip(x: ViewOperationView)
    requires
        view_operation_valid(x),
        view_operation_fits(x),
    ensures
        view_operation_decoded(view_operation_frame(x)) == Ok::<ViewOperationView, ViewCodecError>(x),
{
    reveal(view_operation_decoded);
    reveal(view_operation_frame);
    let none = Seq::<(u8, Seq<u8>)>::empty();
    let f1 = none.push((TAG_MUTATION_ID, x.mutation_id));
    let f2 = f1.push((TAG_ACTION, seq![x.action.code()]));
    let f3 = f2.push((TAG_NAME, encode_utf8(x.name)));
    let f4 = f3.push((TAG_CREATE_SQL, encode_utf8(x.create_sql)));
    let f5 = f4 + view_dependency_list(TAG_DEPENDENCY, x.dependencies);
    let step = view_operation_steps();
    let s0 = view_operation_start();
    assert(fields_fit(none));
    let s1 = ViewOperationState { mutation_id: Some(x.mutation_id), ..s0 };
    assert(fold_fields(s0, f1, step) == Ok::<ViewOperationState, ViewCodecError>(s1) && fields_fit(f1)) by {
        lemma_fold_push(s0, none, TAG_MUTATION_ID, x.mutation_id, step);
        lemma_fit_push(none, TAG_MUTATION_ID, x.mutation_id);
        assert(step(s0, TAG_MUTATION_ID, x.mutation_id) == Ok::<ViewOperationState, ViewCodecError>(s1));
    }
    let s2 = ViewOperationState { action: Some(x.action), ..s1 };
    assert(fold_fields(s0, f2, step) == Ok::<ViewOperationState, ViewCodecError>(s2) && fields_fit(f2)) by {
        lemma_fold_push(s0, f1, TAG_ACTION, seq![x.action.code()], step);
        lemma_fit_push(f1, TAG_ACTION, seq![x.action.code()]);
        assert(step(s1, TAG_ACTION, seq![x.action.code()]) == Ok::<ViewOperationState, ViewCodecError>(s2));
    }
    let s3 = ViewOperationState { name: Some(x.name), ..s2 };
    assert(fold_fields(s0, f3, step) == Ok::<ViewOperationState, ViewCodecError>(s3) && fields_fit(f3)) by {
        lemma_text_field(x.name);
        lemma_fold_push(s0, f2, TAG_NAME, encode_utf8(x.name), step);
        lemma_fit_push(f2, TAG_NAME, encode_utf8(x.name));
        assert(step(s2, TAG_NAME, encode_utf8(x.name)) == Ok::<ViewOperationState, ViewCodecError>(s3));
    }
    let s4 = ViewOperationState { create_sql: Some(x.create_sql), ..s3 };
    assert(fold_fields(s0, f4, step) == Ok::<ViewOperationState, ViewCodecError>(s4) && fields_fit(f4)) by {
        lemma_text_field(x.create_sql);
        lemma_fold_push(s0, f3, TAG_CREATE_SQL, encode_utf8(x.create_sql), step);
        lemma_fit_push(f3, TAG_CREATE_SQL, encode_utf8(x.create_sql));
        assert(step(s3, TAG_CREATE_SQL, encode_utf8(x.create_sql)) == Ok::<ViewOperationState, ViewCodecError>(s4));
    }
    let s5 = ViewOperationState { dependencies: x.dependencies, ..s4 };
    assert(fold_fields(s0, f5, step) == Ok::<ViewOperationState, ViewCodecError>(s5) && fields_fit(f5)) by {
        let states = |i: int| ViewOperationState { dependencies: x.dependencies.subrange(0, i), ..s4 };
        let fields = view_dependency_list(TAG_DEPENDENCY, x.dependencies);
        assert forall|i: int| 0 <= i < fields.len() implies #[trigger] step(
            states(i),
            fields[i].0,
            fields[i].1,
        ) == Ok::<ViewOperationState, ViewCodecError>(states(i + 1)) by {
            view_dependency_roundtrip(x.dependencies[i]);
            assert(x.dependencies.subrange(0, i).push(x.dependencies[i]) =~= x.dependencies.subrange(0, i + 1));
        }
        assert(states(0) =~= s4);
        lemma_fold_list(s0, f4, fields, states, step);
        assert(states(fields.len() as int) =~= s5);
        assert forall|i: int| 0 <= i < fields.len() implies fits((#[trigger] fields[i]).1) by {
            assert(view_dependency_valid(x.dependencies[i]));
        }
        lemma_fit_concat(f4, fields);
    }
    lemma_run_fold(s0, f5, step, ViewCodecError::Truncated);
    assert(f5 == view_operation_fields(x));
    let b = view_operation_frame(x);
    assert(b.subrange(1, b.len() as int) =~= fields_bytes(f5));
    assert(view_operation_finish(s5) == Ok::<ViewOperationView, ViewCodecError>(x));
}

/// The bytes that known fields of a change of a view take.
pub open spec fn view_operation_size(s: ViewOperationState) -> nat {
    let mutation_id: nat = match s.mutation_id {
        Some(value) => 5 + value.len(),
        None => 0,
    };
    let action: nat = match s.action {
        Some(value) => 5 + seq![value.code()].len(),
        None => 0,
    };
    let name: nat = match s.name {
        Some(value) => 5 + encode_utf8(value).len(),
        None => 0,
    };
    let create_sql: nat = match s.create_sql {
        Some(value) => 5 + encode_utf8(value).len(),
        None => 0,
    };
    let dependencies = fields_bytes(view_dependency_list(TAG_DEPENDENCY, s.dependencies)).len();
    mutation_id + action + name + create_sql + dependencies
}

/// Whether known fields of a change of a view are sound and can be written again.
pub open spec fn view_operation_sound(s: ViewOperationState) -> bool {
    &&& (s.mutation_id matches Some(value) ==> random_uuid(value) && fits(value))
    &&& (s.action matches Some(value) ==> fits(seq![value.code()]))
    &&& (s.name matches Some(value) ==> fits(encode_utf8(value)))
    &&& (s.create_sql matches Some(value) ==> fits(encode_utf8(value)))
    &&& forall|i: int| 0 <= i < s.dependencies.len() ==> view_dependency_valid(#[trigger] s.dependencies[i]) && fits(view_dependency_frame(s.dependencies[i])) && view_dependency_fits(s.dependencies[i])
}

/// One field adds no more than its own bytes.
proof fn lemma_view_operation_step(s: ViewOperationState, tag: u8, payload: Seq<u8>)
    requires
        view_operation_sound(s),
        fits(payload),
    ensures
        view_operation_step(s, tag, payload) matches Ok(next) ==> view_operation_sound(next) && view_operation_size(next) <= view_operation_size(
            s,
        ) + 5 + payload.len(),
{
    if let Ok(next) = view_operation_step(s, tag, payload) {
        if tag == TAG_MUTATION_ID {
        } else if tag == TAG_ACTION {
        } else if tag == TAG_NAME {
            lemma_text_shrinks(payload);
        } else if tag == TAG_CREATE_SQL {
            lemma_text_shrinks(payload);
        } else if tag == TAG_DEPENDENCY {
            view_dependency_shrinks(payload);
            let found = view_dependency_decoded(payload)->Ok_0;
            assert(view_dependency_list(TAG_DEPENDENCY, s.dependencies.push(found)) =~= view_dependency_list(TAG_DEPENDENCY, s.dependencies).push(
                (TAG_DEPENDENCY, view_dependency_frame(found)),
            ));
            lemma_fields_len(view_dependency_list(TAG_DEPENDENCY, s.dependencies), TAG_DEPENDENCY, view_dependency_frame(found));
        }
    }
}

/// What decoding gives is sound and takes no more bytes than it was read from.
pub proof fn view_operation_shrinks(b: Seq<u8>)
    ensures
        view_operation_decoded(b) matches Ok(x) ==> view_operation_valid(x) && view_operation_fits(x) && view_operation_frame(x).len() <= b.len(),
{
    reveal(view_operation_decoded);
    reveal(view_operation_frame);
    if let Ok(x) = view_operation_decoded(b) {
        let body = b.subrange(1, b.len() as int);
        let good = |s: ViewOperationState| view_operation_sound(s);
        let size = |s: ViewOperationState| view_operation_size(s);
        let step = view_operation_steps();
        let s0 = view_operation_start();
        let end = run_fields(s0, body, step, ViewCodecError::Truncated)->Ok_0;
        assert forall|s: ViewOperationState, tag: u8, payload: Seq<u8>|
            good(s) && fits(payload) && (#[trigger] step(s, tag, payload)) is Ok implies good(
            step(s, tag, payload)->Ok_0,
        ) && size(step(s, tag, payload)->Ok_0) <= size(s) + 5 + payload.len() by {
            lemma_view_operation_step(s, tag, payload);
        }
        lemma_run_bounded(s0, body, step, good, size, ViewCodecError::Truncated);
        assert(view_operation_sound(end));
        let none = Seq::<(u8, Seq<u8>)>::empty();
        assert(fields_bytes(none).len() == 0);
        let f1 = none.push((TAG_MUTATION_ID, x.mutation_id));
        lemma_fields_len(none, TAG_MUTATION_ID, x.mutation_id);
        let f2 = f1.push((TAG_ACTION, seq![x.action.code()]));
        lemma_fields_len(f1, TAG_ACTION, seq![x.action.code()]);
        let f3 = f2.push((TAG_NAME, encode_utf8(x.name)));
        lemma_fields_len(f2, TAG_NAME, encode_utf8(x.name));
        let f4 = f3.push((TAG_CREATE_SQL, encode_utf8(x.create_sql)));
        lemma_fields_len(f3, TAG_CREATE_SQL, encode_utf8(x.create_sql));
        let f5 = f4 + view_dependency_list(TAG_DEPENDENCY, x.dependencies);
        lemma_fields_concat(f4, view_dependency_list(TAG_DEPENDENCY, x.dependencies));
        assert(view_dependency_list(TAG_DEPENDENCY, Seq::<ViewDependencyView>::empty()) =~= none);
        assert(f5 == view_operation_fields(x));
        assert(view_operation_size(s0) == 0);
        assert(fields_bytes(f5).len() == view_operation_size(end));
    }
}

} // verus!
