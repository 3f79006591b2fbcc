//! The net row effects of a statement.

use super::cells::{
    clone_deltas, delta_decoded, delta_fits, delta_frame, delta_list, delta_roundtrip, delta_shrinks, delta_valid,
    same_deltas, same_optional_row, write_deltas, DeltaView, Row, RowDelta, RowView,
};
use super::error::RowCodecError;
use super::measure::{measures, meter_deltas, Meter};
use super::rules::{
    rules_decoded, rules_fault, rules_fits, rules_frame, rules_roundtrip, rules_shrinks, rules_valid, RowRules,
    RulesView,
};
use super::set::{refused, row_set_fault, RowSet, RowSetView};
use crate::attempt::{lemma_try_fold_start, lemma_try_fold_step, lemma_try_fold_stop, try_fold};
use crate::bytes::{
    fields_bytes, fields_fit, fits, fold_fields, lemma_fields_concat, lemma_fields_len, lemma_fit_concat, lemma_fit_push, lemma_fold_list,
    lemma_fold_push, lemma_run_bounded, lemma_run_fold,
    run_fields, FrameWriter, Reader,
};
use crate::codec::{filled, grown, lemma_views_push, outcome, view_of, views};
use crate::error::Error;
use crate::key::{bytes_before, bytes_less, lemma_bytes_transitive};
use vstd::prelude::*;

verus! {

/// Version of the frame of a statement's changes.
pub const ROW_CHANGES_FRAME_VERSION: u8 = 1;

/// Version of the frame of a table's changes.
pub const TABLE_CHANGES_FRAME_VERSION: u8 = 1;

/// Marks one table's changes.
pub const TAG_CHANGED_TABLE: u8 = 1;

/// Marks the rules of a table's changes.
pub const TAG_CHANGE_RULES: u8 = 1;

/// Marks one row's change.
pub const TAG_CHANGE_ROW: u8 = 2;

/// Maximum direct row events retained for one SQLite statement.
pub const MAX_CAPTURED_CHANGES: usize = 100_000;

/// Maximum encoded bytes retained by one logical row operation.
pub const MAX_ROW_OPERATION_BYTES: usize = 67_108_864;

/// One table's rules and row-lineage-preserving before and after images.
#[derive(Debug, PartialEq, Eq)]
pub struct TableChanges {
    pub rules: RowRules,
    pub rows: Vec<RowDelta>,
}

/// A table's changes as a mathematical value.
#[verifier::ext_equal]
pub struct TableChangesView {
    pub rules: RulesView,
    pub rows: Seq<DeltaView>,
}

impl View for TableChanges {
    type V = TableChangesView;

    open spec fn view(&self) -> TableChangesView {
        TableChangesView {
            rules: self.rules@,
            rows: views(self.rows@),
        }
    }
}

impl Clone for TableChanges {
    fn clone(&self) -> (r: Self)
        ensures
            r@ == self@,
    {
        TableChanges {
            rules: self.rules.clone(),
            rows: clone_deltas(&self.rows),
        }
    }
}

impl TableChanges {
    /// Whether two values are equal.
    pub fn same(&self, other: &TableChanges) -> (r: bool)
        ensures
            r == (self@ == other@),
    {
        self.rules.same(&other.rules)
            && same_deltas(&self.rows, &other.rows)
    }
}

/// A copy of a list.
pub fn clone_tables(items: &Vec<TableChanges>) -> (r: Vec<TableChanges>)
    ensures
        views(r@) == views(items@),
{
    let mut r: Vec<TableChanges> = Vec::new();
    let mut i: usize = 0;
    while i < items.len()
        invariant
            i <= items@.len(),
            r@.len() == i,
            forall|j: int| 0 <= j < i ==> (#[trigger] r@[j])@ == items@[j]@,
        decreases items.len() - i,
    {
        r.push(items[i].clone());
        i += 1;
    }
    assert(views(r@) =~= views(items@));
    r
}

/// Whether two lists hold equal items.
pub fn same_tables(a: &Vec<TableChanges>, b: &Vec<TableChanges>) -> (r: bool)
    ensures
        r == (views(a@) == views(b@)),
{
    if a.len() != b.len() {
        assert(views(a@).len() != views(b@).len());
        return false;
    }
    let mut i: usize = 0;
    while i < a.len()
        invariant
            i <= a@.len(),
            a@.len() == b@.len(),
            forall|j: int| 0 <= j < i ==> views(a@)[j] == views(b@)[j],
        decreases a.len() - i,
    {
        if !a[i].same(&b[i]) {
            assert(views(a@)[i as int] != views(b@)[i as int]);
            return false;
        }
        i += 1;
    }
    assert(views(a@) =~= views(b@));
    true
}

/// The images before the changes, in order.
pub open spec fn befores(rows: Seq<DeltaView>) -> Seq<RowView>
    decreases rows.len(),
{
    if rows.len() == 0 {
        Seq::empty()
    } else {
        match rows.last().before {
            Some(row) => befores(rows.drop_last()).push(row),
            None => befores(rows.drop_last()),
        }
    }
}

/// The images after the changes, in order.
pub open spec fn afters(rows: Seq<DeltaView>) -> Seq<RowView>
    decreases rows.len(),
{
    if rows.len() == 0 {
        Seq::empty()
    } else {
        match rows.last().after {
            Some(row) => afters(rows.drop_last()).push(row),
            None => afters(rows.drop_last()),
        }
    }
}

/// Why a set of rows that may be empty is refused, if it is.
pub open spec fn optional_set_fault(rules: RulesView, rows: Seq<RowView>) -> Option<RowCodecError> {
    if rows.len() == 0 {
        None
    } else {
        row_set_fault(RowSetView { rules, rows })
    }
}

/// Why a table's changes are refused, if they are.
pub open spec fn table_changes_fault(table: TableChangesView) -> Option<RowCodecError> {
    match rules_fault(table.rules) {
        Some(error) => Some(error),
        None => if table.rows.len() == 0 || exists|i: int|
            0 <= i < table.rows.len() && (#[trigger] table.rows[i]).before == table.rows[i].after {
            Some(RowCodecError::InvalidRow)
        } else {
            match optional_set_fault(table.rules, befores(table.rows)) {
                Some(error) => Some(error),
                None => optional_set_fault(table.rules, afters(table.rows)),
            }
        },
    }
}

/// The images before changes.
fn collect_before(rows: &[RowDelta]) -> (r: Vec<Row>)
    ensures
        views(r@) == befores(views(rows@)),
{
    let ghost view = views(rows@);
    let mut r: Vec<Row> = Vec::new();
    let mut i: usize = 0;
    assert(view.subrange(0, 0) =~= Seq::<DeltaView>::empty());
    assert(views(r@) =~= Seq::<RowView>::empty());
    while i < rows.len()
        invariant
            i <= rows@.len(),
            view == views(rows@),
            views(r@) == befores(view.subrange(0, i as int)),
        decreases rows.len() - i,
    {
        proof {
            assert(view.subrange(0, i as int + 1).drop_last() =~= view.subrange(0, i as int));
            assert(view[i as int] == rows@[i as int]@);
        }
        if let Some(row) = &rows[i].before {
            let ghost before = views(r@);
            let copy = row.clone();
            r.push(copy);
            assert(views(r@) =~= before.push(row@));
        }
        i += 1;
    }
    assert(view.subrange(0, i as int) =~= view);
    r
}

/// The images after changes.
fn collect_after(rows: &[RowDelta]) -> (r: Vec<Row>)
    ensures
        views(r@) == afters(views(rows@)),
{
    let ghost view = views(rows@);
    let mut r: Vec<Row> = Vec::new();
    let mut i: usize = 0;
    assert(view.subrange(0, 0) =~= Seq::<DeltaView>::empty());
    assert(views(r@) =~= Seq::<RowView>::empty());
    while i < rows.len()
        invariant
            i <= rows@.len(),
            view == views(rows@),
            views(r@) == afters(view.subrange(0, i as int)),
        decreases rows.len() - i,
    {
        proof {
            assert(view.subrange(0, i as int + 1).drop_last() =~= view.subrange(0, i as int));
            assert(view[i as int] == rows@[i as int]@);
        }
        if let Some(row) = &rows[i].after {
            let ghost before = views(r@);
            let copy = row.clone();
            r.push(copy);
            assert(views(r@) =~= before.push(row@));
        }
        i += 1;
    }
    assert(view.subrange(0, i as int) =~= view);
    r
}

impl TableChanges {
    /// The rows that the changes start from, with the rules.
    pub fn before_set(&self) -> (r: RowSet)
        ensures
            r@ == (RowSetView { rules: self@.rules, rows: befores(self@.rows) }),
    {
        self.rules.with_rows(collect_before(self.rows.as_slice()))
    }

    /// The rows that the changes end in, with the rules.
    pub fn after_set(&self) -> (r: RowSet)
        ensures
            r@ == (RowSetView { rules: self@.rules, rows: afters(self@.rows) }),
    {
        self.rules.with_rows(collect_after(self.rows.as_slice()))
    }

    /// The rows that the changes start from, where there are any.
    pub fn before_rows(&self) -> (r: Option<RowSet>)
        ensures
            match r {
                Some(set) => set@ == (RowSetView {
                    rules: self@.rules,
                    rows: befores(self@.rows),
                }) && befores(self@.rows).len() > 0,
                None => befores(self@.rows).len() == 0,
            },
    {
        let set = self.before_set();
        assert(set@.rows.len() == set.rows@.len());
        if set.rows.len() == 0 {
            None
        } else {
            Some(set)
        }
    }

    /// The rows that the changes end in, where there are any.
    pub fn after_rows(&self) -> (r: Option<RowSet>)
        ensures
            match r {
                Some(set) => set@ == (RowSetView {
                    rules: self@.rules,
                    rows: afters(self@.rows),
                }) && afters(self@.rows).len() > 0,
                None => afters(self@.rows).len() == 0,
            },
    {
        let set = self.after_set();
        assert(set@.rows.len() == set.rows@.len());
        if set.rows.len() == 0 {
            None
        } else {
            Some(set)
        }
    }

    /// Refuse changes that no statement can make.
    pub fn validate_structure(&self) -> (r: Result<(), RowCodecError>)
        ensures
            r == refused(table_changes_fault(self@)),
    {
        if let Err(error) = self.rules.validate() {
            return Err(error);
        }
        if self.rows.len() == 0 {
            return Err(RowCodecError::InvalidRow);
        }
        let ghost view = self@.rows;
        let mut i: usize = 0;
        while i < self.rows.len()
            invariant
                i <= self.rows@.len(),
                self.rows@.len() > 0,
                view == views(self.rows@),
                view == self@.rows,
                rules_fault(self@.rules) is None,
                forall|j: int| 0 <= j < i ==> (#[trigger] view[j]).before != view[j].after,
            decreases self.rows.len() - i,
        {
            assert(view[i as int] == self.rows@[i as int]@);
            if same_optional_row(&self.rows[i].before, &self.rows[i].after) {
                return Err(RowCodecError::InvalidRow);
            }
            i += 1;
        }
        if let Some(before) = self.before_rows() {
            if let Err(error) = before.validate_structure() {
                return Err(error);
            }
        }
        if let Some(after) = self.after_rows() {
            if let Err(error) = after.validate_structure() {
                return Err(error);
            }
        }
        Ok(())
    }
}

/// The fields of the frame of a table's changes.
pub open spec fn table_changes_fields(x: TableChangesView) -> Seq<(u8, Seq<u8>)> {
    let none = Seq::<(u8, Seq<u8>)>::empty();
    let f1 = none.push((TAG_CHANGE_RULES, rules_frame(x.rules)));
    let f2 = f1 + delta_list(TAG_CHANGE_ROW, x.rows);
    f2
}

/// The frame of a table's changes.
#[verifier::opaque]
pub open spec fn table_changes_frame(x: TableChangesView) -> Seq<u8> {
    seq![TABLE_CHANGES_FRAME_VERSION] + fields_bytes(table_changes_fields(x))
}

/// Whether every field of the frame has a length that a `u32` holds.
pub open spec fn table_changes_fits(x: TableChangesView) -> bool {
    &&& rules_fits(x.rules)
    &&& fits(rules_frame(x.rules))
    &&& forall|i: int| 0 <= i < x.rows.len() ==> delta_fits(#[trigger] x.rows[i]) && fits(delta_frame(x.rows[i]))
}

/// The fields of a list under one tag, each with its own frame.
pub open spec fn table_changes_list(tag: u8, items: Seq<TableChangesView>) -> Seq<(u8, Seq<u8>)> {
    Seq::new(items.len(), |i: int| (tag, table_changes_frame(items[i])))
}

/// Write the fields of a list under one tag.
pub fn write_tables(w: FrameWriter, tag: u8, items: &Vec<TableChanges>) -> (r: FrameWriter)
    requires
        forall|i: int| 0 <= i < items@.len() ==> table_changes_fits(#[trigger] views(items@)[i]) && fits(table_changes_frame(views(items@)[i])),
    ensures
        r.head() == w.head(),
        r.fields() == w.fields() + table_changes_list(tag, views(items@)),
{
    let ghost list = table_changes_list(tag, views(items@));
    let ghost head = w.head();
    let ghost before = w.fields();
    let mut w = w;
    let mut i: usize = 0;
    assert(before + list.subrange(0, 0) =~= before);
    while i < items.len()
        invariant
            i <= items@.len(),
            list == table_changes_list(tag, views(items@)),
            w.head() == head,
            w.fields() == before + list.subrange(0, i as int),
            forall|i: int| 0 <= i < items@.len() ==> table_changes_fits(#[trigger] views(items@)[i]) && fits(table_changes_frame(views(items@)[i])),
        decreases items.len() - i,
    {
        assert(views(items@)[i as int] == items@[i as int]@);
        let item = items[i].encode();
        w = w.field(tag, item.as_slice());
        assert(w.fields() =~= before + list.subrange(0, i as int + 1));
        i += 1;
    }
    assert(list.subrange(0, i as int) =~= list);
    w
}

impl TableChanges {
    /// Encode the frame.
    pub fn encode(&self) -> (r: Vec<u8>)
        requires
            table_changes_fits(self@),
        ensures
            r@ == table_changes_frame(self@),
    {
        assert(self@.rows == views(self.rows@));
        let w = FrameWriter::versioned(TABLE_CHANGES_FRAME_VERSION);
        let rules = self.rules.encode();
        let w = w.field(TAG_CHANGE_RULES, rules.as_slice());
        let w = write_deltas(w, TAG_CHANGE_ROW, &self.rows);
        assert(w.fields() =~= table_changes_fields(self@));
        reveal(table_changes_frame);
        w.finish()
    }
}

/// What is known of a table's changes after some of its fields.
#[verifier::ext_equal]
pub struct TableChangesState {
    pub rules: Option<RulesView>,
    pub rows: Seq<DeltaView>,
}

/// Nothing is known before the first field.
pub open spec fn table_changes_start() -> TableChangesState {
    TableChangesState {
        rules: None,
        rows: Seq::empty(),
    }
}

/// What one field adds.
pub open spec fn table_changes_step(s: TableChangesState, tag: u8, payload: Seq<u8>) -> Result<TableChangesState, RowCodecError> {
    if tag == TAG_CHANGE_RULES {
        match filled(s.rules, rules_decoded(payload), RowCodecError::DuplicateField) {
            Err(error) => Err(error),
            Ok(rules) => Ok(TableChangesState { rules, ..s }),
        }
    } else if tag == TAG_CHANGE_ROW {
        match grown(s.rows, delta_decoded(payload)) {
            Err(error) => Err(error),
            Ok(rows) => Ok(TableChangesState { rows, ..s }),
        }
    } else {
        Ok(s)
    }
}

/// [`table_changes_step`] as a value.
pub open spec fn table_changes_steps() -> spec_fn(TableChangesState, u8, Seq<u8>) -> Result<TableChangesState, RowCodecError> {
    |s: TableChangesState, tag: u8, payload: Seq<u8>| table_changes_step(s, tag, payload)
}

/// A table's changes that the fields describe.
pub open spec fn table_changes_finish(s: TableChangesState) -> Result<TableChangesView, RowCodecError> {
    if s.rules is None {
        Err(RowCodecError::MissingField(TAG_CHANGE_RULES))
    } else {
        let x = TableChangesView {
            rules: s.rules->Some_0,
            rows: s.rows,
        };
        match table_changes_fault(x) {
            Some(error) => Err(error),
            None => Ok(x),
        }
    }
}

/// What decoding a frame gives.
#[verifier::opaque]
pub open spec fn table_changes_decoded(b: Seq<u8>) -> Result<TableChangesView, RowCodecError> {
    if b.len() == 0 || b[0] != TABLE_CHANGES_FRAME_VERSION {
        Err(RowCodecError::UnknownVersion)
    } else {
        match run_fields(table_changes_start(), b.subrange(1, b.len() as int), table_changes_steps(), RowCodecError::Truncated) {
            Err(error) => Err(error),
            Ok(s) => table_changes_finish(s),
        }
    }
}

impl TableChanges {
    /// Decode one complete frame.
    pub fn decode(frame: &[u8]) -> (r: Result<TableChanges, RowCodecError>)
        ensures
            outcome(r) == table_changes_decoded(frame@),
    {
        broadcast use lemma_views_push;
        reveal(table_changes_decoded);
        let mut reader = Reader::new(frame);
        if reader.u8() != Some(TABLE_CHANGES_FRAME_VERSION) {
            return Err(RowCodecError::UnknownVersion);
        }
        let mut rules: Option<RowRules> = None;
        let mut rows: Vec<RowDelta> = Vec::new();
        let ghost mut state = table_changes_start();
        assert(views(rows@) =~= Seq::<DeltaView>::empty());
        while !reader.is_empty()
            invariant
                state == (TableChangesState {
                    rules: view_of(rules),
                    rows: views(rows@),
                }),
                table_changes_decoded(frame@) == (match run_fields(
                    state,
                    reader.remaining(),
                    table_changes_steps(),
                    RowCodecError::Truncated,
                ) {
                    Err(error) => Err(error),
                    Ok(s) => table_changes_finish(s),
                }),
            decreases reader.remaining().len(),
        {
            let (tag, payload) = match reader.field() {
                Ok(Some(field)) => field,
                _ => {
                    return Err(RowCodecError::Truncated);
                },
            };
            let ghost next = table_changes_step(state, tag, payload@);
            assert(table_changes_steps()(state, tag, payload@) == next);
            if tag == TAG_CHANGE_RULES {
                match RowRules::decode(payload) {
                    Err(error) => {
                        return Err(error);
                    },
                    Ok(found) => {
                        if rules.is_some() {
                            return Err(RowCodecError::DuplicateField);
                        }
                        rules = Some(found);
                    },
                }
            } else if tag == TAG_CHANGE_ROW {
                match RowDelta::decode(payload) {
                    Err(error) => {
                        return Err(error);
                    },
                    Ok(found) => {
                        rows.push(found);
                    },
                }
            }
            proof {
                state = next->Ok_0;
            }
        }
        let rules = match rules {
            Some(found) => found,
            None => {
                return Err(RowCodecError::MissingField(TAG_CHANGE_RULES));
            },
        };
        let r = TableChanges { rules, rows };
        if let Err(error) = r.validate_structure() {
            return Err(error);
        }
        assert(r@ == table_changes_finish(state)->Ok_0);
        Ok(r)
    }
}

/// Whether a value is one that decoding can give.
pub open spec fn table_changes_valid(x: TableChangesView) -> bool {
    &&& rules_valid(x.rules)
    &&& forall|i: int| 0 <= i < x.rows.len() ==> delta_valid(#[trigger] x.rows[i])
    &&& table_changes_fault(x) is None
}

/// Decoding the frame of a table's changes gives it back.
pub proof fn table_changes_roundtrip(x: TableChangesView)
    requires
        table_changes_valid(x),
        table_changes_fits(x),
    ensures
        table_changes_decoded(table_changes_frame(x)) == Ok::<TableChangesView, RowCodecError>(x),
{
    reveal(table_changes_decoded);
    reveal(table_changes_frame);
    let none = Seq::<(u8, Seq<u8>)>::empty();
    let f1 = none.push((TAG_CHANGE_RULES, rules_frame(x.rules)));
    let f2 = f1 + delta_list(TAG_CHANGE_ROW, x.rows);
    let step = table_changes_steps();
    let s0 = table_changes_start();
    assert(fields_fit(none));
    let s1 = TableChangesState { rules: Some(x.rules), ..s0 };
    assert(fold_fields(s0, f1, step) == Ok::<TableChangesState, RowCodecError>(s1) && fields_fit(f1)) by {
        rules_roundtrip(x.rules);
        lemma_fold_push(s0, none, TAG_CHANGE_RULES, rules_frame(x.rules), step);
        lemma_fit_push(none, TAG_CHANGE_RULES, rules_frame(x.rules));
        assert(step(s0, TAG_CHANGE_RULES, rules_frame(x.rules)) == Ok::<TableChangesState, RowCodecError>(s1));
    }
    let s2 = TableChangesState { rows: x.rows, ..s1 };
    assert(fold_fields(s0, f2, step) == Ok::<TableChangesState, RowCodecError>(s2) && fields_fit(f2)) by {
        let states = |i: int| TableChangesState { rows: x.rows.subrange(0, i), ..s1 };
        let fields = delta_list(TAG_CHANGE_ROW, x.rows);
        assert forall|i: int| 0 <= i < fields.len() implies #[trigger] step(
            states(i),
            fields[i].0,
            fields[i].1,
        ) == Ok::<TableChangesState, RowCodecError>(states(i + 1)) by {
            delta_roundtrip(x.rows[i]);
            assert(x.rows.subrange(0, i).push(x.rows[i]) =~= x.rows.subrange(0, i + 1));
        }
        assert(states(0) =~= s1);
        lemma_fold_list(s0, f1, fields, states, step);
        assert(states(fields.len() as int) =~= s2);
        assert forall|i: int| 0 <= i < fields.len() implies fits((#[trigger] fields[i]).1) by {
            assert(delta_valid(x.rows[i]));
        }
        lemma_fit_concat(f1, fields);
    }
    lemma_run_fold(s0, f2, step, RowCodecError::Truncated);
    assert(f2 == table_changes_fields(x));
    let b = table_changes_frame(x);
    assert(b.subrange(1, b.len() as int) =~= fields_bytes(f2));
    assert(table_changes_finish(s2) == Ok::<TableChangesView, RowCodecError>(x));
}

/// The bytes that known fields of a table's changes take.
pub open spec fn table_changes_size(s: TableChangesState) -> nat {
    let rules: nat = match s.rules {
        Some(value) => 5 + rules_frame(value).len(),
        None => 0,
    };
    let rows = fields_bytes(delta_list(TAG_CHANGE_ROW, s.rows)).len();
    rules + rows
}

/// Whether known fields of a table's changes are sound and can be written again.
pub open spec fn table_changes_sound(s: TableChangesState) -> bool {
    &&& (s.rules matches Some(value) ==> rules_valid(value) && fits(rules_frame(value)) && rules_fits(value))
    &&& forall|i: int| 0 <= i < s.rows.len() ==> delta_valid(#[trigger] s.rows[i]) && fits(delta_frame(s.rows[i])) && delta_fits(s.rows[i])
}

/// One field adds no more than its own bytes.
proof fn lemma_table_changes_step(s: TableChangesState, tag: u8, payload: Seq<u8>)
    requires
        table_changes_sound(s),
        fits(payload),
    ensures
        table_changes_step(s, tag, payload) matches Ok(next) ==> table_changes_sound(next) && table_changes_size(next) <= table_changes_size(
            s,
        ) + 5 + payload.len(),
{
    if let Ok(next) = table_changes_step(s, tag, payload) {
        if tag == TAG_CHANGE_RULES {
            rules_shrinks(payload);
        } else if tag == TAG_CHANGE_ROW {
            delta_shrinks(payload);
            let found = delta_decoded(payload)->Ok_0;
            assert(delta_list(TAG_CHANGE_ROW, s.rows.push(found)) =~= delta_list(TAG_CHANGE_ROW, s.rows).push(
                (TAG_CHANGE_ROW, delta_frame(found)),
            ));
            lemma_fields_len(delta_list(TAG_CHANGE_ROW, s.rows), TAG_CHANGE_ROW, delta_frame(found));
        }
    }
}

/// What decoding gives is sound and takes no more bytes than it was read from.
pub proof fn table_changes_shrinks(b: Seq<u8>)
    ensures
        table_changes_decoded(b) matches Ok(x) ==> table_changes_valid(x) && table_changes_fits(x) && table_changes_frame(x).len() <= b.len(),
{
    reveal(table_changes_decoded);
    reveal(table_changes_frame);
    if let Ok(x) = table_changes_decoded(b) {
        let body = b.subrange(1, b.len() as int);
        let good = |s: TableChangesState| table_changes_sound(s);
        let size = |s: TableChangesState| table_changes_size(s);
        let step = table_changes_steps();
        let s0 = table_changes_start();
        let end = run_fields(s0, body, step, RowCodecError::Truncated)->Ok_0;
        assert forall|s: TableChangesState, tag: u8, payload: Seq<u8>|
            good(s) && fits(payload) && (#[trigger] step(s, tag, payload)) is Ok implies good(
            step(s, tag, payload)->Ok_0,
        ) && size(step(s, tag, payload)->Ok_0) <= size(s) + 5 + payload.len() by {
            lemma_table_changes_step(s, tag, payload);
        }
        lemma_run_bounded(s0, body, step, good, size, RowCodecError::Truncated);
        assert(table_changes_sound(end));
        let none = Seq::<(u8, Seq<u8>)>::empty();
        assert(fields_bytes(none).len() == 0);
        let f1 = none.push((TAG_CHANGE_RULES, rules_frame(x.rules)));
        lemma_fields_len(none, TAG_CHANGE_RULES, rules_frame(x.rules));
        let f2 = f1 + delta_list(TAG_CHANGE_ROW, x.rows);
        lemma_fields_concat(f1, delta_list(TAG_CHANGE_ROW, x.rows));
        assert(delta_list(TAG_CHANGE_ROW, Seq::<DeltaView>::empty()) =~= none);
        assert(f2 == table_changes_fields(x));
        assert(table_changes_size(s0) == 0);
        assert(fields_bytes(f2).len() == table_changes_size(end));
    }
}

/// Net row effects of one SQLite statement after repeated touches are folded.
#[derive(Debug, PartialEq, Eq)]
pub struct RowChanges {
    pub tables: Vec<TableChanges>,
}

/// A statement's changes as a mathematical value.
#[verifier::ext_equal]
pub struct RowChangesView {
    pub tables: Seq<TableChangesView>,
}

impl View for RowChanges {
    type V = RowChangesView;

    open spec fn view(&self) -> RowChangesView {
        RowChangesView {
            tables: views(self.tables@),
        }
    }
}

impl Clone for RowChanges {
    fn clone(&self) -> (r: Self)
        ensures
            r@ == self@,
    {
        RowChanges {
            tables: clone_tables(&self.tables),
        }
    }
}

impl RowChanges {
    /// Whether two values are equal.
    pub fn same(&self, other: &RowChanges) -> (r: bool)
        ensures
            r == (self@ == other@),
    {
        same_tables(&self.tables, &other.tables)
    }
}

impl TableChanges {
    /// The length of the frame.
    pub fn encoded_len(&self) -> (r: Option<usize>)
        ensures
            measures(r, table_changes_fits(self@), table_changes_frame(self@)),
    {
        let m = Meter::new(true);
        let m = m.field(
            self.rules.encoded_len(),
            Ghost(rules_fits(self@.rules)),
            Ghost((TAG_CHANGE_RULES, rules_frame(self@.rules))),
        );
        let m = meter_deltas(m, TAG_CHANGE_ROW, self.rows.as_slice());
        proof {
            let x = self@;
            let fields = table_changes_fields(x);
            assert(x.rows == views(self.rows@));
            assert(m.fields() =~= fields);
            assert(fields[0].1 == rules_frame(x.rules));
            assert forall|i: int| 0 <= i < x.rows.len() implies fields[i + 1].1 == delta_frame(
                #[trigger] x.rows[i],
            ) by {}
            if table_changes_fits(x) {
                assert forall|i: int| 0 <= i < fields.len() implies fits(
                    (#[trigger] fields[i]).1,
                ) by {
                    if i > 0 {
                        assert(fits(delta_frame(x.rows[i - 1])));
                    }
                }
            }
            if m.fit() && fields_fit(fields) {
                assert(fits(fields[0].1));
                assert forall|i: int| 0 <= i < x.rows.len() implies delta_fits(
                    #[trigger] x.rows[i],
                ) && fits(delta_frame(x.rows[i])) by {
                    assert(fits(fields[i + 1].1));
                }
            }
            reveal(table_changes_frame);
        }
        m.finish()
    }
}

/// How many rows the tables change together.
pub open spec fn changed_rows(tables: Seq<TableChangesView>) -> nat
    decreases tables.len(),
{
    if tables.len() == 0 {
        0
    } else {
        changed_rows(tables.drop_last()) + tables.last().rows.len()
    }
}

/// Changed rows are counted table by table.
proof fn lemma_changed_rows(tables: Seq<TableChangesView>, i: int)
    requires
        0 <= i <= tables.len(),
    ensures
        changed_rows(tables.subrange(0, i)) <= changed_rows(tables),
    decreases tables.len() - i,
{
    if i == tables.len() {
        assert(tables.subrange(0, i) =~= tables);
    } else {
        lemma_changed_rows(tables, i + 1);
        assert(tables.subrange(0, i + 1).drop_last() =~= tables.subrange(0, i));
    }
}

/// Whether the tables stand in ascending order of their identities.
pub open spec fn tables_ascending(tables: Seq<TableChangesView>) -> bool {
    forall|i: int, j: int|
        0 <= i < j < tables.len() ==> bytes_less(
            (#[trigger] tables[i]).rules.table,
            (#[trigger] tables[j]).rules.table,
        )
}

/// A table that joins others unless its changes are refused.
pub open spec fn table_step() -> spec_fn((), TableChangesView) -> Result<(), RowCodecError> {
    |done: (), table: TableChangesView| refused(table_changes_fault(table))
}

/// Why tables make no statement's changes, if they do not: there must be one,
/// they stand in order, and each is sound.
pub open spec fn canonical_fault(tables: Seq<TableChangesView>) -> Option<RowCodecError> {
    if tables.len() == 0 || !tables_ascending(tables) {
        Some(RowCodecError::InvalidRow)
    } else {
        match try_fold((), tables, table_step()) {
            Err(error) => Some(error),
            Ok(_) => None,
        }
    }
}

/// Why changes exceed a budget, if they do.
pub open spec fn budget_fault(
    changes: RowChangesView,
    max_changes: nat,
    max_bytes: nat,
) -> Option<RowCodecError> {
    if changed_rows(changes.tables) > usize::MAX {
        Some(RowCodecError::InvalidLength)
    } else if changed_rows(changes.tables) > max_changes {
        Some(RowCodecError::TooManyChanges)
    } else if !row_changes_fits(changes) || row_changes_frame(changes).len() > usize::MAX {
        Some(RowCodecError::InvalidLength)
    } else if row_changes_frame(changes).len() > max_bytes {
        Some(RowCodecError::FrameTooLarge)
    } else {
        None
    }
}

/// Why changes are refused, if they are.
pub open spec fn row_changes_fault(changes: RowChangesView) -> Option<RowCodecError> {
    match canonical_fault(changes.tables) {
        Some(error) => Some(error),
        None => budget_fault(
            changes,
            MAX_CAPTURED_CHANGES as nat,
            MAX_ROW_OPERATION_BYTES as nat,
        ),
    }
}

/// Count tables under one tag.
fn meter_tables(w: Meter, tag: u8, items: &[TableChanges]) -> (r: Meter)
    ensures
        r.head() == w.head(),
        r.fit() == (w.fit() && (forall|i: int|
            0 <= i < items@.len() ==> table_changes_fits(#[trigger] views(items@)[i]))),
        r.fields() == w.fields() + table_changes_list(tag, views(items@)),
{
    let ghost view = views(items@);
    let ghost list = table_changes_list(tag, view);
    let ghost head = w.head();
    let ghost first = w.fit();
    let ghost before = w.fields();
    let mut m = w;
    let mut i: usize = 0;
    assert(before + list.subrange(0, 0) =~= before);
    while i < items.len()
        invariant
            i <= items@.len(),
            view == views(items@),
            list == table_changes_list(tag, view),
            m.head() == head,
            m.fit() == (first && (forall|j: int|
                0 <= j < i ==> table_changes_fits(#[trigger] view[j]))),
            m.fields() == before + list.subrange(0, i as int),
        decreases items.len() - i,
    {
        proof {
            assert(view[i as int] == items@[i as int]@);
        }
        m = m.field(
            items[i].encoded_len(),
            Ghost(table_changes_fits(items@[i as int]@)),
            Ghost((tag, table_changes_frame(items@[i as int]@))),
        );
        assert(m.fields() =~= before + list.subrange(0, i as int + 1));
        i += 1;
    }
    assert(list.subrange(0, i as int) =~= list);
    m
}

/// Refuse tables that make no statement's changes.
pub fn validate_tables(tables: &[TableChanges]) -> (r: Result<(), RowCodecError>)
    ensures
        r == refused(canonical_fault(views(tables@))),
{
    let ghost view = views(tables@);
    if tables.len() == 0 {
        return Err(RowCodecError::InvalidRow);
    }
    let mut i: usize = 1;
    while i < tables.len()
        invariant
            1 <= i <= tables@.len(),
            view == views(tables@),
            forall|a: int, b: int|
                0 <= a < b < i ==> bytes_less(
                    (#[trigger] view[a]).rules.table,
                    (#[trigger] view[b]).rules.table,
                ),
        decreases tables.len() - i,
    {
        let earlier = tables[i - 1].rules.table.as_bytes();
        let later = tables[i].rules.table.as_bytes();
        assert(view[i - 1] == tables@[i - 1]@ && view[i as int] == tables@[i as int]@);
        if !bytes_before(&earlier, &later) {
            return Err(RowCodecError::InvalidRow);
        }
        proof {
            assert forall|a: int, b: int| 0 <= a < b < i + 1 implies bytes_less(
                (#[trigger] view[a]).rules.table,
                (#[trigger] view[b]).rules.table,
            ) by {
                if b == i && a < i - 1 {
                    assert(bytes_less(view[a].rules.table, view[i - 1].rules.table));
                    lemma_bytes_transitive(
                        view[a].rules.table,
                        view[i - 1].rules.table,
                        view[i as int].rules.table,
                    );
                }
            }
        }
        i += 1;
    }
    assert(tables_ascending(view));
    let ghost step = table_step();
    let mut i: usize = 0;
    proof {
        lemma_try_fold_start((), view, step);
    }
    while i < tables.len()
        invariant
            i <= tables@.len(),
            tables@.len() > 0,
            view == views(tables@),
            tables_ascending(view),
            step == table_step(),
            try_fold((), view.subrange(0, i as int), step) == Ok::<(), RowCodecError>(()),
        decreases tables.len() - i,
    {
        proof {
            lemma_try_fold_step((), view, i as int, step);
            assert(view[i as int] == tables@[i as int]@);
            if try_fold((), view.subrange(0, i as int + 1), step) is Err {
                lemma_try_fold_stop((), view, i as int + 1, step);
            }
        }
        if let Err(error) = tables[i].validate_structure() {
            return Err(error);
        }
        i += 1;
    }
    proof {
        lemma_try_fold_start((), view, step);
    }
    Ok(())
}

/// A refused resource.
pub fn capture_limit(resource: &'static str, limit: usize) -> (r: Error)
    ensures
        r == (Error::CaptureLimitExceeded { resource, limit }),
{
    Error::CaptureLimitExceeded { resource, limit }
}

impl RowChanges {
    /// Refuse tables that make no statement's changes.
    pub fn validate_structure(&self) -> (r: Result<(), RowCodecError>)
        ensures
            r == refused(canonical_fault(self@.tables)),
    {
        validate_tables(self.tables.as_slice())
    }

    /// Refuse changes that exceed a budget.
    pub fn validate_budget_with(&self, max_changes: usize, max_bytes: usize) -> (r: Result<
        (),
        RowCodecError,
    >)
        ensures
            r == refused(budget_fault(self@, max_changes as nat, max_bytes as nat)),
    {
        let ghost view = self@.tables;
        let mut changes: usize = 0;
        let mut i: usize = 0;
        assert(view.subrange(0, 0) =~= Seq::<TableChangesView>::empty());
        while i < self.tables.len()
            invariant
                i <= self.tables@.len(),
                view == views(self.tables@),
                view == self@.tables,
                changes == changed_rows(view.subrange(0, i as int)),
            decreases self.tables.len() - i,
        {
            proof {
                assert(view[i as int] == self.tables@[i as int]@);
                assert(view.subrange(0, i as int + 1).drop_last() =~= view.subrange(0, i as int));
                lemma_changed_rows(view, i as int + 1);
            }
            changes = match changes.checked_add(self.tables[i].rows.len()) {
                Some(changes) => changes,
                None => {
                    return Err(RowCodecError::InvalidLength);
                },
            };
            i += 1;
        }
        assert(view.subrange(0, i as int) =~= view);
        if changes > max_changes {
            return Err(RowCodecError::TooManyChanges);
        }
        let m = meter_tables(Meter::new(true), TAG_CHANGED_TABLE, self.tables.as_slice());
        proof {
            let x = self@;
            let fields = row_changes_fields(x);
            assert(m.fields() =~= fields);
            assert forall|i: int| 0 <= i < x.tables.len() implies fields[i].1
                == table_changes_frame(#[trigger] x.tables[i]) by {}
            if row_changes_fits(x) {
                assert forall|i: int| 0 <= i < fields.len() implies fits(
                    (#[trigger] fields[i]).1,
                ) by {
                    assert(fits(table_changes_frame(x.tables[i])));
                }
            }
            if m.fit() && fields_fit(fields) {
                assert forall|i: int| 0 <= i < x.tables.len() implies table_changes_fits(
                    #[trigger] x.tables[i],
                ) && fits(table_changes_frame(x.tables[i])) by {
                    assert(fits(fields[i].1));
                }
            }
            reveal(row_changes_frame);
        }
        let bytes: usize = match m.finish() {
            Some(bytes) => bytes,
            None => {
                return Err(RowCodecError::InvalidLength);
            },
        };
        if bytes > max_bytes {
            return Err(RowCodecError::FrameTooLarge);
        }
        Ok(())
    }

    /// Refuse changes that exceed the operation's budget.
    pub fn validate_budget(&self) -> (r: Result<(), Error>)
        ensures
            r == budget_result(self@),
    {
        match self.validate_budget_with(MAX_CAPTURED_CHANGES, MAX_ROW_OPERATION_BYTES) {
            Ok(()) => Ok(()),
            Err(RowCodecError::TooManyChanges) => Err(
                capture_limit("normalized row-change count", MAX_CAPTURED_CHANGES),
            ),
            Err(_) => Err(capture_limit("row-operation bytes", MAX_ROW_OPERATION_BYTES)),
        }
    }

    /// Refuse decoded tables that make no statement's changes.
    fn validate_decoded(&self) -> (r: Result<(), RowCodecError>)
        ensures
            r == refused(row_changes_fault(self@)),
    {
        if let Err(error) = self.validate_structure() {
            return Err(error);
        }
        self.validate_budget_with(MAX_CAPTURED_CHANGES, MAX_ROW_OPERATION_BYTES)
    }
}

/// What checking changes against the operation's budget gives.
pub open spec fn budget_result(changes: RowChangesView) -> Result<(), Error> {
    match budget_fault(changes, MAX_CAPTURED_CHANGES as nat, MAX_ROW_OPERATION_BYTES as nat) {
        None => Ok(()),
        Some(RowCodecError::TooManyChanges) => Err(
            Error::CaptureLimitExceeded {
                resource: "normalized row-change count",
                limit: MAX_CAPTURED_CHANGES,
            },
        ),
        Some(_) => Err(
            Error::CaptureLimitExceeded {
                resource: "row-operation bytes",
                limit: MAX_ROW_OPERATION_BYTES,
            },
        ),
    }
}

/// The fields of the frame of a statement's changes.
pub open spec fn row_changes_fields(x: RowChangesView) -> Seq<(u8, Seq<u8>)> {
    let none = Seq::<(u8, Seq<u8>)>::empty();
    let f1 = none + table_changes_list(TAG_CHANGED_TABLE, x.tables);
    f1
}

/// The frame of a statement's changes.
#[verifier::opaque]
pub open spec fn row_changes_frame(x: RowChangesView) -> Seq<u8> {
    seq![ROW_CHANGES_FRAME_VERSION] + fields_bytes(row_changes_fields(x))
}

/// Whether every field of the frame has a length that a `u32` holds.
pub open spec fn row_changes_fits(x: RowChangesView) -> bool {
    &&& forall|i: int| 0 <= i < x.tables.len() ==> table_changes_fits(#[trigger] x.tables[i]) && fits(table_changes_frame(x.tables[i]))
}

impl RowChanges {
    /// Encode the frame.
    pub fn encode(&self) -> (r: Vec<u8>)
        requires
            row_changes_fits(self@),
        ensures
            r@ == row_changes_frame(self@),
    {
        assert(self@.tables == views(self.tables@));
        let w = FrameWriter::versioned(ROW_CHANGES_FRAME_VERSION);
        let w = write_tables(w, TAG_CHANGED_TABLE, &self.tables);
        assert(w.fields() =~= row_changes_fields(self@));
        reveal(row_changes_frame);
        w.finish()
    }
}

/// What is known of a statement's changes after some of its fields.
#[verifier::ext_equal]
pub struct RowChangesState {
    pub tables: Seq<TableChangesView>,
}

/// Nothing is known before the first field.
pub open spec fn row_changes_start() -> RowChangesState {
    RowChangesState {
        tables: Seq::empty(),
    }
}

/// What one field adds.
pub open spec fn row_changes_step(s: RowChangesState, tag: u8, payload: Seq<u8>) -> Result<RowChangesState, RowCodecError> {
    if tag == TAG_CHANGED_TABLE {
        match grown(s.tables, table_changes_decoded(payload)) {
            Err(error) => Err(error),
            Ok(tables) => Ok(RowChangesState { tables, ..s }),
        }
    } else {
        Ok(s)
    }
}

/// [`row_changes_step`] as a value.
pub open spec fn row_changes_steps() -> spec_fn(RowChangesState, u8, Seq<u8>) -> Result<RowChangesState, RowCodecError> {
    |s: RowChangesState, tag: u8, payload: Seq<u8>| row_changes_step(s, tag, payload)
}

/// A statement's changes that the fields describe.
pub open spec fn row_changes_finish(s: RowChangesState) -> Result<RowChangesView, RowCodecError> {
    if !(s.tables.len() > 0) {
        Err(RowCodecError::MissingField(TAG_CHANGED_TABLE))
    } else {
        let x = RowChangesView {
            tables: s.tables,
        };
        match row_changes_fault(x) {
            Some(error) => Err(error),
            None => Ok(x),
        }
    }
}

/// What decoding a frame gives.
#[verifier::opaque]
pub open spec fn row_changes_decoded(b: Seq<u8>) -> Result<RowChangesView, RowCodecError> {
    if b.len() > MAX_ROW_OPERATION_BYTES {
        Err(RowCodecError::FrameTooLarge)
    } else if b.len() == 0 || b[0] != ROW_CHANGES_FRAME_VERSION {
        Err(RowCodecError::UnknownVersion)
    } else {
        match run_fields(row_changes_start(), b.subrange(1, b.len() as int), row_changes_steps(), RowCodecError::Truncated) {
            Err(error) => Err(error),
            Ok(s) => row_changes_finish(s),
        }
    }
}

impl RowChanges {
    /// Decode one complete frame.
    pub fn decode(frame: &[u8]) -> (r: Result<RowChanges, RowCodecError>)
        ensures
            outcome(r) == row_changes_decoded(frame@),
    {
        broadcast use lemma_views_push;
        reveal(row_changes_decoded);
        if frame.len() > MAX_ROW_OPERATION_BYTES {
            return Err(RowCodecError::FrameTooLarge);
        }
        let mut reader = Reader::new(frame);
        if reader.u8() != Some(ROW_CHANGES_FRAME_VERSION) {
            return Err(RowCodecError::UnknownVersion);
        }
        let mut tables: Vec<TableChanges> = Vec::new();
        let ghost mut state = row_changes_start();
        assert(views(tables@) =~= Seq::<TableChangesView>::empty());
        while !reader.is_empty()
            invariant
                state == (RowChangesState {
                    tables: views(tables@),
                }),
                row_changes_decoded(frame@) == (match run_fields(
                    state,
                    reader.remaining(),
                    row_changes_steps(),
                    RowCodecError::Truncated,
                ) {
                    Err(error) => Err(error),
                    Ok(s) => row_changes_finish(s),
                }),
            decreases reader.remaining().len(),
        {
            let (tag, payload) = match reader.field() {
                Ok(Some(field)) => field,
                _ => {
                    return Err(RowCodecError::Truncated);
                },
            };
            let ghost next = row_changes_step(state, tag, payload@);
            assert(row_changes_steps()(state, tag, payload@) == next);
            if tag == TAG_CHANGED_TABLE {
                match TableChanges::decode(payload) {
                    Err(error) => {
                        return Err(error);
                    },
                    Ok(found) => {
                        tables.push(found);
                    },
                }
            }
            proof {
                state = next->Ok_0;
            }
        }
        if !(tables.len() > 0) {
            return Err(RowCodecError::MissingField(TAG_CHANGED_TABLE));
        }
        let r = RowChanges { tables };
        if let Err(error) = r.validate_decoded() {
            return Err(error);
        }
        assert(r@ == row_changes_finish(state)->Ok_0);
        Ok(r)
    }
}

/// Whether a value is one that decoding can give.
pub open spec fn row_changes_valid(x: RowChangesView) -> bool {
    &&& forall|i: int| 0 <= i < x.tables.len() ==> table_changes_valid(#[trigger] x.tables[i])
    &&& x.tables.len() > 0
    &&& row_changes_fault(x) is None
}

/// Decoding the frame of a statement's changes gives it back.
pub proof fn row_changes_roundtrip(x: RowChangesView)
    requires
        row_changes_valid(x),
        row_changes_fits(x),
    ensures
        row_changes_decoded(row_changes_frame(x)) == Ok::<RowChangesView, RowCodecError>(x),
{
    reveal(row_changes_decoded);
    reveal(row_changes_frame);
    let none = Seq::<(u8, Seq<u8>)>::empty();
    let f1 = none + table_changes_list(TAG_CHANGED_TABLE, x.tables);
    let step = row_changes_steps();
    let s0 = row_changes_start();
    assert(fields_fit(none));
    let s1 = RowChangesState { tables: x.tables, ..s0 };
    assert(fold_fields(s0, f1, step) == Ok::<RowChangesState, RowCodecError>(s1) && fields_fit(f1)) by {
        let states = |i: int| RowChangesState { tables: x.tables.subrange(0, i), ..s0 };
        let fields = table_changes_list(TAG_CHANGED_TABLE, x.tables);
        assert forall|i: int| 0 <= i < fields.len() implies #[trigger] step(
            states(i),
            fields[i].0,
            fields[i].1,
        ) == Ok::<RowChangesState, RowCodecError>(states(i + 1)) by {
            table_changes_roundtrip(x.tables[i]);
            assert(x.tables.subrange(0, i).push(x.tables[i]) =~= x.tables.subrange(0, i + 1));
        }
        assert(states(0) =~= s0);
        lemma_fold_list(s0, none, fields, states, step);
        assert(states(fields.len() as int) =~= s1);
        assert forall|i: int| 0 <= i < fields.len() implies fits((#[trigger] fields[i]).1) by {
            assert(table_changes_valid(x.tables[i]));
        }
        lemma_fit_concat(none, fields);
    }
    lemma_run_fold(s0, f1, step, RowCodecError::Truncated);
    assert(f1 == row_changes_fields(x));
    let b = row_changes_frame(x);
    assert(b.subrange(1, b.len() as int) =~= fields_bytes(f1));
    assert(row_changes_finish(s1) == Ok::<RowChangesView, RowCodecError>(x));
}

/// The bytes that known fields of a statement's changes take.
pub open spec fn row_changes_size(s: RowChangesState) -> nat {
    let tables = fields_bytes(table_changes_list(TAG_CHANGED_TABLE, s.tables)).len();
    tables
}

/// Whether known fields of a statement's changes are sound and can be written again.
pub open spec fn row_changes_sound(s: RowChangesState) -> bool {
    &&& forall|i: int| 0 <= i < s.tables.len() ==> table_changes_valid(#[trigger] s.tables[i]) && fits(table_changes_frame(s.tables[i])) && table_changes_fits(s.tables[i])
}

/// One field adds no more than its own bytes.
proof fn lemma_row_changes_step(s: RowChangesState, tag: u8, payload: Seq<u8>)
    requires
        row_changes_sound(s),
        fits(payload),
    ensures
        row_changes_step(s, tag, payload) matches Ok(next) ==> row_changes_sound(next) && row_changes_size(next) <= row_changes_size(
            s,
        ) + 5 + payload.len(),
{
    if let Ok(next) = row_changes_step(s, tag, payload) {
        if tag == TAG_CHANGED_TABLE {
            table_changes_shrinks(payload);
            let found = table_changes_decoded(payload)->Ok_0;
            assert(table_changes_list(TAG_CHANGED_TABLE, s.tables.push(found)) =~= table_changes_list(TAG_CHANGED_TABLE, s.tables).push(
                (TAG_CHANGED_TABLE, table_changes_frame(found)),
            ));
            lemma_fields_len(table_changes_list(TAG_CHANGED_TABLE, s.tables), TAG_CHANGED_TABLE, table_changes_frame(found));
        }
    }
}

/// What decoding gives is sound and takes no more bytes than it was read from.
pub proof fn row_changes_shrinks(b: Seq<u8>)
    ensures
        row_changes_decoded(b) matches Ok(x) ==> row_changes_valid(x) && row_changes_fits(x) && row_changes_frame(x).len() <= b.len(),
{
    reveal(row_changes_decoded);
    reveal(row_changes_frame);
    if let Ok(x) = row_changes_decoded(b) {
        let body = b.subrange(1, b.len() as int);
        let good = |s: RowChangesState| row_changes_sound(s);
        let size = |s: RowChangesState| row_changes_size(s);
        let step = row_changes_steps();
        let s0 = row_changes_start();
        let end = run_fields(s0, body, step, RowCodecError::Truncated)->Ok_0;
        assert forall|s: RowChangesState, tag: u8, payload: Seq<u8>|
            good(s) && fits(payload) && (#[trigger] step(s, tag, payload)) is Ok implies good(
            step(s, tag, payload)->Ok_0,
        ) && size(step(s, tag, payload)->Ok_0) <= size(s) + 5 + payload.len() by {
            lemma_row_changes_step(s, tag, payload);
        }
        lemma_run_bounded(s0, body, step, good, size, RowCodecError::Truncated);
        assert(row_changes_sound(end));
        let none = Seq::<(u8, Seq<u8>)>::empty();
        assert(fields_bytes(none).len() == 0);
        let f1 = none + table_changes_list(TAG_CHANGED_TABLE, x.tables);
        lemma_fields_concat(none, table_changes_list(TAG_CHANGED_TABLE, x.tables));
        assert(table_changes_list(TAG_CHANGED_TABLE, Seq::<TableChangesView>::empty()) =~= none);
        assert(f1 == row_changes_fields(x));
        assert(row_changes_size(s0) == 0);
        assert(fields_bytes(f1).len() == row_changes_size(end));
    }
}

} // verus!
