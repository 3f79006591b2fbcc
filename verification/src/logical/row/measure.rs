//! The lengths of row frames, without writing them.

use super::cells::{
    cell_fits, cell_frame, cell_list, delta_fields, delta_fits, delta_frame, delta_list, row_fields,
    row_fits, row_frame, Cell, Row, RowDelta, TAG_COLUMN_VALUE, TAG_DELTA_AFTER, TAG_DELTA_BEFORE,
    TAG_VALUE,
};
use super::rules::{
    foreign_key_fields, foreign_key_frame, foreign_key_list, foreign_key_part_frame,
    foreign_key_part_list, incoming_fields, incoming_frame, incoming_list, index_rules_fields,
    index_rules_frame, index_rules_list, key_part_frame, key_part_list, lemma_foreign_key_part_len,
    lemma_key_part_len, rules_fields, rules_fits, rules_frame, ForeignKeyPartRules, ForeignKeyRules,
    IncomingForeignKeyRules, IndexRules, KeyPartRules, RowRules, TAG_COLUMN_ID, TAG_FOREIGN_KEY_ID,
    TAG_FOREIGN_KEY_PARENT_INDEX, TAG_FOREIGN_KEY_PARENT_TABLE, TAG_FOREIGN_KEY_PART,
    TAG_INCOMING_CHILD_PRIMARY_INDEX, TAG_INCOMING_CHILD_TABLE, TAG_INCOMING_FOREIGN_KEY_ID,
    TAG_INCOMING_PARENT_INDEX, TAG_INCOMING_PARENT_PART, TAG_RULES_INDEX_ID, TAG_RULES_INDEX_PART,
    TAG_SET_FOREIGN_KEY, TAG_SET_INCOMING_FOREIGN_KEY, TAG_SET_INDEX_RULES, TAG_SET_KEY_PART,
    TAG_SET_PRIMARY_INDEX, TAG_SET_SCHEMA_REVISION, TAG_SET_TABLE, TAG_SET_TABLE_STORAGE,
};
use crate::bytes::{fields_bytes, fields_fit, fits, lemma_fields_len};
use crate::codec::views;
use crate::value::value_frame;
use vstd::prelude::*;

verus! {

/// Whether a length is that of a frame: a number exactly where every field
/// fits and the frame's length is a `usize`.
pub open spec fn measures(len: Option<usize>, fit: bool, frame: Seq<u8>) -> bool {
    match len {
        Some(n) => fit && n == frame.len(),
        None => !(fit && frame.len() <= usize::MAX),
    }
}

/// A frame that is measured field by field.
pub struct Meter {
    total: Option<usize>,
    head: Ghost<nat>,
    fit: Ghost<bool>,
    fields: Ghost<Seq<(u8, Seq<u8>)>>,
}

impl Meter {
    #[verifier::type_invariant]
    spec fn well_formed(self) -> bool {
        let whole = self.head@ + fields_bytes(self.fields@).len();
        match self.total {
            Some(n) => self.fit@ && fields_fit(self.fields@) && n == whole,
            None => !(self.fit@ && fields_fit(self.fields@) && whole <= usize::MAX),
        }
    }

    /// The length of what stands before the fields.
    pub closed spec fn head(&self) -> nat {
        self.head@
    }

    /// Whether the frames inside the fields fit.
    pub closed spec fn fit(&self) -> bool {
        self.fit@
    }

    /// The fields so far.
    pub closed spec fn fields(&self) -> Seq<(u8, Seq<u8>)> {
        self.fields@
    }

    /// Start behind a head of one byte, or of none.
    pub fn new(versioned: bool) -> (r: Meter)
        ensures
            r.head() == (if versioned {
                1nat
            } else {
                0
            }),
            r.fit(),
            r.fields() == Seq::<(u8, Seq<u8>)>::empty(),
    {
        let ghost none = Seq::<(u8, Seq<u8>)>::empty();
        let ghost head: nat = if versioned {
            1
        } else {
            0
        };
        let total: usize = if versioned {
            1
        } else {
            0
        };
        assert(fields_bytes(none).len() == 0);
        Meter { total: Some(total), head: Ghost(head), fit: Ghost(true), fields: Ghost(none) }
    }

    /// Count one more field.
    pub fn field(self, len: Option<usize>, fit: Ghost<bool>, field: Ghost<(u8, Seq<u8>)>) -> (r:
        Meter)
        requires
            measures(len, fit@, field@.1),
        ensures
            r.head() == self.head(),
            r.fit() == (self.fit() && fit@),
            r.fields() == self.fields().push(field@),
    {
        proof {
            use_type_invariant(&self);
        }
        let total: Option<usize> = match (self.total, len) {
            (Some(total), Some(n)) => {
                if n as u64 > u32::MAX as u64 {
                    None
                } else {
                    match n.checked_add(5) {
                        None => None,
                        Some(length) => total.checked_add(length),
                    }
                }
            },
            _ => None,
        };
        let ghost both = self.fit@ && fit@;
        let ghost before = self.fields@;
        let ghost after = before.push(field@);
        proof {
            lemma_fields_len(before, field@.0, field@.1);
            assert(fields_fit(after) <==> fields_fit(before) && fits(field@.1)) by {
                if fields_fit(after) {
                    assert forall|i: int| 0 <= i < before.len() implies fits(
                        (#[trigger] before[i]).1,
                    ) by {
                        assert(before[i] == after[i]);
                    }
                    assert(after[before.len() as int] == field@);
                }
                if fields_fit(before) && fits(field@.1) {
                    assert forall|i: int| 0 <= i < after.len() implies fits(
                        (#[trigger] after[i]).1,
                    ) by {
                        if i < before.len() {
                            assert(before[i] == after[i]);
                        }
                    }
                }
            }
        }
        Meter {
            total,
            head: self.head,
            fit: Ghost(both),
            fields: Ghost(after),
        }
    }

    /// The length of the whole.
    pub fn finish(self) -> (r: Option<usize>)
        ensures
            match r {
                Some(n) => self.fit() && fields_fit(self.fields()) && n == self.head()
                    + fields_bytes(self.fields()).len(),
                None => !(self.fit() && fields_fit(self.fields()) && self.head() + fields_bytes(
                    self.fields(),
                ).len() <= usize::MAX),
            },
    {
        proof {
            use_type_invariant(&self);
        }
        self.total
    }
}

/// Count key parts under one tag.
pub fn meter_key_parts(w: Meter, tag: u8, items: &[KeyPartRules]) -> (r: Meter)
    ensures
        r.head() == w.head(),
        r.fit() == w.fit(),
        r.fields() == w.fields() + key_part_list(tag, views(items@)),
{
    let ghost view = views(items@);
    let ghost list = key_part_list(tag, view);
    let ghost head = w.head();
    let ghost first = w.fit();
    let ghost before = w.fields();
    let mut m = w;
    let mut i: usize = 0;
    assert(before + list.subrange(0, 0) =~= before);
    while i < items.len()
        invariant
            i <= items@.len(),
            view == views(items@),
            list == key_part_list(tag, view),
            m.head() == head,
            m.fit() == first,
            m.fields() == before + list.subrange(0, i as int),
        decreases items.len() - i,
    {
        proof {
            assert(view[i as int] == items@[i as int]@);
            lemma_key_part_len(items@[i as int]@);
        }
        m = m.field(Some(33), Ghost(true), Ghost((tag, key_part_frame(items@[i as int]@))));
        assert(m.fields() =~= before + list.subrange(0, i as int + 1));
        i += 1;
    }
    assert(list.subrange(0, i as int) =~= list);
    m
}

/// Count foreign-key parts under one tag.
pub fn meter_foreign_key_parts(w: Meter, tag: u8, items: &[ForeignKeyPartRules]) -> (r: Meter)
    ensures
        r.head() == w.head(),
        r.fit() == w.fit(),
        r.fields() == w.fields() + foreign_key_part_list(tag, views(items@)),
{
    let ghost view = views(items@);
    let ghost list = foreign_key_part_list(tag, view);
    let ghost head = w.head();
    let ghost first = w.fit();
    let ghost before = w.fields();
    let mut m = w;
    let mut i: usize = 0;
    assert(before + list.subrange(0, 0) =~= before);
    while i < items.len()
        invariant
            i <= items@.len(),
            view == views(items@),
            list == foreign_key_part_list(tag, view),
            m.head() == head,
            m.fit() == first,
            m.fields() == before + list.subrange(0, i as int),
        decreases items.len() - i,
    {
        proof {
            assert(view[i as int] == items@[i as int]@);
            lemma_foreign_key_part_len(items@[i as int]@);
        }
        m = m.field(Some(59), Ghost(true), Ghost((tag, foreign_key_part_frame(items@[i as int]@))));
        assert(m.fields() =~= before + list.subrange(0, i as int + 1));
        i += 1;
    }
    assert(list.subrange(0, i as int) =~= list);
    m
}

impl IndexRules {
    /// The length of the frame.
    pub fn encoded_len(&self) -> (r: Option<usize>)
        ensures
            measures(r, true, index_rules_frame(self@)),
    {
        let m = Meter::new(false);
        let m = m.field(Some(16), Ghost(true), Ghost((TAG_RULES_INDEX_ID, self@.index)));
        let m = meter_key_parts(m, TAG_RULES_INDEX_PART, self.parts.as_slice());
        proof {
            assert(m.fields() =~= index_rules_fields(self@));
            assert(fields_fit(m.fields())) by {
                let fields = index_rules_fields(self@);
                assert forall|i: int| 0 <= i < fields.len() implies fits((#[trigger] fields[i]).1) by {
                    if i >= 1 {
                        lemma_key_part_len(self.parts@[i - 1]@);
                        assert(fields[i].1 == key_part_frame(self.parts@[i - 1]@));
                    }
                }
            }
            reveal(index_rules_frame);
        }
        m.finish()
    }
}

impl ForeignKeyRules {
    /// The length of the frame.
    pub fn encoded_len(&self) -> (r: Option<usize>)
        ensures
            measures(r, true, foreign_key_frame(self@)),
    {
        let m = Meter::new(false);
        let m = m.field(Some(16), Ghost(true), Ghost((TAG_FOREIGN_KEY_ID, self@.id)));
        let m = m.field(Some(16), Ghost(true), Ghost((TAG_FOREIGN_KEY_PARENT_TABLE, self@.parent_table)));
        let m = m.field(Some(16), Ghost(true), Ghost((TAG_FOREIGN_KEY_PARENT_INDEX, self@.parent_index)));
        let m = meter_foreign_key_parts(m, TAG_FOREIGN_KEY_PART, self.key_parts.as_slice());
        proof {
            assert(m.fields() =~= foreign_key_fields(self@));
            assert(fields_fit(m.fields())) by {
                let fields = foreign_key_fields(self@);
                assert forall|i: int| 0 <= i < fields.len() implies fits((#[trigger] fields[i]).1) by {
                    if i >= 3 {
                        lemma_foreign_key_part_len(self.key_parts@[i - 3]@);
                        assert(fields[i].1 == foreign_key_part_frame(self.key_parts@[i - 3]@));
                    }
                }
            }
            reveal(foreign_key_frame);
        }
        m.finish()
    }
}

impl IncomingForeignKeyRules {
    /// The length of the frame.
    pub fn encoded_len(&self) -> (r: Option<usize>)
        ensures
            measures(r, true, incoming_frame(self@)),
    {
        let m = Meter::new(false);
        let m = m.field(Some(16), Ghost(true), Ghost((TAG_INCOMING_FOREIGN_KEY_ID, self@.id)));
        let m = m.field(Some(16), Ghost(true), Ghost((TAG_INCOMING_CHILD_TABLE, self@.child_table)));
        let m = m.field(Some(16), Ghost(true), Ghost((TAG_INCOMING_CHILD_PRIMARY_INDEX, self@.child_primary_index)));
        let m = m.field(Some(16), Ghost(true), Ghost((TAG_INCOMING_PARENT_INDEX, self@.parent_index)));
        let m = meter_key_parts(m, TAG_INCOMING_PARENT_PART, self.parent_key_parts.as_slice());
        proof {
            assert(m.fields() =~= incoming_fields(self@));
            assert(fields_fit(m.fields())) by {
                let fields = incoming_fields(self@);
                assert forall|i: int| 0 <= i < fields.len() implies fits((#[trigger] fields[i]).1) by {
                    if i >= 4 {
                        lemma_key_part_len(self.parent_key_parts@[i - 4]@);
                        assert(fields[i].1 == key_part_frame(self.parent_key_parts@[i - 4]@));
                    }
                }
            }
            reveal(incoming_frame);
        }
        m.finish()
    }
}

/// Count index rules under one tag.
pub fn meter_indexes(w: Meter, tag: u8, items: &[IndexRules]) -> (r: Meter)
    ensures
        r.head() == w.head(),
        r.fit() == w.fit(),
        r.fields() == w.fields() + index_rules_list(tag, views(items@)),
{
    let ghost view = views(items@);
    let ghost list = index_rules_list(tag, view);
    let ghost head = w.head();
    let ghost first = w.fit();
    let ghost before = w.fields();
    let mut m = w;
    let mut i: usize = 0;
    assert(before + list.subrange(0, 0) =~= before);
    while i < items.len()
        invariant
            i <= items@.len(),
            view == views(items@),
            list == index_rules_list(tag, view),
            m.head() == head,
            m.fit() == first,
            m.fields() == before + list.subrange(0, i as int),
        decreases items.len() - i,
    {
        proof {
            assert(view[i as int] == items@[i as int]@);

        }
        m = m.field(items[i].encoded_len(), Ghost(true), Ghost((tag, index_rules_frame(items@[i as int]@))));
        assert(m.fields() =~= before + list.subrange(0, i as int + 1));
        i += 1;
    }
    assert(list.subrange(0, i as int) =~= list);
    m
}

/// Count foreign keys under one tag.
pub fn meter_foreign_keys(w: Meter, tag: u8, items: &[ForeignKeyRules]) -> (r: Meter)
    ensures
        r.head() == w.head(),
        r.fit() == w.fit(),
        r.fields() == w.fields() + foreign_key_list(tag, views(items@)),
{
    let ghost view = views(items@);
    let ghost list = foreign_key_list(tag, view);
    let ghost head = w.head();
    let ghost first = w.fit();
    let ghost before = w.fields();
    let mut m = w;
    let mut i: usize = 0;
    assert(before + list.subrange(0, 0) =~= before);
    while i < items.len()
        invariant
            i <= items@.len(),
            view == views(items@),
            list == foreign_key_list(tag, view),
            m.head() == head,
            m.fit() == first,
            m.fields() == before + list.subrange(0, i as int),
        decreases items.len() - i,
    {
        proof {
            assert(view[i as int] == items@[i as int]@);

        }
        m = m.field(items[i].encoded_len(), Ghost(true), Ghost((tag, foreign_key_frame(items@[i as int]@))));
        assert(m.fields() =~= before + list.subrange(0, i as int + 1));
        i += 1;
    }
    assert(list.subrange(0, i as int) =~= list);
    m
}

/// Count incoming foreign keys under one tag.
pub fn meter_incoming_keys(w: Meter, tag: u8, items: &[IncomingForeignKeyRules]) -> (r: Meter)
    ensures
        r.head() == w.head(),
        r.fit() == w.fit(),
        r.fields() == w.fields() + incoming_list(tag, views(items@)),
{
    let ghost view = views(items@);
    let ghost list = incoming_list(tag, view);
    let ghost head = w.head();
    let ghost first = w.fit();
    let ghost before = w.fields();
    let mut m = w;
    let mut i: usize = 0;
    assert(before + list.subrange(0, 0) =~= before);
    while i < items.len()
        invariant
            i <= items@.len(),
            view == views(items@),
            list == incoming_list(tag, view),
            m.head() == head,
            m.fit() == first,
            m.fields() == before + list.subrange(0, i as int),
        decreases items.len() - i,
    {
        proof {
            assert(view[i as int] == items@[i as int]@);

        }
        m = m.field(items[i].encoded_len(), Ghost(true), Ghost((tag, incoming_frame(items@[i as int]@))));
        assert(m.fields() =~= before + list.subrange(0, i as int + 1));
        i += 1;
    }
    assert(list.subrange(0, i as int) =~= list);
    m
}

impl RowRules {
    /// The length of the frame.
    pub fn encoded_len(&self) -> (r: Option<usize>)
        ensures
            measures(r, rules_fits(self@), rules_frame(self@)),
    {
        let ghost x = self@;
        assert(x.key_parts == views(self.key_parts@));
        assert(x.indexes == views(self.indexes@));
        assert(x.foreign_keys == views(self.foreign_keys@));
        assert(x.incoming_foreign_keys == views(self.incoming_foreign_keys@));
        let m = Meter::new(true);
        let m = m.field(Some(16), Ghost(true), Ghost((TAG_SET_TABLE, x.table)));
        let m = m.field(Some(16), Ghost(true), Ghost((TAG_SET_SCHEMA_REVISION, x.schema_revision)));
        let m = m.field(Some(16), Ghost(true), Ghost((TAG_SET_PRIMARY_INDEX, x.primary_index)));
        let m = m.field(
            Some(1),
            Ghost(true),
            Ghost((TAG_SET_TABLE_STORAGE, self.storage_bytes())),
        );
        let m = meter_key_parts(m, TAG_SET_KEY_PART, self.key_parts.as_slice());
        let m = meter_indexes(m, TAG_SET_INDEX_RULES, self.indexes.as_slice());
        let m = meter_foreign_keys(m, TAG_SET_FOREIGN_KEY, self.foreign_keys.as_slice());
        let m = meter_incoming_keys(
            m,
            TAG_SET_INCOMING_FOREIGN_KEY,
            self.incoming_foreign_keys.as_slice(),
        );
        proof {
            assert(m.fields() =~= rules_fields(x));
            lemma_rules_fit(*self);
            reveal(rules_frame);
        }
        m.finish()
    }

    /// The payload of the storage field.
    spec fn storage_bytes(&self) -> Seq<u8> {
        seq![self.storage.code()]
    }
}

/// The fields of row rules fit where the frames inside them do.
proof fn lemma_rules_fit(rules: RowRules)
    ensures
        fields_fit(rules_fields(rules@)) <==> rules_fits(rules@),
{
    let x = rules@;
    let fields = rules_fields(x);
    let a = 4int;
    let b = a + x.key_parts.len();
    let c = b + x.indexes.len();
    let d = c + x.foreign_keys.len();
    assert forall|i: int| 0 <= i < x.indexes.len() implies fields[b + i].1 == index_rules_frame(
        #[trigger] x.indexes[i],
    ) by {}
    assert forall|i: int| 0 <= i < x.foreign_keys.len() implies fields[c + i].1 == foreign_key_frame(
        #[trigger] x.foreign_keys[i],
    ) by {}
    assert forall|i: int| 0 <= i < x.incoming_foreign_keys.len() implies fields[d + i].1
        == incoming_frame(#[trigger] x.incoming_foreign_keys[i]) by {}
    if rules_fits(x) {
        assert forall|i: int| 0 <= i < fields.len() implies fits((#[trigger] fields[i]).1) by {
            if i < a {
            } else if i < b {
                assert(fields[i].1 == key_part_frame(x.key_parts[i - a]));
                lemma_key_part_len(rules.key_parts@[i - a]@);
            } else if i < c {
                assert(fits(index_rules_frame(x.indexes[i - b])));
            } else if i < d {
                assert(fits(foreign_key_frame(x.foreign_keys[i - c])));
            } else {
                assert(fits(incoming_frame(x.incoming_foreign_keys[i - d])));
            }
        }
    }
    if fields_fit(fields) {
        assert forall|i: int| 0 <= i < x.indexes.len() implies fits(
            index_rules_frame(#[trigger] x.indexes[i]),
        ) by {
            assert(fits(fields[b + i].1));
        }
        assert forall|i: int| 0 <= i < x.foreign_keys.len() implies fits(
            foreign_key_frame(#[trigger] x.foreign_keys[i]),
        ) by {
            assert(fits(fields[c + i].1));
        }
        assert forall|i: int| 0 <= i < x.incoming_foreign_keys.len() implies fits(
            incoming_frame(#[trigger] x.incoming_foreign_keys[i]),
        ) by {
            assert(fits(fields[d + i].1));
        }
    }
}

impl Cell {
    /// The length of the frame.
    pub fn encoded_len(&self) -> (r: Option<usize>)
        ensures
            measures(r, cell_fits(self@), cell_frame(self@)),
    {
        let m = Meter::new(false);
        let m = m.field(Some(16), Ghost(true), Ghost((TAG_COLUMN_ID, self@.column)));
        let m = m.field(
            self.value.encoded_len(),
            Ghost(true),
            Ghost((TAG_VALUE, value_frame(self@.value))),
        );
        proof {
            let fields = super::cells::cell_fields(self@);
            assert(m.fields() =~= fields);
            assert(fields[1].1 == value_frame(self@.value));
            assert(fields_fit(fields) <==> cell_fits(self@)) by {
                assert(fields[0].1.len() == 16);
            }
            reveal(cell_frame);
        }
        m.finish()
    }
}

/// Count cells under one tag.
pub fn meter_cells(w: Meter, tag: u8, items: &[Cell]) -> (r: Meter)
    ensures
        r.head() == w.head(),
        r.fit() == (w.fit() && (forall|i: int| 0 <= i < items@.len() ==> cell_fits(#[trigger] views(items@)[i]))),
        r.fields() == w.fields() + cell_list(tag, views(items@)),
{
    let ghost view = views(items@);
    let ghost list = cell_list(tag, view);
    let ghost head = w.head();
    let ghost first = w.fit();
    let ghost before = w.fields();
    let mut m = w;
    let mut i: usize = 0;
    assert(before + list.subrange(0, 0) =~= before);
    while i < items.len()
        invariant
            i <= items@.len(),
            view == views(items@),
            list == cell_list(tag, view),
            m.head() == head,
            m.fit() == (first && (forall|j: int| 0 <= j < i ==> cell_fits(#[trigger] view[j]))),
            m.fields() == before + list.subrange(0, i as int),
        decreases items.len() - i,
    {
        proof {
            assert(view[i as int] == items@[i as int]@);

        }
        m = m.field(items[i].encoded_len(), Ghost(cell_fits(items@[i as int]@)), Ghost((tag, cell_frame(items@[i as int]@))));
        assert(m.fields() =~= before + list.subrange(0, i as int + 1));
        i += 1;
    }
    assert(list.subrange(0, i as int) =~= list);
    m
}

/// The length of a row image's frame.
pub fn row_image_len(row: &Row) -> (r: Option<usize>)
    ensures
        measures(r, row_fits(row@), row_frame(row@)),
{
    let m = Meter::new(true);
    let m = meter_cells(m, TAG_COLUMN_VALUE, row.values.as_slice());
    proof {
        let x = row@;
        let fields = row_fields(x);
        assert(x.values == views(row.values@));
        assert(m.fields() =~= fields);
        assert forall|i: int| 0 <= i < x.values.len() implies fields[i].1 == cell_frame(
            #[trigger] x.values[i],
        ) by {}
        if row_fits(x) {
            assert forall|i: int| 0 <= i < fields.len() implies fits((#[trigger] fields[i]).1) by {
                assert(fits(cell_frame(x.values[i])));
            }
        }
        if m.fit() && fields_fit(fields) {
            assert forall|i: int| 0 <= i < x.values.len() implies cell_fits(#[trigger] x.values[i])
                && fits(cell_frame(x.values[i])) by {
                assert(fits(fields[i].1));
            }
        }
        reveal(row_frame);
    }
    m.finish()
}

impl RowDelta {
    /// The length of the frame.
    pub fn encoded_len(&self) -> (r: Option<usize>)
        ensures
            measures(r, delta_fits(self@), delta_frame(self@)),
    {
        let m = Meter::new(true);
        let m = match &self.before {
            Some(row) => m.field(
                row_image_len(row),
                Ghost(row_fits(row@)),
                Ghost((TAG_DELTA_BEFORE, row_frame(row@))),
            ),
            None => m,
        };
        let m = match &self.after {
            Some(row) => m.field(
                row_image_len(row),
                Ghost(row_fits(row@)),
                Ghost((TAG_DELTA_AFTER, row_frame(row@))),
            ),
            None => m,
        };
        proof {
            let x = self@;
            let fields = delta_fields(x);
            assert(m.fields() =~= fields);
            if let Some(before) = x.before {
                assert(fields[0].1 == row_frame(before));
            }
            if let Some(after) = x.after {
                assert(fields[fields.len() - 1].1 == row_frame(after));
            }
            assert(m.fit() && fields_fit(fields) <==> delta_fits(x));
            reveal(delta_frame);
        }
        m.finish()
    }
}

/// Count rows' changes under one tag.
pub fn meter_deltas(w: Meter, tag: u8, items: &[RowDelta]) -> (r: Meter)
    ensures
        r.head() == w.head(),
        r.fit() == (w.fit() && (forall|i: int| 0 <= i < items@.len() ==> delta_fits(#[trigger] views(items@)[i]))),
        r.fields() == w.fields() + delta_list(tag, views(items@)),
{
    let ghost view = views(items@);
    let ghost list = delta_list(tag, view);
    let ghost head = w.head();
    let ghost first = w.fit();
    let ghost before = w.fields();
    let mut m = w;
    let mut i: usize = 0;
    assert(before + list.subrange(0, 0) =~= before);
    while i < items.len()
        invariant
            i <= items@.len(),
            view == views(items@),
            list == delta_list(tag, view),
            m.head() == head,
            m.fit() == (first && (forall|j: int| 0 <= j < i ==> delta_fits(#[trigger] view[j]))),
            m.fields() == before + list.subrange(0, i as int),
        decreases items.len() - i,
    {
        proof {
            assert(view[i as int] == items@[i as int]@);

        }
        m = m.field(items[i].encoded_len(), Ghost(delta_fits(items@[i as int]@)), Ghost((tag, delta_frame(items@[i as int]@))));
        assert(m.fields() =~= before + list.subrange(0, i as int + 1));
        i += 1;
    }
    assert(list.subrange(0, i as int) =~= list);
    m
}

} // verus!
