//! Sets of rows under one table's rules.

use super::cells::{
    cell_columns, clone_rows, row_decoded, row_fits, row_frame, row_list, row_roundtrip, row_shrinks, row_valid,
    write_rows, Row, RowView,
};
use super::codec::{one_byte, read_table_storage, read_uuid, table_storage_field, uuid_field};
use super::error::RowCodecError;
use super::keys::{
    incoming_prefixes_of, index_entries_of, references_of, row_key_of, EntryView, IndexEntry,
};
use super::owners::{lemma_placed_owns, lemma_rank_bound, owns, placed, rank, OwnerMap};
use super::rules::{
    foreign_key_decoded, foreign_key_frame, foreign_key_list, foreign_key_roundtrip, foreign_key_shrinks,
    foreign_key_valid, incoming_decoded, incoming_frame, incoming_list, incoming_roundtrip, incoming_shrinks,
    incoming_valid, index_rules_decoded, index_rules_frame, index_rules_list,
    index_rules_roundtrip, index_rules_shrinks, index_rules_valid, key_part_decoded, key_part_frame, key_part_list,
    key_part_roundtrip, key_part_shrinks, key_part_valid, lemma_key_part_len, rules_fault, write_foreign_keys,
    write_incoming_keys, write_index_rules_list, write_key_parts, ForeignKeyRules, ForeignKeyView,
    IncomingForeignKeyRules, IncomingView, IndexRules, IndexView, KeyPartRules, KeyPartView,
    RowRules, RulesView, ROW_SET_FRAME_VERSION, TAG_SET_FOREIGN_KEY, TAG_SET_INCOMING_FOREIGN_KEY,
    TAG_SET_INDEX_RULES, TAG_SET_KEY_PART, TAG_SET_PRIMARY_INDEX, TAG_SET_ROW,
    TAG_SET_SCHEMA_REVISION, TAG_SET_TABLE, TAG_SET_TABLE_STORAGE,
};
use crate::attempt::{lemma_try_fold_start, lemma_try_fold_step, lemma_try_fold_stop, try_fold};
use crate::bytes::{
    copy_bytes, fields_bytes, fields_fit, fits, fold_fields, lemma_fields_concat, lemma_fields_len, lemma_fit_concat, lemma_fit_push,
    lemma_fold_list, lemma_fold_push, lemma_run_bounded, lemma_run_fold,
    run_fields, FrameWriter, Reader,
};
use crate::codec::{filled, grown, lemma_views_push, outcome, view_of, views};
use crate::error::Error;
use crate::footprint::paths;
use crate::identity::{random_uuid, IndexId, SchemaRevisionId, TableId};
use crate::key::{Key, Path};
use crate::logical::target::{classified, TargetFamily};
use crate::logical::types::TableStorage;
use crate::value::StoredValue;
use vstd::prelude::*;

verus! {

/// Homogeneous row images interpreted under one table's stable rules.
#[derive(Debug, PartialEq, Eq)]
pub struct RowSet {
    pub rules: RowRules,
    pub rows: Vec<Row>,
}

/// A row set as a mathematical value.
#[verifier::ext_equal]
pub struct RowSetView {
    pub rules: RulesView,
    pub rows: Seq<RowView>,
}

impl View for RowSet {
    type V = RowSetView;

    open spec fn view(&self) -> RowSetView {
        RowSetView { rules: self.rules@, rows: views(self.rows@) }
    }
}

impl Clone for RowSet {
    fn clone(&self) -> (r: Self)
        ensures
            r@ == self@,
    {
        RowSet { rules: self.rules.clone(), rows: clone_rows(&self.rows) }
    }
}

/// The keys of entries as a set.
pub open spec fn key_set(entries: Seq<EntryView>) -> Set<Path> {
    Set::new(|key: Path| owns(entries, key))
}

/// A key that joins a set of UNIQUE keys once.
pub open spec fn unique_key_step() -> spec_fn(Set<Path>, EntryView) -> Result<
    Set<Path>,
    RowCodecError,
> {
    |seen: Set<Path>, entry: EntryView|
        if seen.contains(entry.key) {
            Err(RowCodecError::DuplicateUniqueKey)
        } else {
            Ok(seen.insert(entry.key))
        }
}

/// A row that joins others: its key and its UNIQUE keys must be new, and every
/// key that it owns or refers to must have an image.
pub open spec fn row_step(rules: RulesView) -> spec_fn((Set<Path>, Set<Path>), RowView) -> Result<
    (Set<Path>, Set<Path>),
    RowCodecError,
> {
    |seen: (Set<Path>, Set<Path>), row: RowView| row_joined(rules, seen, row)
}

/// What [`row_step`] does.
pub open spec fn row_joined(rules: RulesView, seen: (Set<Path>, Set<Path>), row: RowView) -> Result<
    (Set<Path>, Set<Path>),
    RowCodecError,
> {
    match row_key_of(rules, row) {
        Err(error) => Err(error),
        Ok(key) => if seen.0.contains(key) {
            Err(RowCodecError::DuplicateRow)
        } else {
            match index_entries_of(rules, row) {
                Err(error) => Err(error),
                Ok(entries) => match try_fold(seen.1, entries, unique_key_step()) {
                    Err(error) => Err(error),
                    Ok(unique) => match references_of(rules, row) {
                        Err(error) => Err(error),
                        Ok(_) => Ok((seen.0.insert(key), unique)),
                    },
                },
            }
        },
    }
}

/// The keys and UNIQUE keys of rows, or why the rows cannot stand together.
pub open spec fn rows_joined(rules: RulesView, rows: Seq<RowView>) -> Result<
    (Set<Path>, Set<Path>),
    RowCodecError,
> {
    try_fold((Set::<Path>::empty(), Set::<Path>::empty()), rows, row_step(rules))
}

/// Whether every row has the columns of the first, in the same order.
pub open spec fn same_columns(rows: Seq<RowView>) -> bool {
    forall|i: int|
        0 <= i < rows.len() ==> cell_columns((#[trigger] rows[i]).values) == cell_columns(
            rows[0].values,
        )
}

/// Why a row set is refused, if it is.
pub open spec fn row_set_fault(set: RowSetView) -> Option<RowCodecError> {
    match rules_fault(set.rules) {
        Some(error) => Some(error),
        None => if set.rows.len() == 0 || !same_columns(set.rows) {
            Some(RowCodecError::InvalidRow)
        } else {
            match rows_joined(set.rules, set.rows) {
                Err(error) => Some(error),
                Ok(_) => None,
            }
        },
    }
}

/// Why decoded fields make no row set, if they do not.
pub open spec fn row_set_decode_fault(set: RowSetView) -> Option<RowCodecError> {
    match rules_fault(set.rules) {
        Some(error) => Some(error),
        None => if set.rows.len() == 0 {
            Some(RowCodecError::MissingField(TAG_SET_ROW))
        } else {
            row_set_fault(set)
        },
    }
}

/// A fault as the result that reports it.
pub open spec fn refused(fault: Option<RowCodecError>) -> Result<(), RowCodecError> {
    match fault {
        Some(error) => Err(error),
        None => Ok(()),
    }
}

/// An entry that is placed under a new key.
pub open spec fn place_step(duplicate: RowCodecError) -> spec_fn(
    Seq<EntryView>,
    EntryView,
) -> Result<Seq<EntryView>, RowCodecError> {
    |order: Seq<EntryView>, entry: EntryView|
        if owns(order, entry.key) {
            Err(duplicate)
        } else {
            Ok(placed(order, entry))
        }
}

/// What a row owns in UNIQUE indexes, placed among the others.
pub open spec fn unique_map_step(rules: RulesView) -> spec_fn(Seq<EntryView>, RowView) -> Result<
    Seq<EntryView>,
    RowCodecError,
> {
    |order: Seq<EntryView>, row: RowView|
        match index_entries_of(rules, row) {
            Err(error) => Err(error),
            Ok(entries) => try_fold(
                order,
                entries,
                place_step(RowCodecError::DuplicateUniqueKey),
            ),
        }
}

/// What rows own in UNIQUE indexes, in key order.
pub open spec fn unique_map_of(set: RowSetView) -> Result<Seq<EntryView>, RowCodecError> {
    try_fold(Seq::<EntryView>::empty(), set.rows, unique_map_step(set.rules))
}

/// A row's references, placed among the others.
pub open spec fn reference_map_step(rules: RulesView) -> spec_fn(Seq<EntryView>, RowView) -> Result<
    Seq<EntryView>,
    RowCodecError,
> {
    |order: Seq<EntryView>, row: RowView|
        match references_of(rules, row) {
            Err(error) => Err(error),
            Ok(entries) => try_fold(order, entries, place_step(RowCodecError::InvalidRow)),
        }
}

/// The references of rows, in key order.
pub open spec fn reference_map_of(set: RowSetView) -> Result<Seq<EntryView>, RowCodecError> {
    try_fold(Seq::<EntryView>::empty(), set.rows, reference_map_step(set.rules))
}

/// A prefix that joins others where it is new.
pub open spec fn prefix_added(order: Seq<EntryView>, key: Path) -> Seq<EntryView> {
    if owns(order, key) {
        order
    } else {
        placed(order, EntryView { key, value: Seq::empty() })
    }
}

/// Prefixes that join others in turn.
pub open spec fn prefixes_added(order: Seq<EntryView>, keys: Seq<Path>) -> Seq<EntryView>
    decreases keys.len(),
{
    if keys.len() == 0 {
        order
    } else {
        prefix_added(prefixes_added(order, keys.drop_last()), keys.last())
    }
}

/// The prefixes above every reference to a row, placed among the others.
pub open spec fn incoming_set_step(rules: RulesView) -> spec_fn(Seq<EntryView>, RowView) -> Result<
    Seq<EntryView>,
    RowCodecError,
> {
    |order: Seq<EntryView>, row: RowView|
        match incoming_prefixes_of(rules, row) {
            Err(error) => Err(error),
            Ok(keys) => Ok(prefixes_added(order, keys)),
        }
}

/// The prefixes above every reference to rows, in key order.
pub open spec fn incoming_set_of(set: RowSetView) -> Result<Seq<EntryView>, RowCodecError> {
    try_fold(Seq::<EntryView>::empty(), set.rows, incoming_set_step(set.rules))
}

/// A map's result over its order.
pub open spec fn order_outcome(r: Result<OwnerMap, RowCodecError>) -> Result<
    Seq<EntryView>,
    RowCodecError,
> {
    match r {
        Ok(map) => Ok(map.order()),
        Err(error) => Err(error),
    }
}

/// Add a key, and learn whether it is new.
fn register(map: OwnerMap, key: Key) -> (r: (OwnerMap, bool))
    ensures
        r.1 == !key_set(map.order()).contains(key@),
        key_set(r.0.order()) == key_set(map.order()).insert(key@),
{
    let ghost before = map.order();
    let entry = IndexEntry { key, value: Vec::new() };
    let ghost view = entry@;
    let r = map.insert(entry);
    proof {
        assert forall|k: Path| owns(placed(before, view), k) <==> owns(before, k) || view.key
            == k by {
            lemma_placed_owns(before, view, k);
        }
        assert(key_set(r.0.order()) =~= key_set(before).insert(key@));
    }
    r
}

/// Place entries under new keys.
fn place_all(base: OwnerMap, entries: &[IndexEntry], duplicate: RowCodecError) -> (r: Result<
    OwnerMap,
    RowCodecError,
>)
    ensures
        order_outcome(r) == try_fold(base.order(), views(entries@), place_step(duplicate)),
{
    let ghost start = base.order();
    let ghost view = views(entries@);
    let ghost step = place_step(duplicate);
    let mut map = base;
    let mut i: usize = 0;
    proof {
        lemma_try_fold_start(start, view, step);
    }
    while i < entries.len()
        invariant
            i <= entries@.len(),
            start == base.order(),
            view == views(entries@),
            step == place_step(duplicate),
            try_fold(start, view.subrange(0, i as int), step) == Ok::<
                Seq<EntryView>,
                RowCodecError,
            >(map.order()),
        decreases entries.len() - i,
    {
        proof {
            lemma_try_fold_step(start, view, i as int, step);
            assert(view[i as int] == entries@[i as int]@);
            if try_fold(start, view.subrange(0, i as int + 1), step) is Err {
                lemma_try_fold_stop(start, view, i as int + 1, step);
            }
        }
        let (more, fresh) = map.insert(entries[i].clone());
        map = more;
        if !fresh {
            return Err(duplicate);
        }
        i += 1;
    }
    proof {
        lemma_try_fold_start(start, view, step);
    }
    Ok(map)
}

/// Whether two rows have the same columns in the same order.
fn columns_agree(a: &Row, b: &Row) -> (r: bool)
    ensures
        r == (cell_columns(a@.values) == cell_columns(b@.values)),
{
    let ghost left = cell_columns(a@.values);
    let ghost right = cell_columns(b@.values);
    if a.values.len() != b.values.len() {
        assert(left.len() != right.len());
        return false;
    }
    let mut i: usize = 0;
    while i < a.values.len()
        invariant
            i <= a.values@.len(),
            a.values@.len() == b.values@.len(),
            left == cell_columns(a@.values),
            right == cell_columns(b@.values),
            forall|j: int| 0 <= j < i ==> left[j] == right[j],
        decreases a.values.len() - i,
    {
        if !a.values[i].column.same(&b.values[i].column) {
            assert(left[i as int] != right[i as int]);
            return false;
        }
        i += 1;
    }
    assert(left =~= right);
    true
}

impl RowSet {
    /// Check rows, each against those before it.
    fn check_rows(&self) -> (r: Result<(), RowCodecError>)
        ensures
            r == (match rows_joined(self@.rules, self@.rows) {
                Err(error) => Err::<(), RowCodecError>(error),
                Ok(_) => Ok(()),
            }),
    {
        let ghost start = (Set::<Path>::empty(), Set::<Path>::empty());
        let ghost view = views(self.rows@);
        let ghost step = row_step(self@.rules);
        let mut keys = OwnerMap::new();
        let mut unique = OwnerMap::new();
        let mut i: usize = 0;
        proof {
            lemma_try_fold_start(start, view, step);
            assert(key_set(keys.order()) =~= Set::<Path>::empty());
        }
        while i < self.rows.len()
            invariant
                i <= self.rows@.len(),
                view == views(self.rows@),
                start == (Set::<Path>::empty(), Set::<Path>::empty()),
                step == row_step(self@.rules),
                try_fold(start, view.subrange(0, i as int), step) == Ok::<
                    (Set<Path>, Set<Path>),
                    RowCodecError,
                >((key_set(keys.order()), key_set(unique.order()))),
            decreases self.rows.len() - i,
        {
            let row = &self.rows[i];
            let ghost seen = (key_set(keys.order()), key_set(unique.order()));
            proof {
                lemma_try_fold_step(start, view, i as int, step);
                assert(view[i as int] == row@);
                if try_fold(start, view.subrange(0, i as int + 1), step) is Err {
                    lemma_try_fold_stop(start, view, i as int + 1, step);
                }
            }
            let key = match self.rules.row_key(row) {
                Err(error) => {
                    return Err(error);
                },
                Ok(key) => key,
            };
            let (more, fresh) = register(keys, key);
            keys = more;
            if !fresh {
                return Err(RowCodecError::DuplicateRow);
            }
            let entries = match self.rules.index_entries(row) {
                Err(error) => {
                    return Err(error);
                },
                Ok(entries) => entries,
            };
            let ghost owned = views(entries@);
            let ghost unique_step = unique_key_step();
            let mut j: usize = 0;
            proof {
                lemma_try_fold_start(seen.1, owned, unique_step);
            }
            while j < entries.len()
                invariant
                    j <= entries@.len(),
                    owned == views(entries@),
                    unique_step == unique_key_step(),
                    try_fold(seen.1, owned.subrange(0, j as int), unique_step) == Ok::<
                        Set<Path>,
                        RowCodecError,
                    >(key_set(unique.order())),
                    try_fold(seen.1, owned, unique_step) matches Err(error) ==> rows_joined(
                        self@.rules,
                        self@.rows,
                    ) == Err::<(Set<Path>, Set<Path>), RowCodecError>(error),
                decreases entries.len() - j,
            {
                proof {
                    lemma_try_fold_step(seen.1, owned, j as int, unique_step);
                    assert(owned[j as int] == entries@[j as int]@);
                    if try_fold(seen.1, owned.subrange(0, j as int + 1), unique_step) is Err {
                        lemma_try_fold_stop(seen.1, owned, j as int + 1, unique_step);
                    }
                }
                let (more, fresh) = register(unique, entries[j].key.clone());
                unique = more;
                if !fresh {
                    return Err(RowCodecError::DuplicateUniqueKey);
                }
                j += 1;
            }
            proof {
                lemma_try_fold_start(seen.1, owned, unique_step);
            }
            if let Err(error) = self.rules.foreign_references(row) {
                return Err(error);
            }
            i += 1;
        }
        proof {
            lemma_try_fold_start(start, view, step);
        }
        Ok(())
    }

    /// Refuse rows that cannot stand together under the rules.
    pub fn validate_structure(&self) -> (r: Result<(), RowCodecError>)
        ensures
            r == refused(row_set_fault(self@)),
    {
        if let Err(error) = self.rules.validate() {
            return Err(error);
        }
        if self.rows.len() == 0 {
            return Err(RowCodecError::InvalidRow);
        }
        let ghost view = views(self.rows@);
        let mut i: usize = 0;
        while i < self.rows.len()
            invariant
                i <= self.rows@.len(),
                self.rows@.len() > 0,
                view == views(self.rows@),
                rules_fault(self@.rules) is None,
                forall|j: int|
                    0 <= j < i ==> cell_columns((#[trigger] view[j]).values) == cell_columns(
                        view[0].values,
                    ),
            decreases self.rows.len() - i,
        {
            assert(view[0] == self.rows@[0]@);
            assert(view[i as int] == self.rows@[i as int]@);
            if !columns_agree(&self.rows[i], &self.rows[0]) {
                return Err(RowCodecError::InvalidRow);
            }
            i += 1;
        }
        assert(same_columns(self@.rows));
        self.check_rows()
    }

    /// Refuse decoded fields that make no row set.
    fn validate_decoded(&self) -> (r: Result<(), RowCodecError>)
        ensures
            r == refused(row_set_decode_fault(self@)),
    {
        if let Err(error) = self.rules.validate() {
            return Err(error);
        }
        if self.rows.len() == 0 {
            return Err(RowCodecError::MissingField(TAG_SET_ROW));
        }
        self.validate_structure()
    }

    /// What the rows own in UNIQUE indexes, in key order.
    pub fn index_entry_map(&self) -> (r: Result<OwnerMap, RowCodecError>)
        ensures
            order_outcome(r) == unique_map_of(self@),
            r matches Ok(map) ==> order_in(map.order(), TargetFamily::UniqueOwner),
    {
        let ghost start = Seq::<EntryView>::empty();
        let ghost view = views(self.rows@);
        let ghost step = unique_map_step(self@.rules);
        let mut map = OwnerMap::new();
        let mut i: usize = 0;
        proof {
            lemma_try_fold_start(start, view, step);
        }
        while i < self.rows.len()
            invariant
                i <= self.rows@.len(),
                view == views(self.rows@),
                step == unique_map_step(self@.rules),
                try_fold(start, view.subrange(0, i as int), step) == Ok::<
                    Seq<EntryView>,
                    RowCodecError,
                >(map.order()),
                unique_map_of(self@) == try_fold(start, view, step),
                order_in(map.order(), TargetFamily::UniqueOwner),
            decreases self.rows.len() - i,
        {
            proof {
                lemma_try_fold_step(start, view, i as int, step);
                assert(view[i as int] == self.rows@[i as int]@);
                if try_fold(start, view.subrange(0, i as int + 1), step) is Err {
                    lemma_try_fold_stop(start, view, i as int + 1, step);
                }
            }
            let entries = match self.rules.index_entries(&self.rows[i]) {
                Err(error) => {
                    return Err(error);
                },
                Ok(entries) => entries,
            };
            let ghost before = map.order();
            map = match place_all(map, entries.as_slice(), RowCodecError::DuplicateUniqueKey) {
                Err(error) => {
                    return Err(error);
                },
                Ok(map) => map,
            };
            proof {
                lemma_placed_in(
                    before,
                    views(entries@),
                    RowCodecError::DuplicateUniqueKey,
                    TargetFamily::UniqueOwner,
                );
            }
            i += 1;
        }
        proof {
            lemma_try_fold_start(start, view, step);
        }
        Ok(map)
    }

    /// The references of the rows, in key order.
    pub fn foreign_reference_map(&self) -> (r: Result<OwnerMap, RowCodecError>)
        ensures
            order_outcome(r) == reference_map_of(self@),
            r matches Ok(map) ==> order_in(map.order(), TargetFamily::ForeignReference),
    {
        let ghost start = Seq::<EntryView>::empty();
        let ghost view = views(self.rows@);
        let ghost step = reference_map_step(self@.rules);
        let mut map = OwnerMap::new();
        let mut i: usize = 0;
        proof {
            lemma_try_fold_start(start, view, step);
        }
        while i < self.rows.len()
            invariant
                i <= self.rows@.len(),
                view == views(self.rows@),
                step == reference_map_step(self@.rules),
                try_fold(start, view.subrange(0, i as int), step) == Ok::<
                    Seq<EntryView>,
                    RowCodecError,
                >(map.order()),
                reference_map_of(self@) == try_fold(start, view, step),
                order_in(map.order(), TargetFamily::ForeignReference),
            decreases self.rows.len() - i,
        {
            proof {
                lemma_try_fold_step(start, view, i as int, step);
                assert(view[i as int] == self.rows@[i as int]@);
                if try_fold(start, view.subrange(0, i as int + 1), step) is Err {
                    lemma_try_fold_stop(start, view, i as int + 1, step);
                }
            }
            let entries = match self.rules.foreign_references(&self.rows[i]) {
                Err(error) => {
                    return Err(error);
                },
                Ok(entries) => entries,
            };
            let ghost before = map.order();
            map = match place_all(map, entries.as_slice(), RowCodecError::InvalidRow) {
                Err(error) => {
                    return Err(error);
                },
                Ok(map) => map,
            };
            proof {
                lemma_placed_in(
                    before,
                    views(entries@),
                    RowCodecError::InvalidRow,
                    TargetFamily::ForeignReference,
                );
            }
            i += 1;
        }
        proof {
            lemma_try_fold_start(start, view, step);
        }
        Ok(map)
    }

    /// The prefixes above every reference to the rows, in key order.
    pub fn incoming_reference_prefix_set(&self) -> (r: Result<OwnerMap, RowCodecError>)
        ensures
            order_outcome(r) == incoming_set_of(self@),
            r matches Ok(map) ==> order_in(map.order(), TargetFamily::ForeignReference),
    {
        let ghost start = Seq::<EntryView>::empty();
        let ghost view = views(self.rows@);
        let ghost step = incoming_set_step(self@.rules);
        let mut map = OwnerMap::new();
        let mut i: usize = 0;
        proof {
            lemma_try_fold_start(start, view, step);
        }
        while i < self.rows.len()
            invariant
                i <= self.rows@.len(),
                view == views(self.rows@),
                step == incoming_set_step(self@.rules),
                try_fold(start, view.subrange(0, i as int), step) == Ok::<
                    Seq<EntryView>,
                    RowCodecError,
                >(map.order()),
                incoming_set_of(self@) == try_fold(start, view, step),
                order_in(map.order(), TargetFamily::ForeignReference),
            decreases self.rows.len() - i,
        {
            proof {
                lemma_try_fold_step(start, view, i as int, step);
                assert(view[i as int] == self.rows@[i as int]@);
                if try_fold(start, view.subrange(0, i as int + 1), step) is Err {
                    lemma_try_fold_stop(start, view, i as int + 1, step);
                }
            }
            let keys = match self.rules.incoming_reference_prefixes(&self.rows[i]) {
                Err(error) => {
                    return Err(error);
                },
                Ok(keys) => keys,
            };
            let ghost prefixes = paths(keys@);
            let ghost before = map.order();
            let mut j: usize = 0;
            assert(prefixes.subrange(0, 0) =~= Seq::<Path>::empty());
            while j < keys.len()
                invariant
                    j <= keys@.len(),
                    prefixes == paths(keys@),
                    map.order() == prefixes_added(before, prefixes.subrange(0, j as int)),
                    order_in(map.order(), TargetFamily::ForeignReference),
                    forall|n: int|
                        0 <= n < keys@.len() ==> classified((#[trigger] keys@[n])@) == Some(
                            TargetFamily::ForeignReference,
                        ),
                decreases keys.len() - j,
            {
                let entry = IndexEntry { key: keys[j].clone(), value: Vec::new() };
                proof {
                    assert(entry@ =~= (EntryView { key: prefixes[j as int], value: Seq::empty() }));
                    assert(prefixes.subrange(0, j as int + 1).drop_last() =~= prefixes.subrange(
                        0,
                        j as int,
                    ));
                    lemma_place_in(map.order(), entry@, TargetFamily::ForeignReference);
                }
                let (more, _) = map.insert(entry);
                map = more;
                j += 1;
            }
            assert(prefixes.subrange(0, j as int) =~= prefixes);
            i += 1;
        }
        proof {
            lemma_try_fold_start(start, view, step);
        }
        Ok(map)
    }

    /// The values of a row's primary key.
    pub fn primary_values<'a>(&self, row: &'a Row) -> (r: Result<Vec<&'a StoredValue>, Error>)
        ensures
            match r {
                Ok(values) => values@.len() == self@.rules.key_parts.len() && forall|i: int|
                    0 <= i < values@.len() ==> row@.value(
                        (#[trigger] self@.rules.key_parts[i]).column,
                    ) == Some(values@[i]@),
                Err(error) => error == Error::InvalidDatabase(
                    "pending row is missing a primary-key value",
                ) && exists|i: int|
                    0 <= i < self@.rules.key_parts.len() && row@.value(
                        (#[trigger] self@.rules.key_parts[i]).column,
                    ) is None,
            },
    {
        self.rules.primary_values(row)
    }
}

impl RowRules {
    /// The values of a row's primary key.
    pub fn primary_values<'a>(&self, row: &'a Row) -> (r: Result<Vec<&'a StoredValue>, Error>)
        ensures
            match r {
                Ok(values) => values@.len() == self@.key_parts.len() && forall|i: int|
                    0 <= i < values@.len() ==> row@.value((#[trigger] self@.key_parts[i]).column)
                        == Some(values@[i]@),
                Err(error) => error == Error::InvalidDatabase(
                    "pending row is missing a primary-key value",
                ) && exists|i: int|
                    0 <= i < self@.key_parts.len() && row@.value(
                        (#[trigger] self@.key_parts[i]).column,
                    ) is None,
            },
    {
        let mut values: Vec<&'a StoredValue> = Vec::new();
        let mut i: usize = 0;
        while i < self.key_parts.len()
            invariant
                i <= self.key_parts@.len(),
                values@.len() == i,
                forall|j: int|
                    0 <= j < i ==> row@.value((#[trigger] self@.key_parts[j]).column) == Some(
                        values@[j]@,
                    ),
            decreases self.key_parts.len() - i,
        {
            assert(self@.key_parts[i as int] == self.key_parts@[i as int]@);
            match row.value(self.key_parts[i].column) {
                Some(value) => {
                    values.push(value);
                },
                None => {
                    return Err(
                        Error::InvalidDatabase("pending row is missing a primary-key value"),
                    );
                },
            }
            i += 1;
        }
        Ok(values)
    }

    /// The rules with rows under them.
    pub fn with_rows(&self, rows: Vec<Row>) -> (r: RowSet)
        ensures
            r@ == (RowSetView { rules: self@, rows: views(rows@) }),
    {
        RowSet { rules: self.clone(), rows }
    }
}

/// Whether every key of ordered entries lies in a family.
pub open spec fn order_in(order: Seq<EntryView>, family: TargetFamily) -> bool {
    forall|i: int| 0 <= i < order.len() ==> classified((#[trigger] order[i]).key) == Some(family)
}

/// A placed entry of a family keeps the others in it.
pub proof fn lemma_place_in(order: Seq<EntryView>, entry: EntryView, family: TargetFamily)
    requires
        order_in(order, family),
        classified(entry.key) == Some(family),
    ensures
        order_in(placed(order, entry), family),
{
    lemma_rank_bound(order, entry.key);
    let n = rank(order, entry.key) as int;
    let more = placed(order, entry);
    assert forall|i: int| 0 <= i < more.len() implies classified((#[trigger] more[i]).key) == Some(
        family,
    ) by {
        if i < n {
            assert(more[i] == order[i]);
        } else if i > n {
            assert(more[i] == order[i - 1]);
        }
    }
}

/// Placed entries of a family keep the others in it.
pub proof fn lemma_placed_in(
    order: Seq<EntryView>,
    entries: Seq<EntryView>,
    duplicate: RowCodecError,
    family: TargetFamily,
)
    requires
        order_in(order, family),
        order_in(entries, family),
    ensures
        try_fold(order, entries, place_step(duplicate)) matches Ok(more) ==> order_in(more, family),
    decreases entries.len(),
{
    if entries.len() > 0 {
        let init = entries.drop_last();
        assert forall|i: int| 0 <= i < init.len() implies classified((#[trigger] init[i]).key)
            == Some(family) by {
            assert(init[i] == entries[i]);
        }
        lemma_placed_in(order, init, duplicate, family);
        if let Ok(before) = try_fold(order, init, place_step(duplicate)) {
            assert(classified(entries[entries.len() - 1].key) == Some(family));
            lemma_place_in(before, entries.last(), family);
        }
    }
}

/// The fields of the frame of a row set.
pub open spec fn row_set_fields(x: RowSetView) -> Seq<(u8, Seq<u8>)> {
    let none = Seq::<(u8, Seq<u8>)>::empty();
    let f1 = none.push((TAG_SET_TABLE, x.rules.table));
    let f2 = f1.push((TAG_SET_SCHEMA_REVISION, x.rules.schema_revision));
    let f3 = f2.push((TAG_SET_PRIMARY_INDEX, x.rules.primary_index));
    let f4 = f3.push((TAG_SET_TABLE_STORAGE, seq![x.rules.storage.code()]));
    let f5 = f4 + key_part_list(TAG_SET_KEY_PART, x.rules.key_parts);
    let f6 = f5 + index_rules_list(TAG_SET_INDEX_RULES, x.rules.indexes);
    let f7 = f6 + foreign_key_list(TAG_SET_FOREIGN_KEY, x.rules.foreign_keys);
    let f8 = f7 + incoming_list(TAG_SET_INCOMING_FOREIGN_KEY, x.rules.incoming_foreign_keys);
    let f9 = f8 + row_list(TAG_SET_ROW, x.rows);
    f9
}

/// The frame of a row set.
#[verifier::opaque]
pub open spec fn row_set_frame(x: RowSetView) -> Seq<u8> {
    seq![ROW_SET_FRAME_VERSION] + fields_bytes(row_set_fields(x))
}

/// Whether every field of the frame has a length that a `u32` holds.
pub open spec fn row_set_fits(x: RowSetView) -> bool {
    &&& forall|i: int| 0 <= i < x.rules.indexes.len() ==> fits(index_rules_frame(#[trigger] x.rules.indexes[i]))
    &&& forall|i: int| 0 <= i < x.rules.foreign_keys.len() ==> fits(foreign_key_frame(#[trigger] x.rules.foreign_keys[i]))
    &&& forall|i: int| 0 <= i < x.rules.incoming_foreign_keys.len() ==> fits(incoming_frame(#[trigger] x.rules.incoming_foreign_keys[i]))
    &&& forall|i: int| 0 <= i < x.rows.len() ==> row_fits(#[trigger] x.rows[i]) && fits(row_frame(x.rows[i]))
}

impl RowSet {
    /// Encode the frame.
    pub fn encode(&self) -> (r: Vec<u8>)
        requires
            row_set_fits(self@),
        ensures
            r@ == row_set_frame(self@),
    {
        assert(self@.rules.key_parts == views(self.rules.key_parts@));
        assert(self@.rules.indexes == views(self.rules.indexes@));
        assert(self@.rules.foreign_keys == views(self.rules.foreign_keys@));
        assert(self@.rules.incoming_foreign_keys == views(self.rules.incoming_foreign_keys@));
        assert(self@.rows == views(self.rows@));
        let w = FrameWriter::versioned(ROW_SET_FRAME_VERSION);
        let table = copy_bytes(&self.rules.table.as_bytes());
        let w = w.field(TAG_SET_TABLE, table.as_slice());
        let schema_revision = copy_bytes(&self.rules.schema_revision.as_bytes());
        let w = w.field(TAG_SET_SCHEMA_REVISION, schema_revision.as_slice());
        let primary_index = copy_bytes(&self.rules.primary_index.as_bytes());
        let w = w.field(TAG_SET_PRIMARY_INDEX, primary_index.as_slice());
        let storage = one_byte(self.rules.storage.to_u8());
        let w = w.field(TAG_SET_TABLE_STORAGE, storage.as_slice());
        let w = write_key_parts(w, TAG_SET_KEY_PART, &self.rules.key_parts);
        let w = write_index_rules_list(w, TAG_SET_INDEX_RULES, &self.rules.indexes);
        let w = write_foreign_keys(w, TAG_SET_FOREIGN_KEY, &self.rules.foreign_keys);
        let w = write_incoming_keys(w, TAG_SET_INCOMING_FOREIGN_KEY, &self.rules.incoming_foreign_keys);
        let w = write_rows(w, TAG_SET_ROW, &self.rows);
        assert(w.fields() =~= row_set_fields(self@));
        reveal(row_set_frame);
        w.finish()
    }
}

/// What is known of a row set after some of its fields.
#[verifier::ext_equal]
pub struct RowSetState {
    pub table: Option<Seq<u8>>,
    pub schema_revision: Option<Seq<u8>>,
    pub primary_index: Option<Seq<u8>>,
    pub storage: Option<TableStorage>,
    pub key_parts: Seq<KeyPartView>,
    pub indexes: Seq<IndexView>,
    pub foreign_keys: Seq<ForeignKeyView>,
    pub incoming_foreign_keys: Seq<IncomingView>,
    pub rows: Seq<RowView>,
}

/// Nothing is known before the first field.
pub open spec fn row_set_start() -> RowSetState {
    RowSetState {
        table: None,
        schema_revision: None,
        primary_index: None,
        storage: None,
        key_parts: Seq::empty(),
        indexes: Seq::empty(),
        foreign_keys: Seq::empty(),
        incoming_foreign_keys: Seq::empty(),
        rows: Seq::empty(),
    }
}

/// What one field adds.
pub open spec fn row_set_step(s: RowSetState, tag: u8, payload: Seq<u8>) -> Result<RowSetState, RowCodecError> {
    if tag == TAG_SET_TABLE {
        match filled(s.table, uuid_field(payload), RowCodecError::DuplicateField) {
            Err(error) => Err(error),
            Ok(table) => Ok(RowSetState { table, ..s }),
        }
    } else if tag == TAG_SET_SCHEMA_REVISION {
        match filled(s.schema_revision, uuid_field(payload), RowCodecError::DuplicateField) {
            Err(error) => Err(error),
            Ok(schema_revision) => Ok(RowSetState { schema_revision, ..s }),
        }
    } else if tag == TAG_SET_PRIMARY_INDEX {
        match filled(s.primary_index, uuid_field(payload), RowCodecError::DuplicateField) {
            Err(error) => Err(error),
            Ok(primary_index) => Ok(RowSetState { primary_index, ..s }),
        }
    } else if tag == TAG_SET_TABLE_STORAGE {
        match filled(s.storage, table_storage_field(payload), RowCodecError::DuplicateField) {
            Err(error) => Err(error),
            Ok(storage) => Ok(RowSetState { storage, ..s }),
        }
    } else if tag == TAG_SET_KEY_PART {
        match grown(s.key_parts, key_part_decoded(payload)) {
            Err(error) => Err(error),
            Ok(key_parts) => Ok(RowSetState { key_parts, ..s }),
        }
    } else if tag == TAG_SET_INDEX_RULES {
        match grown(s.indexes, index_rules_decoded(payload)) {
            Err(error) => Err(error),
            Ok(indexes) => Ok(RowSetState { indexes, ..s }),
        }
    } else if tag == TAG_SET_FOREIGN_KEY {
        match grown(s.foreign_keys, foreign_key_decoded(payload)) {
            Err(error) => Err(error),
            Ok(foreign_keys) => Ok(RowSetState { foreign_keys, ..s }),
        }
    } else if tag == TAG_SET_INCOMING_FOREIGN_KEY {
        match grown(s.incoming_foreign_keys, incoming_decoded(payload)) {
            Err(error) => Err(error),
            Ok(incoming_foreign_keys) => Ok(RowSetState { incoming_foreign_keys, ..s }),
        }
    } else if tag == TAG_SET_ROW {
        match grown(s.rows, row_decoded(payload)) {
            Err(error) => Err(error),
            Ok(rows) => Ok(RowSetState { rows, ..s }),
        }
    } else {
        Ok(s)
    }
}

/// [`row_set_step`] as a value.
pub open spec fn row_set_steps() -> spec_fn(RowSetState, u8, Seq<u8>) -> Result<RowSetState, RowCodecError> {
    |s: RowSetState, tag: u8, payload: Seq<u8>| row_set_step(s, tag, payload)
}

/// The row set that the fields describe.
pub open spec fn row_set_finish(s: RowSetState) -> Result<RowSetView, RowCodecError> {
    if s.table is None {
        Err(RowCodecError::MissingField(TAG_SET_TABLE))
    } else if s.schema_revision is None {
        Err(RowCodecError::MissingField(TAG_SET_SCHEMA_REVISION))
    } else if s.primary_index is None {
        Err(RowCodecError::MissingField(TAG_SET_PRIMARY_INDEX))
    } else if s.storage is None {
        Err(RowCodecError::MissingField(TAG_SET_TABLE_STORAGE))
    } else {
        let x = RowSetView {
            rules: RulesView {
                table: s.table->Some_0,
                schema_revision: s.schema_revision->Some_0,
                primary_index: s.primary_index->Some_0,
                storage: s.storage->Some_0,
                key_parts: s.key_parts,
                indexes: s.indexes,
                foreign_keys: s.foreign_keys,
                incoming_foreign_keys: s.incoming_foreign_keys,
            },
            rows: s.rows,
        };
        match row_set_decode_fault(x) {
            Some(error) => Err(error),
            None => Ok(x),
        }
    }
}

/// What decoding a frame gives.
#[verifier::opaque]
pub open spec fn row_set_decoded(b: Seq<u8>) -> Result<RowSetView, RowCodecError> {
    if b.len() == 0 || b[0] != ROW_SET_FRAME_VERSION {
        Err(RowCodecError::UnknownVersion)
    } else {
        match run_fields(row_set_start(), b.subrange(1, b.len() as int), row_set_steps(), RowCodecError::Truncated) {
            Err(error) => Err(error),
            Ok(s) => row_set_finish(s),
        }
    }
}

impl RowSet {
    /// Decode one complete frame.
    pub fn decode(frame: &[u8]) -> (r: Result<RowSet, RowCodecError>)
        ensures
            outcome(r) == row_set_decoded(frame@),
    {
        broadcast use lemma_views_push;
        reveal(row_set_decoded);
        let mut reader = Reader::new(frame);
        if reader.u8() != Some(ROW_SET_FRAME_VERSION) {
            return Err(RowCodecError::UnknownVersion);
        }
        let mut table: Option<TableId> = None;
        let mut schema_revision: Option<SchemaRevisionId> = None;
        let mut primary_index: Option<IndexId> = None;
        let mut storage: Option<TableStorage> = None;
        let mut key_parts: Vec<KeyPartRules> = Vec::new();
        let mut indexes: Vec<IndexRules> = Vec::new();
        let mut foreign_keys: Vec<ForeignKeyRules> = Vec::new();
        let mut incoming_foreign_keys: Vec<IncomingForeignKeyRules> = Vec::new();
        let mut rows: Vec<Row> = Vec::new();
        let ghost mut state = row_set_start();
        assert(views(key_parts@) =~= Seq::<KeyPartView>::empty());
        assert(views(indexes@) =~= Seq::<IndexView>::empty());
        assert(views(foreign_keys@) =~= Seq::<ForeignKeyView>::empty());
        assert(views(incoming_foreign_keys@) =~= Seq::<IncomingView>::empty());
        assert(views(rows@) =~= Seq::<RowView>::empty());
        while !reader.is_empty()
            invariant
                state == (RowSetState {
                    table: view_of(table),
                    schema_revision: view_of(schema_revision),
                    primary_index: view_of(primary_index),
                    storage: storage,
                    key_parts: views(key_parts@),
                    indexes: views(indexes@),
                    foreign_keys: views(foreign_keys@),
                    incoming_foreign_keys: views(incoming_foreign_keys@),
                    rows: views(rows@),
                }),
                row_set_decoded(frame@) == (match run_fields(
                    state,
                    reader.remaining(),
                    row_set_steps(),
                    RowCodecError::Truncated,
                ) {
                    Err(error) => Err(error),
                    Ok(s) => row_set_finish(s),
                }),
            decreases reader.remaining().len(),
        {
            let (tag, payload) = match reader.field() {
                Ok(Some(field)) => field,
                _ => {
                    return Err(RowCodecError::Truncated);
                },
            };
            let ghost next = row_set_step(state, tag, payload@);
            assert(row_set_steps()(state, tag, payload@) == next);
            if tag == TAG_SET_TABLE {
                match read_uuid(payload) {
                    Err(error) => {
                        return Err(error);
                    },
                    Ok(found) => {
                        if table.is_some() {
                            return Err(RowCodecError::DuplicateField);
                        }
                        table = Some(TableId(found));
                    },
                }
            } else if tag == TAG_SET_SCHEMA_REVISION {
                match read_uuid(payload) {
                    Err(error) => {
                        return Err(error);
                    },
                    Ok(found) => {
                        if schema_revision.is_some() {
                            return Err(RowCodecError::DuplicateField);
                        }
                        schema_revision = Some(SchemaRevisionId(found));
                    },
                }
            } else if tag == TAG_SET_PRIMARY_INDEX {
                match read_uuid(payload) {
                    Err(error) => {
                        return Err(error);
                    },
                    Ok(found) => {
                        if primary_index.is_some() {
                            return Err(RowCodecError::DuplicateField);
                        }
                        primary_index = Some(IndexId(found));
                    },
                }
            } else if tag == TAG_SET_TABLE_STORAGE {
                match read_table_storage(payload) {
                    Err(error) => {
                        return Err(error);
                    },
                    Ok(found) => {
                        if storage.is_some() {
                            return Err(RowCodecError::DuplicateField);
                        }
                        storage = Some(found);
                    },
                }
            } else if tag == TAG_SET_KEY_PART {
                match KeyPartRules::decode(payload) {
                    Err(error) => {
                        return Err(error);
                    },
                    Ok(found) => {
                        key_parts.push(found);
                    },
                }
            } else if tag == TAG_SET_INDEX_RULES {
                match IndexRules::decode(payload) {
                    Err(error) => {
                        return Err(error);
                    },
                    Ok(found) => {
                        indexes.push(found);
                    },
                }
            } else if tag == TAG_SET_FOREIGN_KEY {
                match ForeignKeyRules::decode(payload) {
                    Err(error) => {
                        return Err(error);
                    },
                    Ok(found) => {
                        foreign_keys.push(found);
                    },
                }
            } else if tag == TAG_SET_INCOMING_FOREIGN_KEY {
                match IncomingForeignKeyRules::decode(payload) {
                    Err(error) => {
                        return Err(error);
                    },
                    Ok(found) => {
                        incoming_foreign_keys.push(found);
                    },
                }
            } else if tag == TAG_SET_ROW {
                match Row::decode(payload) {
                    Err(error) => {
                        return Err(error);
                    },
                    Ok(found) => {
                        rows.push(found);
                    },
                }
            }
            proof {
                state = next->Ok_0;
            }
        }
        let table = match table {
            Some(found) => found,
            None => {
                return Err(RowCodecError::MissingField(TAG_SET_TABLE));
            },
        };
        let schema_revision = match schema_revision {
            Some(found) => found,
            None => {
                return Err(RowCodecError::MissingField(TAG_SET_SCHEMA_REVISION));
            },
        };
        let primary_index = match primary_index {
            Some(found) => found,
            None => {
                return Err(RowCodecError::MissingField(TAG_SET_PRIMARY_INDEX));
            },
        };
        let storage = match storage {
            Some(found) => found,
            None => {
                return Err(RowCodecError::MissingField(TAG_SET_TABLE_STORAGE));
            },
        };
        let r = RowSet {
            rules: RowRules {
                table,
                schema_revision,
                primary_index,
                storage,
                key_parts,
                indexes,
                foreign_keys,
                incoming_foreign_keys,
            },
            rows,
        };
        if let Err(error) = r.validate_decoded() {
            return Err(error);
        }
        assert(r@ == row_set_finish(state)->Ok_0);
        Ok(r)
    }
}

/// Whether a value is one that decoding can give.
pub open spec fn row_set_valid(x: RowSetView) -> bool {
    row_set_formed(x) && row_set_decode_fault(x) is None
}

/// Whether every part of a row set is one that decoding can give.
pub open spec fn row_set_formed(x: RowSetView) -> bool {
    &&& random_uuid(x.rules.table)
    &&& random_uuid(x.rules.schema_revision)
    &&& random_uuid(x.rules.primary_index)
    &&& forall|i: int| 0 <= i < x.rules.key_parts.len() ==> key_part_valid(#[trigger] x.rules.key_parts[i])
    &&& forall|i: int| 0 <= i < x.rules.indexes.len() ==> index_rules_valid(#[trigger] x.rules.indexes[i])
    &&& forall|i: int| 0 <= i < x.rules.foreign_keys.len() ==> foreign_key_valid(#[trigger] x.rules.foreign_keys[i])
    &&& forall|i: int| 0 <= i < x.rules.incoming_foreign_keys.len() ==> incoming_valid(#[trigger] x.rules.incoming_foreign_keys[i])
    &&& forall|i: int| 0 <= i < x.rows.len() ==> row_valid(#[trigger] x.rows[i])
}

/// Decoding the frame of a row set gives it back, or what is wrong with it.
pub proof fn row_set_reads(x: RowSetView)
    requires
        row_set_formed(x),
        row_set_fits(x),
    ensures
        row_set_decoded(row_set_frame(x)) == (match row_set_decode_fault(x) {
            Some(error) => Err(error),
            None => Ok(x),
        }),
{
    reveal(row_set_decoded);
    reveal(row_set_frame);
    let none = Seq::<(u8, Seq<u8>)>::empty();
    let f1 = none.push((TAG_SET_TABLE, x.rules.table));
    let f2 = f1.push((TAG_SET_SCHEMA_REVISION, x.rules.schema_revision));
    let f3 = f2.push((TAG_SET_PRIMARY_INDEX, x.rules.primary_index));
    let f4 = f3.push((TAG_SET_TABLE_STORAGE, seq![x.rules.storage.code()]));
    let f5 = f4 + key_part_list(TAG_SET_KEY_PART, x.rules.key_parts);
    let f6 = f5 + index_rules_list(TAG_SET_INDEX_RULES, x.rules.indexes);
    let f7 = f6 + foreign_key_list(TAG_SET_FOREIGN_KEY, x.rules.foreign_keys);
    let f8 = f7 + incoming_list(TAG_SET_INCOMING_FOREIGN_KEY, x.rules.incoming_foreign_keys);
    let f9 = f8 + row_list(TAG_SET_ROW, x.rows);
    let step = row_set_steps();
    let s0 = row_set_start();
    assert(fields_fit(none));
    let s1 = RowSetState { table: Some(x.rules.table), ..s0 };
    assert(fold_fields(s0, f1, step) == Ok::<RowSetState, RowCodecError>(s1) && fields_fit(f1)) by {
        lemma_fold_push(s0, none, TAG_SET_TABLE, x.rules.table, step);
        lemma_fit_push(none, TAG_SET_TABLE, x.rules.table);
        assert(step(s0, TAG_SET_TABLE, x.rules.table) == Ok::<RowSetState, RowCodecError>(s1));
    }
    let s2 = RowSetState { schema_revision: Some(x.rules.schema_revision), ..s1 };
    assert(fold_fields(s0, f2, step) == Ok::<RowSetState, RowCodecError>(s2) && fields_fit(f2)) by {
        lemma_fold_push(s0, f1, TAG_SET_SCHEMA_REVISION, x.rules.schema_revision, step);
        lemma_fit_push(f1, TAG_SET_SCHEMA_REVISION, x.rules.schema_revision);
        assert(step(s1, TAG_SET_SCHEMA_REVISION, x.rules.schema_revision) == Ok::<RowSetState, RowCodecError>(s2));
    }
    let s3 = RowSetState { primary_index: Some(x.rules.primary_index), ..s2 };
    assert(fold_fields(s0, f3, step) == Ok::<RowSetState, RowCodecError>(s3) && fields_fit(f3)) by {
        lemma_fold_push(s0, f2, TAG_SET_PRIMARY_INDEX, x.rules.primary_index, step);
        lemma_fit_push(f2, TAG_SET_PRIMARY_INDEX, x.rules.primary_index);
        assert(step(s2, TAG_SET_PRIMARY_INDEX, x.rules.primary_index) == Ok::<RowSetState, RowCodecError>(s3));
    }
    let s4 = RowSetState { storage: Some(x.rules.storage), ..s3 };
    assert(fold_fields(s0, f4, step) == Ok::<RowSetState, RowCodecError>(s4) && fields_fit(f4)) by {
        lemma_fold_push(s0, f3, TAG_SET_TABLE_STORAGE, seq![x.rules.storage.code()], step);
        lemma_fit_push(f3, TAG_SET_TABLE_STORAGE, seq![x.rules.storage.code()]);
        assert(step(s3, TAG_SET_TABLE_STORAGE, seq![x.rules.storage.code()]) == Ok::<RowSetState, RowCodecError>(s4));
    }
    let s5 = RowSetState { key_parts: x.rules.key_parts, ..s4 };
    assert(fold_fields(s0, f5, step) == Ok::<RowSetState, RowCodecError>(s5) && fields_fit(f5)) by {
        let states = |i: int| RowSetState { key_parts: x.rules.key_parts.subrange(0, i), ..s4 };
        let fields = key_part_list(TAG_SET_KEY_PART, x.rules.key_parts);
        assert forall|i: int| 0 <= i < fields.len() implies #[trigger] step(
            states(i),
            fields[i].0,
            fields[i].1,
        ) == Ok::<RowSetState, RowCodecError>(states(i + 1)) by {
            key_part_roundtrip(x.rules.key_parts[i]);
            assert(x.rules.key_parts.subrange(0, i).push(x.rules.key_parts[i]) =~= x.rules.key_parts.subrange(0, i + 1));
        }
        assert(states(0) =~= s4);
        lemma_fold_list(s0, f4, fields, states, step);
        assert(states(fields.len() as int) =~= s5);
        assert forall|i: int| 0 <= i < fields.len() implies fits((#[trigger] fields[i]).1) by {
            assert(key_part_valid(x.rules.key_parts[i]));
            lemma_key_part_len(x.rules.key_parts[i]);
        }
        lemma_fit_concat(f4, fields);
    }
    let s6 = RowSetState { indexes: x.rules.indexes, ..s5 };
    assert(fold_fields(s0, f6, step) == Ok::<RowSetState, RowCodecError>(s6) && fields_fit(f6)) by {
        let states = |i: int| RowSetState { indexes: x.rules.indexes.subrange(0, i), ..s5 };
        let fields = index_rules_list(TAG_SET_INDEX_RULES, x.rules.indexes);
        assert forall|i: int| 0 <= i < fields.len() implies #[trigger] step(
            states(i),
            fields[i].0,
            fields[i].1,
        ) == Ok::<RowSetState, RowCodecError>(states(i + 1)) by {
            index_rules_roundtrip(x.rules.indexes[i]);
            assert(x.rules.indexes.subrange(0, i).push(x.rules.indexes[i]) =~= x.rules.indexes.subrange(0, i + 1));
        }
        assert(states(0) =~= s5);
        lemma_fold_list(s0, f5, fields, states, step);
        assert(states(fields.len() as int) =~= s6);
        assert forall|i: int| 0 <= i < fields.len() implies fits((#[trigger] fields[i]).1) by {
            assert(index_rules_valid(x.rules.indexes[i]));
            let item = x.rules.indexes[i];
        }
        lemma_fit_concat(f5, fields);
    }
    let s7 = RowSetState { foreign_keys: x.rules.foreign_keys, ..s6 };
    assert(fold_fields(s0, f7, step) == Ok::<RowSetState, RowCodecError>(s7) && fields_fit(f7)) by {
        let states = |i: int| RowSetState { foreign_keys: x.rules.foreign_keys.subrange(0, i), ..s6 };
        let fields = foreign_key_list(TAG_SET_FOREIGN_KEY, x.rules.foreign_keys);
        assert forall|i: int| 0 <= i < fields.len() implies #[trigger] step(
            states(i),
            fields[i].0,
            fields[i].1,
        ) == Ok::<RowSetState, RowCodecError>(states(i + 1)) by {
            foreign_key_roundtrip(x.rules.foreign_keys[i]);
            assert(x.rules.foreign_keys.subrange(0, i).push(x.rules.foreign_keys[i]) =~= x.rules.foreign_keys.subrange(0, i + 1));
        }
        assert(states(0) =~= s6);
        lemma_fold_list(s0, f6, fields, states, step);
        assert(states(fields.len() as int) =~= s7);
        assert forall|i: int| 0 <= i < fields.len() implies fits((#[trigger] fields[i]).1) by {
            assert(foreign_key_valid(x.rules.foreign_keys[i]));
            let item = x.rules.foreign_keys[i];
        }
        lemma_fit_concat(f6, fields);
    }
    let s8 = RowSetState { incoming_foreign_keys: x.rules.incoming_foreign_keys, ..s7 };
    assert(fold_fields(s0, f8, step) == Ok::<RowSetState, RowCodecError>(s8) && fields_fit(f8)) by {
        let states = |i: int| RowSetState { incoming_foreign_keys: x.rules.incoming_foreign_keys.subrange(0, i), ..s7 };
        let fields = incoming_list(TAG_SET_INCOMING_FOREIGN_KEY, x.rules.incoming_foreign_keys);
        assert forall|i: int| 0 <= i < fields.len() implies #[trigger] step(
            states(i),
            fields[i].0,
            fields[i].1,
        ) == Ok::<RowSetState, RowCodecError>(states(i + 1)) by {
            incoming_roundtrip(x.rules.incoming_foreign_keys[i]);
            assert(x.rules.incoming_foreign_keys.subrange(0, i).push(x.rules.incoming_foreign_keys[i]) =~= x.rules.incoming_foreign_keys.subrange(0, i + 1));
        }
        assert(states(0) =~= s7);
        lemma_fold_list(s0, f7, fields, states, step);
        assert(states(fields.len() as int) =~= s8);
        assert forall|i: int| 0 <= i < fields.len() implies fits((#[trigger] fields[i]).1) by {
            assert(incoming_valid(x.rules.incoming_foreign_keys[i]));
            let item = x.rules.incoming_foreign_keys[i];
        }
        lemma_fit_concat(f7, fields);
    }
    let s9 = RowSetState { rows: x.rows, ..s8 };
    assert(fold_fields(s0, f9, step) == Ok::<RowSetState, RowCodecError>(s9) && fields_fit(f9)) by {
        let states = |i: int| RowSetState { rows: x.rows.subrange(0, i), ..s8 };
        let fields = row_list(TAG_SET_ROW, x.rows);
        assert forall|i: int| 0 <= i < fields.len() implies #[trigger] step(
            states(i),
            fields[i].0,
            fields[i].1,
        ) == Ok::<RowSetState, RowCodecError>(states(i + 1)) by {
            row_roundtrip(x.rows[i]);
            assert(x.rows.subrange(0, i).push(x.rows[i]) =~= x.rows.subrange(0, i + 1));
        }
        assert(states(0) =~= s8);
        lemma_fold_list(s0, f8, fields, states, step);
        assert(states(fields.len() as int) =~= s9);
        assert forall|i: int| 0 <= i < fields.len() implies fits((#[trigger] fields[i]).1) by {
            assert(row_valid(x.rows[i]));
            let item = x.rows[i];
        }
        lemma_fit_concat(f8, fields);
    }
    lemma_run_fold(s0, f9, step, RowCodecError::Truncated);
    assert(f9 == row_set_fields(x));
    let b = row_set_frame(x);
    assert(b.subrange(1, b.len() as int) =~= fields_bytes(f9));
    assert(row_set_finish(s9) == (match row_set_decode_fault(x) {
        Some(error) => Err::<RowSetView, RowCodecError>(error),
        None => Ok(x),
    }));
}

/// Decoding the frame of a row set gives it back.
pub proof fn row_set_roundtrip(x: RowSetView)
    requires
        row_set_valid(x),
        row_set_fits(x),
    ensures
        row_set_decoded(row_set_frame(x)) == Ok::<RowSetView, RowCodecError>(x),
{
    row_set_reads(x);
}

/// Rows that stand together have keys, and all of them were seen.
pub(crate) proof fn lemma_joined_keys(rules: RulesView, rows: Seq<RowView>, i: int)
    requires
        rows_joined(rules, rows) is Ok,
        0 <= i < rows.len(),
    ensures
        row_key_of(rules, rows[i]) is Ok,
        rows_joined(rules, rows)->Ok_0.0.contains(row_key_of(rules, rows[i])->Ok_0),
    decreases rows.len(),
{
    if i < rows.len() - 1 {
        lemma_joined_keys(rules, rows.drop_last(), i);
    }
}

/// The frame of a row set in which one row stands twice is refused for that row.
pub proof fn repeated_rows_are_refused(x: RowSetView, i: int)
    requires
        row_set_valid(x),
        row_set_fits(x),
        0 <= i < x.rows.len(),
    ensures
        row_set_decoded(row_set_frame(RowSetView { rows: x.rows.push(x.rows[i]), ..x })) == Err::<
            RowSetView,
            RowCodecError,
        >(RowCodecError::DuplicateRow),
{
    let twice = RowSetView { rows: x.rows.push(x.rows[i]), ..x };
    assert forall|j: int| 0 <= j < twice.rows.len() implies row_valid(#[trigger] twice.rows[j])
        && row_fits(twice.rows[j]) && fits(row_frame(twice.rows[j])) && cell_columns(
        twice.rows[j].values,
    ) == cell_columns(twice.rows[0].values) by {
        let k = if j < x.rows.len() {
            j
        } else {
            i
        };
        assert(twice.rows[j] == x.rows[k]);
        assert(twice.rows[0] == x.rows[0]);
    }
    row_set_reads(twice);
    lemma_joined_keys(x.rules, x.rows, i);
    assert(twice.rows.drop_last() =~= x.rows);
}

/// The bytes that known fields of a row set take.
pub open spec fn row_set_size(s: RowSetState) -> nat {
    let table: nat = match s.table {
        Some(value) => 5 + value.len(),
        None => 0,
    };
    let schema_revision: nat = match s.schema_revision {
        Some(value) => 5 + value.len(),
        None => 0,
    };
    let primary_index: nat = match s.primary_index {
        Some(value) => 5 + value.len(),
        None => 0,
    };
    let storage: nat = match s.storage {
        Some(value) => 5 + seq![value.code()].len(),
        None => 0,
    };
    let key_parts = fields_bytes(key_part_list(TAG_SET_KEY_PART, s.key_parts)).len();
    let indexes = fields_bytes(index_rules_list(TAG_SET_INDEX_RULES, s.indexes)).len();
    let foreign_keys = fields_bytes(foreign_key_list(TAG_SET_FOREIGN_KEY, s.foreign_keys)).len();
    let incoming_foreign_keys = fields_bytes(incoming_list(TAG_SET_INCOMING_FOREIGN_KEY, s.incoming_foreign_keys)).len();
    let rows = fields_bytes(row_list(TAG_SET_ROW, s.rows)).len();
    table + schema_revision + primary_index + storage + key_parts + indexes + foreign_keys + incoming_foreign_keys + rows
}

/// Whether known fields of a row set are sound and can be written again.
pub open spec fn row_set_sound(s: RowSetState) -> bool {
    &&& (s.table matches Some(value) ==> random_uuid(value) && fits(value))
    &&& (s.schema_revision matches Some(value) ==> random_uuid(value) && fits(value))
    &&& (s.primary_index matches Some(value) ==> random_uuid(value) && fits(value))
    &&& (s.storage matches Some(value) ==> fits(seq![value.code()]))
    &&& forall|i: int| 0 <= i < s.key_parts.len() ==> key_part_valid(#[trigger] s.key_parts[i]) && fits(key_part_frame(s.key_parts[i]))
    &&& forall|i: int| 0 <= i < s.indexes.len() ==> index_rules_valid(#[trigger] s.indexes[i]) && fits(index_rules_frame(s.indexes[i]))
    &&& forall|i: int| 0 <= i < s.foreign_keys.len() ==> foreign_key_valid(#[trigger] s.foreign_keys[i]) && fits(foreign_key_frame(s.foreign_keys[i]))
    &&& forall|i: int| 0 <= i < s.incoming_foreign_keys.len() ==> incoming_valid(#[trigger] s.incoming_foreign_keys[i]) && fits(incoming_frame(s.incoming_foreign_keys[i]))
    &&& forall|i: int| 0 <= i < s.rows.len() ==> row_valid(#[trigger] s.rows[i]) && fits(row_frame(s.rows[i])) && row_fits(s.rows[i])
}

/// One field adds no more than its own bytes.
proof fn lemma_row_set_step(s: RowSetState, tag: u8, payload: Seq<u8>)
    requires
        row_set_sound(s),
        fits(payload),
    ensures
        row_set_step(s, tag, payload) matches Ok(next) ==> row_set_sound(next) && row_set_size(next) <= row_set_size(
            s,
        ) + 5 + payload.len(),
{
    if let Ok(next) = row_set_step(s, tag, payload) {
        if tag == TAG_SET_TABLE {
        } else if tag == TAG_SET_SCHEMA_REVISION {
        } else if tag == TAG_SET_PRIMARY_INDEX {
        } else if tag == TAG_SET_TABLE_STORAGE {
        } else if tag == TAG_SET_KEY_PART {
            key_part_shrinks(payload);
            let found = key_part_decoded(payload)->Ok_0;
            assert(key_part_list(TAG_SET_KEY_PART, s.key_parts.push(found)) =~= key_part_list(TAG_SET_KEY_PART, s.key_parts).push(
                (TAG_SET_KEY_PART, key_part_frame(found)),
            ));
            lemma_fields_len(key_part_list(TAG_SET_KEY_PART, s.key_parts), TAG_SET_KEY_PART, key_part_frame(found));
        } else if tag == TAG_SET_INDEX_RULES {
            index_rules_shrinks(payload);
            let found = index_rules_decoded(payload)->Ok_0;
            assert(index_rules_list(TAG_SET_INDEX_RULES, s.indexes.push(found)) =~= index_rules_list(TAG_SET_INDEX_RULES, s.indexes).push(
                (TAG_SET_INDEX_RULES, index_rules_frame(found)),
            ));
            lemma_fields_len(index_rules_list(TAG_SET_INDEX_RULES, s.indexes), TAG_SET_INDEX_RULES, index_rules_frame(found));
        } else if tag == TAG_SET_FOREIGN_KEY {
            foreign_key_shrinks(payload);
            let found = foreign_key_decoded(payload)->Ok_0;
            assert(foreign_key_list(TAG_SET_FOREIGN_KEY, s.foreign_keys.push(found)) =~= foreign_key_list(TAG_SET_FOREIGN_KEY, s.foreign_keys).push(
                (TAG_SET_FOREIGN_KEY, foreign_key_frame(found)),
            ));
            lemma_fields_len(foreign_key_list(TAG_SET_FOREIGN_KEY, s.foreign_keys), TAG_SET_FOREIGN_KEY, foreign_key_frame(found));
        } else if tag == TAG_SET_INCOMING_FOREIGN_KEY {
            incoming_shrinks(payload);
            let found = incoming_decoded(payload)->Ok_0;
            assert(incoming_list(TAG_SET_INCOMING_FOREIGN_KEY, s.incoming_foreign_keys.push(found)) =~= incoming_list(TAG_SET_INCOMING_FOREIGN_KEY, s.incoming_foreign_keys).push(
                (TAG_SET_INCOMING_FOREIGN_KEY, incoming_frame(found)),
            ));
            lemma_fields_len(incoming_list(TAG_SET_INCOMING_FOREIGN_KEY, s.incoming_foreign_keys), TAG_SET_INCOMING_FOREIGN_KEY, incoming_frame(found));
        } else if tag == TAG_SET_ROW {
            row_shrinks(payload);
            let found = row_decoded(payload)->Ok_0;
            assert(row_list(TAG_SET_ROW, s.rows.push(found)) =~= row_list(TAG_SET_ROW, s.rows).push(
                (TAG_SET_ROW, row_frame(found)),
            ));
            lemma_fields_len(row_list(TAG_SET_ROW, s.rows), TAG_SET_ROW, row_frame(found));
        }
    }
}

/// What decoding gives is sound and takes no more bytes than it was read from.
pub proof fn row_set_shrinks(b: Seq<u8>)
    ensures
        row_set_decoded(b) matches Ok(x) ==> row_set_valid(x) && row_set_fits(x) && row_set_frame(x).len() <= b.len(),
{
    reveal(row_set_decoded);
    reveal(row_set_frame);
    if let Ok(x) = row_set_decoded(b) {
        let body = b.subrange(1, b.len() as int);
        let good = |s: RowSetState| row_set_sound(s);
        let size = |s: RowSetState| row_set_size(s);
        let step = row_set_steps();
        let s0 = row_set_start();
        let end = run_fields(s0, body, step, RowCodecError::Truncated)->Ok_0;
        assert forall|s: RowSetState, tag: u8, payload: Seq<u8>|
            good(s) && fits(payload) && (#[trigger] step(s, tag, payload)) is Ok implies good(
            step(s, tag, payload)->Ok_0,
        ) && size(step(s, tag, payload)->Ok_0) <= size(s) + 5 + payload.len() by {
            lemma_row_set_step(s, tag, payload);
        }
        lemma_run_bounded(s0, body, step, good, size, RowCodecError::Truncated);
        assert(row_set_sound(end));
        let none = Seq::<(u8, Seq<u8>)>::empty();
        assert(fields_bytes(none).len() == 0);
        let f1 = none.push((TAG_SET_TABLE, x.rules.table));
        lemma_fields_len(none, TAG_SET_TABLE, x.rules.table);
        let f2 = f1.push((TAG_SET_SCHEMA_REVISION, x.rules.schema_revision));
        lemma_fields_len(f1, TAG_SET_SCHEMA_REVISION, x.rules.schema_revision);
        let f3 = f2.push((TAG_SET_PRIMARY_INDEX, x.rules.primary_index));
        lemma_fields_len(f2, TAG_SET_PRIMARY_INDEX, x.rules.primary_index);
        let f4 = f3.push((TAG_SET_TABLE_STORAGE, seq![x.rules.storage.code()]));
        lemma_fields_len(f3, TAG_SET_TABLE_STORAGE, seq![x.rules.storage.code()]);
        let f5 = f4 + key_part_list(TAG_SET_KEY_PART, x.rules.key_parts);
        lemma_fields_concat(f4, key_part_list(TAG_SET_KEY_PART, x.rules.key_parts));
        let f6 = f5 + index_rules_list(TAG_SET_INDEX_RULES, x.rules.indexes);
        lemma_fields_concat(f5, index_rules_list(TAG_SET_INDEX_RULES, x.rules.indexes));
        let f7 = f6 + foreign_key_list(TAG_SET_FOREIGN_KEY, x.rules.foreign_keys);
        lemma_fields_concat(f6, foreign_key_list(TAG_SET_FOREIGN_KEY, x.rules.foreign_keys));
        let f8 = f7 + incoming_list(TAG_SET_INCOMING_FOREIGN_KEY, x.rules.incoming_foreign_keys);
        lemma_fields_concat(f7, incoming_list(TAG_SET_INCOMING_FOREIGN_KEY, x.rules.incoming_foreign_keys));
        let f9 = f8 + row_list(TAG_SET_ROW, x.rows);
        lemma_fields_concat(f8, row_list(TAG_SET_ROW, x.rows));
        assert(key_part_list(TAG_SET_KEY_PART, Seq::<KeyPartView>::empty()) =~= none);
        assert(index_rules_list(TAG_SET_INDEX_RULES, Seq::<IndexView>::empty()) =~= none);
        assert(foreign_key_list(TAG_SET_FOREIGN_KEY, Seq::<ForeignKeyView>::empty()) =~= none);
        assert(incoming_list(TAG_SET_INCOMING_FOREIGN_KEY, Seq::<IncomingView>::empty()) =~= none);
        assert(row_list(TAG_SET_ROW, Seq::<RowView>::empty()) =~= none);
        assert(f9 == row_set_fields(x));
        assert(row_set_size(s0) == 0);
        assert(fields_bytes(f9).len() == row_set_size(end));
    }
}

} // verus!
