//! What stored rows and the authority's cells say of each other.

use super::accept::rows_accepted;
use super::apply::disagrees;
use super::capture::{CapturedRow, CapturedRowView};
use super::cells::{decode_stored_row, row_fits, stored_image, Row, RowView};
use super::changes::{afters, befores, TableChanges, TableChangesView};
use super::derive::index_on;
use super::error::{row_error_text, RowCodecError};
use super::keys::{row_key_of, EntryView, IndexEntry};
use super::position::KeyIndex;
use super::owners::{owns, placed, OwnerMap};
use super::presence::set_lowered;
use super::rules::{IndexRules, RulesView};
use super::set::{row_set_fault, unique_map_of, RowSet, RowSetView};
use super::statement::column_texts;
use crate::attempt::{
    lemma_try_fold_start, lemma_try_fold_step, lemma_try_fold_stop, map_step, try_fold, try_map,
};
use crate::bytes::same_bytes;
use crate::catalog::{CatalogEntryView, CatalogSnapshot};
use crate::codec::views;
use crate::each::lemma_filter_push;
use crate::error::{refusal, verdict, Error, ErrorView, Result};
use crate::key::{mutations_view, Key, Mutation, MutationView, Path};
use crate::logical::lowering::mutations_of;
use crate::logical::schema::definition::{
    column_ids, definition_sound, known_columns, CreateTable, NamedIndex, NamedIndexView, TableView,
};
use crate::logical::schema::table::primary_ids;
use crate::logical::target::{classified, TargetFamily};
use crate::logical::types::TableStorage;
use crate::sqlite::{list_texts, listed};
use crate::text::joined;
use crate::value::{StoredValue, ValueView};
use vstd::prelude::*;
use vstd::string::*;

verus! {

/// One entry that a new index makes of rows that are there already.
#[derive(Debug, PartialEq, Eq)]
pub struct IndexBackfillEntry {
    pub key: Key,
    pub value: Vec<u8>,
}

impl View for IndexBackfillEntry {
    type V = EntryView;

    open spec fn view(&self) -> EntryView {
        EntryView { key: self.key@, value: self.value@ }
    }
}

/// The entries that a new index makes of captured rows.
pub open spec fn backfilled(
    tables: Seq<CatalogEntryView>,
    table: TableView,
    index: NamedIndexView,
    captured: Seq<CapturedRowView>,
) -> std::result::Result<Seq<EntryView>, ErrorView> {
    if !index.unique {
        Err(
            ErrorView::CaptureInvariant(
                "ordinary secondary indexes do not have Homebase entries"@,
            ),
        )
    } else if captured.len() == 0 {
        Ok(Seq::empty())
    } else {
        match rows_accepted(tables, captured) {
            Err(error) => Err(error),
            Ok(None) => Err(
                ErrorView::CaptureInvariant("index table is missing its schema catalog"@),
            ),
            Ok(Some(set)) => {
                let indexed = RowSetView {
                    rules: RulesView {
                        indexes: seq![index_on(table, index.index, index.columns)],
                        ..set.rules
                    },
                    rows: set.rows,
                };
                if let Some(error) = row_set_fault(indexed) {
                    Err(ErrorView::InvalidMultiliteOp(row_error_text(error)))
                } else {
                    match unique_map_of(indexed) {
                        Ok(entries) => Ok(entries),
                        Err(RowCodecError::DuplicateUniqueKey) => Err(
                            ErrorView::InvalidMultiliteOp(
                                "index backfill contains duplicate entries"@,
                            ),
                        ),
                        Err(error) => Err(ErrorView::InvalidMultiliteOp(row_error_text(error))),
                    }
                }
            },
        }
    }
}

/// The entries that a new index makes of the rows that are there.
pub fn backfill_unique_index(
    catalog: &CatalogSnapshot,
    created: &CreateTable,
    index: &NamedIndex,
    captured: &[CapturedRow],
) -> (r: Result<Vec<IndexBackfillEntry>>)
    requires
        known_columns(created@.columns, index@.columns),
    ensures
        crate::error::list_verdict(r) == backfilled(
            catalog@,
            created@,
            index@,
            views(captured@),
        ),
{
    if !index.unique {
        return Err(
            Error::CaptureInvariant("ordinary secondary indexes do not have Homebase entries"),
        );
    }
    let mut done: Vec<IndexBackfillEntry> = Vec::new();
    assert(views(done@) =~= Seq::<EntryView>::empty());
    assert(views(captured@).len() == captured@.len());
    if captured.len() == 0 {
        return Ok(done);
    }
    let set = match RowSet::from_catalog(catalog, captured) {
        Err(error) => {
            return Err(error);
        },
        Ok(None) => {
            return Err(Error::CaptureInvariant("index table is missing its schema catalog"));
        },
        Ok(Some(set)) => set,
    };
    proof {
        assert forall|i: int| 0 <= i < index.columns@.len() implies column_ids(
            created@.columns,
        ).contains((#[trigger] index.columns@[i])@) by {
            assert(index@.columns[i] == index.columns@[i]@);
        }
    }
    let rule = IndexRules {
        index: index.index,
        parts: created.index_parts(index.columns.as_slice()),
    };
    let mut set = set;
    let mut indexes: Vec<IndexRules> = Vec::new();
    indexes.push(rule);
    assert(views(indexes@) =~= seq![index_on(created@, index@.index, index@.columns)]);
    set.rules.indexes = indexes;
    if let Err(error) = set.validate_structure() {
        return Err(error.into_operation());
    }
    let map = match set.index_entry_map() {
        Err(RowCodecError::DuplicateUniqueKey) => {
            return Err(
                Error::InvalidMultiliteOp("index backfill contains duplicate entries".to_owned()),
            );
        },
        Err(error) => {
            return Err(error.into_operation());
        },
        Ok(map) => map,
    };
    let entries = map.entries();
    let mut i: usize = 0;
    while i < entries.len()
        invariant
            i <= entries@.len(),
            done@.len() == i,
            forall|j: int| 0 <= j < i ==> (#[trigger] done@[j])@ == entries@[j]@,
        decreases entries.len() - i,
    {
        done.push(
            IndexBackfillEntry {
                key: entries[i].key.clone(),
                value: crate::bytes::copy_bytes(entries[i].value.as_slice()),
            },
        );
        i += 1;
    }
    assert(views(done@) =~= views(entries@));
    Ok(done)
}

/// Whether an entry is exact: what a row owns or refers to.
pub open spec fn exact() -> spec_fn(EntryView) -> bool {
    |entry: EntryView|
        classified(entry.key) == Some(TargetFamily::UniqueOwner) || classified(entry.key) == Some(
            TargetFamily::ForeignReference,
        )
}

/// Whether an entry is a row.
pub open spec fn is_row() -> spec_fn(EntryView) -> bool {
    |entry: EntryView| classified(entry.key) == Some(TargetFamily::Row)
}

/// Why the authority's image of a row contradicts the stored one.
pub open spec fn row_cell_fault(expected: Seq<u8>, actual: Seq<u8>) -> Option<ErrorView> {
    match (stored_image(expected), stored_image(actual)) {
        (Err(_), _) => Some(ErrorView::CaptureInvariant("materialized row frame is malformed"@)),
        (_, Err(_)) => Some(ErrorView::CaptureInvariant("authority row frame is malformed"@)),
        (Ok(expected), Ok(actual)) => if disagrees(actual, expected) {
            Some(
                ErrorView::CaptureInvariant("authority row values diverge from materialized rows"@),
            )
        } else {
            None
        },
    }
}

/// The first contradiction among rows.
pub open spec fn row_cells_fault(expected: Seq<EntryView>, actual: Seq<EntryView>) -> Option<
    ErrorView,
>
    decreases expected.len(),
{
    if expected.len() == 0 {
        None
    } else {
        match row_cells_fault(expected.drop_last(), actual) {
            Some(error) => Some(error),
            None => row_cell_fault(
                expected.last().value,
                actual[expected.len() - 1].value,
            ),
        }
    }
}

/// The keys of entries.
pub open spec fn keys_of(entries: Seq<EntryView>) -> Seq<Path> {
    Seq::new(entries.len(), |i: int| entries[i].key)
}

/// Why the authority's cells contradict those of the stored rows.
pub open spec fn cells_fault(expected: Seq<EntryView>, actual: Seq<EntryView>) -> Option<
    ErrorView,
> {
    if expected.filter(exact()) != actual.filter(exact()) {
        Some(
            ErrorView::CaptureInvariant(
                "authority UNIQUE or foreign-reference cells diverge from materialized rows"@,
            ),
        )
    } else if keys_of(expected.filter(is_row())) != keys_of(actual.filter(is_row())) {
        Some(
            ErrorView::CaptureInvariant("authority row identities diverge from materialized rows"@),
        )
    } else {
        row_cells_fault(expected.filter(is_row()), actual.filter(is_row()))
    }
}

/// The entries of some kind.
fn select<'a, F: Fn(&IndexEntry) -> bool>(
    entries: &'a [IndexEntry],
    f: F,
    Ghost(test): Ghost<spec_fn(EntryView) -> bool>,
) -> (r: Vec<&'a IndexEntry>)
    requires
        forall|i: int| 0 <= i < entries@.len() ==> call_requires(f, (&#[trigger] entries@[i],)),
        forall|i: int, r: bool|
            0 <= i < entries@.len() && #[trigger] call_ensures(f, (&entries@[i],), r) ==> r
                == test(entries@[i]@),
    ensures
        views(r@) == views(entries@).filter(test),
{
    let ghost all = views(entries@);
    let mut r: Vec<&'a IndexEntry> = Vec::new();
    let mut i: usize = 0;
    proof {
        reveal(Seq::filter);
        assert(all.subrange(0, 0) =~= Seq::<EntryView>::empty());
        assert(views(r@) =~= all.subrange(0, 0).filter(test));
    }
    while i < entries.len()
        invariant
            i <= entries@.len(),
            all == views(entries@),
            views(r@) == all.subrange(0, i as int).filter(test),
            forall|i: int|
                0 <= i < entries@.len() ==> call_requires(f, (&#[trigger] entries@[i],)),
            forall|i: int, r: bool|
                0 <= i < entries@.len() && #[trigger] call_ensures(f, (&entries@[i],), r) ==> r
                    == test(entries@[i]@),
        decreases entries.len() - i,
    {
        let entry = &entries[i];
        let found = f(entry);
        let ghost before = views(r@);
        proof {
            assert(call_ensures(f, (&entries@[i as int],), found));
            lemma_filter_push(all.subrange(0, i as int), entry@, test);
            assert(all.subrange(0, i as int).push(entry@) =~= all.subrange(0, i as int + 1));
        }
        if found {
            r.push(entry);
            assert(views(r@) =~= before.push(entry@));
        }
        i += 1;
    }
    assert(all.subrange(0, i as int) =~= all);
    r
}

/// Refuse cells of the authority that contradict those of the stored rows.
/// Values that a stored row does not have are not compared.
pub fn validate_materialized_cells(expected: &OwnerMap, actual: &OwnerMap) -> (r: Result<()>)
    ensures
        refusal(r) == cells_fault(expected.order(), actual.order()),
{
    let is_exact = |entry: &IndexEntry| -> (r: bool)
        ensures
            r == exact()(entry@),
        {
            match TargetFamily::classify(&entry.key) {
                Some(TargetFamily::UniqueOwner) | Some(TargetFamily::ForeignReference) => true,
                _ => false,
            }
        };
    let wanted = select(expected.entries(), is_exact, Ghost(exact()));
    let found = select(actual.entries(), is_exact, Ghost(exact()));
    if !same_entries(wanted.as_slice(), found.as_slice()) {
        return Err(
            Error::CaptureInvariant(
                "authority UNIQUE or foreign-reference cells diverge from materialized rows",
            ),
        );
    }
    let is_row_entry = |entry: &IndexEntry| -> (r: bool)
        ensures
            r == is_row()(entry@),
        {
            match TargetFamily::classify(&entry.key) {
                Some(TargetFamily::Row) => true,
                _ => false,
            }
        };
    let wanted = select(expected.entries(), is_row_entry, Ghost(is_row()));
    let found = select(actual.entries(), is_row_entry, Ghost(is_row()));
    let ghost a = views(wanted@);
    let ghost b = views(found@);
    if !same_keys(wanted.as_slice(), found.as_slice()) {
        return Err(
            Error::CaptureInvariant("authority row identities diverge from materialized rows"),
        );
    }
    proof {
        assert(keys_of(a).len() == keys_of(b).len());
    }
    let mut i: usize = 0;
    assert(a.subrange(0, 0) =~= Seq::<EntryView>::empty());
    while i < wanted.len()
        invariant
            i <= wanted@.len(),
            a == views(wanted@),
            b == views(found@),
            a.len() == b.len(),
            row_cells_fault(a.subrange(0, i as int), b) is None,
            a == expected.order().filter(is_row()),
            b == actual.order().filter(is_row()),
            expected.order().filter(exact()) == actual.order().filter(exact()),
            keys_of(a) == keys_of(b),
        decreases wanted.len() - i,
    {
        proof {
            assert(a[i as int] == wanted@[i as int]@ && b[i as int] == found@[i as int]@);
            assert(a.subrange(0, i as int + 1).drop_last() =~= a.subrange(0, i as int));
            if row_cells_fault(a.subrange(0, i as int + 1), b) is Some {
                lemma_row_cells(a, b, i as int + 1);
            }
        }
        let stored = match decode_stored_row(wanted[i].value.as_slice()) {
            Err(_) => {
                return Err(Error::CaptureInvariant("materialized row frame is malformed"));
            },
            Ok(row) => row,
        };
        let authority = match decode_stored_row(found[i].value.as_slice()) {
            Err(_) => {
                return Err(Error::CaptureInvariant("authority row frame is malformed"));
            },
            Ok(row) => row,
        };
        if authority.disagrees(&stored) {
            return Err(
                Error::CaptureInvariant("authority row values diverge from materialized rows"),
            );
        }
        i += 1;
    }
    assert(a.subrange(0, i as int) =~= a);
    Ok(())
}

/// A contradiction among the first rows is the first of all.
proof fn lemma_row_cells(expected: Seq<EntryView>, actual: Seq<EntryView>, i: int)
    requires
        0 <= i <= expected.len(),
        row_cells_fault(expected.subrange(0, i), actual) is Some,
    ensures
        row_cells_fault(expected, actual) == row_cells_fault(expected.subrange(0, i), actual),
    decreases expected.len() - i,
{
    if i == expected.len() {
        assert(expected.subrange(0, i) =~= expected);
    } else {
        assert(expected.subrange(0, i + 1).drop_last() =~= expected.subrange(0, i));
        lemma_row_cells(expected, actual, i + 1);
    }
}

/// Whether two lists of entries are equal.
fn same_entries(a: &[&IndexEntry], b: &[&IndexEntry]) -> (r: bool)
    ensures
        r == (views(a@) == views(b@)),
{
    assert(views(a@).len() == a@.len() && views(b@).len() == b@.len());
    if a.len() != b.len() {
        return false;
    }
    let mut i: usize = 0;
    while i < a.len()
        invariant
            i <= a@.len(),
            a@.len() == b@.len(),
            forall|j: int| 0 <= j < i ==> (#[trigger] a@[j])@ == b@[j]@,
        decreases a.len() - i,
    {
        if !a[i].key.same(&b[i].key) || !same_bytes(a[i].value.as_slice(), b[i].value.as_slice()) {
            assert(views(a@)[i as int] != views(b@)[i as int]);
            return false;
        }
        i += 1;
    }
    assert(views(a@) =~= views(b@));
    true
}

/// Whether two lists of entries have the same keys.
fn same_keys(a: &[&IndexEntry], b: &[&IndexEntry]) -> (r: bool)
    ensures
        r == (keys_of(views(a@)) == keys_of(views(b@))),
{
    assert(keys_of(views(a@)).len() == a@.len() && keys_of(views(b@)).len() == b@.len());
    if a.len() != b.len() {
        return false;
    }
    let mut i: usize = 0;
    while i < a.len()
        invariant
            i <= a@.len(),
            a@.len() == b@.len(),
            forall|j: int| 0 <= j < i ==> (#[trigger] a@[j])@.key == b@[j]@.key,
        decreases a.len() - i,
    {
        if !a[i].key.same(&b[i].key) {
            assert(keys_of(views(a@))[i as int] != keys_of(views(b@))[i as int]);
            return false;
        }
        i += 1;
    }
    assert(keys_of(views(a@)) =~= keys_of(views(b@)));
    true
}

/// The cells of a list of mutations that only set values: each joins the others,
/// unless its key is taken.
pub open spec fn cell_joined() -> spec_fn(Seq<EntryView>, MutationView) -> std::result::Result<
    Seq<EntryView>,
    ErrorView,
> {
    |done: Seq<EntryView>, mutation: MutationView|
        match mutation {
            MutationView::Put { key, value } => if owns(done, key) {
                Err(
                    ErrorView::CaptureInvariant(
                        "materialized rows produce duplicate authority cells"@,
                    ),
                )
            } else {
                Ok(placed(done, EntryView { key, value }))
            },
            _ => Err(
                ErrorView::CaptureInvariant(
                    "materialized rows lowered to a destructive mutation"@,
                ),
            ),
        }
}

/// The cells of one more row set.
pub open spec fn set_joined() -> spec_fn(Seq<EntryView>, RowSetView) -> std::result::Result<
    Seq<EntryView>,
    ErrorView,
> {
    |done: Seq<EntryView>, set: RowSetView|
        match set_lowered(set) {
            Err(error) => Err(error),
            Ok(emissions) => try_fold(done, mutations_of(emissions), cell_joined()),
        }
}

/// The cells that the authority should hold of the stored rows of every table.
pub open spec fn expected_cells(sets: Seq<RowSetView>) -> std::result::Result<
    Seq<EntryView>,
    ErrorView,
> {
    try_fold(Seq::<EntryView>::empty(), sets, set_joined())
}

/// What is left of a map's result.
pub open spec fn cells_verdict(r: Result<OwnerMap>) -> std::result::Result<
    Seq<EntryView>,
    ErrorView,
> {
    match r {
        Ok(map) => Ok(map.order()),
        Err(error) => Err(error@),
    }
}

/// Join the cells that mutations set.
fn join_cells(base: OwnerMap, mutations: &[Mutation]) -> (r: Result<OwnerMap>)
    ensures
        cells_verdict(r) == try_fold(base.order(), mutations_view(mutations@), cell_joined()),
{
    let ghost start = base.order();
    let ghost all = mutations_view(mutations@);
    let ghost step = cell_joined();
    let mut map = base;
    let mut i: usize = 0;
    proof {
        lemma_try_fold_start(start, all, step);
    }
    while i < mutations.len()
        invariant
            i <= mutations@.len(),
            start == base.order(),
            all == mutations_view(mutations@),
            step == cell_joined(),
            try_fold(start, all.subrange(0, i as int), step) == Ok::<Seq<EntryView>, ErrorView>(
                map.order(),
            ),
        decreases mutations.len() - i,
    {
        proof {
            assert(all[i as int] == mutations@[i as int]@);
            lemma_try_fold_step(start, all, i as int, step);
            if try_fold(start, all.subrange(0, i as int + 1), step) is Err {
                lemma_try_fold_stop(start, all, i as int + 1, step);
            }
        }
        match &mutations[i] {
            Mutation::Put { key, value } => {
                let entry = IndexEntry {
                    key: key.clone(),
                    value: crate::bytes::copy_bytes(value.as_slice()),
                };
                let (more, added) = map.insert(entry);
                map = more;
                if !added {
                    return Err(
                        Error::CaptureInvariant(
                            "materialized rows produce duplicate authority cells",
                        ),
                    );
                }
            },
            _ => {
                return Err(
                    Error::CaptureInvariant("materialized rows lowered to a destructive mutation"),
                );
            },
        }
        i += 1;
    }
    assert(all.subrange(0, i as int) =~= all);
    Ok(map)
}

/// The cells that the authority should hold of the stored rows of every table.
pub fn expected_materialized_cells(sets: &[RowSet]) -> (r: Result<OwnerMap>)
    requires
        forall|i: int, j: int|
            0 <= i < sets@.len() && 0 <= j < sets@[i]@.rows.len() ==> row_fits(
                #[trigger] sets@[i]@.rows[j],
            ),
    ensures
        cells_verdict(r) == expected_cells(views(sets@)),
{
    let ghost none = Seq::<EntryView>::empty();
    let ghost all = views(sets@);
    let ghost step = set_joined();
    let mut map = OwnerMap::new();
    let mut i: usize = 0;
    proof {
        lemma_try_fold_start(none, all, step);
    }
    while i < sets.len()
        invariant
            i <= sets@.len(),
            none == Seq::<EntryView>::empty(),
            all == views(sets@),
            step == set_joined(),
            try_fold(none, all.subrange(0, i as int), step) == Ok::<Seq<EntryView>, ErrorView>(
                map.order(),
            ),
            forall|i: int, j: int|
                0 <= i < sets@.len() && 0 <= j < sets@[i]@.rows.len() ==> row_fits(
                    #[trigger] sets@[i]@.rows[j],
                ),
        decreases sets.len() - i,
    {
        proof {
            assert(all[i as int] == sets@[i as int]@);
            lemma_try_fold_step(none, all, i as int, step);
            if try_fold(none, all.subrange(0, i as int + 1), step) is Err {
                lemma_try_fold_stop(none, all, i as int + 1, step);
            }
        }
        let set = &sets[i];
        match set.to_homebase() {
            Err(error) => {
                return Err(error);
            },
            Ok(op) => match join_cells(map, op.mutations.as_slice()) {
                Err(error) => {
                    return Err(error);
                },
                Ok(more) => {
                    map = more;
                },
            },
        }
        i += 1;
    }
    assert(all.subrange(0, i as int) =~= all);
    Ok(map)
}

/// The query that reads every row of a table.
pub open spec fn scan_query(tables: Seq<CatalogEntryView>, table: TableView) -> std::result::Result<
    Seq<char>,
    ErrorView,
> {
    match super::statement::table_text(tables, table.table) {
        Err(error) => Err(error),
        Ok(name) => match column_texts(tables, table.table, column_ids(table.columns)) {
            Err(error) => Err(error),
            Ok(columns) => Ok("SELECT "@ + listed(columns, ", "@) + " FROM "@ + name),
        },
    }
}

/// The rowid of a row that was read with its values: that of its INTEGER PRIMARY
/// KEY, and none where that is no integer. A table without rowids has none to
/// speak of, which is written as zero.
pub open spec fn scanned_rowid(table: TableView, values: Seq<ValueView>) -> Option<i64> {
    if table.storage == TableStorage::WithoutRowid {
        Some(0)
    } else {
        let at = column_ids(table.columns).index_of(primary_ids(table.columns)[0]);
        match values[at] {
            ValueView::Integer(rowid) => Some(rowid),
            _ => None,
        }
    }
}

/// The query that reads every row of a table.
pub fn table_scan(catalog: &CatalogSnapshot, created: &CreateTable) -> (r: Result<String>)
    ensures
        verdict(r) == scan_query(catalog@, created@),
{
    let name = match catalog.table_text(created.table) {
        Err(error) => {
            return Err(error);
        },
        Ok(name) => name,
    };
    let columns = created.column_ids();
    match catalog.column_texts(created.table, columns.as_slice()) {
        Err(error) => Err(error),
        Ok(names) => {
            let mut sql = joined("SELECT ", list_texts(names.as_slice(), ", ").as_str());
            sql.append(" FROM ");
            sql.append(name.as_str());
            Ok(sql)
        },
    }
}

/// The keys of rows.
pub open spec fn row_keys(rules: RulesView) -> spec_fn(RowView) -> std::result::Result<
    Path,
    ErrorView,
> {
    |row: RowView|
        match row_key_of(rules, row) {
            Err(error) => Err(ErrorView::InvalidMultiliteOp(row_error_text(error))),
            Ok(key) => Ok(key),
        }
}

/// Whether the key of a row is not among keys.
pub open spec fn gone(rules: RulesView, keys: Seq<Path>) -> spec_fn(RowView) -> bool {
    |row: RowView|
        row_key_of(rules, row) is Ok && !keys.contains(row_key_of(rules, row)->Ok_0)
}

/// The rows whose keys changes retire.
pub open spec fn retired(changes: TableChangesView) -> std::result::Result<
    Seq<RowView>,
    ErrorView,
> {
    match try_map(afters(changes.rows), row_keys(changes.rules)) {
        Err(error) => Err(error),
        Ok(keys) => Ok(befores(changes.rows).filter(gone(changes.rules, keys))),
    }
}

impl CreateTable {
    /// A row that was read with its values, as a captured one.
    pub fn scanned_row(&self, name: &str, values: Vec<StoredValue>) -> (r: Option<CapturedRow>)
        requires
            definition_sound(self@),
            values@.len() == self@.columns.len(),
        ensures
            match r {
                Some(row) => scanned_rowid(self@, views(values@)) == Some(row@.rowid)
                    && row@.table == name@ && row@.values == views(values@),
                None => scanned_rowid(self@, views(values@)) is None,
            },
    {
        let rowid: i64 = match self.storage {
            TableStorage::WithoutRowid => 0,
            TableStorage::Rowid => {
                let primary = self.primary_column_ids();
                assert(views(primary@).len() == primary@.len());
                assert(views(primary@)[0] == primary@[0]@);
                let columns = self.column_ids();
                let alias = primary[0];
                let ghost ids = views(columns@);
                proof {
                    super::derive::lemma_primary_known(self@);
                    assert(ids.contains(primary_ids(self@.columns)[0]));
                }
                let mut at: usize = 0;
                while at < columns.len() && !columns[at].same(&alias)
                    invariant
                        at <= columns@.len(),
                        ids == views(columns@),
                        forall|j: int| 0 <= j < at ==> ids[j] != alias@,
                    decreases columns.len() - at,
                {
                    assert(ids[at as int] == columns@[at as int]@);
                    at += 1;
                }
                proof {
                    let k = ids.index_of(alias@);
                    assert(ids[k] == alias@);
                    assert(at <= k);
                    assert(ids[at as int] == columns@[at as int]@);
                }
                assert(views(values@)[at as int] == values@[at as int]@);
                match &values[at] {
                    StoredValue::Integer(rowid) => *rowid,
                    _ => {
                        return None;
                    },
                }
            },
        };
        Some(CapturedRow { table: name.to_owned(), rowid, values })
    }
}

impl TableChanges {
    /// The rows whose keys the changes retire.
    pub fn retired_rows(&self) -> (r: Result<Vec<Row>>)
        ensures
            crate::error::list_verdict(r) == retired(self@),
    {
        let after = self.after_set();
        let ghost all = after@.rows;
        let ghost f = row_keys(self@.rules);
        let ghost none = Seq::<Path>::empty();
        let ghost mut keys = none;
        let mut live = KeyIndex::new();
        let mut i: usize = 0;
        proof {
            lemma_try_fold_start(none, all, map_step(f));
        }
        while i < after.rows.len()
            invariant
                i <= after.rows@.len(),
                all == after@.rows,
                all == views(after.rows@),
                all == afters(self@.rows),
                f == row_keys(self@.rules),
                none == Seq::<Path>::empty(),
                try_fold(none, all.subrange(0, i as int), map_step(f)) == Ok::<
                    Seq<Path>,
                    ErrorView,
                >(keys),
                forall|key: Path| #[trigger] live@.dom().contains(key) <==> keys.contains(key),
            decreases after.rows.len() - i,
        {
            proof {
                assert(all[i as int] == after.rows@[i as int]@);
                lemma_try_fold_step(none, all, i as int, map_step(f));
                if try_fold(none, all.subrange(0, i as int + 1), map_step(f)) is Err {
                    lemma_try_fold_stop(none, all, i as int + 1, map_step(f));
                }
            }
            match self.rules.row_key(&after.rows[i]) {
                Err(error) => {
                    return Err(error.into_operation());
                },
                Ok(key) => {
                    let ghost before = keys;
                    proof {
                        keys = keys.push(key@);
                        assert forall|k: Path| keys.contains(k) == (before.contains(k) || k
                            == key@) by {
                            assert(keys[before.len() as int] == key@);
                            if before.contains(k) {
                                let j = before.index_of(k);
                                assert(keys[j] == k);
                            }
                        }
                    }
                    live = live.insert(key, 0);
                },
            }
            i += 1;
        }
        assert(all.subrange(0, i as int) =~= all);
        let before = self.before_set();
        let rules = &self.rules;
        let mut rows: Vec<Row> = Vec::new();
        let ghost start = before@.rows;
        let ghost test = gone(self@.rules, keys);
        let mut i: usize = 0;
        proof {
            reveal(Seq::filter);
            assert(start.subrange(0, 0) =~= Seq::<RowView>::empty());
            assert(views(rows@) =~= start.subrange(0, 0).filter(test));
        }
        while i < before.rows.len()
            invariant
                i <= before.rows@.len(),
                start == views(before.rows@),
                rules@ == self@.rules,
                test == gone(self@.rules, keys),
                views(rows@) == start.subrange(0, i as int).filter(test),
                forall|key: Path| #[trigger] live@.dom().contains(key) <==> keys.contains(key),
            decreases before.rows.len() - i,
        {
            let row = &before.rows[i];
            let ghost had = views(rows@);
            proof {
                lemma_filter_push(start.subrange(0, i as int), row@, test);
                assert(start.subrange(0, i as int).push(row@) =~= start.subrange(
                    0,
                    i as int + 1,
                ));
            }
            let goes = match rules.row_key(row) {
                Ok(key) => live.get(&key).is_none(),
                Err(_) => false,
            };
            if goes {
                let copy = row.clone();
                rows.push(copy);
                assert(views(rows@) =~= had.push(row@));
            }
            i += 1;
        }
        assert(start.subrange(0, i as int) =~= start);
        Ok(rows)
    }
}

} // verus!
