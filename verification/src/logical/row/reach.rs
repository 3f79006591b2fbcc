//! Laws on the keys and cells that row sets reach: prefixes, published cells,
//! and what an audit compares.

use super::accept::rows_accepted;
use super::accepted::changes_lead_from_befores_to_afters;
use super::apply::disagrees;
use super::audit::{
    backfilled, cell_joined, cells_fault, exact, expected_cells, gone, is_row, keys_of, retired,
    row_cell_fault, row_cells_fault, row_keys, scanned_rowid, set_joined,
};
use super::capture::CapturedRowView;
use super::cells::{stored_image, RowView};
use super::changes::{afters, befores, TableChangesView};
use super::collide::values_meet;
use super::derive::{index_on, primary_parts};
use super::error::RowCodecError;
use super::exchange::{stands_at, stored_under};
use super::hold::{lemma_placed_has, unique_maps_hold_what_rows_own};
use super::image::{image_of, images_are_injective};
use super::keys::{
    images_of, index_entries_of, part_images, references_of, row_key_of, EntryView,
};
use super::lower::table_guards;
use super::owners::owner_of;
use super::prefix::{equality_images, equality_prefix, positions};
use super::presence::{claim, row_claimed, row_published, set_lowered};
use super::rules::RulesView;
use super::set::RowSetView;
use crate::attempt::{lemma_try_map_ok, try_fold, try_map};
use crate::catalog::{lemma_kept, CatalogEntryView};
use crate::error::ErrorView;
use crate::key::{below, MutationView, Path};
use crate::logical::contract::GuardReason;
use crate::logical::lowering::{
    gathered, lemma_gathered_has, lemma_has_concat, mutations_of, Emission,
};
use crate::logical::schema::definition::{column_ids, NamedIndexView, TableView};
use crate::logical::schema::table::primary_ids;
use crate::logical::types::{Affinity, TableStorage};
use crate::value::ValueView;
use vstd::prelude::*;

verus! {

/// A row's key lies below the prefix of some values exactly where the values of
/// its leading key columns meet them. No more values than the key has columns
/// have a prefix, and no text under a numeric column.
pub proof fn prefixes_lie_above_the_rows_they_name(
    table: TableView,
    rules: RulesView,
    values: Seq<ValueView>,
    row: RowView,
)
    requires
        rules.table == table.table,
        rules.primary_index == table.primary_index,
        rules.key_parts == primary_parts(table),
        equality_prefix(table, values) is Ok,
        row_key_of(rules, row) is Ok,
    ensures
        values.len() <= rules.key_parts.len(),
        forall|i: int|
            0 <= i < values.len() ==> !(#[trigger] values[i] is Null) && !(values[i] is Text && (
            rules.key_parts[i].affinity == Affinity::Integer || rules.key_parts[i].affinity
                == Affinity::Real || rules.key_parts[i].affinity == Affinity::Numeric)),
        below(row_key_of(rules, row)->Ok_0, equality_prefix(table, values)->Ok_0) <==> forall|
            i: int,
        |
            0 <= i < values.len() ==> values_meet(
                row.value(rules.key_parts[i].column)->Some_0,
                #[trigger] values[i],
            ),
{
    let parts = rules.key_parts;
    let f = equality_images(parts, values);
    let places = positions(values.len());
    let images = try_map(places, f)->Ok_0;
    let held = images_of(row, parts)->Ok_0;
    let g = part_images(row);
    lemma_try_map_ok(places, f);
    lemma_try_map_ok(parts, g);
    assert forall|i: int| 0 <= i < values.len() implies images[i] == image_of(
        #[trigger] values[i],
    ) && !(values[i] is Null) && !(values[i] is Text && (parts[i].affinity == Affinity::Integer
        || parts[i].affinity == Affinity::Real || parts[i].affinity == Affinity::Numeric)) by {
        assert(f(places[i]) == Ok::<Seq<u8>, RowCodecError>(images[i]));
    }
    assert forall|i: int| 0 <= i < parts.len() implies held[i] == image_of(
        row.value((#[trigger] parts[i]).column)->Some_0,
    ) by {
        assert(g(parts[i]) == Ok::<Seq<u8>, RowCodecError>(held[i]));
    }
    let key = row_key_of(rules, row)->Ok_0;
    let prefix = equality_prefix(table, values)->Ok_0;
    assert forall|i: int| 0 <= i < images.len() implies prefix[5 + i] == #[trigger] images[i] by {}
    assert forall|i: int| 0 <= i < held.len() implies key[5 + i] == #[trigger] held[i] by {}
    assert forall|i: int| 0 <= i < values.len() implies (held[i] == images[i]) == values_meet(
        row.value(parts[i].column)->Some_0,
        #[trigger] values[i],
    ) by {
        images_are_injective(row.value(parts[i].column)->Some_0, values[i]);
        let part = parts[i];
    }
    if below(key, prefix) {
        assert forall|i: int| 0 <= i < values.len() implies values_meet(
            row.value(parts[i].column)->Some_0,
            #[trigger] values[i],
        ) by {
            assert(key.subrange(0, prefix.len() as int)[5 + i] == prefix[5 + i]);
            assert(images[i] == prefix[5 + i]);
            assert(held[i] == key[5 + i]);
        }
    }
    if forall|i: int|
        0 <= i < values.len() ==> values_meet(
            row.value(parts[i].column)->Some_0,
            #[trigger] values[i],
        ) {
        let cut = key.subrange(0, prefix.len() as int);
        assert forall|j: int| 0 <= j < cut.len() implies cut[j] == prefix[j] by {
            if j >= 5 {
                let value = values[j - 5];
                assert(held[j - 5] == images[j - 5]);
            }
        }
        assert(cut =~= prefix);
    }
}

/// Whether a row set has a cell: one of its rows is stored there, owns it, or
/// refers by it.
pub open spec fn set_has_cell(set: RowSetView, key: Path, value: Seq<u8>) -> bool {
    exists|r: int|
        0 <= r < set.rows.len() && row_has_cell(set.rules, #[trigger] set.rows[r], key, value)
}

/// Whether a row has a cell: it is stored there, owns it, or refers by it.
pub open spec fn row_has_cell(rules: RulesView, row: RowView, key: Path, value: Seq<u8>) -> bool {
    ||| stands_at(rules, Some(row), key) && value == stored_under(rules, row)
    ||| index_entries_of(rules, row) is Ok && index_entries_of(rules, row)->Ok_0.contains(
        EntryView { key, value },
    )
    ||| references_of(rules, row) is Ok && references_of(rules, row)->Ok_0.contains(
        EntryView { key, value },
    )
}

/// Claimed entries put exactly themselves.
proof fn lemma_claims(entries: Seq<EntryView>, reason: GuardReason, emission: Emission)
    ensures
        gathered(entries, claim(reason)).contains(emission) ==> match emission {
            Emission::Put(key, value) => entries.contains(EntryView { key, value }),
            Emission::Delete(_) => false,
            Emission::DeletePrefix(_) => false,
            _ => true,
        },
        emission matches Emission::Put(key, value) && entries.contains(EntryView { key, value })
            ==> gathered(entries, claim(reason)).contains(emission),
    decreases entries.len(),
{
    if emission matches Emission::Put(key, value) && entries.contains(EntryView { key, value }) {
        if let Emission::Put(key, value) = emission {
            let k = choose|k: int|
                0 <= k < entries.len() && entries[k] == (EntryView { key, value });
            assert(claim(reason)(entries[k])[2] == emission);
            lemma_gathered_has(entries, claim(reason), k, emission);
        }
    }
    if entries.len() > 0 {
        let init = entries.drop_last();
        let last = entries.last();
        lemma_claims(init, reason, emission);
        lemma_has_concat(gathered(init, claim(reason)), claim(reason)(last), emission);
        assert(entries[entries.len() - 1] == last);
        if let Emission::Put(key, value) = emission {
            if init.contains(EntryView { key, value }) {
                let k = choose|k: int| 0 <= k < init.len() && init[k] == (EntryView { key, value });
                assert(entries[k] == init[k]);
            }
            if claim(reason)(last).contains(emission) {
                assert(entries[entries.len() - 1] == (EntryView { key, value }));
            }
        }
    }
}

/// Whether an emission is a cell of one of some rows, or a guard.
spec fn cell_or_guard(
    start: Seq<Emission>,
    rows: Seq<RowView>,
    has: spec_fn(RowView, Path, Seq<u8>) -> bool,
    emission: Emission,
) -> bool {
    start.contains(emission) || match emission {
        Emission::Put(key, value) => exists|r: int|
            0 <= r < rows.len() && has(#[trigger] rows[r], key, value),
        Emission::Delete(_) => false,
        Emission::DeletePrefix(_) => false,
        _ => true,
    }
}

/// Rows that emit their cells in turn emit all of them, and no others.
proof fn lemma_cells_fold(
    start: Seq<Emission>,
    rows: Seq<RowView>,
    has: spec_fn(RowView, Path, Seq<u8>) -> bool,
    f: spec_fn(RowView) -> Seq<Emission>,
    step: spec_fn(Seq<Emission>, RowView) -> std::result::Result<Seq<Emission>, ErrorView>,
    emission: Emission,
)
    requires
        try_fold(start, rows, step) is Ok,
        forall|done: Seq<Emission>, row: RowView|
            (#[trigger] step(done, row)) is Ok ==> step(done, row)->Ok_0 == done + f(row) && (f(
                row,
            ).contains(emission) ==> match emission {
                Emission::Put(key, value) => has(row, key, value),
                Emission::Delete(_) => false,
                Emission::DeletePrefix(_) => false,
                _ => true,
            }) && (emission matches Emission::Put(key, value) ==> has(row, key, value) ==> f(
                row,
            ).contains(emission)),
    ensures
        try_fold(start, rows, step)->Ok_0.contains(emission) ==> cell_or_guard(
            start,
            rows,
            has,
            emission,
        ),
        start.contains(emission) ==> try_fold(start, rows, step)->Ok_0.contains(emission),
        emission matches Emission::Put(key, value) ==> (exists|r: int|
            0 <= r < rows.len() && has(#[trigger] rows[r], key, value)) ==> try_fold(
            start,
            rows,
            step,
        )->Ok_0.contains(emission),
    decreases rows.len(),
{
    if rows.len() > 0 {
        let init = rows.drop_last();
        let last = rows.last();
        let before = try_fold(start, init, step)->Ok_0;
        lemma_cells_fold(start, init, has, f, step, emission);
        assert(step(before, last) is Ok);
        lemma_has_concat(before, f(last), emission);
        assert(rows[rows.len() - 1] == last);
        if let Emission::Put(key, value) = emission {
            if exists|r: int| 0 <= r < init.len() && has(#[trigger] init[r], key, value) {
                let r = choose|r: int| 0 <= r < init.len() && has(#[trigger] init[r], key, value);
                assert(rows[r] == init[r]);
            }
            if exists|r: int| 0 <= r < rows.len() && has(#[trigger] rows[r], key, value) {
                let r = choose|r: int| 0 <= r < rows.len() && has(#[trigger] rows[r], key, value);
                if r < init.len() {
                    assert(init[r] == rows[r]);
                }
            }
            if has(last, key, value) {
                assert(has(rows[rows.len() - 1], key, value));
            }
        }
    }
}

/// What publishes a row set puts the cells that its rows have, each of them and
/// no others, and deletes nothing.
pub proof fn published_sets_put_their_cells(set: RowSetView, emission: Emission)
    requires
        set_lowered(set) is Ok,
    ensures
        emission matches Emission::Put(key, value) ==> (set_lowered(set)->Ok_0.contains(emission)
            <==> set_has_cell(set, key, value)),
        emission is Delete || emission is DeletePrefix ==> !set_lowered(set)->Ok_0.contains(
            emission,
        ),
{
    let rules = set.rules;
    let none = Seq::<Emission>::empty();
    let rows = try_fold(none, set.rows, row_published(rules))->Ok_0;
    let all = try_fold(rows, set.rows, row_claimed(rules))->Ok_0;
    let stored = |row: RowView, key: Path, value: Seq<u8>|
        stands_at(rules, Some(row), key) && value == stored_under(rules, row);
    let publishing = |row: RowView|
        claim(GuardReason::RowIdentity)(
            EntryView { key: row_key_of(rules, row)->Ok_0, value: stored_under(rules, row) },
        );
    assert forall|done: Seq<Emission>, row: RowView|
        (#[trigger] row_published(rules)(done, row)) is Ok implies row_published(rules)(
        done,
        row,
    )->Ok_0 == done + publishing(row) && (publishing(row).contains(emission) ==> match emission {
        Emission::Put(key, value) => stored(row, key, value),
        Emission::Delete(_) => false,
        Emission::DeletePrefix(_) => false,
        _ => true,
    }) && (emission matches Emission::Put(key, value) ==> stored(row, key, value) ==> publishing(
        row,
    ).contains(emission)) by {
        if let Emission::Put(key, value) = emission {
            if stored(row, key, value) {
                assert(publishing(row)[2] == emission);
            }
        }
    }
    lemma_cells_fold(none, set.rows, stored, publishing, row_published(rules), emission);
    let claimed = |row: RowView, key: Path, value: Seq<u8>|
        index_entries_of(rules, row)->Ok_0.contains(EntryView { key, value }) || references_of(
            rules,
            row,
        )->Ok_0.contains(EntryView { key, value });
    let claiming = |row: RowView|
        gathered(index_entries_of(rules, row)->Ok_0, claim(GuardReason::UniqueOwnership))
            + gathered(references_of(rules, row)->Ok_0, claim(GuardReason::ForeignReference));
    assert forall|done: Seq<Emission>, row: RowView|
        (#[trigger] row_claimed(rules)(done, row)) is Ok implies row_claimed(rules)(
        done,
        row,
    )->Ok_0 == done + claiming(row) && (claiming(row).contains(emission) ==> match emission {
        Emission::Put(key, value) => claimed(row, key, value),
        Emission::Delete(_) => false,
        Emission::DeletePrefix(_) => false,
        _ => true,
    }) && (emission matches Emission::Put(key, value) ==> claimed(row, key, value) ==> claiming(
        row,
    ).contains(emission)) by {
        let entries = index_entries_of(rules, row)->Ok_0;
        let references = references_of(rules, row)->Ok_0;
        let a = gathered(entries, claim(GuardReason::UniqueOwnership));
        let b = gathered(references, claim(GuardReason::ForeignReference));
        assert(done + a + b =~= done + (a + b));
        lemma_claims(entries, GuardReason::UniqueOwnership, emission);
        lemma_claims(references, GuardReason::ForeignReference, emission);
        lemma_has_concat(a, b, emission);
    }
    lemma_cells_fold(rows, set.rows, claimed, claiming, row_claimed(rules), emission);
    lemma_has_concat(all, table_guards(rules.table), emission);
    lemma_rows_claimed(rules, rows, set.rows);
    if let Emission::Put(key, value) = emission {
        if set_has_cell(set, key, value) {
            let r = choose|r: int|
                0 <= r < set.rows.len() && row_has_cell(
                    rules,
                    #[trigger] set.rows[r],
                    key,
                    value,
                );
            assert(stored(set.rows[r], key, value) || claimed(set.rows[r], key, value));
        }
        if all.contains(emission) {
            if exists|r: int| 0 <= r < set.rows.len() && claimed(#[trigger] set.rows[r], key, value) {
                let r = choose|r: int|
                    0 <= r < set.rows.len() && claimed(#[trigger] set.rows[r], key, value);
                assert(row_has_cell(rules, set.rows[r], key, value));
            } else {
                assert(rows.contains(emission));
                let r = choose|r: int|
                    0 <= r < set.rows.len() && stored(#[trigger] set.rows[r], key, value);
                assert(row_has_cell(rules, set.rows[r], key, value));
            }
        }
    }
}

/// Rows whose cells were claimed have images for all of them.
proof fn lemma_rows_claimed(rules: RulesView, start: Seq<Emission>, rows: Seq<RowView>)
    requires
        try_fold(start, rows, row_claimed(rules)) is Ok,
    ensures
        forall|r: int|
            0 <= r < rows.len() ==> index_entries_of(rules, #[trigger] rows[r]) is Ok
                && references_of(rules, rows[r]) is Ok,
    decreases rows.len(),
{
    if rows.len() > 0 {
        let init = rows.drop_last();
        lemma_rows_claimed(rules, start, init);
        assert forall|r: int| 0 <= r < rows.len() implies index_entries_of(
            rules,
            #[trigger] rows[r],
        ) is Ok && references_of(rules, rows[r]) is Ok by {
            if r < init.len() {
                assert(init[r] == rows[r]);
            }
        }
    }
}

/// Two lists that agree after a filter have the same items of that kind.
proof fn lemma_filtered(
    a: Seq<EntryView>,
    b: Seq<EntryView>,
    test: spec_fn(EntryView) -> bool,
    entry: EntryView,
)
    requires
        a.filter(test) == b.filter(test),
        test(entry),
    ensures
        a.contains(entry) <==> b.contains(entry),
{
    lemma_filter_has(a, test, entry);
    lemma_filter_has(b, test, entry);
}

/// What a filter keeps is what was there and passes.
proof fn lemma_filter_has(a: Seq<EntryView>, test: spec_fn(EntryView) -> bool, entry: EntryView)
    ensures
        a.filter(test).contains(entry) <==> a.contains(entry) && test(entry),
{
    broadcast use vstd::seq_lib::group_filter_ensures;

    if a.filter(test).contains(entry) {
        let k = choose|k: int| 0 <= k < a.filter(test).len() && a.filter(test)[k] == entry;
        lemma_kept(a, test, k);
        assert(test(a.filter(test)[k]));
    }
    if a.contains(entry) && test(entry) {
        let k = choose|k: int| 0 <= k < a.len() && a[k] == entry;
        assert(a.filter(test).contains(a[k]));
    }
}

/// Rows have no contradiction only where none of them has one.
proof fn lemma_row_cells(expected: Seq<EntryView>, actual: Seq<EntryView>)
    requires
        expected.len() == actual.len(),
    ensures
        row_cells_fault(expected, actual) is None <==> forall|i: int|
            0 <= i < expected.len() ==> row_cell_fault(
                (#[trigger] expected[i]).value,
                actual[i].value,
            ) is None,
    decreases expected.len(),
{
    if expected.len() > 0 {
        let init = expected.drop_last();
        let n = expected.len() - 1;
        lemma_row_cells(init, actual.drop_last());
        lemma_row_cells_longer(init, actual);
        assert(expected[n] == expected.last());
        if row_cells_fault(expected, actual) is None {
            assert forall|i: int| 0 <= i < expected.len() implies row_cell_fault(
                (#[trigger] expected[i]).value,
                actual[i].value,
            ) is None by {
                if i < n {
                    assert(init[i] == expected[i]);
                    assert(actual.drop_last()[i] == actual[i]);
                }
            }
        }
        if forall|i: int|
            0 <= i < expected.len() ==> row_cell_fault(
                (#[trigger] expected[i]).value,
                actual[i].value,
            ) is None {
            assert forall|i: int| 0 <= i < init.len() implies row_cell_fault(
                (#[trigger] init[i]).value,
                actual.drop_last()[i].value,
            ) is None by {
                assert(init[i] == expected[i]);
            }
            assert(row_cell_fault(expected[n].value, actual[n].value) is None);
        }
    }
}

/// Cells behind the compared ones do not matter.
proof fn lemma_row_cells_longer(expected: Seq<EntryView>, actual: Seq<EntryView>)
    requires
        actual.len() > expected.len(),
    ensures
        row_cells_fault(expected, actual.drop_last()) == row_cells_fault(expected, actual),
    decreases expected.len(),
{
    if expected.len() > 0 {
        let init = expected.drop_last();
        lemma_row_cells_longer(init, actual);
        assert(actual.drop_last()[expected.len() - 1] == actual[expected.len() - 1]);
    }
}

/// An audit accepts cells only where the owners and references are the same on
/// both sides, the stored rows have the same keys, and no row of the authority
/// has another value than the stored one for a column that both have.
pub proof fn audited_cells_agree(
    expected: Seq<EntryView>,
    actual: Seq<EntryView>,
    entry: EntryView,
    i: int,
)
    requires
        cells_fault(expected, actual) is None,
    ensures
        exact()(entry) ==> (expected.contains(entry) <==> actual.contains(entry)),
        expected.filter(is_row()).len() == actual.filter(is_row()).len(),
        0 <= i < expected.filter(is_row()).len() ==> {
            let wanted = expected.filter(is_row())[i];
            let found = actual.filter(is_row())[i];
            &&& wanted.key == found.key
            &&& stored_image(wanted.value) is Ok
            &&& stored_image(found.value) is Ok
            &&& !disagrees(stored_image(found.value)->Ok_0, stored_image(wanted.value)->Ok_0)
        },
{
    if exact()(entry) {
        lemma_filtered(expected, actual, exact(), entry);
    }
    let a = expected.filter(is_row());
    let b = actual.filter(is_row());
    assert(keys_of(a).len() == keys_of(b).len());
    lemma_row_cells(a, b);
    if 0 <= i < a.len() {
        assert(keys_of(a)[i] == keys_of(b)[i]);
        let wanted = a[i];
        assert(row_cell_fault(a[i].value, b[i].value) is None);
    }
}

/// Changes retire exactly the rows that they start from and whose keys no row has
/// that they end in.
pub proof fn retired_rows_leave_their_keys(changes: TableChangesView, row: RowView)
    requires
        retired(changes) is Ok,
        row_key_of(changes.rules, row) is Ok,
    ensures
        retired(changes)->Ok_0.contains(row) <==> {
            &&& exists|i: int|
                0 <= i < changes.rows.len() && (#[trigger] changes.rows[i]).before == Some(row)
            &&& forall|j: int|
                0 <= j < changes.rows.len() ==> !stands_at(
                    changes.rules,
                    (#[trigger] changes.rows[j]).after,
                    row_key_of(changes.rules, row)->Ok_0,
                )
        },
{
    broadcast use vstd::seq_lib::group_filter_ensures;

    let rules = changes.rules;
    let ends = afters(changes.rows);
    let f = row_keys(rules);
    let keys = try_map(ends, f)->Ok_0;
    let starts = befores(changes.rows);
    let left = starts.filter(gone(rules, keys));
    let key = row_key_of(rules, row)->Ok_0;
    lemma_try_map_ok(ends, f);
    changes_lead_from_befores_to_afters(changes.rows, row);
    if keys.contains(key) {
        let k = choose|k: int| 0 <= k < keys.len() && keys[k] == key;
        assert(f(ends[k]) == Ok::<Path, ErrorView>(keys[k]));
        changes_lead_from_befores_to_afters(changes.rows, ends[k]);
        assert(ends.contains(ends[k]));
        let j = choose|j: int|
            0 <= j < changes.rows.len() && (#[trigger] changes.rows[j]).after == Some(ends[k]);
        assert(stands_at(rules, changes.rows[j].after, key));
    } else {
        assert forall|j: int| 0 <= j < changes.rows.len() implies !stands_at(
            rules,
            (#[trigger] changes.rows[j]).after,
            key,
        ) by {
            if stands_at(rules, changes.rows[j].after, key) {
                let end = changes.rows[j].after->Some_0;
                changes_lead_from_befores_to_afters(changes.rows, end);
                assert(ends.contains(end));
                let k = choose|k: int| 0 <= k < ends.len() && ends[k] == end;
                assert(f(ends[k]) == Ok::<Path, ErrorView>(keys[k]));
                assert(keys[k] == key);
            }
        }
    }
    if left.contains(row) {
        let k = choose|k: int| 0 <= k < left.len() && left[k] == row;
        lemma_kept(starts, gone(rules, keys), k);
        assert(gone(rules, keys)(left[k]));
    }
    if starts.contains(row) && !keys.contains(key) {
        let k = choose|k: int| 0 <= k < starts.len() && starts[k] == row;
        assert(gone(rules, keys)(starts[k]));
        assert(left.contains(starts[k]));
    }
}

/// The rowid of a row that was read is the integer in the column of its primary
/// key.
pub proof fn scanned_rowids_are_key_values(table: TableView, values: Seq<ValueView>, c: int)
    requires
        table.storage == TableStorage::Rowid,
        0 <= c < table.columns.len(),
        values.len() == table.columns.len(),
        column_ids(table.columns).no_duplicates(),
        table.columns[c].id == primary_ids(table.columns)[0],
    ensures
        scanned_rowid(table, values) is Some <==> values[c] is Integer,
        scanned_rowid(table, values) matches Some(rowid) ==> values[c] == ValueView::Integer(rowid),
{
    let ids = column_ids(table.columns);
    assert(ids[c] == primary_ids(table.columns)[0]);
    assert(ids.contains(ids[c]));
    let at = ids.index_of(ids[c]);
    assert(ids[at] == ids[c]);
}

/// Cells that puts joined are all there.
proof fn lemma_cells_joined(start: Seq<EntryView>, mutations: Seq<MutationView>, entry: EntryView)
    requires
        try_fold(start, mutations, cell_joined()) is Ok,
    ensures
        try_fold(start, mutations, cell_joined())->Ok_0.contains(entry) <==> start.contains(entry)
            || mutations.contains(MutationView::Put { key: entry.key, value: entry.value }),
    decreases mutations.len(),
{
    if mutations.len() > 0 {
        let init = mutations.drop_last();
        let last = mutations.last();
        let put = MutationView::Put { key: entry.key, value: entry.value };
        let before = try_fold(start, init, cell_joined())->Ok_0;
        lemma_cells_joined(start, init, entry);
        assert(cell_joined()(before, last) is Ok);
        if let MutationView::Put { key, value } = last {
            lemma_placed_has(before, EntryView { key, value }, entry);
        }
        assert(mutations[mutations.len() - 1] == last);
        if mutations.contains(put) {
            let k = choose|k: int| 0 <= k < mutations.len() && mutations[k] == put;
            if k < init.len() {
                assert(init[k] == put);
            }
        }
        if init.contains(put) {
            let k = choose|k: int| 0 <= k < init.len() && init[k] == put;
            assert(mutations[k] == put);
        }
    }
}

/// A put is among mutations exactly where it is among the emissions.
proof fn lemma_puts(emissions: Seq<Emission>, key: Path, value: Seq<u8>)
    ensures
        mutations_of(emissions).contains(MutationView::Put { key, value })
            <==> emissions.contains(Emission::Put(key, value)),
    decreases emissions.len(),
{
    let put = MutationView::Put { key, value };
    let emission = Emission::Put(key, value);
    if emissions.len() > 0 {
        let init = emissions.drop_last();
        let last = emissions.last();
        let before = mutations_of(init);
        let all = mutations_of(emissions);
        lemma_puts(init, key, value);
        assert(emissions[emissions.len() - 1] == last);
        if emissions.contains(emission) {
            let k = choose|k: int| 0 <= k < emissions.len() && emissions[k] == emission;
            if k < init.len() {
                assert(init[k] == emission);
                let m = choose|m: int| 0 <= m < before.len() && before[m] == put;
                assert(all[m] == put);
            } else {
                assert(all[before.len() as int] == put);
            }
        }
        if all.contains(put) {
            let m = choose|m: int| 0 <= m < all.len() && all[m] == put;
            if m < before.len() {
                assert(before[m] == put);
                let k = choose|k: int| 0 <= k < init.len() && init[k] == emission;
                assert(emissions[k] == emission);
            } else {
                assert(last == emission);
            }
        }
    }
}

/// The authority should hold the cells that the stored rows of some table have,
/// each of them and no others.
pub proof fn expected_cells_are_those_of_the_rows(sets: Seq<RowSetView>, entry: EntryView)
    requires
        expected_cells(sets) is Ok,
    ensures
        expected_cells(sets)->Ok_0.contains(entry) <==> exists|s: int|
            0 <= s < sets.len() && set_has_cell(#[trigger] sets[s], entry.key, entry.value),
    decreases sets.len(),
{
    if sets.len() > 0 {
        let init = sets.drop_last();
        let last = sets.last();
        let before = expected_cells(init)->Ok_0;
        expected_cells_are_those_of_the_rows(init, entry);
        assert(set_joined()(before, last) is Ok);
        let emissions = set_lowered(last)->Ok_0;
        lemma_cells_joined(before, mutations_of(emissions), entry);
        lemma_puts(emissions, entry.key, entry.value);
        published_sets_put_their_cells(last, Emission::Put(entry.key, entry.value));
        assert(sets[sets.len() - 1] == last);
        if before.contains(entry) {
            let s = choose|s: int|
                0 <= s < init.len() && set_has_cell(#[trigger] init[s], entry.key, entry.value);
            assert(sets[s] == init[s]);
        }
        if exists|s: int|
            0 <= s < sets.len() && set_has_cell(#[trigger] sets[s], entry.key, entry.value) {
            let s = choose|s: int|
                0 <= s < sets.len() && set_has_cell(#[trigger] sets[s], entry.key, entry.value);
            if s < init.len() {
                assert(init[s] == sets[s]);
            }
        }
    }
}

/// A new index is filled only where it is unique, and with what the rows that
/// were read own in it: a key holds an owner exactly where one of them owns it.
pub proof fn backfills_hold_what_the_rows_own(
    tables: Seq<CatalogEntryView>,
    table: TableView,
    index: NamedIndexView,
    captured: Seq<CapturedRowView>,
    key: Path,
    value: Seq<u8>,
)
    ensures
        !index.unique ==> backfilled(tables, table, index, captured) is Err,
        captured.len() > 0 && backfilled(tables, table, index, captured) is Ok ==> {
            let accepted = rows_accepted(tables, captured);
            let set = accepted->Ok_0->Some_0;
            let rules = RulesView {
                indexes: seq![index_on(table, index.index, index.columns)],
                ..set.rules
            };
            &&& accepted is Ok
            &&& accepted->Ok_0 is Some
            &&& owner_of(backfilled(tables, table, index, captured)->Ok_0, key) == Some(value)
                <==> exists|r: int|
                0 <= r < set.rows.len() && index_entries_of(
                    rules,
                    #[trigger] set.rows[r],
                )->Ok_0.contains(EntryView { key, value })
        },
{
    if let Ok(entries) = backfilled(tables, table, index, captured) {
        if captured.len() > 0 {
            let set = rows_accepted(tables, captured)->Ok_0->Some_0;
            let indexed = RowSetView {
                rules: RulesView {
                    indexes: seq![index_on(table, index.index, index.columns)],
                    ..set.rules
                },
                rows: set.rows,
            };
            unique_maps_hold_what_rows_own(indexed, key, value);
        }
    }
}

} // verus!
