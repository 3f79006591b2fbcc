//! Laws on the key maps of rows: what they hold.

use super::cells::RowView;
use super::error::RowCodecError;
use super::keys::{incoming_prefixes_of, index_entries_of, references_of, EntryView};
use super::owners::{lemma_placed_owns, lemma_rank_bound, owner_of, owns, placed, rank};
use super::set::{
    incoming_set_of, place_step, prefixes_added, reference_map_of, reference_map_step,
    unique_map_of, unique_map_step, RowSetView,
};
use crate::attempt::try_fold;
use crate::key::Path;
use vstd::prelude::*;

verus! {

/// Whether no key stands under two values.
pub open spec fn keyed_once(entries: Seq<EntryView>) -> bool {
    forall|i: int, j: int|
        0 <= i < entries.len() && 0 <= j < entries.len() && (#[trigger] entries[i]).key == (
        #[trigger] entries[j]).key ==> entries[i] == entries[j]
}

/// What is stored under a key is the entry that stands there.
pub proof fn lemma_owner_of(entries: Seq<EntryView>, key: Path, value: Seq<u8>)
    requires
        keyed_once(entries),
    ensures
        owner_of(entries, key) == Some(value) <==> entries.contains(EntryView { key, value }),
        owner_of(entries, key) is Some <==> owns(entries, key),
{
    if entries.contains(EntryView { key, value }) {
        let k = choose|k: int| 0 <= k < entries.len() && entries[k] == (EntryView { key, value });
        assert(entries[k].key == key);
    }
    if owner_of(entries, key) == Some(value) {
        let i = choose|i: int| 0 <= i < entries.len() && (#[trigger] entries[i]).key == key;
        assert(entries[i] == EntryView { key, value });
    }
}

/// A placed entry joins the others.
pub proof fn lemma_placed_has(entries: Seq<EntryView>, entry: EntryView, other: EntryView)
    ensures
        placed(entries, entry).contains(other) <==> entries.contains(other) || other == entry,
{
    let n = rank(entries, entry.key) as int;
    let more = placed(entries, entry);
    lemma_rank_bound(entries, entry.key);
    assert(more[n] == entry);
    if entries.contains(other) {
        let i = choose|i: int| 0 <= i < entries.len() && entries[i] == other;
        if i < n {
            assert(more[i] == other);
        } else {
            assert(more[i + 1] == other);
        }
    }
    if more.contains(other) {
        let i = choose|i: int| 0 <= i < more.len() && more[i] == other;
        if i < n {
            assert(entries[i] == other);
        } else if i > n {
            assert(entries[i - 1] == other);
        }
    }
}

/// A new key keeps every key under one value.
proof fn lemma_placed_once(entries: Seq<EntryView>, entry: EntryView)
    requires
        keyed_once(entries),
        !owns(entries, entry.key),
    ensures
        keyed_once(placed(entries, entry)),
{
    let more = placed(entries, entry);
    assert forall|i: int, j: int|
        0 <= i < more.len() && 0 <= j < more.len() && (#[trigger] more[i]).key == (
        #[trigger] more[j]).key implies more[i] == more[j] by {
        lemma_placed_has(entries, entry, more[i]);
        lemma_placed_has(entries, entry, more[j]);
        assert(more.contains(more[i]) && more.contains(more[j]));
        if entries.contains(more[i]) {
            let a = choose|a: int| 0 <= a < entries.len() && entries[a] == more[i];
            assert(entries[a].key == more[i].key);
            if entries.contains(more[j]) {
                let b = choose|b: int| 0 <= b < entries.len() && entries[b] == more[j];
                assert(entries[a].key == entries[b].key);
            }
        } else if entries.contains(more[j]) {
            let b = choose|b: int| 0 <= b < entries.len() && entries[b] == more[j];
            assert(entries[b].key == entry.key);
        }
    }
}

/// Entries that were placed in turn are all there, each under a new key.
proof fn lemma_place_fold(
    order: Seq<EntryView>,
    entries: Seq<EntryView>,
    error: RowCodecError,
    entry: EntryView,
)
    requires
        keyed_once(order),
        try_fold(order, entries, place_step(error)) is Ok,
    ensures
        keyed_once(try_fold(order, entries, place_step(error))->Ok_0),
        try_fold(order, entries, place_step(error))->Ok_0.contains(entry) <==> order.contains(entry)
            || entries.contains(entry),
        forall|k: int| 0 <= k < entries.len() ==> !owns(order, (#[trigger] entries[k]).key),
    decreases entries.len(),
{
    if entries.len() > 0 {
        let init = entries.drop_last();
        let last = entries.last();
        let before = try_fold(order, init, place_step(error))->Ok_0;
        lemma_place_fold(order, init, error, entry);
        lemma_placed_once(before, last);
        lemma_placed_has(before, last, entry);
        assert(entries[entries.len() - 1] == last);
        if entries.contains(entry) {
            let k = choose|k: int| 0 <= k < entries.len() && entries[k] == entry;
            if k < init.len() {
                assert(init[k] == entry);
            }
        }
        if init.contains(entry) {
            let k = choose|k: int| 0 <= k < init.len() && init[k] == entry;
            assert(entries[k] == entry);
        }
        assert forall|k: int| 0 <= k < entries.len() implies !owns(
            order,
            (#[trigger] entries[k]).key,
        ) by {
            if k < init.len() {
                assert(init[k] == entries[k]);
            } else if owns(order, last.key) {
                let i = choose|i: int| 0 <= i < order.len() && (#[trigger] order[i]).key == last.key;
                lemma_place_fold(order, init, error, order[i]);
                assert(order.contains(order[i]));
                let m = choose|m: int| 0 <= m < before.len() && before[m] == order[i];
                assert(before[m].key == last.key);
            }
        }
    }
}

/// What rows put in a map together, by what each of them puts there.
proof fn lemma_map_fold(
    rows: Seq<RowView>,
    f: spec_fn(RowView) -> Result<Seq<EntryView>, RowCodecError>,
    step: spec_fn(Seq<EntryView>, RowView) -> Result<Seq<EntryView>, RowCodecError>,
    error: RowCodecError,
    entry: EntryView,
)
    requires
        forall|order: Seq<EntryView>, row: RowView| #[trigger]
            step(order, row) == (match f(row) {
                Err(error) => Err(error),
                Ok(entries) => try_fold(order, entries, place_step(error)),
            }),
        try_fold(Seq::<EntryView>::empty(), rows, step) is Ok,
    ensures
        keyed_once(try_fold(Seq::<EntryView>::empty(), rows, step)->Ok_0),
        forall|r: int| 0 <= r < rows.len() ==> f(#[trigger] rows[r]) is Ok,
        try_fold(Seq::<EntryView>::empty(), rows, step)->Ok_0.contains(entry) <==> exists|r: int|
            0 <= r < rows.len() && f(#[trigger] rows[r])->Ok_0.contains(entry),
    decreases rows.len(),
{
    if rows.len() > 0 {
        let init = rows.drop_last();
        let last = rows.last();
        let before = try_fold(Seq::<EntryView>::empty(), init, step)->Ok_0;
        lemma_map_fold(init, f, step, error, entry);
        assert(step(before, last) is Ok);
        lemma_place_fold(before, f(last)->Ok_0, error, entry);
        assert(rows[rows.len() - 1] == last);
        assert forall|r: int| 0 <= r < rows.len() implies f(#[trigger] rows[r]) is Ok by {
            if r < init.len() {
                assert(init[r] == rows[r]);
            }
        }
        if before.contains(entry) {
            let r = choose|r: int|
                0 <= r < init.len() && f(#[trigger] init[r])->Ok_0.contains(entry);
            assert(rows[r] == init[r]);
        }
        if exists|r: int| 0 <= r < rows.len() && f(#[trigger] rows[r])->Ok_0.contains(entry) {
            let r = choose|r: int|
                0 <= r < rows.len() && f(#[trigger] rows[r])->Ok_0.contains(entry);
            if r < init.len() {
                assert(init[r] == rows[r]);
            }
        }
    }
}

/// The map of what rows own holds an owner under a key exactly where a row owns
/// the key, and then the key of that row.
pub proof fn unique_maps_hold_what_rows_own(set: RowSetView, key: Path, value: Seq<u8>)
    requires
        unique_map_of(set) is Ok,
    ensures
        keyed_once(unique_map_of(set)->Ok_0),
        forall|r: int|
            0 <= r < set.rows.len() ==> index_entries_of(set.rules, #[trigger] set.rows[r]) is Ok,
        owner_of(unique_map_of(set)->Ok_0, key) == Some(value) <==> exists|r: int|
            0 <= r < set.rows.len() && index_entries_of(
                set.rules,
                #[trigger] set.rows[r],
            )->Ok_0.contains(EntryView { key, value }),
{
    let f = |row: RowView| index_entries_of(set.rules, row);
    let step = unique_map_step(set.rules);
    let entry = EntryView { key, value };
    lemma_map_fold(set.rows, f, step, RowCodecError::DuplicateUniqueKey, entry);
    assert forall|r: int| 0 <= r < set.rows.len() implies index_entries_of(
        set.rules,
        #[trigger] set.rows[r],
    ) is Ok by {
        assert(f(set.rows[r]) is Ok);
    }
    lemma_owner_of(unique_map_of(set)->Ok_0, key, value);
    if unique_map_of(set)->Ok_0.contains(entry) {
        let r = choose|r: int|
            0 <= r < set.rows.len() && f(#[trigger] set.rows[r])->Ok_0.contains(entry);
        assert(index_entries_of(set.rules, set.rows[r])->Ok_0.contains(entry));
    }
    if exists|r: int|
        0 <= r < set.rows.len() && index_entries_of(
            set.rules,
            #[trigger] set.rows[r],
        )->Ok_0.contains(entry) {
        let r = choose|r: int|
            0 <= r < set.rows.len() && index_entries_of(
                set.rules,
                #[trigger] set.rows[r],
            )->Ok_0.contains(entry);
        assert(f(set.rows[r])->Ok_0.contains(entry));
    }
}

/// The map of what rows refer to holds an owner under a key exactly where a row
/// has that reference, and then the key of that row.
pub proof fn reference_maps_hold_what_rows_refer_to(set: RowSetView, key: Path, value: Seq<u8>)
    requires
        reference_map_of(set) is Ok,
    ensures
        keyed_once(reference_map_of(set)->Ok_0),
        forall|r: int|
            0 <= r < set.rows.len() ==> references_of(set.rules, #[trigger] set.rows[r]) is Ok,
        owner_of(reference_map_of(set)->Ok_0, key) == Some(value) <==> exists|r: int|
            0 <= r < set.rows.len() && references_of(
                set.rules,
                #[trigger] set.rows[r],
            )->Ok_0.contains(EntryView { key, value }),
{
    let f = |row: RowView| references_of(set.rules, row);
    let step = reference_map_step(set.rules);
    let entry = EntryView { key, value };
    lemma_map_fold(set.rows, f, step, RowCodecError::InvalidRow, entry);
    assert forall|r: int| 0 <= r < set.rows.len() implies references_of(
        set.rules,
        #[trigger] set.rows[r],
    ) is Ok by {
        assert(f(set.rows[r]) is Ok);
    }
    lemma_owner_of(reference_map_of(set)->Ok_0, key, value);
    if reference_map_of(set)->Ok_0.contains(entry) {
        let r = choose|r: int|
            0 <= r < set.rows.len() && f(#[trigger] set.rows[r])->Ok_0.contains(entry);
        assert(references_of(set.rules, set.rows[r])->Ok_0.contains(entry));
    }
    if exists|r: int|
        0 <= r < set.rows.len() && references_of(
            set.rules,
            #[trigger] set.rows[r],
        )->Ok_0.contains(entry) {
        let r = choose|r: int|
            0 <= r < set.rows.len() && references_of(
                set.rules,
                #[trigger] set.rows[r],
            )->Ok_0.contains(entry);
        assert(f(set.rows[r])->Ok_0.contains(entry));
    }
}

/// Two rows of one map of owners never own the same key.
pub proof fn rows_do_not_share_owners(set: RowSetView, r: int, s: int, x: EntryView, y: EntryView)
    requires
        unique_map_of(set) is Ok,
        0 <= r < s < set.rows.len(),
        index_entries_of(set.rules, set.rows[r])->Ok_0.contains(x),
        index_entries_of(set.rules, set.rows[s])->Ok_0.contains(y),
    ensures
        x.key != y.key,
    decreases set.rows.len(),
{
    let init = RowSetView { rules: set.rules, rows: set.rows.drop_last() };
    let before = unique_map_of(init)->Ok_0;
    if s < set.rows.len() - 1 {
        rows_do_not_share_owners(init, r, s, x, y);
    } else {
        let entries = index_entries_of(set.rules, set.rows[s])->Ok_0;
        assert(init.rows[r] == set.rows[r]);
        unique_maps_hold_what_rows_own(init, x.key, x.value);
        assert(EntryView { key: x.key, value: x.value } == x);
        lemma_owner_of(before, x.key, x.value);
        lemma_place_fold(before, entries, RowCodecError::DuplicateUniqueKey, x);
        let k = choose|k: int| 0 <= k < entries.len() && entries[k] == y;
        assert(!owns(before, entries[k].key));
    }
}

/// Prefixes that join others are all there.
proof fn lemma_prefixes(order: Seq<EntryView>, keys: Seq<Path>, key: Path)
    ensures
        owns(prefixes_added(order, keys), key) <==> owns(order, key) || keys.contains(key),
    decreases keys.len(),
{
    if keys.len() > 0 {
        let init = keys.drop_last();
        let last = keys.last();
        let before = prefixes_added(order, init);
        lemma_prefixes(order, init, key);
        lemma_placed_owns(before, EntryView { key: last, value: Seq::empty() }, key);
        assert(keys[keys.len() - 1] == last);
        if keys.contains(key) {
            let k = choose|k: int| 0 <= k < keys.len() && keys[k] == key;
            if k < init.len() {
                assert(init[k] == key);
            }
        }
        if init.contains(key) {
            let k = choose|k: int| 0 <= k < init.len() && init[k] == key;
            assert(keys[k] == key);
        }
    }
}

/// The prefixes above every reference to rows are those of each of the rows.
pub proof fn incoming_sets_hold_what_fences_rows(set: RowSetView, key: Path)
    requires
        incoming_set_of(set) is Ok,
    ensures
        forall|r: int|
            0 <= r < set.rows.len() ==> incoming_prefixes_of(
                set.rules,
                #[trigger] set.rows[r],
            ) is Ok,
        owns(incoming_set_of(set)->Ok_0, key) <==> exists|r: int|
            0 <= r < set.rows.len() && incoming_prefixes_of(
                set.rules,
                #[trigger] set.rows[r],
            )->Ok_0.contains(key),
    decreases set.rows.len(),
{
    if set.rows.len() > 0 {
        let init = RowSetView { rules: set.rules, rows: set.rows.drop_last() };
        let last = set.rows.last();
        let before = incoming_set_of(init)->Ok_0;
        incoming_sets_hold_what_fences_rows(init, key);
        lemma_prefixes(before, incoming_prefixes_of(set.rules, last)->Ok_0, key);
        assert(set.rows[set.rows.len() - 1] == last);
        assert forall|r: int| 0 <= r < set.rows.len() implies incoming_prefixes_of(
            set.rules,
            #[trigger] set.rows[r],
        ) is Ok by {
            if r < init.rows.len() {
                assert(init.rows[r] == set.rows[r]);
            }
        }
        if owns(before, key) {
            let r = choose|r: int|
                0 <= r < init.rows.len() && incoming_prefixes_of(
                    set.rules,
                    #[trigger] init.rows[r],
                )->Ok_0.contains(key);
            assert(set.rows[r] == init.rows[r]);
        }
        if exists|r: int|
            0 <= r < set.rows.len() && incoming_prefixes_of(
                set.rules,
                #[trigger] set.rows[r],
            )->Ok_0.contains(key) {
            let r = choose|r: int|
                0 <= r < set.rows.len() && incoming_prefixes_of(
                    set.rules,
                    #[trigger] set.rows[r],
                )->Ok_0.contains(key);
            if r < init.rows.len() {
                assert(init.rows[r] == set.rows[r]);
            }
        }
    }
}

} // verus!
