//! Laws on lowered row changes: what the cells of a table hold afterwards.

use super::cells::{stored_row_frame, RowView, StoredRowView};
use super::changes::{afters, befores, TableChangesView};
use super::collide::{
    rows_are_fenced_by_what_they_hold, rows_own_what_they_hold, rows_refer_by_what_they_hold,
};
use super::error::RowCodecError;
use super::hold::{
    incoming_sets_hold_what_fences_rows, keyed_once, lemma_owner_of,
    reference_maps_hold_what_rows_refer_to, unique_maps_hold_what_rows_own,
};
use super::keys::{
    incoming_prefixes_of, index_entries_of, references_of, row_key_of, EntryView,
};
use super::lower::{
    add_entry, close_prefix, delta_keys, keys_of_delta, map_emissions, publish, remove_entry,
    retire, table_emissions, table_guards, table_maps, TableMaps,
};
use super::owners::{owner_of, owns};
use super::rules::RulesView;
use super::set::{reference_map_of, unique_map_of, RowSetView};
use crate::attempt::{lemma_try_map_ok, try_map};
use crate::key::{below, MutationView, Path};
use crate::logical::codes;
use crate::logical::codes::{label, lemma_labels};
use crate::logical::contract::GuardReason;
use crate::logical::lowering::{
    all_emit, gathered, lemma_all_concat, lemma_all_gathered, lemma_gathered_has, mutations_of,
    Emission,
};
use crate::logical::space::{
    agrees, held, left_by, lemma_freed, lemma_left_concat, lemma_put, lemma_spared, performed,
    puts_nothing_at, spares, Space,
};
use vstd::prelude::*;

verus! {

/// Whether a key lies in a section of a table.
pub open spec fn in_section(key: Path, code: &'static str) -> bool {
    key.len() >= 4 && key[3] == label(code)
}

/// Whether an emission touches only keys of a section.
spec fn stays_in(code: &'static str) -> spec_fn(Emission) -> bool {
    |emission: Emission|
        match emission {
            Emission::Put(at, _) => in_section(at, code),
            Emission::Delete(at) => in_section(at, code),
            Emission::DeletePrefix(at) => in_section(at, code),
            _ => true,
        }
}

/// Emissions of one section spare the keys of the others.
proof fn lemma_other_section(emissions: Seq<Emission>, code: &'static str, key: Path)
    requires
        all_emit(emissions, stays_in(code)),
        !in_section(key, code),
    ensures
        all_emit(emissions, spares(key)),
{
    assert forall|i: int| 0 <= i < emissions.len() implies spares(key)(#[trigger] emissions[i]) by {
        assert(stays_in(code)(emissions[i]));
        if let Emission::DeletePrefix(prefix) = emissions[i] {
            if below(key, prefix) {
                assert(key.subrange(0, prefix.len() as int)[3] == prefix[3]);
            }
        }
    }
}

/// What a key holds afterwards depends on what it held, not on other keys.
proof fn lemma_held_alone(a: Space, b: Space, mutations: Seq<MutationView>, key: Path)
    requires
        a(key) == b(key),
    ensures
        held(a, mutations, key) == held(b, mutations, key),
    decreases mutations.len(),
{
    if mutations.len() > 0 {
        lemma_held_alone(a, b, mutations.drop_last(), key);
    }
}

/// Where what comes before and behind spares a key, the middle alone counts.
proof fn lemma_middle(
    space: Space,
    a: Seq<Emission>,
    b: Seq<Emission>,
    c: Seq<Emission>,
    key: Path,
)
    requires
        all_emit(a, spares(key)),
        all_emit(c, spares(key)),
    ensures
        left_by(space, a + b + c, key) == left_by(space, b, key),
{
    lemma_left_concat(space, a + b, c, key);
    lemma_spared(performed(space, mutations_of(a + b)), c, key);
    lemma_left_concat(space, a, b, key);
    lemma_spared(space, a, key);
    lemma_held_alone(performed(space, mutations_of(a)), space, mutations_of(b), key);
}

/// Turning one map into another turns what a key holds by the one into what it
/// holds by the other.
proof fn lemma_map_exchanged(
    before: Seq<EntryView>,
    after: Seq<EntryView>,
    reason: GuardReason,
    space: Space,
    key: Path,
)
    requires
        keyed_once(before),
        keyed_once(after),
    ensures
        space(key) == owner_of(before, key) ==> left_by(
            space,
            map_emissions(before, after, reason),
            key,
        ) == owner_of(after, key),
        !owns(before, key) && !owns(after, key) ==> left_by(
            space,
            map_emissions(before, after, reason),
            key,
        ) == space(key),
{
    let removing = remove_entry(after, reason);
    let adding = add_entry(before, reason);
    let removed = gathered(before, removing);
    let added = gathered(after, adding);
    let between = performed(space, mutations_of(removed));
    lemma_left_concat(space, removed, added, key);
    if owns(after, key) {
        let value = owner_of(after, key)->Some_0;
        lemma_owner_of(after, key, value);
        let k = choose|k: int| 0 <= k < after.len() && after[k] == (EntryView { key, value });
        if owner_of(before, key) == Some(value) {
            lemma_owner_of(before, key, value);
            assert forall|i: int| 0 <= i < before.len() implies all_emit(
                removing(#[trigger] before[i]),
                spares(key),
            ) by {
                if before[i].key == key {
                    let m = choose|m: int|
                        0 <= m < before.len() && before[m] == (EntryView { key, value });
                    assert(before[i].key == before[m].key);
                }
            }
            lemma_all_gathered(before, removing, spares(key));
            assert forall|i: int| 0 <= i < after.len() implies all_emit(
                adding(#[trigger] after[i]),
                spares(key),
            ) by {
                if after[i].key == key {
                    assert(after[i].key == after[k].key);
                }
            }
            lemma_all_gathered(after, adding, spares(key));
            lemma_spared(space, removed, key);
            lemma_spared(between, added, key);
        } else {
            assert(adding(after[k])[2] == Emission::Put(key, value));
            lemma_gathered_has(after, adding, k, Emission::Put(key, value));
            assert forall|i: int| 0 <= i < after.len() implies all_emit(
                adding(#[trigger] after[i]),
                agrees(key, value),
            ) by {
                if after[i].key == key {
                    assert(after[i].key == after[k].key);
                }
            }
            lemma_all_gathered(after, adding, agrees(key, value));
            lemma_put(between, added, key, value);
        }
    } else {
        assert forall|i: int| 0 <= i < after.len() implies all_emit(
            adding(#[trigger] after[i]),
            spares(key),
        ) by {
            assert(after[i].key != key);
        }
        lemma_all_gathered(after, adding, spares(key));
        lemma_spared(between, added, key);
        if owns(before, key) {
            let k = choose|k: int| 0 <= k < before.len() && (#[trigger] before[k]).key == key;
            assert(removing(before[k])[1] == Emission::Delete(key));
            lemma_gathered_has(before, removing, k, Emission::Delete(key));
            lemma_all_gathered(before, removing, puts_nothing_at(key));
            lemma_freed(space, removed, key, Emission::Delete(key));
        } else {
            assert forall|i: int| 0 <= i < before.len() implies all_emit(
                removing(#[trigger] before[i]),
                spares(key),
            ) by {
                assert(before[i].key != key);
            }
            lemma_all_gathered(before, removing, spares(key));
            lemma_spared(space, removed, key);
        }
    }
}

/// Whether a row has a key.
pub open spec fn stands_at(rules: RulesView, row: Option<RowView>, key: Path) -> bool {
    row is Some && row_key_of(rules, row->Some_0) == Ok::<Path, RowCodecError>(key)
}

/// Whether no two changes of a table end in rows with one key.
pub open spec fn ends_apart(table: TableChangesView) -> bool {
    forall|i: int, j: int, key: Path|
        0 <= i < table.rows.len() && 0 <= j < table.rows.len() && #[trigger] stands_at(
            table.rules,
            table.rows[i].after,
            key,
        ) && #[trigger] stands_at(table.rules, table.rows[j].after, key) ==> i == j
}

/// Whether the prefix of a parent key that no row has afterwards is above a key.
pub open spec fn closed_over(maps: TableMaps, key: Path) -> bool {
    exists|i: int|
        0 <= i < maps.incoming_before.len() && !owns(
            maps.incoming_after,
            (#[trigger] maps.incoming_before[i]).key,
        ) && below(key, maps.incoming_before[i].key)
}

/// The stored form of a row under rules.
pub open spec fn stored_under(rules: RulesView, row: RowView) -> Seq<u8> {
    stored_row_frame(
        StoredRowView { schema_revision: rules.schema_revision, values: row.values },
    )
}

/// The keys of a change are those of its rows.
proof fn lemma_delta_keys(table: TableChangesView, i: int, key: Path)
    requires
        table_maps(table) is Ok,
        0 <= i < table.rows.len(),
    ensures
        delta_keys(table.rules, table.rows[i]) is Ok,
        (delta_keys(table.rules, table.rows[i])->Ok_0).0 == Some(key) <==> stands_at(
            table.rules,
            table.rows[i].before,
            key,
        ),
        (delta_keys(table.rules, table.rows[i])->Ok_0).1 == Some(key) <==> stands_at(
            table.rules,
            table.rows[i].after,
            key,
        ),
{
    lemma_try_map_ok(table.rows, keys_of_delta(table.rules));
    let found = try_map(table.rows, keys_of_delta(table.rules))->Ok_0[i];
    assert(keys_of_delta(table.rules)(table.rows[i]) == Ok::<
        (Option<Path>, Option<Path>),
        RowCodecError,
    >(found));
}

/// Rows are retired and published under their keys alone.
proof fn lemma_rows_stay(table: TableChangesView)
    requires
        table_maps(table) is Ok,
    ensures
        all_emit(gathered(table.rows, retire(table.rules)), stays_in(codes::ROWS)),
        all_emit(gathered(table.rows, publish(table.rules)), stays_in(codes::ROWS)),
{
    assert forall|i: int| 0 <= i < table.rows.len() implies all_emit(
        retire(table.rules)(#[trigger] table.rows[i]),
        stays_in(codes::ROWS),
    ) && all_emit(publish(table.rules)(table.rows[i]), stays_in(codes::ROWS)) by {
        let (before, after) = delta_keys(table.rules, table.rows[i])->Ok_0;
        lemma_delta_keys(table, i, Seq::empty());
        if let Some(key) = before {
            lemma_delta_keys(table, i, key);
            assert(key[3] == label(codes::ROWS));
        }
        if let Some(key) = after {
            lemma_delta_keys(table, i, key);
            assert(key[3] == label(codes::ROWS));
        }
    }
    lemma_all_gathered(table.rows, retire(table.rules), stays_in(codes::ROWS));
    lemma_all_gathered(table.rows, publish(table.rules), stays_in(codes::ROWS));
}

/// Turning one map into another touches only keys of the maps.
proof fn lemma_map_stays(
    before: Seq<EntryView>,
    after: Seq<EntryView>,
    reason: GuardReason,
    code: &'static str,
)
    requires
        forall|i: int| 0 <= i < before.len() ==> in_section((#[trigger] before[i]).key, code),
        forall|i: int| 0 <= i < after.len() ==> in_section((#[trigger] after[i]).key, code),
    ensures
        all_emit(map_emissions(before, after, reason), stays_in(code)),
{
    let removing = remove_entry(after, reason);
    let adding = add_entry(before, reason);
    lemma_all_gathered(before, removing, stays_in(code));
    lemma_all_gathered(after, adding, stays_in(code));
    lemma_all_concat(gathered(before, removing), gathered(after, adding), stays_in(code));
}

/// The keys of a map of owners lie in the section of owners, those of a map of
/// references in the section of references.
proof fn lemma_maps_stay(table: TableChangesView, maps: TableMaps)
    requires
        table_maps(table) == Ok::<TableMaps, RowCodecError>(maps),
    ensures
        keyed_once(maps.unique_before),
        keyed_once(maps.unique_after),
        keyed_once(maps.references_before),
        keyed_once(maps.references_after),
        forall|i: int|
            0 <= i < maps.unique_before.len() ==> in_section(
                (#[trigger] maps.unique_before[i]).key,
                codes::UNIQUE,
            ),
        forall|i: int|
            0 <= i < maps.unique_after.len() ==> in_section(
                (#[trigger] maps.unique_after[i]).key,
                codes::UNIQUE,
            ),
        forall|i: int|
            0 <= i < maps.references_before.len() ==> in_section(
                (#[trigger] maps.references_before[i]).key,
                codes::FOREIGN_REFERENCES,
            ),
        forall|i: int|
            0 <= i < maps.references_after.len() ==> in_section(
                (#[trigger] maps.references_after[i]).key,
                codes::FOREIGN_REFERENCES,
            ),
        forall|i: int|
            0 <= i < maps.incoming_before.len() ==> in_section(
                (#[trigger] maps.incoming_before[i]).key,
                codes::FOREIGN_REFERENCES,
            ),
{
    let before = RowSetView { rules: table.rules, rows: befores(table.rows) };
    let after = RowSetView { rules: table.rules, rows: afters(table.rows) };
    lemma_unique_section(before, maps.unique_before);
    lemma_unique_section(after, maps.unique_after);
    lemma_reference_section(before, maps.references_before);
    lemma_reference_section(after, maps.references_after);
    assert forall|i: int| 0 <= i < maps.incoming_before.len() implies in_section(
        (#[trigger] maps.incoming_before[i]).key,
        codes::FOREIGN_REFERENCES,
    ) by {
        let key = maps.incoming_before[i].key;
        incoming_sets_hold_what_fences_rows(before, key);
        let r = choose|r: int|
            0 <= r < before.rows.len() && incoming_prefixes_of(
                before.rules,
                #[trigger] before.rows[r],
            )->Ok_0.contains(key);
        let prefixes = incoming_prefixes_of(before.rules, before.rows[r])->Ok_0;
        rows_are_fenced_by_what_they_hold(before.rules, before.rows[r]);
        let k = choose|k: int| 0 <= k < prefixes.len() && prefixes[k] == key;
        assert(prefixes[k][3] == label(codes::FOREIGN_REFERENCES));
    }
}

/// The keys of a map of owners lie in the section of owners.
proof fn lemma_unique_section(set: RowSetView, map: Seq<EntryView>)
    requires
        unique_map_of(set) == Ok::<Seq<EntryView>, RowCodecError>(map),
    ensures
        keyed_once(map),
        forall|i: int| 0 <= i < map.len() ==> in_section((#[trigger] map[i]).key, codes::UNIQUE),
{
    unique_maps_hold_what_rows_own(set, Seq::empty(), Seq::empty());
    assert forall|i: int| 0 <= i < map.len() implies in_section(
        (#[trigger] map[i]).key,
        codes::UNIQUE,
    ) by {
        let entry = map[i];
        unique_maps_hold_what_rows_own(set, entry.key, entry.value);
        lemma_owner_of(map, entry.key, entry.value);
        assert(EntryView { key: entry.key, value: entry.value } == entry);
        assert(map.contains(entry));
        let r = choose|r: int|
            0 <= r < set.rows.len() && index_entries_of(
                set.rules,
                #[trigger] set.rows[r],
            )->Ok_0.contains(entry);
        let entries = index_entries_of(set.rules, set.rows[r])->Ok_0;
        rows_own_what_they_hold(set.rules, set.rows[r]);
        let k = choose|k: int| 0 <= k < entries.len() && entries[k] == entry;
        assert(entries[k].key[3] == label(codes::UNIQUE));
    }
}

/// The keys of a map of references lie in the section of references.
proof fn lemma_reference_section(set: RowSetView, map: Seq<EntryView>)
    requires
        reference_map_of(set) == Ok::<Seq<EntryView>, RowCodecError>(map),
    ensures
        keyed_once(map),
        forall|i: int|
            0 <= i < map.len() ==> in_section(
                (#[trigger] map[i]).key,
                codes::FOREIGN_REFERENCES,
            ),
{
    reference_maps_hold_what_rows_refer_to(set, Seq::empty(), Seq::empty());
    assert forall|i: int| 0 <= i < map.len() implies in_section(
        (#[trigger] map[i]).key,
        codes::FOREIGN_REFERENCES,
    ) by {
        let entry = map[i];
        reference_maps_hold_what_rows_refer_to(set, entry.key, entry.value);
        lemma_owner_of(map, entry.key, entry.value);
        assert(EntryView { key: entry.key, value: entry.value } == entry);
        assert(map.contains(entry));
        let r = choose|r: int|
            0 <= r < set.rows.len() && references_of(
                set.rules,
                #[trigger] set.rows[r],
            )->Ok_0.contains(entry);
        let entries = references_of(set.rules, set.rows[r])->Ok_0;
        rows_refer_by_what_they_hold(set.rules, set.rows[r]);
        let k = choose|k: int| 0 <= k < entries.len() && entries[k] == entry;
        assert(entries[k].key[3] == label(codes::FOREIGN_REFERENCES));
    }
}

/// What the rows of a table leave at a key of theirs.
proof fn lemma_rows_exchanged(table: TableChangesView, space: Space, key: Path)
    requires
        table_maps(table) is Ok,
        ends_apart(table),
    ensures
        ({
            let left = left_by(
                space,
                gathered(table.rows, retire(table.rules)) + gathered(
                    table.rows,
                    publish(table.rules),
                ),
                key,
            );
            &&& forall|i: int|
                0 <= i < table.rows.len() && #[trigger] stands_at(
                    table.rules,
                    table.rows[i].after,
                    key,
                ) ==> left == Some(stored_under(table.rules, table.rows[i].after->Some_0))
            &&& (forall|i: int|
                0 <= i < table.rows.len() ==> !#[trigger] stands_at(
                    table.rules,
                    table.rows[i].after,
                    key,
                )) ==> left == (if exists|i: int|
                0 <= i < table.rows.len() && #[trigger] stands_at(
                    table.rules,
                    table.rows[i].before,
                    key,
                ) {
                None
            } else {
                space(key)
            })
        }),
{
    let retired = gathered(table.rows, retire(table.rules));
    let published = gathered(table.rows, publish(table.rules));
    let between = performed(space, mutations_of(retired));
    lemma_left_concat(space, retired, published, key);
    assert forall|i: int|
        0 <= i < table.rows.len() && #[trigger] stands_at(
            table.rules,
            table.rows[i].after,
            key,
        ) implies left_by(space, retired + published, key) == Some(
        stored_under(table.rules, table.rows[i].after->Some_0),
    ) by {
        let value = stored_under(table.rules, table.rows[i].after->Some_0);
        lemma_delta_keys(table, i, key);
        assert(publish(table.rules)(table.rows[i])[2] == Emission::Put(key, value));
        lemma_gathered_has(table.rows, publish(table.rules), i, Emission::Put(key, value));
        assert forall|j: int| 0 <= j < table.rows.len() implies all_emit(
            publish(table.rules)(#[trigger] table.rows[j]),
            agrees(key, value),
        ) by {
            lemma_delta_keys(table, j, key);
            if stands_at(table.rules, table.rows[j].after, key) {
                assert(i == j);
            }
        }
        lemma_all_gathered(table.rows, publish(table.rules), agrees(key, value));
        lemma_put(between, published, key, value);
    }
    if forall|i: int|
        0 <= i < table.rows.len() ==> !#[trigger] stands_at(
            table.rules,
            table.rows[i].after,
            key,
        ) {
        assert forall|j: int| 0 <= j < table.rows.len() implies all_emit(
            publish(table.rules)(#[trigger] table.rows[j]),
            spares(key),
        ) by {
            lemma_delta_keys(table, j, key);
            assert(!stands_at(table.rules, table.rows[j].after, key));
        }
        lemma_all_gathered(table.rows, publish(table.rules), spares(key));
        lemma_spared(between, published, key);
        if exists|i: int|
            0 <= i < table.rows.len() && #[trigger] stands_at(
                table.rules,
                table.rows[i].before,
                key,
            ) {
            let i = choose|i: int|
                0 <= i < table.rows.len() && #[trigger] stands_at(
                    table.rules,
                    table.rows[i].before,
                    key,
                );
            lemma_delta_keys(table, i, key);
            assert(!stands_at(table.rules, table.rows[i].after, key));
            assert(retire(table.rules)(table.rows[i])[1] == Emission::Delete(key));
            lemma_gathered_has(table.rows, retire(table.rules), i, Emission::Delete(key));
            lemma_all_gathered(table.rows, retire(table.rules), puts_nothing_at(key));
            lemma_freed(space, retired, key, Emission::Delete(key));
        } else {
            assert forall|j: int| 0 <= j < table.rows.len() implies all_emit(
                retire(table.rules)(#[trigger] table.rows[j]),
                spares(key),
            ) by {
                lemma_delta_keys(table, j, key);
                assert(!stands_at(table.rules, table.rows[j].before, key));
            }
            lemma_all_gathered(table.rows, retire(table.rules), spares(key));
            lemma_spared(space, retired, key);
        }
    }
}

/// Closing the prefixes of parent keys that are gone.
proof fn lemma_closed(maps: TableMaps, space: Space, key: Path)
    ensures
        left_by(
            space,
            gathered(maps.incoming_before, close_prefix(maps.incoming_after)),
            key,
        ) == (if closed_over(maps, key) {
            None
        } else {
            space(key)
        }),
{
    let closing = close_prefix(maps.incoming_after);
    let all = gathered(maps.incoming_before, closing);
    if closed_over(maps, key) {
        let i = choose|i: int|
            0 <= i < maps.incoming_before.len() && !owns(
                maps.incoming_after,
                (#[trigger] maps.incoming_before[i]).key,
            ) && below(key, maps.incoming_before[i].key);
        let emission = Emission::DeletePrefix(maps.incoming_before[i].key);
        assert(closing(maps.incoming_before[i])[2] == emission);
        lemma_gathered_has(maps.incoming_before, closing, i, emission);
        lemma_all_gathered(maps.incoming_before, closing, puts_nothing_at(key));
        lemma_freed(space, all, key, emission);
    } else {
        assert forall|i: int| 0 <= i < maps.incoming_before.len() implies all_emit(
            closing(#[trigger] maps.incoming_before[i]),
            spares(key),
        ) by {
            if !owns(maps.incoming_after, maps.incoming_before[i].key) {
                assert(!below(key, maps.incoming_before[i].key));
            }
        }
        lemma_all_gathered(maps.incoming_before, closing, spares(key));
        lemma_spared(space, all, key);
    }
}

/// The parts of what a table's changes emit, and where each of them stays.
proof fn lemma_table_parts(table: TableChangesView, maps: TableMaps)
    requires
        table_maps(table) == Ok::<TableMaps, RowCodecError>(maps),
    ensures
        all_emit(
            gathered(table.rows, retire(table.rules)) + gathered(table.rows, publish(table.rules)),
            stays_in(codes::ROWS),
        ),
        all_emit(
            map_emissions(maps.unique_before, maps.unique_after, GuardReason::UniqueOwnership),
            stays_in(codes::UNIQUE),
        ),
        all_emit(
            map_emissions(
                maps.references_before,
                maps.references_after,
                GuardReason::ForeignReference,
            ),
            stays_in(codes::FOREIGN_REFERENCES),
        ),
        all_emit(
            gathered(maps.incoming_before, close_prefix(maps.incoming_after)),
            stays_in(codes::FOREIGN_REFERENCES),
        ),
{
    lemma_maps_stay(table, maps);
    lemma_rows_stay(table);
    lemma_all_concat(
        gathered(table.rows, retire(table.rules)),
        gathered(table.rows, publish(table.rules)),
        stays_in(codes::ROWS),
    );
    lemma_map_stays(
        maps.unique_before,
        maps.unique_after,
        GuardReason::UniqueOwnership,
        codes::UNIQUE,
    );
    lemma_map_stays(
        maps.references_before,
        maps.references_after,
        GuardReason::ForeignReference,
        codes::FOREIGN_REFERENCES,
    );
    lemma_all_gathered(
        maps.incoming_before,
        close_prefix(maps.incoming_after),
        stays_in(codes::FOREIGN_REFERENCES),
    );
}

/// Once a table's changes are carried out, the key of every row that a change
/// ends in holds the row, and the key of a row that a change starts from and
/// none ends in holds nothing. A UNIQUE key that held what the rows owned before
/// holds what they own after; so does the key of a reference, unless a parent
/// key above it is gone, which leaves it with nothing. Every other key is as it
/// was.
pub proof fn table_changes_exchange_the_cells(
    table: TableChangesView,
    maps: TableMaps,
    space: Space,
    key: Path,
)
    requires
        table_maps(table) == Ok::<TableMaps, RowCodecError>(maps),
        ends_apart(table),
    ensures
        ({
            let left = performed(space, mutations_of(table_emissions(table, maps)))(key);
            &&& in_section(key, codes::ROWS) ==> {
                &&& forall|i: int|
                    0 <= i < table.rows.len() && #[trigger] stands_at(
                        table.rules,
                        table.rows[i].after,
                        key,
                    ) ==> left == Some(stored_under(table.rules, table.rows[i].after->Some_0))
                &&& (forall|i: int|
                    0 <= i < table.rows.len() ==> !#[trigger] stands_at(
                        table.rules,
                        table.rows[i].after,
                        key,
                    )) ==> left == (if exists|i: int|
                    0 <= i < table.rows.len() && #[trigger] stands_at(
                        table.rules,
                        table.rows[i].before,
                        key,
                    ) {
                    None
                } else {
                    space(key)
                })
            }
            &&& in_section(key, codes::UNIQUE) ==> {
                &&& space(key) == owner_of(maps.unique_before, key) ==> left == owner_of(
                    maps.unique_after,
                    key,
                )
                &&& !owns(maps.unique_before, key) && !owns(maps.unique_after, key) ==> left
                    == space(key)
            }
            &&& in_section(key, codes::FOREIGN_REFERENCES) ==> {
                &&& closed_over(maps, key) ==> left is None
                &&& !closed_over(maps, key) && space(key) == owner_of(maps.references_before, key)
                    ==> left == owner_of(maps.references_after, key)
                &&& !closed_over(maps, key) && !owns(maps.references_before, key) && !owns(
                    maps.references_after,
                    key,
                ) ==> left == space(key)
            }
            &&& !in_section(key, codes::ROWS) && !in_section(key, codes::UNIQUE) && !in_section(
                key,
                codes::FOREIGN_REFERENCES,
            ) ==> left == space(key)
        }),
{
    let rows = gathered(table.rows, retire(table.rules)) + gathered(
        table.rows,
        publish(table.rules),
    );
    let uniques = map_emissions(
        maps.unique_before,
        maps.unique_after,
        GuardReason::UniqueOwnership,
    );
    let references = map_emissions(
        maps.references_before,
        maps.references_after,
        GuardReason::ForeignReference,
    );
    let closings = gathered(maps.incoming_before, close_prefix(maps.incoming_after));
    let guards = table_guards(table.rules.table);
    let all = table_emissions(table, maps);
    let none = Seq::<Emission>::empty();
    lemma_labels();
    lemma_maps_stay(table, maps);
    lemma_table_parts(table, maps);
    assert(performed(space, mutations_of(all))(key) == left_by(space, all, key));
    assert(all_emit(guards, spares(key)));
    assert(all_emit(none, spares(key)));
    if !in_section(key, codes::ROWS) {
        lemma_other_section(rows, codes::ROWS, key);
    }
    if !in_section(key, codes::UNIQUE) {
        lemma_other_section(uniques, codes::UNIQUE, key);
    }
    if !in_section(key, codes::FOREIGN_REFERENCES) {
        lemma_other_section(references, codes::FOREIGN_REFERENCES, key);
        lemma_other_section(closings, codes::FOREIGN_REFERENCES, key);
        lemma_all_concat(references, closings, spares(key));
        lemma_all_concat(references + closings, guards, spares(key));
    }
    if in_section(key, codes::ROWS) {
        lemma_all_concat(uniques, references + closings + guards, spares(key));
        assert(all =~= none + rows + (uniques + (references + closings + guards)));
        lemma_middle(space, none, rows, uniques + (references + closings + guards), key);
        lemma_rows_exchanged(table, space, key);
    } else if in_section(key, codes::UNIQUE) {
        assert(all =~= rows + uniques + (references + closings + guards));
        lemma_middle(space, rows, uniques, references + closings + guards, key);
        lemma_map_exchanged(
            maps.unique_before,
            maps.unique_after,
            GuardReason::UniqueOwnership,
            space,
            key,
        );
    } else if in_section(key, codes::FOREIGN_REFERENCES) {
        let after = performed(space, mutations_of(references));
        lemma_all_concat(rows, uniques, spares(key));
        assert(all =~= (rows + uniques) + (references + closings) + guards);
        lemma_middle(space, rows + uniques, references + closings, guards, key);
        lemma_left_concat(space, references, closings, key);
        lemma_closed(maps, after, key);
        lemma_map_exchanged(
            maps.references_before,
            maps.references_after,
            GuardReason::ForeignReference,
            space,
            key,
        );
    } else {
        lemma_all_concat(rows, uniques, spares(key));
        assert(all =~= (rows + uniques) + none + (references + closings + guards));
        lemma_middle(space, rows + uniques, none, references + closings + guards, key);
        lemma_spared(space, none, key);
    }
}

} // verus!
