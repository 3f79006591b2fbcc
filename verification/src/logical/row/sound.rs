//! Laws on accepted row sets and changes: which rows can stand together.

use super::cells::{cell_columns, DeltaView, RowView};
use super::changes::{
    afters, budget_fault, canonical_fault, changed_rows, row_changes_frame, table_changes_fault,
    table_step, RowChangesView, TableChangesView,
};
use super::collide::{row_keys_collide, rows_meet};
use super::exchange::{ends_apart, stands_at};
use super::keys::{index_entries_of, references_of, row_key_of, EntryView};
use super::rules::{child_columns, part_columns, rules_fault, RulesView};
use super::set::{
    lemma_joined_keys, row_joined, row_set_fault, rows_joined, unique_key_step, RowSetView,
};
use crate::attempt::try_fold;
use crate::key::{bytes_less, lemma_bytes_irreflexive, Path};
use crate::logical::types::Affinity;
use vstd::prelude::*;

verus! {

/// Accepted rules have a key; no column stands twice in the key, in an index, or
/// in a foreign key, and none of these is empty; no identity is shared; and a
/// column stands for the rowid only as the whole key, under integer affinity,
/// and in no index.
pub proof fn accepted_rules_are_sound(rules: RulesView, a: int, b: int, i: int, j: int)
    requires
        rules_fault(rules) is None,
    ensures
        rules.key_parts.len() > 0,
        0 <= a < b < rules.key_parts.len() ==> rules.key_parts[a].column
            != rules.key_parts[b].column,
        0 <= a < rules.key_parts.len() && rules.key_parts[a].rowid_alias ==> rules.key_parts.len()
            == 1 && rules.key_parts[a].affinity == Affinity::Integer,
        0 <= i < j < rules.indexes.len() ==> rules.indexes[i].index != rules.indexes[j].index,
        0 <= i < rules.indexes.len() ==> {
            let parts = rules.indexes[i].parts;
            &&& parts.len() > 0
            &&& 0 <= a < b < parts.len() ==> parts[a].column != parts[b].column
            &&& 0 <= a < parts.len() ==> !parts[a].rowid_alias
        },
        0 <= i < j < rules.foreign_keys.len() ==> rules.foreign_keys[i].id
            != rules.foreign_keys[j].id,
        0 <= i < rules.foreign_keys.len() ==> {
            let parts = rules.foreign_keys[i].key_parts;
            &&& parts.len() > 0
            &&& 0 <= a < b < parts.len() ==> parts[a].child_column != parts[b].child_column
        },
        0 <= i < j < rules.incoming_foreign_keys.len() ==> rules.incoming_foreign_keys[i].id
            != rules.incoming_foreign_keys[j].id,
        0 <= i < rules.incoming_foreign_keys.len() ==> {
            let parts = rules.incoming_foreign_keys[i].parent_key_parts;
            &&& parts.len() > 0
            &&& 0 <= a < b < parts.len() ==> parts[a].column != parts[b].column
        },
{
    let columns = part_columns(rules.key_parts);
    if 0 <= a < b < rules.key_parts.len() {
        assert(columns[a] != columns[b]);
    }
    if 0 <= i < rules.indexes.len() {
        let index = rules.indexes[i];
        let columns = part_columns(index.parts);
        if 0 <= a < b < index.parts.len() {
            assert(columns[a] != columns[b]);
        }
        if 0 <= a < index.parts.len() {
            assert(!index.parts[a].rowid_alias);
        }
        if i < j < rules.indexes.len() {
            let other = rules.indexes[j];
            assert(index.index != other.index);
        }
    }
    if 0 <= i < rules.foreign_keys.len() {
        let key = rules.foreign_keys[i];
        let columns = child_columns(key.key_parts);
        if 0 <= a < b < key.key_parts.len() {
            assert(columns[a] != columns[b]);
        }
        if i < j < rules.foreign_keys.len() {
            let other = rules.foreign_keys[j];
            assert(key.id != other.id);
        }
    }
    if 0 <= i < rules.incoming_foreign_keys.len() {
        let key = rules.incoming_foreign_keys[i];
        let columns = part_columns(key.parent_key_parts);
        if 0 <= a < b < key.parent_key_parts.len() {
            assert(columns[a] != columns[b]);
        }
        if i < j < rules.incoming_foreign_keys.len() {
            let other = rules.incoming_foreign_keys[j];
            assert(key.id != other.id);
        }
    }
}

/// UNIQUE keys that joined others were new, and are all there.
proof fn lemma_unique_joined(seen: Set<Path>, entries: Seq<EntryView>, k: int)
    requires
        try_fold(seen, entries, unique_key_step()) is Ok,
    ensures
        0 <= k < entries.len() ==> !seen.contains(entries[k].key) && try_fold(
            seen,
            entries,
            unique_key_step(),
        )->Ok_0.contains(entries[k].key),
        forall|key: Path|
            seen.contains(key) ==> #[trigger] try_fold(
                seen,
                entries,
                unique_key_step(),
            )->Ok_0.contains(key),
    decreases entries.len(),
{
    if entries.len() > 0 {
        lemma_unique_joined(seen, entries.drop_last(), k);
        if k == entries.len() - 1 {
            let before = try_fold(seen, entries.drop_last(), unique_key_step())->Ok_0;
            assert(!before.contains(entries[k].key));
        }
    }
}

/// Rows that stand together have images for all their keys, and their UNIQUE
/// keys were all seen.
proof fn lemma_rows_seen(rules: RulesView, rows: Seq<RowView>, i: int, k: int)
    requires
        rows_joined(rules, rows) is Ok,
        0 <= i < rows.len(),
    ensures
        row_key_of(rules, rows[i]) is Ok,
        index_entries_of(rules, rows[i]) is Ok,
        references_of(rules, rows[i]) is Ok,
        0 <= k < index_entries_of(rules, rows[i])->Ok_0.len() ==> rows_joined(
            rules,
            rows,
        )->Ok_0.1.contains(index_entries_of(rules, rows[i])->Ok_0[k].key),
    decreases rows.len(),
{
    let init = rows.drop_last();
    let last = rows.last();
    let seen = rows_joined(rules, init)->Ok_0;
    let entries = index_entries_of(rules, last)->Ok_0;
    assert(row_joined(rules, seen, last) is Ok);
    if i < init.len() {
        lemma_rows_seen(rules, init, i, k);
        lemma_unique_joined(seen.1, entries, 0);
    } else {
        lemma_unique_joined(seen.1, entries, k);
    }
}

/// Rows that stand together have the same columns in the same order, and every
/// key that they own or refer to has an image. No two of them meet in their
/// primary keys, and none owns a value of a UNIQUE index that another owns.
pub proof fn rows_stand_together_apart(set: RowSetView, i: int, j: int, k: int, l: int)
    requires
        row_set_fault(set) is None,
        0 <= i < j < set.rows.len(),
    ensures
        rules_fault(set.rules) is None,
        cell_columns(set.rows[i].values) == cell_columns(set.rows[j].values),
        row_key_of(set.rules, set.rows[i]) is Ok,
        index_entries_of(set.rules, set.rows[i]) is Ok,
        references_of(set.rules, set.rows[i]) is Ok,
        row_key_of(set.rules, set.rows[i]) != row_key_of(set.rules, set.rows[j]),
        !rows_meet(
            set.rows[i],
            set.rules.key_parts,
            set.rows[j],
            set.rules.key_parts,
        ),
        0 <= k < index_entries_of(set.rules, set.rows[i])->Ok_0.len() && 0 <= l < index_entries_of(
            set.rules,
            set.rows[j],
        )->Ok_0.len() ==> index_entries_of(set.rules, set.rows[i])->Ok_0[k].key
            != index_entries_of(set.rules, set.rows[j])->Ok_0[l].key,
{
    lemma_apart(set.rules, set.rows, i, j, k, l);
    row_keys_collide(set.rules, set.rows[i], set.rows[j]);
    let first = set.rows[i];
    let second = set.rows[j];
    assert(cell_columns(first.values) == cell_columns(set.rows[0].values));
    assert(cell_columns(second.values) == cell_columns(set.rows[0].values));
}

/// Two rows that stand together share neither a key nor a UNIQUE key.
proof fn lemma_apart(rules: RulesView, rows: Seq<RowView>, i: int, j: int, k: int, l: int)
    requires
        rows_joined(rules, rows) is Ok,
        0 <= i < j < rows.len(),
    ensures
        row_key_of(rules, rows[i]) is Ok,
        row_key_of(rules, rows[j]) is Ok,
        index_entries_of(rules, rows[i]) is Ok,
        references_of(rules, rows[i]) is Ok,
        row_key_of(rules, rows[i]) != row_key_of(rules, rows[j]),
        0 <= k < index_entries_of(rules, rows[i])->Ok_0.len() && 0 <= l < index_entries_of(
            rules,
            rows[j],
        )->Ok_0.len() ==> index_entries_of(rules, rows[i])->Ok_0[k].key != index_entries_of(
            rules,
            rows[j],
        )->Ok_0[l].key,
    decreases rows.len(),
{
    let init = rows.drop_last();
    let last = rows.last();
    assert(init[i] == rows[i]);
    if j < init.len() {
        lemma_apart(rules, init, i, j, k, l);
        assert(init[j] == rows[j]);
    } else {
        let seen = rows_joined(rules, init)->Ok_0;
        assert(row_joined(rules, seen, last) is Ok);
        lemma_rows_seen(rules, init, i, k);
        lemma_joined_keys(rules, init, i);
        lemma_unique_joined(seen.1, index_entries_of(rules, last)->Ok_0, l);
    }
}

/// Where the row after a change stands among all rows after changes.
spec fn after_place(rows: Seq<DeltaView>, i: int) -> int {
    afters(rows.subrange(0, i)).len() as int
}

/// A change that ends in a row puts it at its place.
proof fn lemma_after_place(rows: Seq<DeltaView>, i: int)
    requires
        0 <= i < rows.len(),
        rows[i].after is Some,
    ensures
        0 <= after_place(rows, i) < afters(rows).len(),
        afters(rows)[after_place(rows, i)] == rows[i].after->Some_0,
        after_place(rows, i + 1) == after_place(rows, i) + 1,
    decreases rows.len(),
{
    let init = rows.drop_last();
    let next = rows.subrange(0, i + 1);
    assert(next.drop_last() =~= rows.subrange(0, i));
    assert(next.last() == rows[i]);
    if i < init.len() {
        lemma_after_place(init, i);
        assert(init.subrange(0, i) =~= rows.subrange(0, i));
        assert(init[i] == rows[i]);
    } else {
        assert(rows.subrange(0, i) =~= init);
    }
}

/// Later changes stand behind earlier ones.
proof fn lemma_after_order(rows: Seq<DeltaView>, i: int, j: int)
    requires
        0 <= i <= j <= rows.len(),
    ensures
        after_place(rows, i) <= after_place(rows, j),
    decreases j - i,
{
    if i < j {
        lemma_after_order(rows, i, j - 1);
        let next = rows.subrange(0, j);
        assert(next.drop_last() =~= rows.subrange(0, j - 1));
    }
}

/// Every accepted change of a table changes something, and no two of them end in
/// rows with one key.
pub proof fn accepted_changes_end_apart(table: TableChangesView, i: int)
    requires
        table_changes_fault(table) is None,
        0 <= i < table.rows.len(),
    ensures
        table.rows[i].before != table.rows[i].after,
        table.rows[i].before is Some || table.rows[i].after is Some,
        ends_apart(table),
{
    let delta = table.rows[i];
    assert(delta.before != delta.after);
    assert forall|a: int, b: int, key: Path|
        0 <= a < table.rows.len() && 0 <= b < table.rows.len() && #[trigger] stands_at(
            table.rules,
            table.rows[a].after,
            key,
        ) && #[trigger] stands_at(table.rules, table.rows[b].after, key) implies a == b by {
        if a < b {
            lemma_ends(table, a, b);
        } else if b < a {
            lemma_ends(table, b, a);
        }
    }
}

/// Two changes end in rows with different keys.
proof fn lemma_ends(table: TableChangesView, a: int, b: int)
    requires
        table_changes_fault(table) is None,
        0 <= a < b < table.rows.len(),
        table.rows[a].after is Some,
        table.rows[b].after is Some,
    ensures
        row_key_of(table.rules, table.rows[a].after->Some_0) != row_key_of(
            table.rules,
            table.rows[b].after->Some_0,
        ),
{
    let rows = afters(table.rows);
    lemma_after_place(table.rows, a);
    lemma_after_place(table.rows, b);
    lemma_after_order(table.rows, a + 1, b);
    lemma_apart(
        table.rules,
        rows,
        after_place(table.rows, a),
        after_place(table.rows, b),
        0,
        0,
    );
}

/// Tables pass their step exactly where each of them is sound.
proof fn lemma_tables_sound(tables: Seq<TableChangesView>)
    ensures
        try_fold((), tables, table_step()) is Ok <==> forall|t: int|
            0 <= t < tables.len() ==> table_changes_fault(#[trigger] tables[t]) is None,
    decreases tables.len(),
{
    if tables.len() > 0 {
        let init = tables.drop_last();
        lemma_tables_sound(init);
        assert(tables[tables.len() - 1] == tables.last());
        if try_fold((), tables, table_step()) is Ok {
            assert forall|t: int| 0 <= t < tables.len() implies table_changes_fault(
                #[trigger] tables[t],
            ) is None by {
                if t < init.len() {
                    assert(init[t] == tables[t]);
                }
            }
        }
        if forall|t: int|
            0 <= t < tables.len() ==> table_changes_fault(#[trigger] tables[t]) is None {
            assert forall|t: int| 0 <= t < init.len() implies table_changes_fault(
                #[trigger] init[t],
            ) is None by {
                assert(init[t] == tables[t]);
            }
            assert(table_changes_fault(tables[tables.len() - 1]) is None);
        }
    }
}

/// The changes of a statement are accepted only where there is a table, no table
/// stands twice, and the changes of each are sound.
pub proof fn accepted_statements_are_sound(tables: Seq<TableChangesView>, t: int, u: int)
    requires
        canonical_fault(tables) is None,
        0 <= t < u < tables.len(),
    ensures
        tables[t].rules.table != tables[u].rules.table,
        table_changes_fault(tables[t]) is None,
        table_changes_fault(tables[u]) is None,
{
    lemma_tables_sound(tables);
    let first = tables[t];
    let second = tables[u];
    assert(bytes_less(first.rules.table, second.rules.table));
    lemma_bytes_irreflexive(first.rules.table);
}

/// Changes that are within a budget change no more rows than it allows, and their
/// frame is no longer than it allows; changes that are not are refused.
pub proof fn budgets_bound_rows_and_bytes(
    changes: RowChangesView,
    max_changes: nat,
    max_bytes: nat,
)
    ensures
        budget_fault(changes, max_changes, max_bytes) is None ==> changed_rows(changes.tables)
            <= max_changes && row_changes_frame(changes).len() <= max_bytes,
        changed_rows(changes.tables) > max_changes || row_changes_frame(changes).len() > max_bytes
            ==> budget_fault(changes, max_changes, max_bytes) is Some,
{
}

} // verus!
