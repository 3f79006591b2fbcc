//! What carrying changes out, and back again, makes of a table's rows.

use super::apply::{arrange_step, arranged, nothing_arranged, overlaid, overlaid_cell, turned, ArrangementView};
use super::cells::{value_in, CellView, DeltaView, RowView};
use super::changes::{
    afters, befores, canonical_fault, table_changes_fault, table_step, tables_ascending,
    RowChangesView, TableChangesView,
};
use super::keys::row_key_of;
use super::rules::RulesView;
use super::set::lemma_joined_keys;
use crate::attempt::try_fold;
use crate::key::{bytes_less, lemma_bytes_irreflexive};
use vstd::multiset::Multiset;
use vstd::prelude::*;

verus! {

/// The rows of a table once changes are carried out on it.
pub open spec fn carried(rows: Multiset<RowView>, done: ArrangementView) -> Multiset<RowView> {
    rows.sub(done.removed.to_multiset()).sub(befores(done.stable).to_multiset()).add(
        afters(done.stable).to_multiset(),
    ).add(done.inserted.to_multiset())
}

/// Whether two images name the same columns in the same order, each once.
pub open spec fn aligned(a: RowView, b: RowView) -> bool {
    &&& a.values.len() == b.values.len()
    &&& forall|i: int| 0 <= i < a.values.len() ==> (#[trigger] a.values[i]).column == b.values[i].column
    &&& forall|i: int, j: int|
        0 <= i < j < b.values.len() ==> (#[trigger] b.values[i]).column != (
        #[trigger] b.values[j]).column
}

/// Whether the two images of every row that is changed name the same columns.
pub open spec fn images_aligned(rows: Seq<DeltaView>) -> bool {
    forall|i: int|
        0 <= i < rows.len() && (#[trigger] rows[i]).before is Some && rows[i].after is Some
            ==> aligned(rows[i].before->Some_0, rows[i].after->Some_0) && aligned(
            rows[i].after->Some_0,
            rows[i].before->Some_0,
        )
}

/// A column that is named once has the value of the cell that names it.
proof fn lemma_value_at(values: Seq<CellView>, i: int)
    requires
        0 <= i < values.len(),
        forall|j: int, k: int|
            0 <= j < k < values.len() ==> (#[trigger] values[j]).column != (#[trigger] values[k]).column,
    ensures
        value_in(values, values[i].column) == Some(values[i].value),
    decreases values.len(),
{
    if i > 0 {
        let rest = values.drop_first();
        assert(rest[i - 1] == values[i]);
        assert forall|j: int, k: int| 0 <= j < k < rest.len() implies (#[trigger] rest[j]).column != (
        #[trigger] rest[k]).column by {
            assert(rest[j] == values[j + 1]);
            assert(rest[k] == values[k + 1]);
        }
        lemma_value_at(rest, i - 1);
    }
}

/// A row with every value of another is the other.
proof fn lemma_overlaid_aligned(before: RowView, after: RowView)
    requires
        aligned(before, after),
    ensures
        overlaid(before, after) == after,
{
    assert forall|i: int| 0 <= i < before.values.len() implies #[trigger] overlaid_cell(after)(
        before.values[i],
    ) == after.values[i] by {
        lemma_value_at(after.values, i);
    }
    assert(overlaid(before, after).values =~= after.values);
}

/// Turning changes around swaps the images before and after them.
proof fn lemma_turned_images(rows: Seq<DeltaView>)
    ensures
        befores(rows.map_values(turned(true))) == afters(rows),
        afters(rows.map_values(turned(true))) == befores(rows),
    decreases rows.len(),
{
    let back = rows.map_values(turned(true));
    if rows.len() > 0 {
        assert(back.drop_last() =~= rows.drop_last().map_values(turned(true)));
        lemma_turned_images(rows.drop_last());
    }
}

/// Changes that are not turned around are as they were.
proof fn lemma_unturned(rows: Seq<DeltaView>)
    ensures
        rows.map_values(turned(false)) == rows,
{
    assert(rows.map_values(turned(false)) =~= rows);
}

/// The images of one more change.
proof fn lemma_images_push(rows: Seq<DeltaView>, delta: DeltaView)
    ensures
        befores(rows.push(delta)) == (match delta.before {
            Some(row) => befores(rows).push(row),
            None => befores(rows),
        }),
        afters(rows.push(delta)) == (match delta.after {
            Some(row) => afters(rows).push(row),
            None => afters(rows),
        }),
{
    assert(rows.push(delta).drop_last() =~= rows);
}

/// The images before a part of the changes are the first of all of them.
proof fn lemma_befores_prefix(rows: Seq<DeltaView>)
    requires
        rows.len() > 0,
    ensures
        befores(rows.drop_last()).len() <= befores(rows).len(),
        forall|i: int|
            0 <= i < befores(rows.drop_last()).len() ==> #[trigger] befores(rows)[i] == befores(
                rows.drop_last(),
            )[i],
        rows.last().before matches Some(row) ==> befores(rows).len() == befores(
            rows.drop_last(),
        ).len() + 1 && befores(rows)[befores(rows.drop_last()).len() as int] == row,
{
}

/// What is removed or updated are the images before the changes, and what is
/// inserted or updated to are those after them.
proof fn lemma_arranged_images(
    rules: RulesView,
    rows: Seq<DeltaView>,
    current: Seq<RowView>,
)
    requires
        images_aligned(rows),
        befores(rows).len() <= current.len(),
        forall|i: int| 0 <= i < befores(rows).len() ==> #[trigger] current[i] == befores(rows)[i],
        try_fold(nothing_arranged(), rows, arrange_step(rules, current)) is Ok,
    ensures
        ({
            let done = try_fold(nothing_arranged(), rows, arrange_step(rules, current))->Ok_0;
            &&& done.next == befores(rows).len()
            &&& done.removed.to_multiset().add(befores(done.stable).to_multiset()) == befores(
                rows,
            ).to_multiset()
            &&& afters(done.stable).to_multiset().add(done.inserted.to_multiset()) == afters(
                rows,
            ).to_multiset()
        }),
    decreases rows.len(),
{
    broadcast use vstd::seq_lib::group_to_multiset_ensures;

    let step = arrange_step(rules, current);
    if rows.len() == 0 {
        assert(befores(rows) =~= Seq::<RowView>::empty());
        assert(Seq::<RowView>::empty().to_multiset().add(Seq::<RowView>::empty().to_multiset())
            =~= Seq::<RowView>::empty().to_multiset());
    } else {
        let first = rows.drop_last();
        let delta = rows.last();
        lemma_befores_prefix(rows);
        assert forall|i: int| 0 <= i < befores(first).len() implies #[trigger] current[i] == befores(
            first,
        )[i] by {
            assert(befores(rows)[i] == befores(first)[i]);
        }
        assert(images_aligned(first)) by {
            assert forall|i: int|
                0 <= i < first.len() && (#[trigger] first[i]).before is Some
                    && first[i].after is Some implies aligned(
                first[i].before->Some_0,
                first[i].after->Some_0,
            ) && aligned(first[i].after->Some_0, first[i].before->Some_0) by {
                assert(first[i] == rows[i]);
            }
        }
        lemma_arranged_images(rules, first, current);
        let held = try_fold(nothing_arranged(), first, step)->Ok_0;
        let done = try_fold(nothing_arranged(), rows, step)->Ok_0;
        assert(step(held, delta) == Ok::<ArrangementView, crate::error::ErrorView>(done));
        lemma_images_push(held.stable, delta);
        let b = befores(held.stable);
        let a = afters(held.stable);
        match (delta.before, delta.after) {
            (Some(before), Some(after)) => {
                assert(rows[rows.len() - 1] == delta);
                assert(current[held.next] == before);
                lemma_overlaid_aligned(before, after);
                if row_key_of(rules, before)->Ok_0 == row_key_of(rules, after)->Ok_0 {
                    assert(held.removed.to_multiset().add(b.push(before).to_multiset())
                        =~= held.removed.to_multiset().add(b.to_multiset()).insert(before));
                    assert(a.push(after).to_multiset().add(held.inserted.to_multiset())
                        =~= a.to_multiset().add(held.inserted.to_multiset()).insert(after));
                } else {
                    assert(held.removed.push(before).to_multiset().add(b.to_multiset())
                        =~= held.removed.to_multiset().add(b.to_multiset()).insert(before));
                    assert(a.to_multiset().add(held.inserted.push(after).to_multiset())
                        =~= a.to_multiset().add(held.inserted.to_multiset()).insert(after));
                }
            },
            (Some(before), None) => {
                assert(current[held.next] == before);
                assert(held.removed.push(before).to_multiset().add(b.to_multiset())
                    =~= held.removed.to_multiset().add(b.to_multiset()).insert(before));
            },
            (None, Some(after)) => {
                assert(a.to_multiset().add(held.inserted.push(after).to_multiset())
                    =~= a.to_multiset().add(held.inserted.to_multiset()).insert(after));
            },
            (None, None) => {},
        }
    }
}

/// Carrying changes out on a table that holds the images before them, next to
/// other rows, leaves the images after them next to the same other rows. Carrying
/// them out backwards turns the images after them into those before them.
pub proof fn changes_replace_their_images(
    changes: TableChangesView,
    reverse: bool,
    other: Multiset<RowView>,
)
    requires
        images_aligned(changes.rows),
        ({
            let rows = changes.rows.map_values(turned(reverse));
            arranged(changes, reverse, befores(rows)) is Ok
        }),
    ensures
        ({
            let rows = changes.rows.map_values(turned(reverse));
            carried(
                other.add(befores(rows).to_multiset()),
                arranged(changes, reverse, befores(rows))->Ok_0,
            ) == other.add(afters(rows).to_multiset())
        }),
{
    broadcast use vstd::seq_lib::group_to_multiset_ensures;

    let rows = changes.rows.map_values(turned(reverse));
    assert(images_aligned(rows)) by {
        assert forall|i: int|
            0 <= i < rows.len() && (#[trigger] rows[i]).before is Some
                && rows[i].after is Some implies aligned(
            rows[i].before->Some_0,
            rows[i].after->Some_0,
        ) && aligned(rows[i].after->Some_0, rows[i].before->Some_0) by {
            assert(rows[i] == turned(reverse)(changes.rows[i]));
            assert(changes.rows[i].before is Some && changes.rows[i].after is Some);
        }
    }
    lemma_arranged_images(changes.rules, rows, befores(rows));
    let done = arranged(changes, reverse, befores(rows))->Ok_0;
    let removed = done.removed.to_multiset();
    let old = befores(done.stable).to_multiset();
    let new = afters(done.stable).to_multiset();
    let inserted = done.inserted.to_multiset();
    assert(removed.add(old) == befores(rows).to_multiset());
    assert(new.add(inserted) == afters(rows).to_multiset());
    assert(carried(other.add(befores(rows).to_multiset()), done) =~= other.add(
        afters(rows).to_multiset(),
    )) by {
        assert forall|x: RowView| #[trigger] carried(
            other.add(removed.add(old)),
            done,
        ).count(x) == other.add(new.add(inserted)).count(x) by {}
    }
}

/// Changes that are carried out and then undone leave every row of the table as
/// it was.
pub proof fn undoing_changes_restores_the_rows(
    changes: TableChangesView,
    other: Multiset<RowView>,
)
    requires
        images_aligned(changes.rows),
        arranged(changes, false, befores(changes.rows)) is Ok,
        arranged(changes, true, afters(changes.rows)) is Ok,
    ensures
        ({
            let before = other.add(befores(changes.rows).to_multiset());
            let after = carried(before, arranged(changes, false, befores(changes.rows))->Ok_0);
            &&& after == other.add(afters(changes.rows).to_multiset())
            &&& carried(after, arranged(changes, true, afters(changes.rows))->Ok_0) == before
        }),
{
    lemma_unturned(changes.rows);
    lemma_turned_images(changes.rows);
    changes_replace_their_images(changes, false, other);
    changes_replace_their_images(changes, true, other);
}

/// The rows of every table once the changes of a statement are carried out, table
/// by table.
pub open spec fn tables_carried(
    rows: Map<Seq<u8>, Multiset<RowView>>,
    tables: Seq<TableChangesView>,
) -> Map<Seq<u8>, Multiset<RowView>>
    decreases tables.len(),
{
    if tables.len() == 0 {
        rows
    } else {
        let held = tables_carried(rows, tables.drop_last());
        let changes = tables.last();
        held.insert(
            changes.rules.table,
            carried(
                held[changes.rules.table],
                arranged(changes, false, befores(changes.rows))->Ok_0,
            ),
        )
    }
}

/// The rows of every table once the changes of a statement are undone, the last
/// table first.
pub open spec fn tables_restored(
    rows: Map<Seq<u8>, Multiset<RowView>>,
    tables: Seq<TableChangesView>,
) -> Map<Seq<u8>, Multiset<RowView>>
    decreases tables.len(),
{
    if tables.len() == 0 {
        rows
    } else {
        let changes = tables.last();
        tables_restored(
            rows.insert(
                changes.rules.table,
                carried(
                    rows[changes.rules.table],
                    arranged(changes, true, afters(changes.rows))->Ok_0,
                ),
            ),
            tables.drop_last(),
        )
    }
}

/// Whether the stored rows of a table hold what its changes start from, under
/// the columns that the changes were captured with.
pub open spec fn applicable(
    rows: Map<Seq<u8>, Multiset<RowView>>,
    changes: TableChangesView,
) -> bool {
    &&& rows.dom().contains(changes.rules.table)
    &&& befores(changes.rows).to_multiset().subset_of(rows[changes.rules.table])
    &&& images_aligned(changes.rows)
}

/// The images of every change are among those of all of them.
proof fn lemma_among(rows: Seq<DeltaView>, i: int)
    requires
        0 <= i < rows.len(),
    ensures
        rows[i].before matches Some(row) ==> befores(rows).contains(row),
        rows[i].after matches Some(row) ==> afters(rows).contains(row),
    decreases rows.len(),
{
    let init = rows.drop_last();
    if i < init.len() {
        lemma_among(init, i);
        if let Some(row) = rows[i].before {
            let k = choose|k: int| 0 <= k < befores(init).len() && befores(init)[k] == row;
            assert(befores(rows)[k] == row);
        }
        if let Some(row) = rows[i].after {
            let k = choose|k: int| 0 <= k < afters(init).len() && afters(init)[k] == row;
            assert(afters(rows)[k] == row);
        }
    } else {
        if let Some(row) = rows[i].before {
            assert(befores(rows)[befores(init).len() as int] == row);
        }
        if let Some(row) = rows[i].after {
            assert(afters(rows)[afters(init).len() as int] == row);
        }
    }
}

/// Whether a change has an image, and every image of it a key.
spec fn delta_keyed(rules: RulesView, delta: DeltaView) -> bool {
    &&& delta.before is Some || delta.after is Some
    &&& delta.before matches Some(row) ==> row_key_of(rules, row) is Ok
    &&& delta.after matches Some(row) ==> row_key_of(rules, row) is Ok
}

/// The images of sound changes have keys.
proof fn lemma_sound_keyed(changes: TableChangesView, i: int)
    requires
        table_changes_fault(changes) is None,
        0 <= i < changes.rows.len(),
    ensures
        delta_keyed(changes.rules, changes.rows[i]),
{
    let rules = changes.rules;
    let delta = changes.rows[i];
    assert(delta.before != delta.after);
    lemma_among(changes.rows, i);
    if let Some(row) = delta.before {
        let all = befores(changes.rows);
        let k = choose|k: int| 0 <= k < all.len() && all[k] == row;
        lemma_joined_keys(rules, all, k);
    }
    if let Some(row) = delta.after {
        let all = afters(changes.rows);
        let k = choose|k: int| 0 <= k < all.len() && all[k] == row;
        lemma_joined_keys(rules, all, k);
    }
}

/// Changes whose images have keys can be arranged.
proof fn lemma_keyed_arranged(rules: RulesView, rows: Seq<DeltaView>, current: Seq<RowView>)
    requires
        forall|i: int| 0 <= i < rows.len() ==> delta_keyed(rules, #[trigger] rows[i]),
    ensures
        try_fold(nothing_arranged(), rows, arrange_step(rules, current)) is Ok,
    decreases rows.len(),
{
    if rows.len() > 0 {
        let init = rows.drop_last();
        assert forall|i: int| 0 <= i < init.len() implies delta_keyed(
            rules,
            #[trigger] init[i],
        ) by {
            assert(init[i] == rows[i]);
        }
        assert(delta_keyed(rules, rows[rows.len() - 1]));
        lemma_keyed_arranged(rules, init, current);
    }
}

/// Sound changes can be carried out, and undone: no image of them lacks a key.
pub proof fn sound_changes_are_arranged(
    changes: TableChangesView,
    reverse: bool,
    current: Seq<RowView>,
)
    requires
        table_changes_fault(changes) is None,
    ensures
        arranged(changes, reverse, current) is Ok,
{
    let rows = changes.rows.map_values(turned(reverse));
    assert forall|i: int| 0 <= i < rows.len() implies delta_keyed(
        changes.rules,
        #[trigger] rows[i],
    ) by {
        lemma_sound_keyed(changes, i);
    }
    lemma_keyed_arranged(changes.rules, rows, current);
}

/// The changes of every table of a statement are sound.
proof fn lemma_tables_sound(tables: Seq<TableChangesView>, i: int)
    requires
        try_fold((), tables, table_step()) is Ok,
        0 <= i < tables.len(),
    ensures
        table_changes_fault(tables[i]) is None,
    decreases tables.len(),
{
    if i < tables.len() - 1 {
        lemma_tables_sound(tables.drop_last(), i);
    }
}

/// Tables that a statement does not change keep their rows.
proof fn lemma_untouched(
    rows: Map<Seq<u8>, Multiset<RowView>>,
    tables: Seq<TableChangesView>,
    table: Seq<u8>,
)
    requires
        rows.dom().contains(table),
        forall|i: int| 0 <= i < tables.len() ==> (#[trigger] tables[i]).rules.table != table,
    ensures
        tables_carried(rows, tables).dom().contains(table),
        tables_carried(rows, tables)[table] == rows[table],
    decreases tables.len(),
{
    if tables.len() > 0 {
        let init = tables.drop_last();
        assert forall|i: int| 0 <= i < init.len() implies (#[trigger] init[i]).rules.table
            != table by {
            assert(init[i] == tables[i]);
        }
        assert(tables[tables.len() - 1] == tables.last());
        lemma_untouched(rows, init, table);
    }
}

/// Carrying sound changes of distinct tables out and undoing them leaves every row
/// of every table as it was.
proof fn lemma_undone(
    rows: Map<Seq<u8>, Multiset<RowView>>,
    tables: Seq<TableChangesView>,
)
    requires
        tables_ascending(tables),
        forall|i: int|
            0 <= i < tables.len() ==> applicable(rows, #[trigger] tables[i])
                && table_changes_fault(tables[i]) is None,
    ensures
        tables_restored(tables_carried(rows, tables), tables) == rows,
    decreases tables.len(),
{
    if tables.len() > 0 {
        let init = tables.drop_last();
        let changes = tables.last();
        let table = changes.rules.table;
        let end = tables.len() - 1;
        assert(tables[end] == changes);
        assert forall|i: int| 0 <= i < init.len() implies applicable(rows, #[trigger] init[i])
            && table_changes_fault(init[i]) is None && init[i].rules.table != table by {
            assert(init[i] == tables[i]);
            assert(bytes_less(tables[i].rules.table, tables[end].rules.table));
            lemma_bytes_irreflexive(table);
        }
        assert(tables_ascending(init)) by {
            assert forall|i: int, j: int| 0 <= i < j < init.len() implies bytes_less(
                (#[trigger] init[i]).rules.table,
                (#[trigger] init[j]).rules.table,
            ) by {
                assert(init[i] == tables[i] && init[j] == tables[j]);
            }
        }
        let held = tables_carried(rows, init);
        lemma_untouched(rows, init, table);
        let old = befores(changes.rows).to_multiset();
        let other = held[table].sub(old);
        assert(other.add(old) =~= held[table]);
        sound_changes_are_arranged(changes, false, befores(changes.rows));
        sound_changes_are_arranged(changes, true, afters(changes.rows));
        undoing_changes_restores_the_rows(changes, other);
        let done = tables_carried(rows, tables);
        let undone = done.insert(
            table,
            carried(done[table], arranged(changes, true, afters(changes.rows))->Ok_0),
        );
        assert(undone =~= held);
        lemma_undone(rows, init);
    }
}

/// A statement whose changes are carried out and then undone leaves every row of
/// every table as it was.
pub proof fn undoing_a_statement_restores_every_table(
    rows: Map<Seq<u8>, Multiset<RowView>>,
    changes: RowChangesView,
)
    requires
        canonical_fault(changes.tables) is None,
        forall|i: int|
            0 <= i < changes.tables.len() ==> applicable(rows, #[trigger] changes.tables[i]),
    ensures
        tables_restored(tables_carried(rows, changes.tables), changes.tables) == rows,
{
    assert forall|i: int| 0 <= i < changes.tables.len() implies applicable(
        rows,
        #[trigger] changes.tables[i],
    ) && table_changes_fault(changes.tables[i]) is None by {
        lemma_tables_sound(changes.tables, i);
    }
    lemma_undone(rows, changes.tables);
}

} // verus!
