//! The order of the mutations that row changes are lowered to.

use super::cells::{DeltaView, RowView};
use super::changes::{tables_ascending, RowChangesView, TableChangesView};
use super::error::RowCodecError;
use super::keys::{images_of, row_key_of, EntryView};
use super::laws::{lemma_maps_in, pruning_drops_only_redundant_deletes};
use super::lower::{
    add_entry, changes_lowered, close_prefix, covers, delta_keys, keys_of_delta, lower_step,
    map_emissions, pruned, publish, redundant, remove_entry, retire, table_emissions,
    table_guards, table_maps,
};
use super::rules::RulesView;
use super::set::order_in;
use crate::attempt::{lemma_try_map_ok, try_fold, try_map};
use crate::key::{bytes_less, lemma_bytes_irreflexive, MutationView, Path};
use crate::logical::contract::GuardReason;
use crate::logical::layout::lemma_row_family;
use crate::logical::lowering::{gathered, mutations_of, Emission};
use crate::logical::target::{classified, TargetFamily};
use vstd::prelude::*;

verus! {

/// Whether a key is that of a row of a table.
pub open spec fn row_of(key: Path, table: Seq<u8>) -> bool {
    classified(key) == Some(TargetFamily::Row) && key[2] == table
}

/// Whether a mutation stores a row of a table.
pub open spec fn puts_row(mutation: MutationView, table: Seq<u8>) -> bool {
    mutation matches MutationView::Put { key, .. } && row_of(key, table)
}

/// Whether a mutation deletes a row of a table.
pub open spec fn deletes_row(mutation: MutationView, table: Seq<u8>) -> bool {
    mutation matches MutationView::Delete { key } && row_of(key, table)
}

/// Whether every deletion of a table's row comes before every row that is stored.
pub open spec fn deletes_first(mutations: Seq<MutationView>, table: Seq<u8>) -> bool {
    forall|i: int, j: int|
        0 <= i < mutations.len() && 0 <= j < mutations.len() && deletes_row(
            #[trigger] mutations[i],
            table,
        ) && puts_row(#[trigger] mutations[j], table) ==> i < j
}

/// Whether nothing stores a row of a table.
spec fn no_puts(mutations: Seq<MutationView>, table: Seq<u8>) -> bool {
    forall|i: int| 0 <= i < mutations.len() ==> !puts_row(#[trigger] mutations[i], table)
}

/// Whether an emission stores a row of a table.
spec fn emits_put(emission: Emission, table: Seq<u8>) -> bool {
    emission matches Emission::Put(key, _) && row_of(key, table)
}

/// Whether an emission deletes a row of a table.
spec fn emits_delete(emission: Emission, table: Seq<u8>) -> bool {
    emission matches Emission::Delete(key) && row_of(key, table)
}

/// Whether no emission stores a row of a table.
spec fn without_puts(emissions: Seq<Emission>, table: Seq<u8>) -> bool {
    forall|i: int| 0 <= i < emissions.len() ==> !emits_put(#[trigger] emissions[i], table)
}

/// Whether no emission deletes a row of a table.
spec fn without_deletes(emissions: Seq<Emission>, table: Seq<u8>) -> bool {
    forall|i: int| 0 <= i < emissions.len() ==> !emits_delete(#[trigger] emissions[i], table)
}

/// Whether emissions delete rows of a table before they store any.
spec fn ordered(emissions: Seq<Emission>, table: Seq<u8>) -> bool {
    forall|i: int, j: int|
        0 <= i < emissions.len() && 0 <= j < emissions.len() && emits_delete(
            #[trigger] emissions[i],
            table,
        ) && emits_put(#[trigger] emissions[j], table) ==> i < j
}

/// Emissions behind others: either nothing was stored before, or nothing is
/// deleted after.
proof fn lemma_concat(a: Seq<Emission>, b: Seq<Emission>, table: Seq<u8>)
    ensures
        without_puts(a, table) && without_puts(b, table) ==> without_puts(a + b, table),
        without_deletes(a, table) && without_deletes(b, table) ==> without_deletes(a + b, table),
        ordered(a, table) && ordered(b, table) && (without_puts(a, table) || without_deletes(
            b,
            table,
        )) ==> ordered(a + b, table),
{
    let all = a + b;
    assert forall|i: int| 0 <= i < all.len() implies #[trigger] all[i] == (if i < a.len() {
        a[i]
    } else {
        b[i - a.len()]
    }) by {}
}

/// What items emit stores no row where none of them does.
proof fn lemma_gathered_puts<A>(items: Seq<A>, f: spec_fn(A) -> Seq<Emission>, table: Seq<u8>)
    requires
        forall|i: int| 0 <= i < items.len() ==> without_puts(f(#[trigger] items[i]), table),
    ensures
        without_puts(gathered(items, f), table),
    decreases items.len(),
{
    if items.len() > 0 {
        let init = items.drop_last();
        assert forall|i: int| 0 <= i < init.len() implies without_puts(
            f(#[trigger] init[i]),
            table,
        ) by {
            assert(init[i] == items[i]);
        }
        lemma_gathered_puts(init, f, table);
        assert(items.last() == items[items.len() - 1]);
        lemma_concat(gathered(init, f), f(items.last()), table);
    }
}

/// What items emit deletes no row where none of them does.
proof fn lemma_gathered_deletes<A>(items: Seq<A>, f: spec_fn(A) -> Seq<Emission>, table: Seq<u8>)
    requires
        forall|i: int| 0 <= i < items.len() ==> without_deletes(f(#[trigger] items[i]), table),
    ensures
        without_deletes(gathered(items, f), table),
    decreases items.len(),
{
    if items.len() > 0 {
        let init = items.drop_last();
        assert forall|i: int| 0 <= i < init.len() implies without_deletes(
            f(#[trigger] init[i]),
            table,
        ) by {
            assert(init[i] == items[i]);
        }
        lemma_gathered_deletes(init, f, table);
        assert(items.last() == items[items.len() - 1]);
        lemma_concat(gathered(init, f), f(items.last()), table);
    }
}

/// The key of a row is that of a row of its table alone.
proof fn lemma_row_key(rules: RulesView, row: RowView, table: Seq<u8>)
    requires
        row_key_of(rules, row) is Ok,
    ensures
        row_of(row_key_of(rules, row)->Ok_0, table) <==> table == rules.table,
{
    lemma_row_family(
        rules.table,
        rules.primary_index,
        images_of(row, rules.key_parts)->Ok_0,
    );
}

/// What turns one map of another family into another touches no row.
proof fn lemma_map(
    before: Seq<EntryView>,
    after: Seq<EntryView>,
    reason: GuardReason,
    family: TargetFamily,
    table: Seq<u8>,
)
    requires
        order_in(before, family),
        order_in(after, family),
        !(family is Row),
    ensures
        without_puts(map_emissions(before, after, reason), table),
        without_deletes(map_emissions(before, after, reason), table),
{
    let remove = remove_entry(after, reason);
    let put = add_entry(before, reason);
    lemma_gathered_puts(before, remove, table);
    lemma_gathered_deletes(before, remove, table);
    lemma_gathered_puts(after, put, table);
    lemma_gathered_deletes(after, put, table);
    lemma_concat(gathered(before, remove), gathered(after, put), table);
}

/// What a table's changes emit deletes its rows before it stores any, and touches
/// no row of another table.
proof fn lemma_table(changes: TableChangesView, table: Seq<u8>)
    requires
        table_maps(changes) is Ok,
    ensures
        ({
            let own = table_emissions(changes, table_maps(changes)->Ok_0);
            &&& ordered(own, table)
            &&& table != changes.rules.table ==> without_puts(own, table) && without_deletes(
                own,
                table,
            )
        }),
{
    let maps = table_maps(changes)->Ok_0;
    let rules = changes.rules;
    lemma_maps_in(changes);
    lemma_try_map_ok(changes.rows, keys_of_delta(rules));
    assert forall|i: int| 0 <= i < changes.rows.len() implies without_puts(
        retire(rules)(#[trigger] changes.rows[i]),
        table,
    ) && without_deletes(publish(rules)(changes.rows[i]), table) && (table != rules.table
        ==> without_deletes(retire(rules)(changes.rows[i]), table) && without_puts(
        publish(rules)(changes.rows[i]),
        table,
    )) by {
        let delta: DeltaView = changes.rows[i];
        let keys = try_map(changes.rows, keys_of_delta(rules))->Ok_0[i];
        assert(delta_keys(rules, delta) == Ok::<_, RowCodecError>(keys));
        if let Some(row) = delta.before {
            lemma_row_key(rules, row, table);
        }
        if let Some(row) = delta.after {
            lemma_row_key(rules, row, table);
        }
    }
    let a = gathered(changes.rows, retire(rules));
    let b = gathered(changes.rows, publish(rules));
    lemma_gathered_puts(changes.rows, retire(rules), table);
    lemma_gathered_deletes(changes.rows, publish(rules), table);
    if table != rules.table {
        lemma_gathered_deletes(changes.rows, retire(rules), table);
        lemma_gathered_puts(changes.rows, publish(rules), table);
    }
    let c = map_emissions(maps.unique_before, maps.unique_after, GuardReason::UniqueOwnership);
    lemma_map(
        maps.unique_before,
        maps.unique_after,
        GuardReason::UniqueOwnership,
        TargetFamily::UniqueOwner,
        table,
    );
    let d = map_emissions(
        maps.references_before,
        maps.references_after,
        GuardReason::ForeignReference,
    );
    lemma_map(
        maps.references_before,
        maps.references_after,
        GuardReason::ForeignReference,
        TargetFamily::ForeignReference,
        table,
    );
    let close = close_prefix(maps.incoming_after);
    let e = gathered(maps.incoming_before, close);
    lemma_gathered_puts(maps.incoming_before, close, table);
    lemma_gathered_deletes(maps.incoming_before, close, table);
    let g = table_guards(rules.table);
    assert(without_puts(g, table) && without_deletes(g, table));
    lemma_concat(a, b, table);
    lemma_concat(a + b, c, table);
    lemma_concat(a + b + c, d, table);
    lemma_concat(a + b + c + d, e, table);
    lemma_concat(a + b + c + d + e, g, table);
}

/// Whether one of the tables is the given one.
spec fn among(tables: Seq<TableChangesView>, table: Seq<u8>) -> bool {
    exists|i: int| 0 <= i < tables.len() && (#[trigger] tables[i]).rules.table == table
}

/// What tables emit in turn deletes rows before it stores any, table by table.
proof fn lemma_tables(tables: Seq<TableChangesView>, table: Seq<u8>)
    requires
        tables_ascending(tables),
        try_fold(Seq::<Emission>::empty(), tables, lower_step()) is Ok,
    ensures
        ({
            let all = try_fold(Seq::<Emission>::empty(), tables, lower_step())->Ok_0;
            &&& ordered(all, table)
            &&& !among(tables, table) ==> without_puts(all, table) && without_deletes(all, table)
        }),
    decreases tables.len(),
{
    if tables.len() > 0 {
        let init = tables.drop_last();
        let last = tables.last();
        assert(tables_ascending(init)) by {
            assert forall|i: int, j: int| 0 <= i < j < init.len() implies bytes_less(
                (#[trigger] init[i]).rules.table,
                (#[trigger] init[j]).rules.table,
            ) by {
                assert(init[i] == tables[i] && init[j] == tables[j]);
            }
        }
        lemma_tables(init, table);
        lemma_table(last, table);
        let done = try_fold(Seq::<Emission>::empty(), init, lower_step())->Ok_0;
        let own = table_emissions(last, table_maps(last)->Ok_0);
        assert(tables[tables.len() - 1] == last);
        if among(init, table) {
            let i = choose|i: int|
                0 <= i < init.len() && (#[trigger] init[i]).rules.table == table;
            assert(tables[i] == init[i]);
            assert(bytes_less(tables[i].rules.table, tables[tables.len() - 1].rules.table));
            lemma_bytes_irreflexive(table);
        }
        lemma_concat(done, own, table);
    }
}

/// The mutations among emissions keep their order.
proof fn lemma_mutations(emissions: Seq<Emission>, table: Seq<u8>)
    ensures
        without_puts(emissions, table) ==> no_puts(mutations_of(emissions), table),
        ordered(emissions, table) ==> deletes_first(mutations_of(emissions), table),
    decreases emissions.len(),
{
    if emissions.len() > 0 {
        let init = emissions.drop_last();
        let last = emissions.last();
        assert(emissions[emissions.len() - 1] == last);
        assert forall|i: int| 0 <= i < init.len() implies #[trigger] init[i] == emissions[i] by {}
        lemma_mutations(init, table);
        let before = mutations_of(init);
        let all = mutations_of(emissions);
        if without_puts(emissions, table) {
            assert(without_puts(init, table)) by {
                assert forall|i: int| 0 <= i < init.len() implies !emits_put(
                    #[trigger] init[i],
                    table,
                ) by {
                    assert(!emits_put(emissions[i], table));
                }
            }
            assert forall|i: int| 0 <= i < all.len() implies !puts_row(
                #[trigger] all[i],
                table,
            ) by {
                if i < before.len() {
                    assert(all[i] == before[i]);
                }
            }
        }
        if ordered(emissions, table) {
            assert(ordered(init, table)) by {
                assert forall|i: int, j: int|
                    0 <= i < init.len() && 0 <= j < init.len() && emits_delete(
                        #[trigger] init[i],
                        table,
                    ) && emits_put(#[trigger] init[j], table) implies i < j by {
                    assert(init[i] == emissions[i] && init[j] == emissions[j]);
                }
            }
            if emits_delete(last, table) {
                assert(without_puts(init, table)) by {
                    assert forall|j: int| 0 <= j < init.len() implies !emits_put(
                        #[trigger] init[j],
                        table,
                    ) by {
                        assert(emits_delete(emissions[emissions.len() - 1], table));
                        assert(init[j] == emissions[j]);
                    }
                }
            }
            assert forall|i: int, j: int|
                0 <= i < all.len() && 0 <= j < all.len() && deletes_row(
                    #[trigger] all[i],
                    table,
                ) && puts_row(#[trigger] all[j], table) implies i < j by {
                if i < before.len() && j < before.len() {
                    assert(all[i] == before[i] && all[j] == before[j]);
                } else if i == before.len() {
                    assert(emits_delete(last, table));
                    assert(all[j] == before[j]);
                }
            }
        }
    }
}

/// What a filter lets through keeps its order.
proof fn lemma_filtered(
    list: Seq<MutationView>,
    keep: spec_fn(MutationView) -> bool,
    table: Seq<u8>,
)
    ensures
        no_puts(list, table) ==> no_puts(list.filter(keep), table),
        deletes_first(list, table) ==> deletes_first(list.filter(keep), table),
    decreases list.len(),
{
    reveal(Seq::filter);
    if list.len() > 0 {
        let init = list.drop_last();
        let last = list.last();
        assert(list[list.len() - 1] == last);
        assert forall|i: int| 0 <= i < init.len() implies #[trigger] init[i] == list[i] by {}
        lemma_filtered(init, keep, table);
        let before = init.filter(keep);
        let all = list.filter(keep);
        if no_puts(list, table) {
            assert forall|i: int| 0 <= i < init.len() implies !puts_row(
                #[trigger] init[i],
                table,
            ) by {
                assert(!puts_row(list[i], table));
            }
            assert forall|i: int| 0 <= i < all.len() implies !puts_row(
                #[trigger] all[i],
                table,
            ) by {
                if i < before.len() {
                    assert(all[i] == before[i]);
                }
            }
        }
        if deletes_first(list, table) {
            assert forall|i: int, j: int|
                0 <= i < init.len() && 0 <= j < init.len() && deletes_row(
                    #[trigger] init[i],
                    table,
                ) && puts_row(#[trigger] init[j], table) implies i < j by {
                assert(init[i] == list[i] && init[j] == list[j]);
            }
            if deletes_row(last, table) {
                assert forall|j: int| 0 <= j < init.len() implies !puts_row(
                    #[trigger] init[j],
                    table,
                ) by {
                    assert(deletes_row(list[list.len() - 1], table));
                    assert(init[j] == list[j]);
                }
            }
            assert forall|i: int, j: int|
                0 <= i < all.len() && 0 <= j < all.len() && deletes_row(
                    #[trigger] all[i],
                    table,
                ) && puts_row(#[trigger] all[j], table) implies i < j by {
                if i < before.len() && j < before.len() {
                    assert(all[i] == before[i] && all[j] == before[j]);
                } else if i == before.len() {
                    assert(deletes_row(last, table));
                    assert(all[j] == before[j]);
                }
            }
        }
    }
}

/// In what row changes are lowered to, every deletion of a row of a table comes
/// before every row of that table that is stored: a row can move to the key that
/// another row of the statement leaves.
pub proof fn row_deletes_come_before_row_puts(changes: RowChangesView, table: Seq<u8>)
    requires
        tables_ascending(changes.tables),
        changes_lowered(changes) is Ok,
    ensures
        deletes_first(pruned(mutations_of(changes_lowered(changes)->Ok_0)), table),
{
    let emissions = changes_lowered(changes)->Ok_0;
    lemma_tables(changes.tables, table);
    lemma_mutations(emissions, table);
    let mutations = mutations_of(emissions);
    lemma_filtered(
        mutations,
        |mutation: MutationView| !redundant(mutations, mutation),
        table,
    );
}

/// No deletion that is left is of a key that a range deletion of the list deletes
/// anyway.
pub proof fn no_redundant_delete_is_left(mutations: Seq<MutationView>, mutation: MutationView)
    requires
        pruned(mutations).contains(mutation),
    ensures
        !redundant(pruned(mutations), mutation),
{
    let left = pruned(mutations);
    pruning_drops_only_redundant_deletes(mutations, mutation);
    if redundant(left, mutation) {
        let key = mutation->Delete_key;
        let i = choose|i: int|
            0 <= i < left.len() && (#[trigger] left[i] matches MutationView::DeleteRange {
                range,
            } && covers(range, key));
        pruning_drops_only_redundant_deletes(mutations, left[i]);
        assert(left.contains(left[i]));
        let j = choose|j: int| 0 <= j < mutations.len() && mutations[j] == left[i];
        assert(mutations[j] matches MutationView::DeleteRange { range } && covers(range, key));
    }
}

} // verus!
