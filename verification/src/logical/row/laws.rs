//! What holds of lowered row changes as a whole.

use super::cells::RowView;
use super::changes::{afters, befores, RowChangesView, TableChangesView};
use super::error::RowCodecError;
use super::keys::{
    incoming_prefixes_of, incoming_step, index_entries_of, reference_step, references_of,
    row_key_of, tuple_images, unique_step, EntryView,
};
use super::lower::{
    add_entry, changes_lowered, close_prefix, delta_keys, keys_of_delta, lower_step, map_emissions,
    pruned, publish, redundant, remove_entry, retire, table_emissions, table_guards, table_maps,
};
use super::rules::{ForeignKeyView, IncomingView, IndexView, RulesView};
use super::set::{
    incoming_set_step, lemma_place_in, lemma_placed_in, order_in, prefixes_added,
    reference_map_step, unique_map_step,
};
use crate::attempt::{lemma_try_map_ok, try_fold, try_map};
use crate::key::{MutationView, Path};
use crate::logical::contract::{requires_guard, GuardContract, GuardReason, OperationFamily};
use crate::logical::guard::compiled_fault;
use crate::logical::layout::{
    active_primary_index_path, lemma_active_primary_index_family, lemma_reference_family,
    lemma_reference_prefix_family, lemma_row_family, lemma_unique_family,
    lemma_write_revision_family, write_revision_path,
};
use crate::logical::lowering::{
    emission_guarded, emits_guard, emits_required, gathered, lemma_emissions_compile,
    lemma_sound_concat, lemma_sound_gathered, mutations_of, plan_of, sound, Emission,
};
use crate::logical::target::{classified, TargetFamily};
use vstd::prelude::*;

verus! {

/// A written and deleted key is sound.
proof fn lemma_sound_delete(key: Path, reason: GuardReason, family: TargetFamily)
    requires
        classified(key) == Some(family),
        (reason is RowIdentity && family is Row) || (reason is UniqueOwnership
            && family is UniqueOwner) || (reason is ForeignReference && family is ForeignReference),
    ensures
        sound(OperationFamily::RowChanges, seq![Emission::Write(key, reason)]),
        sound(OperationFamily::RowChanges, seq![Emission::Write(key, reason), Emission::Delete(key)]),
{
    let list = seq![Emission::Write(key, reason), Emission::Delete(key)];
    assert(list[0] == Emission::Write(key, reason));
    assert(list.contains(Emission::Write(key, reason)));
    assert(emission_guarded(OperationFamily::RowChanges, list, list[1]));
}

/// A guarded and stored key is sound.
proof fn lemma_sound_put(key: Path, value: Seq<u8>, reason: GuardReason, family: TargetFamily)
    requires
        classified(key) == Some(family),
        (reason is RowIdentity && family is Row) || (reason is UniqueOwnership
            && family is UniqueOwner) || (reason is ForeignReference && family is ForeignReference),
    ensures
        sound(OperationFamily::RowChanges,
            seq![
                Emission::Invariant(key, reason),
                Emission::Write(key, reason),
                Emission::Put(key, value),
            ],
        ),
{
    let list = seq![
        Emission::Invariant(key, reason),
        Emission::Write(key, reason),
        Emission::Put(key, value),
    ];
    assert(list[0] == Emission::Invariant(key, reason));
    assert(list[1] == Emission::Write(key, reason));
    assert(list.contains(Emission::Invariant(key, reason)));
    assert(list.contains(Emission::Write(key, reason)));
    assert(emission_guarded(OperationFamily::RowChanges, list, list[2]));
}

/// A closed prefix is sound.
proof fn lemma_sound_prefix(key: Path)
    requires
        classified(key) == Some(TargetFamily::ForeignReference),
    ensures
        sound(OperationFamily::RowChanges,
            seq![
                Emission::Invariant(key, GuardReason::ForeignChildren),
                Emission::Write(key, GuardReason::ForeignChildren),
                Emission::DeletePrefix(key),
            ],
        ),
{
    let list = seq![
        Emission::Invariant(key, GuardReason::ForeignChildren),
        Emission::Write(key, GuardReason::ForeignChildren),
        Emission::DeletePrefix(key),
    ];
    assert(list[0] == Emission::Invariant(key, GuardReason::ForeignChildren));
    assert(list[1] == Emission::Write(key, GuardReason::ForeignChildren));
    assert(list.contains(Emission::Invariant(key, GuardReason::ForeignChildren)));
    assert(list.contains(Emission::Write(key, GuardReason::ForeignChildren)));
    assert(emission_guarded(OperationFamily::RowChanges, list, list[2]));
}

/// What turns one map into another is sound.
proof fn lemma_sound_map(
    before: Seq<EntryView>,
    after: Seq<EntryView>,
    reason: GuardReason,
    family: TargetFamily,
)
    requires
        order_in(before, family),
        order_in(after, family),
        (reason is UniqueOwnership && family is UniqueOwner) || (reason is ForeignReference
            && family is ForeignReference),
    ensures
        sound(OperationFamily::RowChanges, map_emissions(before, after, reason)),
{
    let remove = remove_entry(after, reason);
    assert forall|i: int| 0 <= i < before.len() implies sound(OperationFamily::RowChanges, remove(#[trigger] before[i])) by {
        lemma_sound_delete(before[i].key, reason, family);
    }
    lemma_sound_gathered(OperationFamily::RowChanges, before, remove);
    let put = add_entry(before, reason);
    assert forall|i: int| 0 <= i < after.len() implies sound(OperationFamily::RowChanges, put(#[trigger] after[i])) by {
        lemma_sound_put(after[i].key, after[i].value, reason, family);
    }
    lemma_sound_gathered(OperationFamily::RowChanges, after, put);
    lemma_sound_concat(OperationFamily::RowChanges, gathered(before, remove), gathered(after, put));
}

/// UNIQUE entries of a row lie in their family.
proof fn lemma_unique_entries(table: Seq<u8>, owner: Seq<u8>, row: RowView, indexes: Seq<IndexView>)
    ensures
        try_fold(Seq::<EntryView>::empty(), indexes, unique_step(table, owner, row)) matches Ok(
            list,
        ) ==> order_in(list, TargetFamily::UniqueOwner),
    decreases indexes.len(),
{
    if indexes.len() > 0 {
        lemma_unique_entries(table, owner, row, indexes.drop_last());
        if let Ok(Some(images)) = tuple_images(row, indexes.last().parts) {
            lemma_unique_family(table, indexes.last().index, images);
        }
    }
}

/// References of a row lie in their family.
proof fn lemma_reference_entries(
    rules: RulesView,
    owner: Seq<u8>,
    child_images: Path,
    row: RowView,
    foreign_keys: Seq<ForeignKeyView>,
)
    ensures
        try_fold(
            Seq::<EntryView>::empty(),
            foreign_keys,
            reference_step(rules, owner, child_images, row),
        ) matches Ok(list) ==> order_in(list, TargetFamily::ForeignReference),
    decreases foreign_keys.len(),
{
    if foreign_keys.len() > 0 {
        lemma_reference_entries(rules, owner, child_images, row, foreign_keys.drop_last());
        let last = foreign_keys.last();
        if let Ok(Some(images)) = tuple_images(row, super::keys::child_parts(last.key_parts)) {
            lemma_reference_family(
                last.parent_table,
                last.id,
                last.parent_index,
                images,
                rules.primary_index,
                child_images,
            );
        }
    }
}

/// Prefixes above a row's references lie in their family.
proof fn lemma_incoming_entries(rules: RulesView, row: RowView, incoming: Seq<IncomingView>)
    ensures
        try_fold(Seq::<Path>::empty(), incoming, incoming_step(rules, row)) matches Ok(list)
            ==> forall|i: int|
            0 <= i < list.len() ==> classified(#[trigger] list[i]) == Some(
                TargetFamily::ForeignReference,
            ),
    decreases incoming.len(),
{
    if incoming.len() > 0 {
        lemma_incoming_entries(rules, row, incoming.drop_last());
        let last = incoming.last();
        if let Ok(Some(images)) = tuple_images(row, last.parent_key_parts) {
            lemma_reference_prefix_family(rules.table, last.id, last.parent_index, images);
        }
    }
}

/// The UNIQUE map of rows lies in its family.
proof fn lemma_unique_map(rules: RulesView, rows: Seq<RowView>)
    ensures
        try_fold(Seq::<EntryView>::empty(), rows, unique_map_step(rules)) matches Ok(order)
            ==> order_in(order, TargetFamily::UniqueOwner),
    decreases rows.len(),
{
    if rows.len() > 0 {
        lemma_unique_map(rules, rows.drop_last());
        let row = rows.last();
        if let Ok(key) = row_key_of(rules, row) {
            lemma_unique_entries(rules.table, crate::key::path_bytes(key), row, rules.indexes);
            if let (Ok(order), Ok(entries)) = (
                try_fold(Seq::<EntryView>::empty(), rows.drop_last(), unique_map_step(rules)),
                index_entries_of(rules, row),
            ) {
                lemma_placed_in(
                    order,
                    entries,
                    RowCodecError::DuplicateUniqueKey,
                    TargetFamily::UniqueOwner,
                );
            }
        }
    }
}

/// The reference map of rows lies in its family.
proof fn lemma_reference_map(rules: RulesView, rows: Seq<RowView>)
    ensures
        try_fold(Seq::<EntryView>::empty(), rows, reference_map_step(rules)) matches Ok(order)
            ==> order_in(order, TargetFamily::ForeignReference),
    decreases rows.len(),
{
    if rows.len() > 0 {
        lemma_reference_map(rules, rows.drop_last());
        let row = rows.last();
        if let Ok(key) = row_key_of(rules, row) {
            lemma_reference_entries(
                rules,
                crate::key::path_bytes(key),
                super::keys::images_of(row, rules.key_parts)->Ok_0,
                row,
                rules.foreign_keys,
            );
            if let (Ok(order), Ok(entries)) = (
                try_fold(Seq::<EntryView>::empty(), rows.drop_last(), reference_map_step(rules)),
                references_of(rules, row),
            ) {
                lemma_placed_in(
                    order,
                    entries,
                    RowCodecError::InvalidRow,
                    TargetFamily::ForeignReference,
                );
            }
        }
    }
}

/// Added prefixes keep the others in their family.
proof fn lemma_prefixes_in(order: Seq<EntryView>, keys: Seq<Path>)
    requires
        order_in(order, TargetFamily::ForeignReference),
        forall|i: int|
            0 <= i < keys.len() ==> classified(#[trigger] keys[i]) == Some(
                TargetFamily::ForeignReference,
            ),
    ensures
        order_in(prefixes_added(order, keys), TargetFamily::ForeignReference),
    decreases keys.len(),
{
    if keys.len() > 0 {
        let init = keys.drop_last();
        assert forall|i: int| 0 <= i < init.len() implies classified(#[trigger] init[i]) == Some(
            TargetFamily::ForeignReference,
        ) by {
            assert(init[i] == keys[i]);
        }
        lemma_prefixes_in(order, init);
        let last = keys[keys.len() - 1];
        lemma_place_in(
            prefixes_added(order, init),
            EntryView { key: last, value: Seq::empty() },
            TargetFamily::ForeignReference,
        );
    }
}

/// The prefix set of rows lies in its family.
proof fn lemma_incoming_set(rules: RulesView, rows: Seq<RowView>)
    ensures
        try_fold(Seq::<EntryView>::empty(), rows, incoming_set_step(rules)) matches Ok(order)
            ==> order_in(order, TargetFamily::ForeignReference),
    decreases rows.len(),
{
    if rows.len() > 0 {
        lemma_incoming_set(rules, rows.drop_last());
        let row = rows.last();
        lemma_incoming_entries(rules, row, rules.incoming_foreign_keys);
        if let (Ok(order), Ok(keys)) = (
            try_fold(Seq::<EntryView>::empty(), rows.drop_last(), incoming_set_step(rules)),
            incoming_prefixes_of(rules, row),
        ) {
            lemma_prefixes_in(order, keys);
        }
    }
}

/// The key maps of a table lie in their families.
pub(crate) proof fn lemma_maps_in(table: TableChangesView)
    requires
        table_maps(table) is Ok,
    ensures
        ({
            let maps = table_maps(table)->Ok_0;
            &&& order_in(maps.unique_before, TargetFamily::UniqueOwner)
            &&& order_in(maps.unique_after, TargetFamily::UniqueOwner)
            &&& order_in(maps.references_before, TargetFamily::ForeignReference)
            &&& order_in(maps.references_after, TargetFamily::ForeignReference)
            &&& order_in(maps.incoming_before, TargetFamily::ForeignReference)
            &&& order_in(maps.incoming_after, TargetFamily::ForeignReference)
        }),
{
    let rules = table.rules;
    lemma_unique_map(rules, befores(table.rows));
    lemma_unique_map(rules, afters(table.rows));
    lemma_reference_map(rules, befores(table.rows));
    lemma_reference_map(rules, afters(table.rows));
    lemma_incoming_set(rules, befores(table.rows));
    lemma_incoming_set(rules, afters(table.rows));
}

/// What a table's changes emit is sound.
proof fn lemma_table_sound(table: TableChangesView)
    requires
        table_maps(table) is Ok,
    ensures
        sound(OperationFamily::RowChanges, table_emissions(table, table_maps(table)->Ok_0)),
{
    let maps = table_maps(table)->Ok_0;
    let rules = table.rules;
    lemma_maps_in(table);
    lemma_try_map_ok(table.rows, keys_of_delta(rules));
    assert forall|i: int| 0 <= i < table.rows.len() implies sound(
        OperationFamily::RowChanges,
        retire(rules)(#[trigger] table.rows[i]),
    ) && sound(OperationFamily::RowChanges, publish(rules)(table.rows[i])) by {
        let delta = table.rows[i];
        let keys = try_map(table.rows, keys_of_delta(rules))->Ok_0[i];
        assert(delta_keys(rules, delta) == Ok::<_, RowCodecError>(keys));
        if let Some(row) = delta.before {
            let images = super::keys::images_of(row, rules.key_parts)->Ok_0;
            lemma_row_family(rules.table, rules.primary_index, images);
            lemma_sound_delete(
                row_key_of(rules, row)->Ok_0,
                GuardReason::RowIdentity,
                TargetFamily::Row,
            );
        }
        if let Some(row) = delta.after {
            let images = super::keys::images_of(row, rules.key_parts)->Ok_0;
            lemma_row_family(rules.table, rules.primary_index, images);
            lemma_sound_put(
                row_key_of(rules, row)->Ok_0,
                super::cells::stored_row_frame(
                    super::cells::StoredRowView {
                        schema_revision: rules.schema_revision,
                        values: row.values,
                    },
                ),
                GuardReason::RowIdentity,
                TargetFamily::Row,
            );
        }
    }
    lemma_sound_gathered(OperationFamily::RowChanges, table.rows, retire(rules));
    lemma_sound_gathered(OperationFamily::RowChanges, table.rows, publish(rules));
    lemma_sound_map(
        maps.unique_before,
        maps.unique_after,
        GuardReason::UniqueOwnership,
        TargetFamily::UniqueOwner,
    );
    lemma_sound_map(
        maps.references_before,
        maps.references_after,
        GuardReason::ForeignReference,
        TargetFamily::ForeignReference,
    );
    let close = close_prefix(maps.incoming_after);
    assert forall|i: int| 0 <= i < maps.incoming_before.len() implies sound(OperationFamily::RowChanges,
        close(#[trigger] maps.incoming_before[i]),
    ) by {
        lemma_sound_prefix(maps.incoming_before[i].key);
    }
    lemma_sound_gathered(OperationFamily::RowChanges, maps.incoming_before, close);
    lemma_active_primary_index_family(rules.table);
    lemma_write_revision_family(rules.table);
    let a = gathered(table.rows, retire(rules));
    let b = gathered(table.rows, publish(rules));
    let c = map_emissions(maps.unique_before, maps.unique_after, GuardReason::UniqueOwnership);
    let d = map_emissions(
        maps.references_before,
        maps.references_after,
        GuardReason::ForeignReference,
    );
    let e = gathered(maps.incoming_before, close);
    lemma_sound_concat(OperationFamily::RowChanges, a, b);
    lemma_sound_concat(OperationFamily::RowChanges, a + b, c);
    lemma_sound_concat(OperationFamily::RowChanges, a + b + c, d);
    lemma_sound_concat(OperationFamily::RowChanges, a + b + c + d, e);
    lemma_sound_concat(OperationFamily::RowChanges, a + b + c + d + e, table_guards(rules.table));
}

/// The guards that every row operation must emit are among a table's.
proof fn lemma_table_required(table: TableChangesView, before: Seq<Emission>)
    requires
        table_maps(table) is Ok,
    ensures
        emits_required(
            OperationFamily::RowChanges,
            before + table_emissions(table, table_maps(table)->Ok_0),
        ),
{
    let own = table_emissions(table, table_maps(table)->Ok_0);
    let whole = before + own;
    let guards = table_guards(table.rules.table);
    let n = whole.len();
    assert(whole[n - 2] == guards[0]);
    assert(whole[n - 1] == guards[1]);
    let primary = active_primary_index_path(table.rules.table);
    let revision = write_revision_path(table.rules.table);
    lemma_active_primary_index_family(table.rules.table);
    lemma_write_revision_family(table.rules.table);
    assert(whole.contains(Emission::Invariant(primary, GuardReason::PrimaryIndex)));
    assert(whole.contains(Emission::Invariant(revision, GuardReason::WriteContract)));
    assert forall|contract: GuardContract|
        contract.operation == OperationFamily::RowChanges && #[trigger] requires_guard(
            contract,
        ) implies exists|key: Path|
        #[trigger] classified(key) == Some(contract.target) && emits_guard(
            whole,
            key,
            contract.class,
            contract.reason,
        ) by {
        if contract.reason is PrimaryIndex {
            assert(classified(primary) == Some(contract.target));
            assert(emits_guard(whole, primary, contract.class, contract.reason));
        } else {
            assert(classified(revision) == Some(contract.target));
            assert(emits_guard(whole, revision, contract.class, contract.reason));
        }
    }
}

/// What tables emit in turn is sound, and includes what is required.
proof fn lemma_tables_sound(tables: Seq<TableChangesView>)
    ensures
        try_fold(Seq::<Emission>::empty(), tables, lower_step()) matches Ok(emissions) ==> sound(OperationFamily::RowChanges,
            emissions,
        ) && (tables.len() > 0 ==> emits_required(OperationFamily::RowChanges, emissions)),
    decreases tables.len(),
{
    if tables.len() > 0 {
        lemma_tables_sound(tables.drop_last());
        if let (Ok(done), Ok(maps)) = (
            try_fold(Seq::<Emission>::empty(), tables.drop_last(), lower_step()),
            table_maps(tables.last()),
        ) {
            lemma_table_sound(tables.last());
            lemma_sound_concat(OperationFamily::RowChanges, done, table_emissions(tables.last(), maps));
            lemma_table_required(tables.last(), done);
        }
    }
}

/// A filtered list holds what the list holds and the filter lets through.
proof fn lemma_filter_member<A>(list: Seq<A>, keep: spec_fn(A) -> bool, item: A)
    ensures
        list.filter(keep).contains(item) <==> list.contains(item) && keep(item),
    decreases list.len(),
{
    reveal(Seq::filter);
    if list.len() > 0 {
        let init = list.drop_last();
        let last = list.last();
        lemma_filter_member(init, keep, item);
        assert(list =~= init.push(last));
        assert(list.contains(item) <==> init.contains(item) || item == last) by {
            if init.contains(item) {
                let i = choose|i: int| 0 <= i < init.len() && init[i] == item;
                assert(list[i] == item);
            }
            if list.contains(item) && item != last {
                let i = choose|i: int| 0 <= i < list.len() && list[i] == item;
                assert(init[i] == item);
            }
            assert(list[list.len() - 1] == last);
        }
        let kept = init.filter(keep);
        if keep(last) {
            assert(list.filter(keep) == kept.push(last));
            assert(kept.push(last).contains(item) <==> kept.contains(item) || item == last) by {
                if kept.contains(item) {
                    let i = choose|i: int| 0 <= i < kept.len() && kept[i] == item;
                    assert(kept.push(last)[i] == item);
                }
                assert(kept.push(last)[kept.len() as int] == last);
                if kept.push(last).contains(item) && item != last {
                    let i = choose|i: int|
                        0 <= i < kept.push(last).len() && kept.push(last)[i] == item;
                    assert(kept[i] == item);
                }
            }
        }
    }
}

/// A list without redundant deletions holds nothing new, and lacks nothing else.
pub proof fn pruning_drops_only_redundant_deletes(
    mutations: Seq<MutationView>,
    mutation: MutationView,
)
    ensures
        pruned(mutations).contains(mutation) <==> mutations.contains(mutation) && !redundant(
            mutations,
            mutation,
        ),
{
    let keep = |m: MutationView| !redundant(mutations, m);
    lemma_filter_member(mutations, keep, mutation);
}

/// Lowered row changes stay within the contract of row operations: every
/// mutation is permitted and guarded, also after redundant deletions are gone.
pub proof fn lowered_changes_compile(changes: RowChangesView)
    requires
        changes.tables.len() > 0,
        changes_lowered(changes) is Ok,
    ensures
        compiled_fault(
            OperationFamily::RowChanges,
            pruned(mutations_of(changes_lowered(changes)->Ok_0)),
            plan_of(OperationFamily::RowChanges, changes_lowered(changes)->Ok_0),
        ) is None,
{
    lemma_tables_sound(changes.tables);
    let emissions = changes_lowered(changes)->Ok_0;
    let mutations = mutations_of(emissions);
    assert forall|i: int| 0 <= i < pruned(mutations).len() implies mutations.contains(
        #[trigger] pruned(mutations)[i],
    ) by {
        pruning_drops_only_redundant_deletes(mutations, pruned(mutations)[i]);
        assert(pruned(mutations).contains(pruned(mutations)[i]));
    }
    lemma_emissions_compile(OperationFamily::RowChanges, emissions, pruned(mutations));
}

} // verus!
