//! Laws on the schema catalog: what names and identities find in it.

use crate::catalog::{
    binding_named, binding_of, bound_to, column_named, current_column_name, current_name,
    entry_by_id, entry_fault, entry_named, entry_of, new_entry, other_entry, own_bindings,
    table_by_id, table_named, without_table, BindingView, CatalogEntryView,
};
use crate::each::{first, lemma_filter_push, lemma_first};
use crate::logical::schema::definition::{column_ids, TableView};
use crate::name::canonical_bytes;
use vstd::prelude::*;

verus! {

/// A name finds a table exactly where an entry is bound to it but for case, and
/// then the first such entry's; an identity finds a table exactly where an entry
/// is that table's.
pub proof fn lookups_find_what_is_bound(
    tables: Seq<CatalogEntryView>,
    name: Seq<char>,
    id: Seq<u8>,
)
    ensures
        table_named(tables, name) is Some <==> exists|i: int|
            0 <= i < tables.len() && canonical_bytes((#[trigger] tables[i]).name)
                == canonical_bytes(name),
        table_named(tables, name) matches Some(found) ==> exists|i: int|
            0 <= i < tables.len() && (#[trigger] tables[i]).definition == found && canonical_bytes(
                tables[i].name,
            ) == canonical_bytes(name),
        table_by_id(tables, id) is Some <==> exists|i: int|
            0 <= i < tables.len() && (#[trigger] tables[i]).definition.table == id,
        table_by_id(tables, id) matches Some(found) ==> found.table == id && exists|i: int|
            0 <= i < tables.len() && (#[trigger] tables[i]).definition == found
                && current_name(tables, id) == Some(tables[i].name),
{
    lemma_first(tables, bound_to(name));
    lemma_first(tables, entry_of(id));
    if let Some(entry) = entry_named(tables, name) {
        let i = choose|i: int| 0 <= i < tables.len() && tables[i] == entry;
        assert(tables[i].definition == entry.definition);
    } else {
        assert forall|i: int| 0 <= i < tables.len() implies canonical_bytes(
            (#[trigger] tables[i]).name,
        ) != canonical_bytes(name) by {
            assert(!bound_to(name)(tables[i]));
        }
    }
    if let Some(entry) = entry_by_id(tables, id) {
        let i = choose|i: int| 0 <= i < tables.len() && tables[i] == entry;
        assert(tables[i].definition == entry.definition);
    } else {
        assert forall|i: int| 0 <= i < tables.len() implies (
        #[trigger] tables[i]).definition.table != id by {
            assert(!entry_of(id)(tables[i]));
        }
    }
}

/// One more item is found only where none was found before it.
proof fn lemma_first_push<V>(items: Seq<V>, item: V, test: spec_fn(V) -> bool)
    ensures
        first(items.push(item), test) == (match first(items, test) {
            Some(found) => Some(found),
            None => if test(item) {
                Some(item)
            } else {
                None
            },
        }),
    decreases items.len(),
{
    reveal_with_fuel(first, 2);
    let more = items.push(item);
    if items.len() == 0 {
        assert(more.drop_first() =~= Seq::<V>::empty());
        assert(more[0] == item);
    } else {
        assert(more[0] == items[0]);
        assert(more.drop_first() =~= items.drop_first().push(item));
        lemma_first_push(items.drop_first(), item, test);
    }
}

/// The one item that passes a test is found.
proof fn lemma_first_only<V>(items: Seq<V>, i: int, test: spec_fn(V) -> bool)
    requires
        0 <= i < items.len(),
        test(items[i]),
        forall|j: int| 0 <= j < items.len() && test(#[trigger] items[j]) ==> items[j] == items[i],
    ensures
        first(items, test) == Some(items[i]),
{
    lemma_first(items, test);
    let found = first(items, test)->Some_0;
    let j = choose|j: int| 0 <= j < items.len() && items[j] == found;
    assert(items[j] == items[i]);
}

/// A table that enters a catalog is found by its identity and its name, and is
/// under its own name; each of its columns is found by its identity under its
/// own name, and by its name where no other column's name binds alike. Every
/// other name and identity finds what it found before.
pub proof fn inserted_tables_are_found(
    tables: Seq<CatalogEntryView>,
    table: TableView,
    name: Seq<char>,
    id: Seq<u8>,
    c: int,
)
    requires
        entry_fault(tables, table) is None,
        0 <= c < table.columns.len(),
    ensures
        ({
            let after = tables.push(new_entry(table));
            let column = table.columns[c];
            &&& table_by_id(after, table.table) == Some(table)
            &&& table_named(after, table.name) == Some(table)
            &&& current_name(after, table.table) == Some(table.name)
            &&& current_column_name(after, table.table, column.id) == Some(column.name)
            &&& (forall|d: int|
                0 <= d < table.columns.len() && d != c ==> canonical_bytes(
                    (#[trigger] table.columns[d]).name,
                ) != canonical_bytes(column.name)) ==> column_named(
                after,
                table.table,
                column.name,
            ) == Some(column.id)
            &&& id != table.table ==> table_by_id(after, id) == table_by_id(tables, id)
                && current_name(after, id) == current_name(tables, id)
            &&& canonical_bytes(name) != canonical_bytes(table.name) ==> table_named(after, name)
                == table_named(tables, name)
        }),
{
    let entry = new_entry(table);
    let column = table.columns[c];
    let own = own_bindings(table.columns);
    let binding = BindingView { column: column.id, name: column.name };
    lemma_first_push(tables, entry, entry_of(table.table));
    lemma_first_push(tables, entry, bound_to(table.name));
    lemma_first_push(tables, entry, entry_of(id));
    lemma_first_push(tables, entry, bound_to(name));
    assert(own[c] == binding);
    assert forall|d: int| 0 <= d < own.len() && binding_of(column.id)(#[trigger] own[d]) implies own[d]
        == own[c] by {
        assert(column_ids(table.columns)[d] == column_ids(table.columns)[c]);
    }
    lemma_first_only(own, c, binding_of(column.id));
    if forall|d: int|
        0 <= d < table.columns.len() && d != c ==> canonical_bytes(
            (#[trigger] table.columns[d]).name,
        ) != canonical_bytes(column.name) {
        assert forall|d: int| 0 <= d < own.len() && binding_named(column.name)(
            #[trigger] own[d],
        ) implies own[d] == own[c] by {
            if d != c {
                assert(canonical_bytes(table.columns[d].name) != canonical_bytes(column.name));
            }
        }
        lemma_first_only(own, c, binding_named(column.name));
    }
}

/// A table whose identity or name is bound already cannot enter a catalog.
pub proof fn bound_tables_are_refused(tables: Seq<CatalogEntryView>, table: TableView, i: int)
    requires
        0 <= i < tables.len(),
        tables[i].definition.table == table.table || canonical_bytes(tables[i].name)
            == canonical_bytes(table.name),
    ensures
        entry_fault(tables, table) is Some,
{
    lemma_first(tables, entry_of(table.table));
    lemma_first(tables, bound_to(table.name));
    assert(entry_of(table.table)(tables[i]) || bound_to(table.name)(tables[i]));
}

/// A table that leaves a catalog is not found, by its identity or otherwise, and
/// every other entry stays: it is found by its identity as before.
pub proof fn removed_tables_are_not_found(
    tables: Seq<CatalogEntryView>,
    table: Seq<u8>,
    other: Seq<u8>,
)
    ensures
        table_by_id(without_table(tables, table), table) is None,
        other != table ==> entry_by_id(without_table(tables, table), other) == entry_by_id(
            tables,
            other,
        ),
        forall|entry: CatalogEntryView|
            entry.definition.table != table ==> (#[trigger] without_table(tables, table).contains(
                entry,
            ) <==> tables.contains(entry)),
    decreases tables.len(),
{
    reveal(Seq::filter);
    let after = without_table(tables, table);
    if tables.len() > 0 {
        let init = tables.drop_last();
        let last = tables.last();
        let before = without_table(init, table);
        removed_tables_are_not_found(init, table, other);
        assert(init.push(last) =~= tables);
        lemma_first_push(init, last, entry_of(other));
        lemma_first_push(before, last, entry_of(other));
        lemma_first_push(before, last, entry_of(table));
        assert forall|entry: CatalogEntryView| entry.definition.table != table implies (
        #[trigger] after.contains(entry) <==> tables.contains(entry)) by {
            if after.contains(entry) {
                let k = choose|k: int| 0 <= k < after.len() && after[k] == entry;
                if k < before.len() {
                    assert(before[k] == entry);
                    assert(before.contains(entry));
                    let m = choose|m: int| 0 <= m < init.len() && init[m] == entry;
                    assert(tables[m] == entry);
                } else {
                    assert(tables[tables.len() - 1] == entry);
                }
            }
            if tables.contains(entry) {
                let k = choose|k: int| 0 <= k < tables.len() && tables[k] == entry;
                if k < init.len() {
                    assert(init[k] == entry);
                    assert(before.contains(entry));
                    let m = choose|m: int| 0 <= m < before.len() && before[m] == entry;
                    assert(after[m] == entry);
                } else {
                    assert(after[before.len() as int] == entry);
                }
            }
        }
    }
}

/// Removing a table that has just entered a catalog restores the catalog.
pub proof fn removing_an_inserted_table_restores_the_catalog(
    tables: Seq<CatalogEntryView>,
    table: TableView,
)
    requires
        entry_fault(tables, table) is None,
    ensures
        without_table(tables.push(new_entry(table)), table.table) == tables,
{
    lemma_filter_push(tables, new_entry(table), other_entry(table.table));
    lemma_first(tables, entry_of(table.table));
    assert forall|i: int| 0 <= i < tables.len() implies (#[trigger] tables[i]).definition.table
        != table.table by {
        assert(!entry_of(table.table)(tables[i]));
    }
    lemma_without_none(tables, table.table);
}

/// Nothing leaves a catalog that does not hold the table.
proof fn lemma_without_none(tables: Seq<CatalogEntryView>, table: Seq<u8>)
    requires
        forall|i: int|
            0 <= i < tables.len() ==> (#[trigger] tables[i]).definition.table != table,
    ensures
        without_table(tables, table) == tables,
    decreases tables.len(),
{
    reveal(Seq::filter);
    if tables.len() > 0 {
        let init = tables.drop_last();
        assert(tables[tables.len() - 1] == tables.last());
        assert forall|i: int| 0 <= i < init.len() implies (#[trigger] init[i]).definition.table
            != table by {
            assert(init[i] == tables[i]);
        }
        lemma_without_none(init, table);
        assert(init.push(tables.last()) =~= tables);
    } else {
        assert(without_table(tables, table) =~= tables);
    }
}

} // verus!
