//! What evolving a table definition keeps and undoes.

use super::definition::{column_ids, definition_sound, CheckView, TableView};
use super::error::SchemaCodecError;
use super::evolve::{
    column_of, evolved, lemma_evolved_twice, other_check, other_column, owned_check, removable,
    with_column, without_column,
};
use super::statement::{CreateCheckView, CreateColumnView};
use super::table::{column_by_id, identified};
use crate::attempt::{lemma_try_map_ok, try_map};
use crate::each::{lemma_filter_push, lemma_first};
use crate::identity::random_uuid;
use vstd::prelude::*;

verus! {

/// Whether nothing in a table mentions an identity.
pub open spec fn unmentioned(table: TableView, id: Seq<u8>) -> bool {
    &&& !column_ids(table.columns).contains(id)
    &&& forall|i: int|
        0 <= i < table.unique_constraints.len()
            ==> !(#[trigger] table.unique_constraints[i]).columns.contains(id)
    &&& forall|i: int|
        0 <= i < table.indexes.len() ==> !(#[trigger] table.indexes[i]).columns.contains(id)
    &&& forall|i: int|
        0 <= i < table.foreign_keys.len() ==> !(#[trigger] table.foreign_keys[i]).columns.contains(
            id,
        )
    &&& forall|i: int|
        0 <= i < table.checks.len() ==> !(#[trigger] table.checks[i]).columns.contains(id)
            && table.checks[i].owner != Some(id)
}

/// Items that all pass a test are all kept.
proof fn lemma_filter_all<V>(items: Seq<V>, test: spec_fn(V) -> bool)
    requires
        forall|i: int| 0 <= i < items.len() ==> test(#[trigger] items[i]),
    ensures
        items.filter(test) == items,
    decreases items.len(),
{
    reveal(Seq::filter);
    if items.len() > 0 {
        assert forall|i: int| 0 <= i < items.drop_last().len() implies test(
            #[trigger] items.drop_last()[i],
        ) by {
            assert(items.drop_last()[i] == items[i]);
        }
        lemma_filter_all(items.drop_last(), test);
        assert(test(items[items.len() - 1]));
        assert(items.drop_last().push(items.last()) =~= items);
    }
}

/// Items behind others that all fail a test are all dropped.
proof fn lemma_filter_none<V>(items: Seq<V>, more: Seq<V>, test: spec_fn(V) -> bool)
    requires
        forall|i: int| 0 <= i < items.len() ==> test(#[trigger] items[i]),
        forall|i: int| 0 <= i < more.len() ==> !test(#[trigger] more[i]),
    ensures
        (items + more).filter(test) == items,
    decreases more.len(),
{
    if more.len() == 0 {
        assert(items + more =~= items);
        lemma_filter_all(items, test);
    } else {
        let rest = more.drop_last();
        let last = more[more.len() - 1];
        assert(!test(last));
        assert forall|i: int| 0 <= i < rest.len() implies !test(#[trigger] rest[i]) by {
            assert(rest[i] == more[i]);
        }
        lemma_filter_none(items, rest, test);
        let all = items + rest;
        lemma_filter_push(all, last, test);
        assert(all.push(last) =~= items + more);
    }
}

/// Removing the column that was just added gives the table back, its revision
/// and its CHECKs with it.
pub proof fn removing_an_added_column_restores_the_table(
    table: TableView,
    id: Seq<u8>,
    column: CreateColumnView,
    checks: Seq<CreateCheckView>,
)
    requires
        definition_sound(table),
        random_uuid(table.schema_revision),
        unmentioned(table, id),
        column.primary_key is None,
        with_column(table, id, column, checks) is Ok,
    ensures
        without_column(with_column(table, id, column, checks)->Ok_0, id) == Ok::<
            TableView,
            SchemaCodecError,
        >(table),
{
    let next = with_column(table, id, column, checks)->Ok_0;
    let added = column_of(id, column);
    let columns = table.columns.push(added);
    let owned = try_map(checks, owned_check(columns, id))->Ok_0;
    lemma_try_map_ok(checks, owned_check(columns, id));
    assert forall|i: int| 0 <= i < owned.len() implies (#[trigger] owned[i]).owner == Some(id) by {
        assert(owned_check(columns, id)(checks[i]) == Ok::<CheckView, SchemaCodecError>(owned[i]));
    }
    assert forall|i: int| 0 <= i < table.columns.len() implies other_column(id)(
        #[trigger] table.columns[i],
    ) by {
        assert(column_ids(table.columns)[i] == table.columns[i].id);
    }
    lemma_filter_all(table.columns, other_column(id));
    lemma_filter_push(table.columns, added, other_column(id));
    assert(next.columns.filter(other_column(id)) == table.columns);
    lemma_filter_none(table.checks, owned, other_check(id));
    assert(next.checks.filter(other_check(id)) == table.checks);
    lemma_evolved_twice(table.schema_revision, id);
    lemma_first(columns, identified(id));
    assert(identified(id)(columns[table.columns.len() as int]));
    let found = column_by_id(next.columns, id)->Some_0;
    let k = choose|k: int| 0 <= k < columns.len() && columns[k] == found;
    assert(k == table.columns.len()) by {
        if k < table.columns.len() {
            assert(column_ids(table.columns)[k] == id);
        }
    }
    assert forall|i: int|
        0 <= i < next.checks.len() && (#[trigger] next.checks[i]).columns.contains(
            id,
        ) implies next.checks[i].owner == Some(id) by {
        if i < table.checks.len() {
            assert(next.checks[i] == table.checks[i]);
        } else {
            assert(next.checks[i] == owned[i - table.checks.len()]);
        }
    }
    assert(removable(next, id));
    let back = TableView {
        columns: next.columns.filter(other_column(id)),
        checks: next.checks.filter(other_check(id)),
        schema_revision: evolved(next.schema_revision, id),
        ..next
    };
    assert(back =~= table);
}

} // verus!
