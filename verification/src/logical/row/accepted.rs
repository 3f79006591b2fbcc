//! Laws on accepted rows: what becomes of captured and of stored values.

use super::accept::{
    breaks_column, captured_row, captures, elsewhere, rows_accepted, rules_agree, strict_matches,
};
use super::apply::{
    disagrees, overlaid, overlaid_cell, recaptured, rows_matched, stored_value, turned,
};
use super::capture::CapturedRowView;
use super::cells::{value_in, CellView, DeltaView, RowView};
use super::changes::{afters, befores};
use super::derive::{can_own, index_rules_of, known_index_rules_of, owns_now, rules_of};
use super::keys::{images_of, index_entries_of, references_of};
use super::ownership::{
    keeps_named, keeps_unique, named_kept, rules_own_what_is_active_and_unique, unique_kept,
};
use super::rules::RulesView;
use crate::attempt::lemma_try_map_ok;
use crate::catalog::{lemma_kept, table_named, CatalogEntryView};
use crate::error::ErrorView;
use crate::logical::schema::definition::{ColumnView, TableView};
use crate::logical::schema::table::{column_affinity, primary_ids};
use crate::logical::types::{Affinity, StrictType, TableMode, TableStorage};
use crate::value::ValueView;
use vstd::prelude::*;

verus! {

/// The storage class of a value that is not NULL.
pub open spec fn storage_class(value: ValueView) -> Option<StrictType> {
    match value {
        ValueView::Null => None,
        ValueView::Integer(_) => Some(StrictType::Integer),
        ValueView::Real(_) => Some(StrictType::Real),
        ValueView::Text(_) => Some(StrictType::Text),
        ValueView::Blob(_) => Some(StrictType::Blob),
    }
}

/// A strict column holds NULL unless it is NOT NULL, and otherwise values of its
/// own storage class alone; a column of any class holds all of them.
pub proof fn strict_columns_hold_their_class(column: ColumnView, value: ValueView)
    ensures
        strict_matches(column, value) <==> if value is Null {
            !column.not_null
        } else {
            column.strict == Some(StrictType::Any) || column.strict == storage_class(value)
        },
{
}

/// The row of a captured image has the table's columns in order. Each holds the
/// captured value, but for an integer in a column of real affinity, which holds
/// the nearest number. The row of a table that keeps rowids has its rowid as its
/// key; that of a strict table holds only what its columns can; and every key
/// that it owns or refers to has an image.
pub proof fn captured_rows_keep_their_values(
    rules: RulesView,
    table: TableView,
    captured: CapturedRowView,
)
    ensures
        captured_row(rules, table, captured) matches Ok(row) ==> {
            &&& captured.values.len() == table.columns.len()
            &&& row.values.len() == table.columns.len()
            &&& forall|i: int|
                0 <= i < row.values.len() ==> (#[trigger] row.values[i]).column
                    == table.columns[i].id && (row.values[i].value != captured.values[i]
                    ==> captured.values[i] is Integer && row.values[i].value is Real
                    && column_affinity(table.columns[i], table.mode) == Affinity::Real)
            &&& rules.storage == TableStorage::Rowid ==> exists|i: int|
                0 <= i < row.values.len() && (#[trigger] row.values[i]).column == primary_ids(
                    table.columns,
                )[0] && row.values[i].value == ValueView::Integer(captured.rowid)
            &&& images_of(row, rules.key_parts) is Ok
            &&& index_entries_of(rules, row) is Ok
            &&& references_of(rules, row) is Ok
            &&& table.mode == TableMode::Strict ==> forall|i: int|
                0 <= i < table.columns.len() ==> (row.value(
                    (#[trigger] table.columns[i]).id,
                ) matches Some(value) ==> strict_matches(table.columns[i], value))
        },
{
    if let Ok(row) = captured_row(rules, table, captured) {
        if rules.storage == TableStorage::Rowid {
            let cell = CellView {
                column: primary_ids(table.columns)[0],
                value: ValueView::Integer(captured.rowid),
            };
            assert(row.values.contains(cell));
            let i = choose|i: int| 0 <= i < row.values.len() && row.values[i] == cell;
            assert(row.values[i].column == cell.column);
        }
        if table.mode == TableMode::Strict {
            assert forall|i: int| 0 <= i < table.columns.len() implies (row.value(
                (#[trigger] table.columns[i]).id,
            ) matches Some(value) ==> strict_matches(table.columns[i], value)) by {
                assert(!breaks_column(row)(table.columns[i]));
            }
        }
    }
}

/// Captured images make a row set only together: all are of one table, which the
/// catalog knows under their name; the set has that table's rules, and one for
/// one the rows of the images.
pub proof fn accepted_rows_are_those_captured(
    tables: Seq<CatalogEntryView>,
    captured: Seq<CapturedRowView>,
)
    ensures
        captured.len() == 0 ==> rows_accepted(tables, captured) matches Ok(None),
        rows_accepted(tables, captured) matches Ok(Some(set)) ==> {
            &&& captured.len() > 0
            &&& forall|i: int|
                0 <= i < captured.len() ==> (#[trigger] captured[i]).table == captured[0].table
            &&& table_named(tables, captured[0].table) matches Some(table) && rules_of(
                tables,
                table,
            ) == Ok::<RulesView, ErrorView>(set.rules) && set.rows.len() == captured.len()
                && forall|i: int|
                0 <= i < captured.len() ==> captured_row(
                    set.rules,
                    table,
                    captured[i],
                ) == Ok::<RowView, ErrorView>(#[trigger] set.rows[i])
        },
{
    if let Ok(Some(set)) = rows_accepted(tables, captured) {
        let table = table_named(tables, captured[0].table)->Some_0;
        let f = captures(set.rules, table);
        lemma_try_map_ok(captured, f);
        assert forall|i: int| 0 <= i < captured.len() implies (#[trigger] captured[i]).table
            == captured[0].table by {
            assert(!elsewhere(captured[0].table)(captured[i]));
        }
        assert forall|i: int| 0 <= i < captured.len() implies captured_row(
            set.rules,
            table,
            captured[i],
        ) == Ok::<RowView, ErrorView>(#[trigger] set.rows[i]) by {
            assert(f(captured[i]) == Ok::<RowView, ErrorView>(set.rows[i]));
        }
    }
}

/// Rules that agree with a table's have the indexes of all its UNIQUE
/// constraints and of all its indexes that are active and unique, and the rules
/// that the table has now agree with it.
pub proof fn agreeing_rules_own_what_is_active(
    tables: Seq<CatalogEntryView>,
    table: TableView,
    now: RulesView,
    rules: RulesView,
)
    requires
        rules_of(tables, table) == Ok::<RulesView, ErrorView>(now),
    ensures
        rules_agree(now, table, now.foreign_keys, now.incoming_foreign_keys),
        rules_agree(rules, table, now.foreign_keys, now.incoming_foreign_keys) ==> {
            &&& rules.table == table.table
            &&& rules.primary_index == table.primary_index
            &&& rules.storage == table.storage
            &&& rules.key_parts == now.key_parts
            &&& rules.foreign_keys == now.foreign_keys
            &&& rules.incoming_foreign_keys == now.incoming_foreign_keys
            &&& forall|u: int|
                0 <= u < table.unique_constraints.len() ==> unique_kept(
                    rules.indexes,
                    #[trigger] table.unique_constraints[u],
                )
            &&& forall|n: int|
                0 <= n < table.indexes.len() && (#[trigger] table.indexes[n]).active
                    && table.indexes[n].unique ==> named_kept(rules.indexes, table.indexes[n])
        },
{
    broadcast use vstd::seq_lib::group_filter_ensures;

    rules_own_what_is_active_and_unique(tables, table, now);
    let all = index_rules_of(table);
    assert(now.indexes == all);
    assert forall|i: int| 0 <= i < all.len() implies now.indexes.contains(#[trigger] all[i]) by {
        assert(now.indexes[i] == all[i]);
    }
    let known = known_index_rules_of(table);
    assert forall|i: int| 0 <= i < now.indexes.len() implies known.contains(
        #[trigger] now.indexes[i],
    ) by {
        let uniques = table.unique_constraints;
        let kept = table.indexes.filter(owns_now());
        let able = table.indexes.filter(can_own());
        if i < uniques.len() {
            assert(known[i] == now.indexes[i]);
        } else {
            let k = i - uniques.len();
            lemma_kept(table.indexes, owns_now(), k);
            let n = choose|n: int| 0 <= n < table.indexes.len() && table.indexes[n] == kept[k];
            assert(owns_now()(kept[k]));
            assert(can_own()(table.indexes[n]));
            assert(able.contains(table.indexes[n]));
            let m = choose|m: int| 0 <= m < able.len() && able[m] == kept[k];
            assert(known[uniques.len() + m] == now.indexes[i]);
        }
    }
    if rules_agree(rules, table, now.foreign_keys, now.incoming_foreign_keys) {
        assert forall|u: int| 0 <= u < table.unique_constraints.len() implies unique_kept(
            rules.indexes,
            #[trigger] table.unique_constraints[u],
        ) by {
            let i = choose|i: int|
                0 <= i < now.indexes.len() && keeps_unique(
                    #[trigger] now.indexes[i],
                    table.unique_constraints[u],
                );
            assert(rules.indexes.contains(all[i]));
            let k = choose|k: int| 0 <= k < rules.indexes.len() && rules.indexes[k] == all[i];
            assert(keeps_unique(rules.indexes[k], table.unique_constraints[u]));
        }
        assert forall|n: int|
            0 <= n < table.indexes.len() && (#[trigger] table.indexes[n]).active
                && table.indexes[n].unique implies named_kept(rules.indexes, table.indexes[n]) by {
            let i = choose|i: int|
                0 <= i < now.indexes.len() && keeps_named(
                    #[trigger] now.indexes[i],
                    table.indexes[n],
                );
            assert(rules.indexes.contains(all[i]));
            let k = choose|k: int| 0 <= k < rules.indexes.len() && rules.indexes[k] == all[i];
            assert(keeps_named(rules.indexes[k], table.indexes[n]));
        }
    }
}

/// Changes that are turned round start where they ended and end where they
/// started; turned round twice, they are what they were.
pub proof fn turned_changes_run_backwards(rows: Seq<DeltaView>)
    ensures
        befores(rows.map_values(turned(true))) == afters(rows),
        afters(rows.map_values(turned(true))) == befores(rows),
        rows.map_values(turned(true)).map_values(turned(true)) == rows,
        rows.map_values(turned(false)) == rows,
    decreases rows.len(),
{
    let back = rows.map_values(turned(true));
    assert(back.map_values(turned(true)) =~= rows);
    assert(rows.map_values(turned(false)) =~= rows);
    if rows.len() > 0 {
        turned_changes_run_backwards(rows.drop_last());
        assert(back.drop_last() =~= rows.drop_last().map_values(turned(true)));
    }
}

/// The rows that changes start from are the images before, and those that they
/// end in the images after, each of them and no others.
pub proof fn changes_lead_from_befores_to_afters(rows: Seq<DeltaView>, row: RowView)
    ensures
        befores(rows).contains(row) <==> exists|i: int|
            0 <= i < rows.len() && (#[trigger] rows[i]).before == Some(row),
        afters(rows).contains(row) <==> exists|i: int|
            0 <= i < rows.len() && (#[trigger] rows[i]).after == Some(row),
    decreases rows.len(),
{
    if rows.len() > 0 {
        let init = rows.drop_last();
        let last = rows.last();
        changes_lead_from_befores_to_afters(init, row);
        assert(rows[rows.len() - 1] == last);
        lemma_pushed(befores(init), last.before, befores(rows), row);
        lemma_pushed(afters(init), last.after, afters(rows), row);
        if exists|i: int| 0 <= i < init.len() && (#[trigger] init[i]).before == Some(row) {
            let i = choose|i: int| 0 <= i < init.len() && (#[trigger] init[i]).before == Some(row);
            assert(rows[i] == init[i]);
        }
        if exists|i: int| 0 <= i < init.len() && (#[trigger] init[i]).after == Some(row) {
            let i = choose|i: int| 0 <= i < init.len() && (#[trigger] init[i]).after == Some(row);
            assert(rows[i] == init[i]);
        }
        if exists|i: int| 0 <= i < rows.len() && (#[trigger] rows[i]).before == Some(row) {
            let i = choose|i: int| 0 <= i < rows.len() && (#[trigger] rows[i]).before == Some(row);
            if i < init.len() {
                assert(init[i] == rows[i]);
            }
        }
        if exists|i: int| 0 <= i < rows.len() && (#[trigger] rows[i]).after == Some(row) {
            let i = choose|i: int| 0 <= i < rows.len() && (#[trigger] rows[i]).after == Some(row);
            if i < init.len() {
                assert(init[i] == rows[i]);
            }
        }
    }
}

/// A list to which an item may have been pushed.
proof fn lemma_pushed(list: Seq<RowView>, item: Option<RowView>, more: Seq<RowView>, row: RowView)
    requires
        more == (match item {
            Some(item) => list.push(item),
            None => list,
        }),
    ensures
        more.contains(row) <==> list.contains(row) || item == Some(row),
{
    if let Some(item) = item {
        assert(more[list.len() as int] == item);
        if list.contains(row) {
            let k = choose|k: int| 0 <= k < list.len() && list[k] == row;
            assert(more[k] == row);
        }
        if more.contains(row) {
            let k = choose|k: int| 0 <= k < more.len() && more[k] == row;
            if k < list.len() {
                assert(list[k] == row);
            }
        }
    }
}

/// Stored rows match only where every row was found, and none has another value
/// for a column that it has; they come in the order of the rows.
pub proof fn matched_rows_agree(
    rows: Seq<RowView>,
    found: Seq<Option<RowView>>,
    mismatch: Seq<char>,
    i: int,
    c: int,
)
    requires
        rows.len() == found.len(),
        rows_matched(rows, found, mismatch) is Ok,
        0 <= i < rows.len(),
        0 <= c < rows[i].values.len(),
    ensures
        rows_matched(rows, found, mismatch)->Ok_0.len() == rows.len(),
        found[found.len() - 1 - i] == Some(rows_matched(rows, found, mismatch)->Ok_0[i]),
        rows_matched(rows, found, mismatch)->Ok_0[i].value(rows[i].values[c].column) matches Some(
            value,
        ) ==> value == rows[i].values[c].value,
{
    let stored = found.reverse();
    assert(stored[i] == found[found.len() - 1 - i]);
    assert(!(stored[i] is None || disagrees(rows[i], stored[i]->Some_0)));
    let cell = rows[i].values[c];
    assert(cell.column == rows[i].values[c].column);
}

/// A stored row with the values of another has the other's value for each of its
/// own columns that the other has, and its own value for the rest.
pub proof fn overlaid_rows_take_the_new_values(current: RowView, after: RowView, column: Seq<u8>)
    ensures
        overlaid(current, after).values.len() == current.values.len(),
        overlaid(current, after).value(column) == (if current.value(column) is None {
            None
        } else if after.value(column) is Some {
            after.value(column)
        } else {
            current.value(column)
        }),
    decreases current.values.len(),
{
    lemma_overlaid(current.values, after, column);
}

/// What a column holds in overlaid cells.
proof fn lemma_overlaid(cells: Seq<CellView>, after: RowView, column: Seq<u8>)
    ensures
        value_in(cells.map_values(overlaid_cell(after)), column) == (if value_in(
            cells,
            column,
        ) is None {
            None
        } else if after.value(column) is Some {
            after.value(column)
        } else {
            value_in(cells, column)
        }),
    decreases cells.len(),
{
    if cells.len() > 0 {
        let rest = cells.drop_first();
        lemma_overlaid(rest, after, column);
        assert(cells.map_values(overlaid_cell(after)).drop_first() =~= rest.map_values(
            overlaid_cell(after),
        ));
    }
}

/// A stored row is captured again under the table's name, with its value for
/// every column in order, and with its rowid where the table keeps rowids.
pub proof fn stored_rows_are_captured_again(table: TableView, name: Seq<char>, row: RowView)
    ensures
        recaptured(table, name)(row) matches Ok(captured) ==> {
            &&& captured.table == name
            &&& captured.values.len() == table.columns.len()
            &&& forall|i: int|
                0 <= i < table.columns.len() ==> row.value(table.columns[i].id) == Some(
                    #[trigger] captured.values[i],
                )
            &&& table.storage == TableStorage::Rowid ==> row.value(
                primary_ids(table.columns)[0],
            ) == Some(ValueView::Integer(captured.rowid))
        },
{
    if let Ok(captured) = recaptured(table, name)(row) {
        let f = stored_value(row);
        lemma_try_map_ok(table.columns, f);
        assert forall|i: int| 0 <= i < table.columns.len() implies row.value(
            table.columns[i].id,
        ) == Some(#[trigger] captured.values[i]) by {
            assert(f(table.columns[i]) == Ok::<ValueView, ErrorView>(captured.values[i]));
        }
    }
}

} // verus!
