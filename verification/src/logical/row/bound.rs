//! Laws on the statements that carry out row changes: which values they bind.

use super::apply::{altered, differs, update_plan, update_values};
use super::capture::{
    change_retains, recorded, row_retains, values_bytes, BudgetView, CapturedChangeView,
    CapturedRowView,
};
use super::cells::{DeltaView, RowView};
use super::rules::RulesView;
use super::set::RowSetView;
use super::statement::{
    absence_plan, bound_columns, chosen, column_text, column_texts, column_value, column_values,
    delete_plan, insert_plan, key_condition, key_value, key_values, placeholders, present,
    select_plan, table_text,
};
use crate::attempt::lemma_try_map_ok;
use crate::catalog::{current_column_name, current_name, lemma_kept, CatalogEntryView};
use crate::error::ErrorView;
use crate::logical::schema::definition::{column_ids, ColumnView, TableView};
use crate::logical::schema::table::primary_ids;
use crate::sqlite::{listed, lists_hold_every_text, quoted, stands_in};
use crate::value::{value_frame, ValueView};
use vstd::prelude::*;

verus! {

/// Whether values are those of a row's key, part by part.
pub open spec fn binds_key(rules: RulesView, row: RowView, values: Seq<ValueView>) -> bool {
    values.len() == rules.key_parts.len() && forall|p: int|
        0 <= p < values.len() ==> row.value(rules.key_parts[p].column) == Some(
            #[trigger] values[p],
        )
}

/// Whether values are those of a row's columns.
pub open spec fn binds_columns(columns: Seq<Seq<u8>>, row: RowView, values: Seq<ValueView>) -> bool {
    values.len() == columns.len() && forall|c: int|
        0 <= c < values.len() ==> row.value(columns[c]) == Some(#[trigger] values[c])
}

/// The values of a key are the row's.
proof fn lemma_key_values(rules: RulesView, row: RowView)
    requires
        key_values(rules)(row) is Ok,
    ensures
        binds_key(rules, row, key_values(rules)(row)->Ok_0),
{
    let f = key_value(row);
    let values = key_values(rules)(row)->Ok_0;
    lemma_try_map_ok(rules.key_parts, f);
    assert forall|p: int| 0 <= p < values.len() implies row.value(rules.key_parts[p].column)
        == Some(#[trigger] values[p]) by {
        assert(f(rules.key_parts[p]) == Ok::<ValueView, ErrorView>(values[p]));
    }
}

/// The values of columns are the row's.
proof fn lemma_column_values(columns: Seq<Seq<u8>>, row: RowView)
    requires
        column_values(columns)(row) is Ok,
    ensures
        binds_columns(columns, row, column_values(columns)(row)->Ok_0),
{
    let f = column_value(row);
    let values = column_values(columns)(row)->Ok_0;
    lemma_try_map_ok(columns, f);
    assert forall|c: int| 0 <= c < values.len() implies row.value(columns[c]) == Some(
        #[trigger] values[c],
    ) by {
        assert(f(columns[c]) == Ok::<ValueView, ErrorView>(values[c]));
    }
}

/// Rows are read, looked for and deleted by the values of their own keys: looked
/// for in their order, read and deleted the last one first.
pub proof fn rows_are_found_by_their_keys(
    tables: Seq<CatalogEntryView>,
    table: TableView,
    set: RowSetView,
    r: int,
)
    requires
        0 <= r < set.rows.len(),
    ensures
        absence_plan(tables, table, set) matches Ok(plan) ==> plan.parameters.len()
            == set.rows.len() && binds_key(set.rules, set.rows[r], plan.parameters[r]),
        select_plan(tables, table, set) matches Ok(plan) ==> plan.parameters.len() == set.rows.len()
            && binds_key(
            set.rules,
            set.rows[r],
            plan.parameters[set.rows.len() - 1 - r],
        ),
        delete_plan(tables, table, set) matches Ok(plan) ==> plan.parameters.len() == set.rows.len()
            && binds_key(
            set.rules,
            set.rows[r],
            plan.parameters[set.rows.len() - 1 - r],
        ),
{
    let f = key_values(set.rules);
    let back = set.rows.reverse();
    let at = set.rows.len() - 1 - r;
    assert(back[at] == set.rows[r]);
    if let Ok(plan) = absence_plan(tables, table, set) {
        lemma_try_map_ok(set.rows, f);
        assert(f(set.rows[r]) == Ok::<Seq<ValueView>, ErrorView>(plan.parameters[r]));
        lemma_key_values(set.rules, set.rows[r]);
    }
    if let Ok(plan) = select_plan(tables, table, set) {
        lemma_try_map_ok(back, f);
        assert(f(back[at]) == Ok::<Seq<ValueView>, ErrorView>(plan.parameters[at]));
        lemma_key_values(set.rules, set.rows[r]);
    }
    if let Ok(plan) = delete_plan(tables, table, set) {
        lemma_try_map_ok(back, f);
        assert(f(back[at]) == Ok::<Seq<ValueView>, ErrorView>(plan.parameters[at]));
        lemma_key_values(set.rules, set.rows[r]);
    }
}

/// Whether a column with an identity passes a test.
spec fn column_passes(
    columns: Seq<ColumnView>,
    test: spec_fn(ColumnView) -> bool,
    id: Seq<u8>,
) -> bool {
    exists|i: int| 0 <= i < columns.len() && test(#[trigger] columns[i]) && columns[i].id == id
}

/// The chosen columns are those of the table that pass, in its order.
proof fn lemma_chosen(columns: Seq<ColumnView>, test: spec_fn(ColumnView) -> bool, c: int)
    requires
        0 <= c < columns.len(),
    ensures
        test(columns[c]) ==> chosen(columns, test).contains(columns[c].id),
        forall|k: int|
            0 <= k < chosen(columns, test).len() ==> column_passes(
                columns,
                test,
                #[trigger] chosen(columns, test)[k],
            ),
{
    broadcast use vstd::seq_lib::group_filter_ensures;

    let kept = columns.filter(test);
    if test(columns[c]) {
        assert(kept.contains(columns[c]));
        let k = choose|k: int| 0 <= k < kept.len() && kept[k] == columns[c];
        assert(chosen(columns, test)[k] == columns[c].id);
    }
    assert forall|k: int| 0 <= k < chosen(columns, test).len() implies column_passes(
        columns,
        test,
        #[trigger] chosen(columns, test)[k],
    ) by {
        lemma_kept(columns, test, k);
        assert(test(kept[k]));
        let i = choose|i: int| 0 <= i < columns.len() && columns[i] == kept[k];
        assert(test(columns[i]));
    }
}

/// Rows are inserted with their own values, one row for one and in order, in the
/// columns of the table that the first of them has a value for, each of these
/// and no others.
pub proof fn rows_are_inserted_with_their_values(
    tables: Seq<CatalogEntryView>,
    table: TableView,
    set: RowSetView,
    r: int,
    c: int,
)
    requires
        0 <= r < set.rows.len(),
        0 <= c < table.columns.len(),
    ensures
        insert_plan(tables, table, set) matches Ok(plan) ==> plan.parameters.len() == set.rows.len()
            && binds_columns(
            chosen(table.columns, present(set.rows[0])),
            set.rows[r],
            plan.parameters[r],
        ),
        set.rows[0].value(table.columns[c].id) is Some ==> chosen(
            table.columns,
            present(set.rows[0]),
        ).contains(table.columns[c].id),
        forall|k: int|
            0 <= k < chosen(table.columns, present(set.rows[0])).len() ==> set.rows[0].value(
                #[trigger] chosen(table.columns, present(set.rows[0]))[k],
            ) is Some,
{
    let columns = chosen(table.columns, present(set.rows[0]));
    let f = column_values(columns);
    lemma_chosen(table.columns, present(set.rows[0]), c);
    assert forall|k: int| 0 <= k < columns.len() implies set.rows[0].value(
        #[trigger] columns[k],
    ) is Some by {
        assert(column_passes(table.columns, present(set.rows[0]), columns[k]));
        let i = choose|i: int|
            0 <= i < table.columns.len() && present(set.rows[0])(#[trigger] table.columns[i])
                && table.columns[i].id == columns[k];
    }
    if let Ok(plan) = insert_plan(tables, table, set) {
        lemma_try_map_ok(set.rows, f);
        assert(f(set.rows[r]) == Ok::<Seq<ValueView>, ErrorView>(plan.parameters[r]));
        lemma_column_values(columns, set.rows[r]);
    }
}

/// Rows that keep their keys are updated in the columns that some change gives
/// another value, each of these and no others: every change binds the new values
/// of these columns, then the key that the row had. Where no column changes,
/// nothing is updated.
pub proof fn updates_bind_what_changes(
    tables: Seq<CatalogEntryView>,
    table: TableView,
    rules: RulesView,
    stable: Seq<DeltaView>,
    d: int,
    c: int,
)
    requires
        0 <= d < stable.len(),
        0 <= c < table.columns.len(),
        stable[d].before is Some,
        stable[d].after is Some,
    ensures
        stable[d].before->Some_0.value(table.columns[c].id) != stable[d].after->Some_0.value(
            table.columns[c].id,
        ) ==> chosen(table.columns, altered(stable)).contains(table.columns[c].id) && !(update_plan(
            tables,
            table,
            rules,
            stable,
        ) matches Ok(None)),
        update_plan(tables, table, rules, stable) matches Ok(Some(plan)) ==> {
            let columns = chosen(table.columns, altered(stable));
            &&& plan.parameters.len() == stable.len()
            &&& plan.parameters[d].len() == columns.len() + rules.key_parts.len()
            &&& binds_columns(
                columns,
                stable[d].after->Some_0,
                plan.parameters[d].subrange(0, columns.len() as int),
            )
            &&& binds_key(
                rules,
                stable[d].before->Some_0,
                plan.parameters[d].subrange(
                    columns.len() as int,
                    plan.parameters[d].len() as int,
                ),
            )
        },
{
    let columns = chosen(table.columns, altered(stable));
    let id = table.columns[c].id;
    lemma_chosen(table.columns, altered(stable), c);
    if stable[d].before->Some_0.value(id) != stable[d].after->Some_0.value(id) {
        assert(differs(id)(stable[d]));
        assert(altered(stable)(table.columns[c]));
        assert(columns.contains(id));
        assert(columns.len() > 0);
    }
    if let Ok(Some(plan)) = update_plan(tables, table, rules, stable) {
        let f = update_values(rules, columns);
        lemma_try_map_ok(stable, f);
        let bound = plan.parameters[d];
        assert(f(stable[d]) == Ok::<Seq<ValueView>, ErrorView>(bound));
        lemma_column_values(columns, stable[d].after->Some_0);
        lemma_key_values(rules, stable[d].before->Some_0);
        let values = column_values(columns)(stable[d].after->Some_0)->Ok_0;
        let key = key_values(rules)(stable[d].before->Some_0)->Ok_0;
        assert(bound.subrange(0, columns.len() as int) =~= values);
        assert(bound.subrange(columns.len() as int, bound.len() as int) =~= key);
    }
}

/// A change is recorded exactly where the count and the bytes stay within their
/// limits; it counts once, and takes the bytes of each of its images.
pub proof fn recording_counts_every_change(budget: BudgetView, change: CapturedChangeView)
    requires
        budget.max_bytes <= usize::MAX,
    ensures
        recorded(budget, change) is Ok <==> budget.changes + 1 <= budget.max_changes && budget.bytes
            + change_retains(change) <= budget.max_bytes,
        recorded(budget, change) matches Ok(after) ==> {
            &&& after.changes == budget.changes + 1
            &&& after.bytes == budget.bytes + change_retains(change)
            &&& after.max_changes == budget.max_changes
            &&& after.max_bytes == budget.max_bytes
        },
{
}

/// An update takes the bytes of the row it starts from and of the row it ends
/// in; one more value takes the bytes of its frame.
pub proof fn retained_bytes_add_up(
    before: CapturedRowView,
    after: CapturedRowView,
    value: ValueView,
)
    ensures
        change_retains(CapturedChangeView::Update { before, after }) == change_retains(
            CapturedChangeView::Delete(before),
        ) + change_retains(CapturedChangeView::Insert(after)),
        row_retains(CapturedRowView { values: before.values.push(value), ..before })
            == row_retains(before) + value_frame(value).len(),
{
    let more = before.values.push(value);
    assert(more.drop_last() =~= before.values);
    assert(values_bytes(more) == values_bytes(before.values) + value_frame(value).len());
}

/// Whether a text stands somewhere in another.
pub open spec fn mentions(text: Seq<char>, part: Seq<char>) -> bool {
    exists|at: int| #[trigger] stands_in(text, part, at)
}

/// What stands between two texts is mentioned, and so is what it mentions.
proof fn lemma_mentioned(a: Seq<char>, b: Seq<char>, c: Seq<char>, part: Seq<char>)
    ensures
        mentions(a + b + c, b),
        mentions(b, part) ==> mentions(a + b + c, part),
{
    let all = a + b + c;
    let n = a.len() as int;
    assert(all.subrange(n, n + b.len()) =~= b);
    assert(stands_in(all, b, n));
    if mentions(b, part) {
        let at = choose|at: int| #[trigger] stands_in(b, part, at);
        assert(all.subrange(n + at, n + at + part.len()) =~= b.subrange(at, at + part.len()));
        assert(stands_in(all, part, n + at));
    }
}

/// The condition on a key mentions each of its columns by the name it has now.
proof fn lemma_condition(tables: Seq<CatalogEntryView>, table: TableView, p: int)
    requires
        key_condition(tables, table) is Ok,
        0 <= p < primary_ids(table.columns).len(),
    ensures
        current_column_name(tables, table.table, primary_ids(table.columns)[p]) matches Some(name)
            && mentions(key_condition(tables, table)->Ok_0, quoted(name) + " = ?"@),
{
    let ids = primary_ids(table.columns);
    lemma_texts(tables, table.table, ids, p);
    let names = column_texts(tables, table.table, ids)->Ok_0;
    let bound = bound_columns(names);
    assert(bound[p] == names[p] + " = ?"@);
    lists_hold_every_text(bound, " AND "@, p);
}

/// The texts of columns are their names in quotes.
proof fn lemma_texts(
    tables: Seq<CatalogEntryView>,
    table: Seq<u8>,
    columns: Seq<Seq<u8>>,
    c: int,
)
    requires
        column_texts(tables, table, columns) is Ok,
        0 <= c < columns.len(),
    ensures
        column_texts(tables, table, columns)->Ok_0.len() == columns.len(),
        current_column_name(tables, table, columns[c]) matches Some(name) && column_texts(
            tables,
            table,
            columns,
        )->Ok_0[c] == quoted(name),
{
    let f = column_text(tables, table);
    let names = column_texts(tables, table, columns)->Ok_0;
    lemma_try_map_ok(columns, f);
    assert(f(columns[c]) == Ok::<Seq<char>, ErrorView>(names[c]));
}

/// Whether a statement mentions a table and a column's condition by their current
/// names.
pub open spec fn mentions_key(
    tables: Seq<CatalogEntryView>,
    sql: Seq<char>,
    table: Seq<u8>,
    owner: Seq<u8>,
    column: Seq<u8>,
) -> bool {
    &&& current_name(tables, table) is Some
    &&& mentions(sql, quoted(current_name(tables, table)->Some_0))
    &&& current_column_name(tables, owner, column) is Some
    &&& mentions(sql, quoted(current_column_name(tables, owner, column)->Some_0) + " = ?"@)
}

/// Rows are read, looked for and deleted in the table that they are of, under its
/// current name, and by a condition on every column of its primary key, under
/// the column's current name.
pub proof fn statements_name_the_table_and_its_key(
    tables: Seq<CatalogEntryView>,
    table: TableView,
    set: RowSetView,
    p: int,
)
    requires
        0 <= p < primary_ids(table.columns).len(),
    ensures
        select_plan(tables, table, set) matches Ok(plan) ==> mentions_key(
            tables,
            plan.sql,
            set.rules.table,
            table.table,
            primary_ids(table.columns)[p],
        ),
        absence_plan(tables, table, set) matches Ok(plan) ==> mentions_key(
            tables,
            plan.sql,
            set.rules.table,
            table.table,
            primary_ids(table.columns)[p],
        ),
        delete_plan(tables, table, set) matches Ok(plan) ==> mentions_key(
            tables,
            plan.sql,
            set.rules.table,
            table.table,
            primary_ids(table.columns)[p],
        ),
{
    let id = primary_ids(table.columns)[p];
    if key_condition(tables, table) is Ok && table_text(tables, set.rules.table) is Ok {
        let name = table_text(tables, set.rules.table)->Ok_0;
        let condition = key_condition(tables, table)->Ok_0;
        let none = Seq::<char>::empty();
        lemma_condition(tables, table, p);
        let part = quoted(current_column_name(tables, table.table, id)->Some_0) + " = ?"@;
        if let Ok(plan) = select_plan(tables, table, set) {
            let columns = listed(
                column_texts(tables, table.table, column_ids(table.columns))->Ok_0,
                ", "@,
            );
            let head = "SELECT "@ + columns + " FROM "@;
            lemma_mentioned(head, name, " WHERE "@ + condition, name);
            lemma_mentioned(head + name + " WHERE "@, condition, none, part);
            assert(plan.sql =~= head + name + (" WHERE "@ + condition));
            assert(plan.sql =~= (head + name + " WHERE "@) + condition + none);
        }
        if let Ok(plan) = absence_plan(tables, table, set) {
            let head = "SELECT 1 FROM "@;
            lemma_mentioned(head, name, " WHERE "@ + condition, name);
            lemma_mentioned(head + name + " WHERE "@, condition, none, part);
            assert(plan.sql =~= head + name + (" WHERE "@ + condition));
            assert(plan.sql =~= (head + name + " WHERE "@) + condition + none);
        }
        if let Ok(plan) = delete_plan(tables, table, set) {
            let head = "DELETE FROM "@;
            lemma_mentioned(head, name, " WHERE "@ + condition, name);
            lemma_mentioned(head + name + " WHERE "@, condition, none, part);
            assert(plan.sql =~= head + name + (" WHERE "@ + condition));
            assert(plan.sql =~= (head + name + " WHERE "@) + condition + none);
        }
    }
}

/// Rows are inserted into the table that they are of, under its current name, and
/// every column that is bound is mentioned by its current name.
pub proof fn insertions_name_the_table_and_its_columns(
    tables: Seq<CatalogEntryView>,
    table: TableView,
    set: RowSetView,
    c: int,
)
    requires
        insert_plan(tables, table, set) is Ok,
        0 <= c < chosen(table.columns, present(set.rows[0])).len(),
    ensures
        ({
            let sql = insert_plan(tables, table, set)->Ok_0.sql;
            let column = chosen(table.columns, present(set.rows[0]))[c];
            &&& current_name(tables, set.rules.table) matches Some(name) && mentions(
                sql,
                quoted(name),
            )
            &&& current_column_name(tables, set.rules.table, column) matches Some(name) && mentions(
                sql,
                quoted(name),
            )
        }),
{
    let columns = chosen(table.columns, present(set.rows[0]));
    let sql = insert_plan(tables, table, set)->Ok_0.sql;
    let name = table_text(tables, set.rules.table)->Ok_0;
    let names = column_texts(tables, set.rules.table, columns)->Ok_0;
    lemma_texts(tables, set.rules.table, columns, c);
    lists_hold_every_text(names, ", "@, c);
    let list = listed(names, ", "@);
    let head = "INSERT INTO "@;
    let tail = ") VALUES ("@ + placeholders(columns.len()) + ")"@;
    lemma_mentioned(head, name, " ("@ + list + tail, name);
    lemma_mentioned(head + name + " ("@, list, tail, names[c]);
    assert(sql =~= head + name + (" ("@ + list + tail));
    assert(sql =~= (head + name + " ("@) + list + tail);
}

/// Rows that keep their keys are updated in their table under its current name,
/// in every changed column and by every column of the key, under their current
/// names.
pub proof fn updates_name_the_table_and_what_changes(
    tables: Seq<CatalogEntryView>,
    table: TableView,
    rules: RulesView,
    stable: Seq<DeltaView>,
    c: int,
    p: int,
)
    requires
        update_plan(tables, table, rules, stable) matches Ok(Some(_)),
        0 <= c < chosen(table.columns, altered(stable)).len(),
        0 <= p < primary_ids(table.columns).len(),
    ensures
        ({
            let sql = update_plan(tables, table, rules, stable)->Ok_0->Some_0.sql;
            let column = chosen(table.columns, altered(stable))[c];
            &&& mentions_key(
                tables,
                sql,
                rules.table,
                table.table,
                primary_ids(table.columns)[p],
            )
            &&& mentions_key(tables, sql, rules.table, table.table, column)
        }),
{
    let columns = chosen(table.columns, altered(stable));
    let sql = update_plan(tables, table, rules, stable)->Ok_0->Some_0.sql;
    let name = table_text(tables, rules.table)->Ok_0;
    let names = column_texts(tables, table.table, columns)->Ok_0;
    let condition = key_condition(tables, table)->Ok_0;
    let bound = bound_columns(names);
    let none = Seq::<char>::empty();
    lemma_condition(tables, table, p);
    lemma_texts(tables, table.table, columns, c);
    assert(bound[c] == names[c] + " = ?"@);
    lists_hold_every_text(bound, ", "@, c);
    let list = listed(bound, ", "@);
    let id = primary_ids(table.columns)[p];
    let part = quoted(current_column_name(tables, table.table, id)->Some_0) + " = ?"@;
    let head = "UPDATE "@;
    lemma_mentioned(head, name, " SET "@ + list + " WHERE "@ + condition, name);
    lemma_mentioned(head + name + " SET "@, list, " WHERE "@ + condition, bound[c]);
    lemma_mentioned(head + name + " SET "@ + list + " WHERE "@, condition, none, part);
    assert(sql =~= head + name + (" SET "@ + list + " WHERE "@ + condition));
    assert(sql =~= (head + name + " SET "@) + list + (" WHERE "@ + condition));
    assert(sql =~= (head + name + " SET "@ + list + " WHERE "@) + condition + none);
}

} // verus!
