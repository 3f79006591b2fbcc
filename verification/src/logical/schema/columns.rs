//! Laws on added and removed columns: what becomes of a table definition.

use super::definition::{
    column_ids, definition_sound, key_width, CheckView, ColumnView, TableView,
};
use super::depend::restricts_writes;
use super::error::SchemaCodecError;
use super::evolve::{
    check_of, column_of, evolved, lemma_evolved_twice, other_check, other_column, owned_check,
    with_column, without_column,
};
use super::statement::{CreateCheckView, CreateColumnView};
use super::table::{
    column_affinity, column_by_id, column_by_name, identified, resolution, rowid_alias,
};
use crate::attempt::{lemma_try_map_ok, try_map};
use crate::catalog::lemma_kept;
use crate::each::lemma_first;
use crate::identity::random_uuid;
use crate::logical::row::image::{key_image_of, normalized};
use crate::logical::types::{StrictType, TableMode, TableStorage};
use crate::value::ValueView;
use vstd::prelude::*;

verus! {

/// Whether a column is what a statement describes, under an identity.
pub open spec fn describes_column(column: ColumnView, id: Seq<u8>, text: CreateColumnView) -> bool {
    &&& column.id == id
    &&& column.name == text.name
    &&& column.affinity == text.declared_type.affinity
    &&& column.strict == text.declared_type.strict
    &&& column.integer == text.declared_type.integer
    &&& column.not_null == text.not_null
    &&& column.primary_key == text.primary_key
    &&& column.default is Some <==> text.default is Some
    &&& column.default is Some ==> column.default->Some_0 == text.default->Some_0.expression
}

/// Whether a CHECK is what a statement says: its name and expression are kept,
/// and every name that it reads by is that of the column it reads.
pub open spec fn describes_check(
    columns: Seq<ColumnView>,
    check: CheckView,
    text: CreateCheckView,
) -> bool {
    &&& check.name == text.name
    &&& check.expression == text.expression
    &&& check.columns.len() == text.columns.len()
    &&& forall|i: int|
        0 <= i < check.columns.len() ==> binds_column(
            columns,
            text.columns[i],
            #[trigger] check.columns[i],
        )
}

/// Whether a name is that of the column with an identity.
pub open spec fn binds_column(columns: Seq<ColumnView>, name: Seq<char>, id: Seq<u8>) -> bool {
    column_by_name(columns, name) is Some && column_by_name(columns, name)->Some_0.id == id
}

/// A CHECK that is resolved is what the statement says.
pub proof fn resolved_checks_keep_their_text(
    columns: Seq<ColumnView>,
    owner: Option<Seq<u8>>,
    text: CreateCheckView,
)
    ensures
        check_of(columns, owner, text) matches Ok(check) ==> describes_check(columns, check, text)
            && check.owner == owner,
{
    if let Ok(check) = check_of(columns, owner, text) {
        let f = resolution(columns);
        lemma_try_map_ok(text.columns, f);
        assert forall|i: int| 0 <= i < check.columns.len() implies binds_column(
            columns,
            text.columns[i],
            #[trigger] check.columns[i],
        ) by {
            assert(f(text.columns[i]) == Ok::<Seq<u8>, SchemaCodecError>(check.columns[i]));
        }
    }
}

/// A table with an added column is sound, keeps its columns and CHECKs, and has
/// behind them the column that the statement describes and the CHECKs that came
/// with it; a column whose identity the table has is refused.
pub proof fn added_columns_stand_at_the_end(
    table: TableView,
    id: Seq<u8>,
    column: CreateColumnView,
    checks: Seq<CreateCheckView>,
)
    ensures
        column_ids(table.columns).contains(id) ==> with_column(table, id, column, checks) is Err,
        with_column(table, id, column, checks) matches Ok(next) ==> {
            &&& definition_sound(next)
            &&& next.columns.len() == table.columns.len() + 1
            &&& forall|i: int|
                0 <= i < table.columns.len() ==> #[trigger] next.columns[i] == table.columns[i]
            &&& describes_column(next.columns.last(), id, column)
            &&& next.checks.len() == table.checks.len() + checks.len()
            &&& forall|i: int|
                0 <= i < table.checks.len() ==> #[trigger] next.checks[i] == table.checks[i]
            &&& forall|i: int|
                table.checks.len() <= i < next.checks.len() ==> describes_check(
                    next.columns,
                    #[trigger] next.checks[i],
                    checks[i - table.checks.len()],
                ) && next.checks[i].owner == Some(id)
            &&& next.table == table.table
            &&& next.name == table.name
            &&& next.mode == table.mode
            &&& next.storage == table.storage
            &&& next.primary_index == table.primary_index
            &&& next.unique_constraints == table.unique_constraints
            &&& next.indexes == table.indexes
            &&& next.foreign_keys == table.foreign_keys
        },
{
    let columns = table.columns.push(column_of(id, column));
    let f = owned_check(columns, id);
    if let Ok(next) = with_column(table, id, column, checks) {
        let owned = try_map(checks, f)->Ok_0;
        lemma_try_map_ok(checks, f);
        assert(next.columns == columns);
        assert forall|i: int| table.checks.len() <= i < next.checks.len() implies describes_check(
            next.columns,
            #[trigger] next.checks[i],
            checks[i - table.checks.len()],
        ) && next.checks[i].owner == Some(id) by {
            let k = i - table.checks.len();
            assert(next.checks[i] == owned[k]);
            assert(f(checks[k]) == Ok::<CheckView, SchemaCodecError>(owned[k]));
            resolved_checks_keep_their_text(columns, Some(id), checks[k]);
        }
        if column_ids(table.columns).contains(id) {
            let k = choose|k: int|
                0 <= k < table.columns.len() && column_ids(table.columns)[k] == id;
            assert(column_ids(next.columns)[k] == column_ids(next.columns)[table.columns.len()
                as int]);
        }
    }
}

/// A column can be removed only where it is in no primary key, no UNIQUE
/// constraint, no index, no foreign key, and no CHECK but those that came with
/// it. What is left is sound, has every other column and every other CHECK and
/// nothing else, and is otherwise as it was.
pub proof fn removed_columns_leave_the_others(
    table: TableView,
    id: Seq<u8>,
    column: ColumnView,
    check: CheckView,
)
    ensures
        without_column(table, id) matches Ok(next) ==> {
            &&& definition_sound(next)
            &&& column_ids(table.columns).contains(id)
            &&& next.columns.contains(column) <==> table.columns.contains(column) && column.id != id
            &&& next.checks.contains(check) <==> table.checks.contains(check) && check.owner
                != Some(id)
            &&& forall|i: int|
                0 <= i < table.unique_constraints.len()
                    ==> !(#[trigger] table.unique_constraints[i]).columns.contains(id)
            &&& forall|i: int|
                0 <= i < table.indexes.len() ==> !(#[trigger] table.indexes[i]).columns.contains(id)
            &&& forall|i: int|
                0 <= i < table.foreign_keys.len()
                    ==> !(#[trigger] table.foreign_keys[i]).columns.contains(id)
            &&& table.checks.contains(check) && check.columns.contains(id) ==> check.owner == Some(
                id,
            )
            &&& table.columns.contains(column) && column.id == id && column_ids(
                table.columns,
            ).no_duplicates() ==> column.primary_key is None
            &&& next.table == table.table
            &&& next.name == table.name
            &&& next.mode == table.mode
            &&& next.storage == table.storage
            &&& next.primary_index == table.primary_index
            &&& next.unique_constraints == table.unique_constraints
            &&& next.indexes == table.indexes
            &&& next.foreign_keys == table.foreign_keys
        },
{
    broadcast use vstd::seq_lib::group_filter_ensures;

    if let Ok(next) = without_column(table, id) {
        lemma_first(table.columns, identified(id));
        let found = column_by_id(table.columns, id)->Some_0;
        let k = choose|k: int| 0 <= k < table.columns.len() && table.columns[k] == found;
        assert(column_ids(table.columns)[k] == id);
        if next.columns.contains(column) {
            let i = choose|i: int| 0 <= i < next.columns.len() && next.columns[i] == column;
            lemma_kept(table.columns, other_column(id), i);
            assert(other_column(id)(next.columns[i]));
        }
        if table.columns.contains(column) {
            let i = choose|i: int| 0 <= i < table.columns.len() && table.columns[i] == column;
            if column.id != id {
                assert(other_column(id)(table.columns[i]));
            } else {
                assert(column_ids(table.columns)[i] == column_ids(table.columns)[k]);
            }
        }
        if next.checks.contains(check) {
            let i = choose|i: int| 0 <= i < next.checks.len() && next.checks[i] == check;
            lemma_kept(table.checks, other_check(id), i);
            assert(other_check(id)(next.checks[i]));
        }
        if table.checks.contains(check) {
            let i = choose|i: int| 0 <= i < table.checks.len() && table.checks[i] == check;
            if check.owner != Some(id) {
                assert(other_check(id)(table.checks[i]));
            }
        }
    }
}

/// Revisions that differ still differ after the same change.
pub proof fn changes_keep_revisions_apart(a: Seq<u8>, b: Seq<u8>, change: Seq<u8>)
    requires
        random_uuid(a),
        random_uuid(b),
        evolved(a, change) == evolved(b, change),
    ensures
        a == b,
{
    lemma_evolved_twice(a, change);
    lemma_evolved_twice(b, change);
}

/// A column of a strict table that holds values of any class holds each of them
/// as it is; every other column has the affinity that it was declared with.
pub proof fn columns_of_any_class_keep_their_values(
    column: ColumnView,
    mode: TableMode,
    value: ValueView,
)
    ensures
        mode == TableMode::Strict && column.strict == Some(StrictType::Any) ==> normalized(
            value,
            column_affinity(column, mode),
        ) == value && (!(value is Null) ==> key_image_of(
            value,
            column_affinity(column, mode),
        ) is Ok),
        mode == TableMode::Ordinary || column.strict != Some(StrictType::Any) ==> column_affinity(
            column,
            mode,
        ) == column.affinity,
{
}

/// A column stands for the rowid only in a table that keeps rowids, as the whole
/// primary key, and where it is declared INTEGER.
pub proof fn rowid_aliases_are_whole_keys(table: TableView, c: int)
    requires
        definition_sound(table),
        0 <= c < table.columns.len(),
    ensures
        rowid_alias(table, table.columns[c].id) <==> {
            &&& table.storage == TableStorage::Rowid
            &&& table.columns[c].integer
            &&& table.columns[c].primary_key is Some
            &&& key_width(table.columns) == 1
        },
{
    let columns = table.columns;
    let id = columns[c].id;
    lemma_first(columns, identified(id));
    assert(identified(id)(columns[c]));
    let found = column_by_id(columns, id)->Some_0;
    let k = choose|k: int| 0 <= k < columns.len() && columns[k] == found;
    assert(column_ids(columns)[k] == column_ids(columns)[c]);
}

/// An added column restricts what may be written exactly where it refuses NULL
/// or a CHECK came with it.
pub proof fn refusing_columns_restrict_writes(
    table: TableView,
    id: Seq<u8>,
    column: CreateColumnView,
    checks: Seq<CreateCheckView>,
)
    requires
        with_column(table, id, column, checks) is Ok,
        forall|i: int|
            0 <= i < table.checks.len() ==> (#[trigger] table.checks[i]).owner != Some(id),
    ensures
        restricts_writes(with_column(table, id, column, checks)->Ok_0, id) <==> column.not_null
            || checks.len() > 0,
{
    let next = with_column(table, id, column, checks)->Ok_0;
    let n = table.columns.len() as int;
    added_columns_stand_at_the_end(table, id, column, checks);
    lemma_first(next.columns, identified(id));
    assert(identified(id)(next.columns[n]));
    let found = column_by_id(next.columns, id)->Some_0;
    let k = choose|k: int| 0 <= k < next.columns.len() && next.columns[k] == found;
    assert(column_ids(next.columns)[k] == column_ids(next.columns)[n]);
    if checks.len() > 0 {
        assert(next.checks[table.checks.len() as int].owner == Some(id));
    }
    if exists|i: int| 0 <= i < next.checks.len() && (#[trigger] next.checks[i]).owner == Some(id) {
        let i = choose|i: int|
            0 <= i < next.checks.len() && (#[trigger] next.checks[i]).owner == Some(id);
        if i < table.checks.len() {
            assert(next.checks[i] == table.checks[i]);
        }
    }
}

} // verus!
