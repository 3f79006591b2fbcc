//! Laws on the rules of a table's rows: which indexes, keys and foreign keys of
//! the definition they stand for.

use super::cells::RowView;
use super::derive::{
    can_own, incoming_rule, index_on, index_rules_of, known_index_rules_of,
    named_rule, outgoing_rule, owns_now, primary_parts, rules_of, unique_rule,
};
use super::error::RowCodecError;
use super::keys::{index_entries_of, row_key_of, EntryView};
use super::rules::{ForeignKeyView, IncomingView, IndexView, KeyPartView, RulesView};
use crate::attempt::lemma_try_map_ok;
use crate::catalog::{
    entry_of, incoming_of, lemma_kept, references_to, table_by_id, CatalogEntryView,
};
use crate::each::{first, lemma_first};
use crate::error::ErrorView;
use crate::logical::schema::definition::{
    column_ids, definition_sound, key_position, key_width, ColumnView, NamedIndexView,
    RelationshipView, TableView, UniqueView,
};
use crate::logical::schema::table::{
    column_affinity, column_by_id, identified, primary_ids, standing,
};
use crate::logical::types::TableStorage;
use vstd::prelude::*;

verus! {

/// The columns that parts of a key read.
pub open spec fn part_columns(parts: Seq<KeyPartView>) -> Seq<Seq<u8>> {
    Seq::new(parts.len(), |i: int| parts[i].column)
}

/// Whether rules are those of a UNIQUE constraint.
pub open spec fn keeps_unique(rule: IndexView, unique: UniqueView) -> bool {
    rule.index == unique.index && part_columns(rule.parts) == unique.columns
}

/// Whether rules are those of a named index.
pub open spec fn keeps_named(rule: IndexView, named: NamedIndexView) -> bool {
    rule.index == named.index && part_columns(rule.parts) == named.columns
}

/// Whether rules are those of an index that owns values in a table now.
pub open spec fn owned_in(rule: IndexView, table: TableView) -> bool {
    ||| exists|u: int|
        0 <= u < table.unique_constraints.len() && keeps_unique(
            rule,
            #[trigger] table.unique_constraints[u],
        )
    ||| exists|n: int|
        0 <= n < table.indexes.len() && (#[trigger] table.indexes[n]).active
            && table.indexes[n].unique && keeps_named(rule, table.indexes[n])
}

/// The rules of an index on columns read these columns, and no rowid.
proof fn lemma_index_on(table: TableView, index: Seq<u8>, columns: Seq<Seq<u8>>)
    ensures
        index_on(table, index, columns).index == index,
        part_columns(index_on(table, index, columns).parts) == columns,
{
    assert(part_columns(index_on(table, index, columns).parts) =~= columns);
}

/// The rules of a table's rows name the table, its revision and storage; their
/// indexes are those of its UNIQUE constraints and of its indexes that are both
/// active and unique, each of them and no others.
pub proof fn rules_own_what_is_active_and_unique(
    tables: Seq<CatalogEntryView>,
    table: TableView,
    rules: RulesView,
)
    requires
        rules_of(tables, table) == Ok::<RulesView, ErrorView>(rules),
    ensures
        rules.table == table.table,
        rules.schema_revision == table.schema_revision,
        rules.primary_index == table.primary_index,
        rules.storage == table.storage,
        forall|i: int|
            0 <= i < rules.indexes.len() ==> owned_in(#[trigger] rules.indexes[i], table),
        forall|u: int|
            0 <= u < table.unique_constraints.len() ==> exists|i: int|
                0 <= i < rules.indexes.len() && keeps_unique(
                    #[trigger] rules.indexes[i],
                    #[trigger] table.unique_constraints[u],
                ),
        forall|n: int|
            0 <= n < table.indexes.len() && (#[trigger] table.indexes[n]).active
                && table.indexes[n].unique ==> exists|i: int|
                0 <= i < rules.indexes.len() && keeps_named(
                    #[trigger] rules.indexes[i],
                    table.indexes[n],
                ),
{
    broadcast use vstd::seq_lib::group_filter_ensures;

    let uniques = table.unique_constraints;
    let kept = table.indexes.filter(owns_now());
    assert(rules.indexes == index_rules_of(table));
    assert forall|i: int| 0 <= i < rules.indexes.len() implies owned_in(
        #[trigger] rules.indexes[i],
        table,
    ) by {
        let rule = rules.indexes[i];
        if i < uniques.len() {
            lemma_index_on(table, uniques[i].index, uniques[i].columns);
            assert(rule == unique_rule(table)(uniques[i]));
            assert(keeps_unique(rule, uniques[i]));
        } else {
            let k = i - uniques.len();
            lemma_kept(table.indexes, owns_now(), k);
            lemma_index_on(table, kept[k].index, kept[k].columns);
            assert(rule == named_rule(table)(kept[k]));
            assert(owns_now()(kept[k]));
            let n = choose|n: int| 0 <= n < table.indexes.len() && table.indexes[n] == kept[k];
            assert(table.indexes[n].active && keeps_named(rule, table.indexes[n]));
        }
    }
    assert forall|u: int| 0 <= u < uniques.len() implies exists|i: int|
        0 <= i < rules.indexes.len() && keeps_unique(
            #[trigger] rules.indexes[i],
            #[trigger] uniques[u],
        ) by {
        lemma_index_on(table, uniques[u].index, uniques[u].columns);
        assert(rules.indexes[u] == unique_rule(table)(uniques[u]));
        assert(keeps_unique(rules.indexes[u], uniques[u]));
    }
    assert forall|n: int|
        0 <= n < table.indexes.len() && (#[trigger] table.indexes[n]).active
            && table.indexes[n].unique implies exists|i: int|
        0 <= i < rules.indexes.len() && keeps_named(
            #[trigger] rules.indexes[i],
            table.indexes[n],
        ) by {
        assert(owns_now()(table.indexes[n]));
        assert(kept.contains(table.indexes[n]));
        let k = choose|k: int| 0 <= k < kept.len() && kept[k] == table.indexes[n];
        lemma_index_on(table, kept[k].index, kept[k].columns);
        assert(rules.indexes[uniques.len() + k] == named_rule(table)(kept[k]));
        assert(keeps_named(rules.indexes[uniques.len() + k], table.indexes[n]));
    }
}

/// A row of a table that has no UNIQUE constraint and no index that is both
/// active and unique owns no values.
pub proof fn inactive_indexes_own_nothing(
    tables: Seq<CatalogEntryView>,
    table: TableView,
    rules: RulesView,
    row: RowView,
)
    requires
        rules_of(tables, table) == Ok::<RulesView, ErrorView>(rules),
        table.unique_constraints.len() == 0,
        forall|n: int|
            0 <= n < table.indexes.len() ==> !((#[trigger] table.indexes[n]).active
                && table.indexes[n].unique),
        row_key_of(rules, row) is Ok,
    ensures
        index_entries_of(rules, row) == Ok::<Seq<EntryView>, RowCodecError>(Seq::empty()),
{
    rules_own_what_is_active_and_unique(tables, table, rules);
    if rules.indexes.len() > 0 {
        assert(owned_in(rules.indexes[0], table));
    }
    assert(rules.indexes =~= Seq::empty());
}

/// Whether rules are those of an index that can own values in a table.
pub open spec fn known_in(rule: IndexView, table: TableView) -> bool {
    ||| exists|u: int|
        0 <= u < table.unique_constraints.len() && keeps_unique(
            rule,
            #[trigger] table.unique_constraints[u],
        )
    ||| exists|n: int|
        0 <= n < table.indexes.len() && (#[trigger] table.indexes[n]).unique && keeps_named(
            rule,
            table.indexes[n],
        )
}

/// Whether some of the rules are those of a UNIQUE constraint.
pub open spec fn unique_kept(rules: Seq<IndexView>, unique: UniqueView) -> bool {
    exists|i: int| 0 <= i < rules.len() && keeps_unique(#[trigger] rules[i], unique)
}

/// Whether some of the rules are those of a named index.
pub open spec fn named_kept(rules: Seq<IndexView>, named: NamedIndexView) -> bool {
    exists|i: int| 0 <= i < rules.len() && keeps_named(#[trigger] rules[i], named)
}

/// The indexes that can own values are those of the UNIQUE constraints and of
/// the unique indexes, active or not, each of them and no others.
pub proof fn known_indexes_are_unique(table: TableView)
    ensures
        forall|i: int|
            0 <= i < known_index_rules_of(table).len() ==> known_in(
                #[trigger] known_index_rules_of(table)[i],
                table,
            ),
        forall|u: int|
            0 <= u < table.unique_constraints.len() ==> unique_kept(
                known_index_rules_of(table),
                #[trigger] table.unique_constraints[u],
            ),
        forall|n: int|
            0 <= n < table.indexes.len() && (#[trigger] table.indexes[n]).unique ==> named_kept(
                known_index_rules_of(table),
                table.indexes[n],
            ),
{
    broadcast use vstd::seq_lib::group_filter_ensures;

    let uniques = table.unique_constraints;
    let kept = table.indexes.filter(can_own());
    let all = known_index_rules_of(table);
    assert forall|i: int| 0 <= i < all.len() implies known_in(#[trigger] all[i], table) by {
        if i < uniques.len() {
            lemma_index_on(table, uniques[i].index, uniques[i].columns);
            assert(all[i] == unique_rule(table)(uniques[i]));
            assert(keeps_unique(all[i], uniques[i]));
        } else {
            let k = i - uniques.len();
            lemma_kept(table.indexes, can_own(), k);
            lemma_index_on(table, kept[k].index, kept[k].columns);
            assert(all[i] == named_rule(table)(kept[k]));
            assert(can_own()(kept[k]));
            let n = choose|n: int| 0 <= n < table.indexes.len() && table.indexes[n] == kept[k];
            assert(table.indexes[n].unique && keeps_named(all[i], table.indexes[n]));
        }
    }
    assert forall|u: int| 0 <= u < uniques.len() implies unique_kept(
        all,
        #[trigger] uniques[u],
    ) by {
        lemma_index_on(table, uniques[u].index, uniques[u].columns);
        assert(all[u] == unique_rule(table)(uniques[u]));
        assert(keeps_unique(all[u], uniques[u]));
    }
    assert forall|n: int|
        0 <= n < table.indexes.len() && (#[trigger] table.indexes[n]).unique implies named_kept(
        all,
        table.indexes[n],
    ) by {
        assert(can_own()(table.indexes[n]));
        assert(kept.contains(table.indexes[n]));
        let k = choose|k: int| 0 <= k < kept.len() && kept[k] == table.indexes[n];
        lemma_index_on(table, kept[k].index, kept[k].columns);
        assert(all[uniques.len() + k] == named_rule(table)(kept[k]));
        assert(keeps_named(all[uniques.len() + k], table.indexes[n]));
    }
}

/// A column is found by its identity where no two columns share one.
proof fn lemma_found_by_id(columns: Seq<ColumnView>, i: int)
    requires
        column_ids(columns).no_duplicates(),
        0 <= i < columns.len(),
    ensures
        column_by_id(columns, columns[i].id) == Some(columns[i]),
{
    let id = columns[i].id;
    lemma_first(columns, identified(id));
    assert(identified(id)(columns[i]));
    let found = column_by_id(columns, id)->Some_0;
    let k = choose|k: int| 0 <= k < columns.len() && columns[k] == found;
    assert(column_ids(columns)[k] == column_ids(columns)[i]);
}

/// The key of a sound table's rows has a part for every position of the primary
/// key; each reads the column that stands there, under its affinity in the
/// table's mode, and stands for the rowid only as the one part, of a column
/// declared INTEGER, of a table that keeps rowids.
pub proof fn row_keys_read_the_primary_key(
    tables: Seq<CatalogEntryView>,
    table: TableView,
    rules: RulesView,
)
    requires
        rules_of(tables, table) == Ok::<RulesView, ErrorView>(rules),
        definition_sound(table),
    ensures
        rules.key_parts.len() == key_width(table.columns),
        forall|p: int|
            0 <= p < rules.key_parts.len() ==> exists|i: int|
                0 <= i < table.columns.len() && (#[trigger] table.columns[i]).primary_key == Some(
                    p as u32,
                ) && (#[trigger] rules.key_parts[p]).column == table.columns[i].id
                    && rules.key_parts[p].affinity == column_affinity(table.columns[i], table.mode)
                    && rules.key_parts[p].rowid_alias == (table.storage
                    == TableStorage::Rowid
                    && rules.key_parts.len() == 1 && table.columns[i].integer),
{
    let columns = table.columns;
    assert forall|p: int| 0 <= p < rules.key_parts.len() implies exists|i: int|
        0 <= i < columns.len() && (#[trigger] columns[i]).primary_key == Some(p as u32) && (
        #[trigger] rules.key_parts[p]).column == columns[i].id && rules.key_parts[p].affinity
            == column_affinity(columns[i], table.mode) && rules.key_parts[p].rowid_alias == (
        table.storage == TableStorage::Rowid
            && rules.key_parts.len() == 1 && columns[i].integer) by {
        assert(key_position(columns, p));
        lemma_first(columns, standing(p));
        let j = choose|j: int|
            0 <= j < columns.len() && (#[trigger] columns[j]).primary_key == Some(p as u32);
        assert(standing(p)(columns[j]));
        let found = first(columns, standing(p))->Some_0;
        let i = choose|i: int| 0 <= i < columns.len() && columns[i] == found;
        lemma_found_by_id(columns, i);
        assert(primary_ids(columns)[p] == columns[i].id);
        assert(rules.key_parts[p] == primary_parts(table)[p]);
    }
}

/// Whether rules are those of a foreign key: they lead from its columns to the
/// index that it refers to, part by part.
pub open spec fn keeps_relationship(
    rule: ForeignKeyView,
    foreign_key: RelationshipView,
) -> bool {
    &&& rule.id == foreign_key.id
    &&& rule.parent_table == foreign_key.referenced_table
    &&& rule.parent_index == foreign_key.referenced_index
    &&& rule.key_parts.len() <= foreign_key.columns.len()
    &&& rule.key_parts.len() <= foreign_key.referenced_columns.len()
    &&& rule.key_parts.len() == foreign_key.columns.len() || rule.key_parts.len()
        == foreign_key.referenced_columns.len()
    &&& forall|i: int|
        0 <= i < rule.key_parts.len() ==> (#[trigger] rule.key_parts[i]).child_column
            == foreign_key.columns[i] && rule.key_parts[i].parent.column
            == foreign_key.referenced_columns[i]
}

/// The rules' foreign keys are the table's, one for one and in their order.
pub proof fn rules_keep_every_foreign_key(
    tables: Seq<CatalogEntryView>,
    table: TableView,
    rules: RulesView,
)
    requires
        rules_of(tables, table) == Ok::<RulesView, ErrorView>(rules),
    ensures
        rules.foreign_keys.len() == table.foreign_keys.len(),
        forall|i: int|
            0 <= i < rules.foreign_keys.len() ==> keeps_relationship(
                #[trigger] rules.foreign_keys[i],
                table.foreign_keys[i],
            ),
{
    lemma_try_map_ok(table.foreign_keys, outgoing_rule(tables, table));
    assert forall|i: int| 0 <= i < rules.foreign_keys.len() implies keeps_relationship(
        #[trigger] rules.foreign_keys[i],
        table.foreign_keys[i],
    ) by {
        let foreign_key = table.foreign_keys[i];
        assert(outgoing_rule(tables, table)(foreign_key) == Ok::<
            ForeignKeyView,
            ErrorView,
        >(rules.foreign_keys[i]));
        lemma_first(tables, entry_of(foreign_key.referenced_table));
    }
}

/// Whether rules fence a table's rows for a foreign key of a child.
pub open spec fn fences(rule: IncomingView, child: TableView, foreign_key: RelationshipView) -> bool {
    &&& rule.id == foreign_key.id
    &&& rule.child_table == child.table
    &&& rule.child_primary_index == child.primary_index
    &&& rule.parent_index == foreign_key.referenced_index
    &&& part_columns(rule.parent_key_parts) == foreign_key.referenced_columns
}

/// The references to a table among foreign keys are those that name it.
proof fn lemma_references_to(child: TableView, keys: Seq<RelationshipView>, parent: Seq<u8>)
    ensures
        forall|r: int|
            0 <= r < references_to(child, keys, parent).len() ==> {
                &&& (#[trigger] references_to(child, keys, parent)[r]).0 == child
                &&& references_to(child, keys, parent)[r].1.referenced_table == parent
                &&& keys.contains(references_to(child, keys, parent)[r].1)
            },
        forall|k: int|
            0 <= k < keys.len() && (#[trigger] keys[k]).referenced_table == parent
                ==> references_to(child, keys, parent).contains((child, keys[k])),
    decreases keys.len(),
{
    if keys.len() > 0 {
        let init = keys.drop_last();
        let before = references_to(child, init, parent);
        let all = references_to(child, keys, parent);
        lemma_references_to(child, init, parent);
        assert forall|r: int| 0 <= r < all.len() implies {
            &&& (#[trigger] all[r]).0 == child
            &&& all[r].1.referenced_table == parent
            &&& keys.contains(all[r].1)
        } by {
            if r < before.len() {
                assert(all[r] == before[r]);
                let k = choose|k: int| 0 <= k < init.len() && init[k] == before[r].1;
                assert(keys[k] == before[r].1);
            } else {
                assert(keys[keys.len() - 1] == all[r].1);
            }
        }
        assert forall|k: int|
            0 <= k < keys.len() && (#[trigger] keys[k]).referenced_table == parent implies
            all.contains((child, keys[k])) by {
            if k < init.len() {
                assert(init[k] == keys[k]);
                assert(before.contains((child, init[k])));
                let r = choose|r: int| 0 <= r < before.len() && before[r] == (child, init[k]);
                assert(all[r] == before[r]);
            } else {
                assert(all[before.len() as int] == (child, keys[k]));
            }
        }
    }
}

/// The foreign keys of a catalog that refer to a table are those of its tables
/// that name it, each of them and no others.
pub proof fn incoming_references_are_all_there(tables: Seq<CatalogEntryView>, parent: Seq<u8>)
    ensures
        forall|r: int|
            0 <= r < incoming_of(tables, parent).len() ==> {
                &&& (#[trigger] incoming_of(tables, parent)[r]).1.referenced_table == parent
                &&& exists|t: int|
                    0 <= t < tables.len() && (#[trigger] tables[t]).definition == incoming_of(
                        tables,
                        parent,
                    )[r].0 && tables[t].definition.foreign_keys.contains(
                        incoming_of(tables, parent)[r].1,
                    )
            },
        forall|t: int, k: int|
            0 <= t < tables.len() && 0 <= k < tables[t].definition.foreign_keys.len() && (
            #[trigger] tables[t].definition.foreign_keys[k]).referenced_table == parent
                ==> incoming_of(tables, parent).contains(
                (tables[t].definition, tables[t].definition.foreign_keys[k]),
            ),
    decreases tables.len(),
{
    if tables.len() > 0 {
        let init = tables.drop_last();
        let last = tables.last().definition;
        let before = incoming_of(init, parent);
        let added = references_to(last, last.foreign_keys, parent);
        let all = incoming_of(tables, parent);
        incoming_references_are_all_there(init, parent);
        lemma_references_to(last, last.foreign_keys, parent);
        assert(tables[tables.len() - 1].definition == last);
        assert forall|r: int| 0 <= r < all.len() implies {
            &&& (#[trigger] all[r]).1.referenced_table == parent
            &&& exists|t: int|
                0 <= t < tables.len() && (#[trigger] tables[t]).definition == all[r].0
                    && tables[t].definition.foreign_keys.contains(all[r].1)
        } by {
            if r < before.len() {
                assert(all[r] == before[r]);
                let t = choose|t: int|
                    0 <= t < init.len() && (#[trigger] init[t]).definition == before[r].0
                        && init[t].definition.foreign_keys.contains(before[r].1);
                assert(tables[t].definition == before[r].0);
            } else {
                assert(all[r] == added[r - before.len()]);
                assert(tables[tables.len() - 1].definition == all[r].0);
            }
        }
        assert forall|t: int, k: int|
            0 <= t < tables.len() && 0 <= k < tables[t].definition.foreign_keys.len() && (
            #[trigger] tables[t].definition.foreign_keys[k]).referenced_table == parent implies
            all.contains((tables[t].definition, tables[t].definition.foreign_keys[k])) by {
            let pair = (tables[t].definition, tables[t].definition.foreign_keys[k]);
            if t < init.len() {
                assert(init[t] == tables[t]);
                assert(init[t].definition.foreign_keys[k].referenced_table == parent);
                let r = choose|r: int| 0 <= r < before.len() && before[r] == pair;
                assert(all[r] == pair);
            } else {
                let r = choose|r: int| 0 <= r < added.len() && added[r] == pair;
                assert(all[before.len() + r] == pair);
            }
        }
    }
}

/// The rules fence the table's rows for every foreign key of the catalog that
/// refers to the table, and for no others. The table is the catalog's own.
pub proof fn rules_fence_every_incoming_foreign_key(
    tables: Seq<CatalogEntryView>,
    table: TableView,
    rules: RulesView,
)
    requires
        rules_of(tables, table) == Ok::<RulesView, ErrorView>(rules),
        table_by_id(tables, table.table) == Some(table),
    ensures
        forall|i: int|
            0 <= i < rules.incoming_foreign_keys.len() ==> exists|t: int, k: int|
                0 <= t < tables.len() && 0 <= k < tables[t].definition.foreign_keys.len() && (
                #[trigger] tables[t].definition.foreign_keys[k]).referenced_table == table.table
                    && fences(
                    #[trigger] rules.incoming_foreign_keys[i],
                    tables[t].definition,
                    tables[t].definition.foreign_keys[k],
                ),
        forall|t: int, k: int|
            0 <= t < tables.len() && 0 <= k < tables[t].definition.foreign_keys.len() && (
            #[trigger] tables[t].definition.foreign_keys[k]).referenced_table == table.table
                ==> exists|i: int|
                0 <= i < rules.incoming_foreign_keys.len() && fences(
                    #[trigger] rules.incoming_foreign_keys[i],
                    tables[t].definition,
                    tables[t].definition.foreign_keys[k],
                ),
{
    let found = incoming_of(tables, table.table);
    let kept = rules.incoming_foreign_keys;
    let rule = incoming_rule(tables, table);
    lemma_try_map_ok(found, rule);
    incoming_references_are_all_there(tables, table.table);
    assert forall|i: int| 0 <= i < kept.len() implies fences(
        #[trigger] kept[i],
        found[i].0,
        found[i].1,
    ) by {
        assert(rule(found[i]) == Ok::<IncomingView, ErrorView>(kept[i]));
        assert(found[i].1.referenced_table == table.table);
        assert(part_columns(kept[i].parent_key_parts) =~= found[i].1.referenced_columns);
    }
    assert forall|i: int| 0 <= i < kept.len() implies exists|t: int, k: int|
        0 <= t < tables.len() && 0 <= k < tables[t].definition.foreign_keys.len() && (
        #[trigger] tables[t].definition.foreign_keys[k]).referenced_table == table.table && fences(
            #[trigger] kept[i],
            tables[t].definition,
            tables[t].definition.foreign_keys[k],
        ) by {
        assert(fences(kept[i], found[i].0, found[i].1));
        let t = choose|t: int|
            0 <= t < tables.len() && (#[trigger] tables[t]).definition == found[i].0
                && tables[t].definition.foreign_keys.contains(found[i].1);
        let keys = tables[t].definition.foreign_keys;
        let k = choose|k: int| 0 <= k < keys.len() && keys[k] == found[i].1;
        assert(tables[t].definition.foreign_keys[k] == found[i].1);
    }
    assert forall|t: int, k: int|
        0 <= t < tables.len() && 0 <= k < tables[t].definition.foreign_keys.len() && (
        #[trigger] tables[t].definition.foreign_keys[k]).referenced_table == table.table implies
        exists|i: int|
        0 <= i < kept.len() && fences(
            #[trigger] kept[i],
            tables[t].definition,
            tables[t].definition.foreign_keys[k],
        ) by {
        let pair = (tables[t].definition, tables[t].definition.foreign_keys[k]);
        assert(found.contains(pair));
        let i = choose|i: int| 0 <= i < found.len() && found[i] == pair;
        assert(fences(kept[i], found[i].0, found[i].1));
    }
}

} // verus!
