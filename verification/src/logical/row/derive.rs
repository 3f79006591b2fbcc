//! The rules of a table's rows, from its definition and the catalog.

use super::rules::{
    ForeignKeyPartRules, ForeignKeyPartView, ForeignKeyRules, ForeignKeyView,
    IncomingForeignKeyRules, IncomingView, IndexRules, IndexView, KeyPartRules, KeyPartView,
    RowRules, RulesView,
};
use crate::attempt::try_map;
use crate::catalog::{
    incoming_of, table_by_id, CatalogEntryView, CatalogSnapshot,
};
use crate::codec::views;
use crate::each::{attempt_each, each, first, lemma_filter_push, lemma_first};
use crate::error::{list_verdict, verdict, Error, ErrorView, Result};
use crate::identity::ColumnId;
use crate::logical::schema::codec::same_column_ids;
use crate::logical::schema::definition::{
    column_ids, definition_sound, has_column, key_position, known_columns, ColumnView, CreateTable,
    ForeignKeyDefinition, NamedIndexView, RelationshipView, TableView, UniqueConstraint, UniqueView,
};
use crate::logical::schema::table::{
    column_affinity, column_by_id, constraint_of, find_column, identified, primary_columns,
    primary_ids, rowid_alias, standing, target_columns, target_index_of,
};
use vstd::prelude::*;

verus! {

/// The rule for one column of a key.
pub open spec fn key_part(table: TableView, id: Seq<u8>, alias: bool) -> KeyPartView {
    KeyPartView {
        column: id,
        affinity: column_affinity(column_by_id(table.columns, id)->Some_0, table.mode),
        rowid_alias: alias,
    }
}

/// The rule for one column of a key where the column may stand for the rowid.
pub open spec fn row_part(table: TableView) -> spec_fn(Seq<u8>) -> KeyPartView {
    |id: Seq<u8>| key_part(table, id, rowid_alias(table, id))
}

/// The rule for one column of an index.
pub open spec fn index_part(table: TableView) -> spec_fn(Seq<u8>) -> KeyPartView {
    |id: Seq<u8>| key_part(table, id, false)
}

/// The rules of the primary key.
pub open spec fn primary_parts(table: TableView) -> Seq<KeyPartView> {
    primary_ids(table.columns).map_values(row_part(table))
}

/// The rules of an index on some columns.
pub open spec fn index_on(table: TableView, index: Seq<u8>, columns: Seq<Seq<u8>>) -> IndexView {
    IndexView { index, parts: columns.map_values(index_part(table)) }
}

/// The rules of a UNIQUE constraint.
pub open spec fn unique_rule(table: TableView) -> spec_fn(UniqueView) -> IndexView {
    |unique: UniqueView| index_on(table, unique.index, unique.columns)
}

/// The rules of a named index.
pub open spec fn named_rule(table: TableView) -> spec_fn(NamedIndexView) -> IndexView {
    |named: NamedIndexView| index_on(table, named.index, named.columns)
}

/// Whether an index owns values now.
pub open spec fn owns_now() -> spec_fn(NamedIndexView) -> bool {
    |named: NamedIndexView| named.active && named.unique
}

/// Whether an index can own values.
pub open spec fn can_own() -> spec_fn(NamedIndexView) -> bool {
    |named: NamedIndexView| named.unique
}

/// The rules of the indexes that own values now.
pub open spec fn index_rules_of(table: TableView) -> Seq<IndexView> {
    table.unique_constraints.map_values(unique_rule(table)) + table.indexes.filter(
        owns_now(),
    ).map_values(named_rule(table))
}

/// The rules of the indexes that can own values.
pub open spec fn known_index_rules_of(table: TableView) -> Seq<IndexView> {
    table.unique_constraints.map_values(unique_rule(table)) + table.indexes.filter(
        can_own(),
    ).map_values(named_rule(table))
}

/// How many columns two lists have in common from the left.
pub open spec fn shorter(a: nat, b: nat) -> nat {
    if a < b {
        a
    } else {
        b
    }
}

/// The rules of a foreign key, checked against the parent that it refers to.
pub open spec fn relationship_rule(
    tables: Seq<CatalogEntryView>,
    child: TableView,
    foreign_key: RelationshipView,
) -> std::result::Result<ForeignKeyView, ErrorView> {
    match table_by_id(tables, foreign_key.referenced_table) {
        None => Err(
            ErrorView::InvalidDatabase("foreign key references an unknown parent table"@),
        ),
        Some(parent) => match target_columns(parent, foreign_key.referenced_index) {
            None => Err(
                ErrorView::InvalidDatabase(
                    "foreign key target is no longer active in the parent schema"@,
                ),
            ),
            Some(columns) => {
                let width = shorter(foreign_key.columns.len(), columns.len());
                if columns != foreign_key.referenced_columns {
                    Err(
                        ErrorView::InvalidDatabase(
                            "foreign key parent identity contradicts the schema catalog"@,
                        ),
                    )
                } else if exists|i: int|
                    0 <= i < width && !column_ids(child.columns).contains(
                        #[trigger] foreign_key.columns[i],
                    ) {
                    Err(
                        ErrorView::InvalidDatabase(
                            "foreign key references an unknown child column"@,
                        ),
                    )
                } else {
                    Ok(
                        ForeignKeyView {
                            id: foreign_key.id,
                            parent_table: parent.table,
                            parent_index: foreign_key.referenced_index,
                            key_parts: Seq::new(
                                width,
                                |i: int|
                                    ForeignKeyPartView {
                                        child_column: foreign_key.columns[i],
                                        parent: row_part(parent)(columns[i]),
                                    },
                            ),
                        },
                    )
                }
            },
        },
    }
}

/// The rules of a foreign key of a table.
pub open spec fn outgoing_rule(tables: Seq<CatalogEntryView>, child: TableView) -> spec_fn(
    RelationshipView,
) -> std::result::Result<ForeignKeyView, ErrorView> {
    |foreign_key: RelationshipView| relationship_rule(tables, child, foreign_key)
}

/// The rule for one column of a key that a child refers to.
pub open spec fn target_part(parent: TableView, index: Seq<u8>) -> spec_fn(Seq<u8>) -> KeyPartView {
    |id: Seq<u8>|
        key_part(parent, id, index == parent.primary_index && rowid_alias(parent, id))
}

/// The rules by which a parent's rows fence a child's foreign key.
pub open spec fn incoming_rule(tables: Seq<CatalogEntryView>, parent: TableView) -> spec_fn(
    (TableView, RelationshipView),
) -> std::result::Result<IncomingView, ErrorView> {
    |reference: (TableView, RelationshipView)|
        match relationship_rule(tables, reference.0, reference.1) {
            Err(error) => Err(error),
            Ok(_) => match target_columns(parent, reference.1.referenced_index) {
                None => Err(
                    ErrorView::InvalidDatabase(
                        "foreign key target is no longer active in the parent schema"@,
                    ),
                ),
                Some(columns) => Ok(
                    IncomingView {
                        id: reference.1.id,
                        child_table: reference.0.table,
                        child_primary_index: reference.0.primary_index,
                        parent_index: reference.1.referenced_index,
                        parent_key_parts: columns.map_values(
                            target_part(parent, reference.1.referenced_index),
                        ),
                    },
                ),
            },
        }
}

/// The rules of a table's foreign keys.
pub open spec fn outgoing_rules_of(tables: Seq<CatalogEntryView>, table: TableView) -> std::result::Result<
    Seq<ForeignKeyView>,
    ErrorView,
> {
    try_map(table.foreign_keys, outgoing_rule(tables, table))
}

/// The rules of the foreign keys that refer to a table.
pub open spec fn incoming_rules_of(tables: Seq<CatalogEntryView>, table: TableView) -> std::result::Result<
    Seq<IncomingView>,
    ErrorView,
> {
    try_map(incoming_of(tables, table.table), incoming_rule(tables, table))
}

/// The rules of a table's rows.
pub open spec fn rules_of(tables: Seq<CatalogEntryView>, table: TableView) -> std::result::Result<
    RulesView,
    ErrorView,
> {
    match outgoing_rules_of(tables, table) {
        Err(error) => Err(error),
        Ok(foreign_keys) => match incoming_rules_of(tables, table) {
            Err(error) => Err(error),
            Ok(incoming_foreign_keys) => Ok(
                RulesView {
                    table: table.table,
                    schema_revision: table.schema_revision,
                    primary_index: table.primary_index,
                    storage: table.storage,
                    key_parts: primary_parts(table),
                    indexes: index_rules_of(table),
                    foreign_keys,
                    incoming_foreign_keys,
                },
            ),
        },
    }
}

/// A column that is among columns is found.
proof fn lemma_column_found(columns: Seq<ColumnView>, id: Seq<u8>)
    requires
        column_ids(columns).contains(id),
    ensures
        column_by_id(columns, id) is Some,
{
    lemma_first(columns, identified(id));
    let k = choose|k: int| 0 <= k < columns.len() && column_ids(columns)[k] == id;
    assert(identified(id)(columns[k]));
}

/// The columns of a sound table's primary key are among its columns.
pub proof fn lemma_primary_known(table: TableView)
    requires
        definition_sound(table),
    ensures
        forall|p: int|
            0 <= p < primary_ids(table.columns).len() ==> column_ids(table.columns).contains(
                #[trigger] primary_ids(table.columns)[p],
            ),
{
    assert forall|p: int| 0 <= p < primary_ids(table.columns).len() implies column_ids(
        table.columns,
    ).contains(#[trigger] primary_ids(table.columns)[p]) by {
        assert(key_position(table.columns, p));
        lemma_first(table.columns, standing(p));
        let i = choose|i: int|
            0 <= i < table.columns.len() && (#[trigger] table.columns[i]).primary_key == Some(
                p as u32,
            );
        assert(standing(p)(table.columns[i]));
        let found = first(table.columns, standing(p))->Some_0;
        let k = choose|k: int| 0 <= k < table.columns.len() && table.columns[k] == found;
        assert(column_ids(table.columns)[k] == found.id);
    }
}

/// The columns that a foreign key can refer to are among a sound table's columns.
proof fn lemma_target_known(table: TableView, index: Seq<u8>)
    requires
        definition_sound(table),
    ensures
        target_columns(table, index) matches Some(columns) ==> forall|i: int|
            0 <= i < columns.len() ==> column_ids(table.columns).contains(#[trigger] columns[i]),
{
    lemma_primary_known(table);
    lemma_first(table.unique_constraints, constraint_of(index));
    lemma_first(table.indexes, target_index_of(index));
}

impl CreateTable {
    /// The rule for one column of a key.
    fn part(&self, id: ColumnId, alias: bool) -> (r: KeyPartRules)
        requires
            column_ids(self@.columns).contains(id@),
        ensures
            r@ == key_part(self@, id@, alias),
    {
        proof {
            assert(self@.columns == views(self.columns@));
            lemma_column_found(self@.columns, id@);
        }
        match find_column(self.columns.as_slice(), id) {
            Some(i) => KeyPartRules {
                column: id,
                affinity: self.columns[i].affinity(self.mode),
                rowid_alias: alias,
            },
            None => {
                assert(false);
                KeyPartRules { column: id, affinity: self.columns[0].affinity, rowid_alias: alias }
            },
        }
    }

    /// The rules of an index on some columns.
    pub fn index_parts(&self, columns: &[ColumnId]) -> (r: Vec<KeyPartRules>)
        requires
            forall|i: int|
                0 <= i < columns@.len() ==> column_ids(self@.columns).contains(
                    (#[trigger] columns@[i])@,
                ),
        ensures
            views(r@) == views(columns@).map_values(index_part(self@)),
    {
        let part = |id: &ColumnId| -> (r: KeyPartRules)
            requires
                column_ids(self@.columns).contains(id@),
            ensures
                r@ == index_part(self@)(id@),
            { self.part(*id, false) };
        each(columns, part, Ghost(index_part(self@)))
    }

    /// The rules of the primary key.
    pub fn primary_key_parts(&self) -> (r: Vec<KeyPartRules>)
        requires
            definition_sound(self@),
        ensures
            views(r@) == primary_parts(self@),
    {
        let primary = self.primary_key_columns();
        let ghost ids = primary_ids(self@.columns);
        let mut r: Vec<KeyPartRules> = Vec::new();
        let mut i: usize = 0;
        proof {
            lemma_primary_known(self@);
        }
        while i < primary.len()
            invariant
                i <= primary@.len(),
                r@.len() == i,
                ids == primary_ids(self@.columns),
                primary@.len() == ids.len(),
                forall|p: int|
                    0 <= p < primary@.len() ==> (#[trigger] primary@[p])@ == primary_columns(
                        self@.columns,
                    )[p],
                forall|p: int|
                    0 <= p < ids.len() ==> column_ids(self@.columns).contains(#[trigger] ids[p]),
                forall|j: int| 0 <= j < i ==> (#[trigger] r@[j])@ == row_part(self@)(ids[j]),
            decreases primary.len() - i,
        {
            let id = primary[i].id;
            assert(ids[i as int] == id@);
            r.push(self.part(id, self.is_rowid_alias(id)));
            i += 1;
        }
        assert(views(r@) =~= primary_parts(self@));
        r
    }

    /// The rules of the UNIQUE constraints.
    fn unique_rules(&self) -> (r: Vec<IndexRules>)
        requires
            definition_sound(self@),
        ensures
            views(r@) == self@.unique_constraints.map_values(unique_rule(self@)),
    {
        assert(self@.unique_constraints == views(self.unique_constraints@));
        let rule = |unique: &UniqueConstraint| -> (r: IndexRules)
            requires
                known_columns(self@.columns, unique@.columns),
            ensures
                r@ == unique_rule(self@)(unique@),
            {
                proof {
                    assert forall|i: int| 0 <= i < unique.columns@.len() implies column_ids(
                        self@.columns,
                    ).contains((#[trigger] unique.columns@[i])@) by {
                        assert(unique@.columns[i] == unique.columns@[i]@);
                    }
                }
                IndexRules {
                    index: unique.index,
                    parts: self.index_parts(unique.columns.as_slice()),
                }
            };
        proof {
            assert forall|i: int| 0 <= i < self.unique_constraints@.len() implies known_columns(
                self@.columns,
                (#[trigger] self.unique_constraints@[i])@.columns,
            ) by {
                assert(self@.unique_constraints[i] == self.unique_constraints@[i]@);
            }
        }
        each(self.unique_constraints.as_slice(), rule, Ghost(unique_rule(self@)))
    }

    /// The rules of the named indexes that can own values, or that do now.
    fn named_rules(&self, active_only: bool) -> (r: Vec<IndexRules>)
        requires
            definition_sound(self@),
        ensures
            views(r@) == self@.indexes.filter(
                if active_only {
                    owns_now()
                } else {
                    can_own()
                },
            ).map_values(named_rule(self@)),
    {
        let ghost all = self@.indexes;
        let ghost test = if active_only {
            owns_now()
        } else {
            can_own()
        };
        let mut r: Vec<IndexRules> = Vec::new();
        let mut i: usize = 0;
        proof {
            assert(all == views(self.indexes@));
            reveal(Seq::filter);
            assert(all.subrange(0, 0) =~= Seq::<NamedIndexView>::empty());
            assert(views(r@) =~= all.subrange(0, 0).filter(test).map_values(named_rule(self@)));
        }
        while i < self.indexes.len()
            invariant
                i <= self.indexes@.len(),
                all == views(self.indexes@),
                all == self@.indexes,
                definition_sound(self@),
                test == (if active_only {
                    owns_now()
                } else {
                    can_own()
                }),
                views(r@) == all.subrange(0, i as int).filter(test).map_values(named_rule(self@)),
            decreases self.indexes.len() - i,
        {
            let named = &self.indexes[i];
            let ghost before = all.subrange(0, i as int);
            proof {
                lemma_filter_push(before, named@, test);
                assert(before.push(named@) =~= all.subrange(0, i as int + 1));
                assert(all[i as int] == named@);
            }
            if named.unique && (named.active || !active_only) {
                proof {
                    assert(known_columns(self@.columns, self@.indexes[i as int].columns));
                    assert forall|k: int| 0 <= k < named.columns@.len() implies column_ids(
                        self@.columns,
                    ).contains((#[trigger] named.columns@[k])@) by {
                        assert(named@.columns[k] == named.columns@[k]@);
                    }
                }
                let rule = IndexRules {
                    index: named.index,
                    parts: self.index_parts(named.columns.as_slice()),
                };
                let ghost had = views(r@);
                assert(rule@ =~= named_rule(self@)(named@));
                r.push(rule);
                assert(views(r@) =~= had.push(rule@));
                assert(views(r@) =~= all.subrange(0, i as int + 1).filter(test).map_values(
                    named_rule(self@),
                ));
            }
            i += 1;
        }
        assert(all.subrange(0, i as int) =~= all);
        r
    }

    /// The rules of the indexes that own values now.
    pub fn index_rules(&self) -> (r: Vec<IndexRules>)
        requires
            definition_sound(self@),
        ensures
            views(r@) == index_rules_of(self@),
    {
        let mut r = self.unique_rules();
        let mut named = self.named_rules(true);
        let ghost a = views(r@);
        let ghost b = views(named@);
        r.append(&mut named);
        assert(views(r@) =~= a + b);
        r
    }

    /// The rules of the indexes that can own values.
    pub fn known_index_rules(&self) -> (r: Vec<IndexRules>)
        requires
            definition_sound(self@),
        ensures
            views(r@) == known_index_rules_of(self@),
    {
        let mut r = self.unique_rules();
        let mut named = self.named_rules(false);
        let ghost a = views(r@);
        let ghost b = views(named@);
        r.append(&mut named);
        assert(views(r@) =~= a + b);
        r
    }
}

/// The rules of a foreign key, checked against the parent that it refers to.
pub fn foreign_key_rule(
    catalog: &CatalogSnapshot,
    child: &CreateTable,
    foreign_key: &ForeignKeyDefinition,
) -> (r: Result<ForeignKeyRules>)
    ensures
        verdict(r) == relationship_rule(catalog@, child@, foreign_key@),
{
    let parent = match catalog.by_id(foreign_key.referenced_table) {
        None => {
            return Err(Error::InvalidDatabase("foreign key references an unknown parent table"));
        },
        Some(parent) => parent,
    };
    let columns = match parent.foreign_key_target_columns(foreign_key.referenced_index) {
        None => {
            return Err(
                Error::InvalidDatabase(
                    "foreign key target is no longer active in the parent schema",
                ),
            );
        },
        Some(columns) => columns,
    };
    if !same_column_ids(&columns, &foreign_key.referenced_columns) {
        return Err(
            Error::InvalidDatabase("foreign key parent identity contradicts the schema catalog"),
        );
    }
    let ghost target = views(columns@);
    let ghost width = shorter(foreign_key@.columns.len(), target.len());
    let mut key_parts: Vec<ForeignKeyPartRules> = Vec::new();
    let mut i: usize = 0;
    proof {
        lemma_target_known(parent@, foreign_key@.referenced_index);
    }
    while i < foreign_key.columns.len() && i < columns.len()
        invariant
            i <= width,
            width == shorter(foreign_key@.columns.len(), target.len()),
            target == views(columns@),
            target_columns(parent@, foreign_key@.referenced_index) == Some(target),
            foreign_key@.columns == views(foreign_key.columns@),
            table_by_id(catalog@, foreign_key@.referenced_table) == Some(parent@),
            target == foreign_key@.referenced_columns,
            forall|j: int|
                0 <= j < target.len() ==> column_ids(parent@.columns).contains(
                    #[trigger] target[j],
                ),
            key_parts@.len() == i,
            forall|j: int|
                0 <= j < i ==> column_ids(child@.columns).contains(
                    #[trigger] foreign_key@.columns[j],
                ),
            forall|j: int|
                0 <= j < i ==> (#[trigger] key_parts@[j])@ == (ForeignKeyPartView {
                    child_column: foreign_key@.columns[j],
                    parent: row_part(parent@)(target[j]),
                }),
        decreases columns.len() - i,
    {
        let child_column = foreign_key.columns[i];
        let parent_column = columns[i];
        assert(foreign_key@.columns[i as int] == child_column@);
        assert(target[i as int] == parent_column@);
        assert(child@.columns == views(child.columns@));
        if !has_column(child.columns.as_slice(), child_column) {
            return Err(Error::InvalidDatabase("foreign key references an unknown child column"));
        }
        let part = parent.part(parent_column, parent.is_rowid_alias(parent_column));
        key_parts.push(ForeignKeyPartRules { child_column, parent: part });
        i += 1;
    }
    let r = ForeignKeyRules {
        id: foreign_key.id,
        parent_table: parent.table_id(),
        parent_index: foreign_key.referenced_index,
        key_parts,
    };
    proof {
        let want = relationship_rule(catalog@, child@, foreign_key@);
        assert(r@.key_parts =~= want->Ok_0.key_parts);
    }
    Ok(r)
}

/// The rules by which a parent's rows fence a child's foreign key.
fn incoming_foreign_key_rule(
    catalog: &CatalogSnapshot,
    parent: &CreateTable,
    child: &CreateTable,
    foreign_key: &ForeignKeyDefinition,
) -> (r: Result<IncomingForeignKeyRules>)
    requires
        definition_sound(parent@),
    ensures
        verdict(r) == incoming_rule(catalog@, parent@)((child@, foreign_key@)),
{
    if let Err(error) = foreign_key_rule(catalog, child, foreign_key) {
        return Err(error);
    }
    let target = foreign_key.referenced_index;
    let columns = match parent.foreign_key_target_columns(target) {
        None => {
            return Err(
                Error::InvalidDatabase(
                    "foreign key target is no longer active in the parent schema",
                ),
            );
        },
        Some(columns) => columns,
    };
    let primary = target.same(&parent.primary_index);
    let part = |id: &ColumnId| -> (r: KeyPartRules)
        requires
            column_ids(parent@.columns).contains(id@),
        ensures
            r@ == key_part(parent@, id@, primary && rowid_alias(parent@, id@)),
        { parent.part(*id, primary && parent.is_rowid_alias(*id)) };
    proof {
        lemma_target_known(parent@, target@);
        assert forall|i: int| 0 <= i < columns@.len() implies column_ids(
            parent@.columns,
        ).contains((#[trigger] columns@[i])@) by {
            assert(views(columns@)[i] == columns@[i]@);
        }
    }
    let parent_key_parts = each(
        columns.as_slice(),
        part,
        Ghost(target_part(parent@, target@)),
    );
    Ok(
        IncomingForeignKeyRules {
            id: foreign_key.id,
            child_table: child.table_id(),
            child_primary_index: child.primary_index_id(),
            parent_index: target,
            parent_key_parts,
        },
    )
}

/// The rules of a table's foreign keys.
pub fn foreign_key_rules(catalog: &CatalogSnapshot, created: &CreateTable) -> (r: Result<
    Vec<ForeignKeyRules>,
>)
    ensures
        list_verdict(r) == outgoing_rules_of(catalog@, created@),
{
    assert(created@.foreign_keys == views(created.foreign_keys@));
    let rule = |foreign_key: &ForeignKeyDefinition| -> (r: Result<ForeignKeyRules>)
        ensures
            verdict(r) == outgoing_rule(catalog@, created@)(foreign_key@),
        { foreign_key_rule(catalog, created, foreign_key) };
    attempt_each(
        created.foreign_keys.as_slice(),
        rule,
        Ghost(outgoing_rule(catalog@, created@)),
    )
}

/// The rules of the foreign keys that refer to a table. Every one is checked in
/// full, so that a corrupt link does not weaken the fence of a parent.
pub fn incoming_foreign_key_rules(catalog: &CatalogSnapshot, parent: &CreateTable) -> (r: Result<
    Vec<IncomingForeignKeyRules>,
>)
    requires
        definition_sound(parent@),
    ensures
        list_verdict(r) == incoming_rules_of(catalog@, parent@),
{
    let incoming = catalog.incoming_foreign_keys(parent.table_id());
    let rule = |reference: &(&CreateTable, &ForeignKeyDefinition)| -> (r: Result<
        IncomingForeignKeyRules,
    >)
        requires
            definition_sound(parent@),
        ensures
            verdict(r) == incoming_rule(catalog@, parent@)(reference@),
        { incoming_foreign_key_rule(catalog, parent, reference.0, reference.1) };
    attempt_each(incoming.as_slice(), rule, Ghost(incoming_rule(catalog@, parent@)))
}

impl RowRules {
    /// The rules of a table's rows.
    pub fn from_table(catalog: &CatalogSnapshot, created: &CreateTable) -> (r: Result<RowRules>)
        requires
            definition_sound(created@),
        ensures
            verdict(r) == rules_of(catalog@, created@),
    {
        let foreign_keys = match foreign_key_rules(catalog, created) {
            Err(error) => {
                return Err(error);
            },
            Ok(rules) => rules,
        };
        let incoming_foreign_keys = match incoming_foreign_key_rules(catalog, created) {
            Err(error) => {
                return Err(error);
            },
            Ok(rules) => rules,
        };
        Ok(
            RowRules {
                table: created.table_id(),
                schema_revision: created.schema_revision_id(),
                primary_index: created.primary_index_id(),
                storage: created.storage,
                key_parts: created.primary_key_parts(),
                indexes: created.index_rules(),
                foreign_keys,
                incoming_foreign_keys,
            },
        )
    }
}

} // verus!
