//! What a table definition says of its columns and keys.

use super::codec::clone_column_ids;
use super::definition::{
    definition_sound, find_key_column, key_position, key_width, primary_key_width, Column,
    ColumnView, CreateTable, NamedIndex, NamedIndexView, TableView, UniqueConstraint, UniqueView,
};
use super::error::SchemaCodecError;
use crate::attempt::try_map;
use crate::codec::{list_outcome, outcome, views};
use crate::each::{find, first, try_each};
use crate::identity::{ColumnId, IndexId, SchemaRevisionId, TableId};
use crate::logical::types::{Affinity, StrictType, TableMode, TableStorage};
use crate::name::{canonical_bytes, SqlName};
use vstd::prelude::*;

verus! {

/// The affinity that a column's values have in a table of some mode.
pub open spec fn column_affinity(column: ColumnView, mode: TableMode) -> Affinity {
    if mode == TableMode::Strict && column.strict == Some(StrictType::Any) {
        Affinity::Blob
    } else {
        column.affinity
    }
}

impl Column {
    /// The affinity that the column's values have in a table of some mode.
    pub fn affinity(&self, mode: TableMode) -> (r: Affinity)
        ensures
            r == column_affinity(self@, mode),
    {
        match (mode, self.strict) {
            (TableMode::Strict, Some(StrictType::Any)) => Affinity::Blob,
            _ => self.affinity,
        }
    }
}

/// Whether a column has an identity.
pub open spec fn identified(id: Seq<u8>) -> spec_fn(ColumnView) -> bool {
    |column: ColumnView| column.id == id
}

/// Whether a column's name binds as another name does.
pub open spec fn named(name: Seq<char>) -> spec_fn(ColumnView) -> bool {
    |column: ColumnView| canonical_bytes(column.name) == canonical_bytes(name)
}

/// Whether a column stands at a position of the primary key.
pub open spec fn standing(position: int) -> spec_fn(ColumnView) -> bool {
    |column: ColumnView|
        0 <= position <= u32::MAX && column.primary_key == Some(position as u32)
}

/// The column with an identity.
pub open spec fn column_by_id(columns: Seq<ColumnView>, id: Seq<u8>) -> Option<ColumnView> {
    first(columns, identified(id))
}

/// The column with a name.
pub open spec fn column_by_name(columns: Seq<ColumnView>, name: Seq<char>) -> Option<ColumnView> {
    first(columns, named(name))
}

/// The columns of the primary key, in its order.
pub open spec fn primary_columns(columns: Seq<ColumnView>) -> Seq<ColumnView> {
    Seq::new(key_width(columns), |p: int| first(columns, standing(p))->Some_0)
}

/// The identities of the primary key's columns, in its order.
pub open spec fn primary_ids(columns: Seq<ColumnView>) -> Seq<Seq<u8>> {
    Seq::new(key_width(columns), |p: int| primary_columns(columns)[p].id)
}

/// Whether a column stands for the rowid: the table keeps rowids and the
/// column is its whole primary key, declared INTEGER.
pub open spec fn rowid_alias(table: TableView, id: Seq<u8>) -> bool {
    &&& table.storage == TableStorage::Rowid
    &&& key_width(table.columns) == 1
    &&& column_by_id(table.columns, id) matches Some(column)
    &&& column.primary_key is Some
    &&& column.integer
}

/// The identity of the column that each name binds, or a failure at the first
/// name that binds none.
pub open spec fn resolution(columns: Seq<ColumnView>) -> spec_fn(Seq<char>) -> Result<
    Seq<u8>,
    SchemaCodecError,
> {
    |name: Seq<char>|
        match column_by_name(columns, name) {
            Some(column) => Ok(column.id),
            None => Err(SchemaCodecError::InvalidSchema),
        }
}

/// The identities of named columns.
pub open spec fn resolved(columns: Seq<ColumnView>, names: Seq<Seq<char>>) -> Result<
    Seq<Seq<u8>>,
    SchemaCodecError,
> {
    try_map(names, resolution(columns))
}

/// Whether a UNIQUE constraint is kept by an index.
pub open spec fn constraint_of(index: Seq<u8>) -> spec_fn(UniqueView) -> bool {
    |unique: UniqueView| unique.index == index
}

/// Whether a named index is active, unique, and has an identity.
pub open spec fn target_index_of(index: Seq<u8>) -> spec_fn(NamedIndexView) -> bool {
    |named: NamedIndexView| named.index == index && named.unique && named.active
}

/// The columns of the index that a foreign key can refer to: the primary key, a
/// UNIQUE constraint, or an active unique index.
pub open spec fn target_columns(table: TableView, index: Seq<u8>) -> Option<Seq<Seq<u8>>> {
    if table.primary_index == index {
        Some(primary_ids(table.columns))
    } else {
        match first(table.unique_constraints, constraint_of(index)) {
            Some(unique) => Some(unique.columns),
            None => match first(table.indexes, target_index_of(index)) {
                Some(named) => Some(named.columns),
                None => None,
            },
        }
    }
}

/// Find a column by its identity.
pub fn find_column(columns: &[Column], id: ColumnId) -> (r: Option<usize>)
    ensures
        match r {
            Some(i) => i < columns@.len() && column_by_id(views(columns@), id@) == Some(
                columns@[i as int]@,
            ) && columns@[i as int]@.id == id@,
            None => column_by_id(views(columns@), id@) is None,
        },
{
    let ghost test = identified(id@);
    let matching = |column: &Column| -> (r: bool)
        ensures
            r == identified(id@)(column@),
        { column.id.same(&id) };
    find(columns, matching, Ghost(test))
}

/// Find a column by its name.
pub fn find_named(columns: &[Column], name: &SqlName) -> (r: Option<usize>)
    ensures
        match r {
            Some(i) => i < columns@.len() && column_by_name(views(columns@), name@) == Some(
                columns@[i as int]@,
            ),
            None => column_by_name(views(columns@), name@) is None,
        },
{
    let ghost test = named(name@);
    let matching = |column: &Column| -> (r: bool)
        ensures
            r == named(name@)(column@),
        { column.name.same_canonical(name) };
    find(columns, matching, Ghost(test))
}

/// The identities of named columns.
pub fn resolve_names(columns: &[Column], names: &[SqlName]) -> (r: Result<
    Vec<ColumnId>,
    SchemaCodecError,
>)
    ensures
        list_outcome(r) == resolved(views(columns@), views(names@)),
{
    let ghost image = resolution(views(columns@));
    let resolve = |name: &SqlName| -> (r: Result<ColumnId, SchemaCodecError>)
        ensures
            outcome(r) == resolution(views(columns@))(name@),
        {
            match find_named(columns, name) {
                Some(i) => Ok(columns[i].id),
                None => Err(SchemaCodecError::InvalidSchema),
            }
        };
    try_each(names, resolve, Ghost(image))
}

impl CreateTable {
    /// The table's identity.
    pub fn table_id(&self) -> (r: TableId)
        ensures
            r@ == self@.table,
    {
        self.table
    }

    /// The revision of the table's schema.
    pub fn schema_revision_id(&self) -> (r: SchemaRevisionId)
        ensures
            r@ == self@.schema_revision,
    {
        self.schema_revision
    }

    /// The table's primary index.
    pub fn primary_index_id(&self) -> (r: IndexId)
        ensures
            r@ == self@.primary_index,
    {
        self.primary_index
    }

    /// The name that the table was created under.
    pub fn table_name(&self) -> (r: &str)
        ensures
            r@ == self@.name,
    {
        self.name.value()
    }

    /// The columns of the primary key, in its order.
    pub fn primary_key_columns(&self) -> (r: Vec<&Column>)
        requires
            definition_sound(self@),
        ensures
            r@.len() == primary_columns(self@.columns).len(),
            forall|p: int|
                0 <= p < r@.len() ==> (#[trigger] r@[p])@ == primary_columns(self@.columns)[p],
    {
        let ghost columns = self@.columns;
        assert(columns == views(self.columns@));
        let width: usize = primary_key_width(self.columns.as_slice());
        let mut r: Vec<&Column> = Vec::new();
        let mut p: usize = 0;
        while p < width
            invariant
                p <= width,
                r@.len() == p,
                columns == views(self.columns@),
                width == key_width(columns),
                definition_sound(self@),
                columns == self@.columns,
                forall|q: int|
                    0 <= q < p ==> (#[trigger] r@[q])@ == primary_columns(columns)[q],
            decreases width - p,
        {
            assert(key_position(columns, p as int));
            match find_key_column(self.columns.as_slice(), p) {
                Some(i) => {
                    proof {
                        lemma_first_standing(columns, p as int, i as int);
                    }
                    r.push(&self.columns[i]);
                },
                None => {
                    assert(false);
                },
            }
            p += 1;
        }
        r
    }

    /// Whether a column stands for the rowid.
    pub fn is_rowid_alias(&self, id: ColumnId) -> (r: bool)
        ensures
            r == rowid_alias(self@, id@),
    {
        assert(self@.columns == views(self.columns@));
        match self.storage {
            TableStorage::WithoutRowid => false,
            TableStorage::Rowid => {
                if primary_key_width(self.columns.as_slice()) != 1 {
                    return false;
                }
                match find_column(self.columns.as_slice(), id) {
                    Some(i) => self.columns[i].primary_key.is_some() && self.columns[i].integer,
                    None => false,
                }
            },
        }
    }

    /// The columns of an index that a foreign key can refer to.
    pub fn foreign_key_target_columns(&self, index: IndexId) -> (r: Option<Vec<ColumnId>>)
        requires
            definition_sound(self@),
        ensures
            match r {
                Some(ids) => target_columns(self@, index@) == Some(views(ids@)),
                None => target_columns(self@, index@) is None,
            },
    {
        if self.primary_index.same(&index) {
            let primary = self.primary_key_columns();
            let mut ids: Vec<ColumnId> = Vec::new();
            let mut i: usize = 0;
            while i < primary.len()
                invariant
                    i <= primary@.len(),
                    ids@.len() == i,
                    forall|j: int| 0 <= j < i ==> (#[trigger] ids@[j])@ == primary@[j]@.id,
                decreases primary.len() - i,
            {
                ids.push(primary[i].id);
                i += 1;
            }
            assert(views(ids@) =~= primary_ids(self@.columns));
            return Some(ids);
        }
        assert(self@.unique_constraints == views(self.unique_constraints@));
        assert(self@.indexes == views(self.indexes@));
        let is_unique = |unique: &UniqueConstraint| -> (r: bool)
            ensures
                r == constraint_of(index@)(unique@),
            { unique.index.same(&index) };
        if let Some(i) = find(
            self.unique_constraints.as_slice(),
            is_unique,
            Ghost(constraint_of(index@)),
        ) {
            return Some(clone_column_ids(&self.unique_constraints[i].columns));
        }
        let is_target = |named: &NamedIndex| -> (r: bool)
            ensures
                r == target_index_of(index@)(named@),
            { named.index.same(&index) && named.unique && named.active };
        match find(self.indexes.as_slice(), is_target, Ghost(target_index_of(index@))) {
            Some(i) => Some(clone_column_ids(&self.indexes[i].columns)),
            None => None,
        }
    }
}

/// The column that a search from the left finds is the one at the position.
proof fn lemma_first_standing(columns: Seq<ColumnView>, position: int, i: int)
    requires
        0 <= i < columns.len(),
        0 <= position <= u32::MAX,
        columns[i].primary_key == Some(position as u32),
        forall|j: int|
            0 <= j < i ==> (#[trigger] columns[j]).primary_key != Some(position as u32),
    ensures
        first(columns, standing(position)) == Some(columns[i]),
    decreases columns.len(),
{
    if i > 0 {
        let rest = columns.drop_first();
        assert(columns[0].primary_key != Some(position as u32));
        assert forall|j: int| 0 <= j < i - 1 implies (#[trigger] rest[j]).primary_key != Some(
            position as u32,
        ) by {
            assert(rest[j] == columns[j + 1]);
        }
        assert(rest[i - 1] == columns[i]);
        lemma_first_standing(rest, position, i - 1);
    }
}

} // verus!
