//! The schema catalog: which tables there are, and what they are called now.

use crate::attempt::try_map;
use crate::codec::views;
use crate::each::{attempt_each, each, find, first, retain};
use crate::error::{list_verdict, verdict, Error, ErrorView, Result};
use crate::identity::{ColumnId, TableId};
use crate::logical::schema::definition::{
    definition_sound, ColumnView, CreateTable, ForeignKeyDefinition, RelationshipView, TableView,
};
use crate::name::{canonical_bytes, fold_bytes, SqlName};
use crate::bytes::same_bytes;
use vstd::prelude::*;
use vstd::string::*;

verus! {

/// The name that a column has now.
#[derive(Debug, PartialEq, Eq)]
pub struct ColumnBinding {
    pub column: ColumnId,
    pub name: SqlName,
}

/// A binding as a mathematical value.
#[verifier::ext_equal]
pub struct BindingView {
    pub column: Seq<u8>,
    pub name: Seq<char>,
}

impl View for ColumnBinding {
    type V = BindingView;

    open spec fn view(&self) -> BindingView {
        BindingView { column: self.column@, name: self.name@ }
    }
}

impl Clone for ColumnBinding {
    fn clone(&self) -> (r: Self)
        ensures
            r@ == self@,
    {
        ColumnBinding { column: self.column, name: self.name.clone() }
    }
}

/// The same bindings once more.
pub fn copy_bindings(bindings: &[ColumnBinding]) -> (r: Vec<ColumnBinding>)
    ensures
        views(r@) == views(bindings@),
{
    let copy = |binding: &ColumnBinding| -> (r: ColumnBinding)
        ensures
            r@ == binding@,
        { binding.clone() };
    let r = each(bindings, copy, Ghost(|binding: BindingView| binding));
    assert(views(r@) =~= views(bindings@));
    r
}

/// One table with the names that it and its columns have now.
#[derive(Debug, PartialEq, Eq)]
pub struct CatalogEntry {
    pub name: SqlName,
    pub definition: CreateTable,
    pub bindings: Vec<ColumnBinding>,
}

/// An entry as a mathematical value.
#[verifier::ext_equal]
pub struct CatalogEntryView {
    pub name: Seq<char>,
    pub definition: TableView,
    pub bindings: Seq<BindingView>,
}

impl View for CatalogEntry {
    type V = CatalogEntryView;

    open spec fn view(&self) -> CatalogEntryView {
        CatalogEntryView {
            name: self.name@,
            definition: self.definition@,
            bindings: views(self.bindings@),
        }
    }
}

impl Clone for CatalogEntry {
    fn clone(&self) -> (r: Self)
        ensures
            r@ == self@,
    {
        CatalogEntry {
            name: self.name.clone(),
            definition: self.definition.clone(),
            bindings: copy_bindings(self.bindings.as_slice()),
        }
    }
}

/// Whether an entry is bound to a name.
pub open spec fn bound_to(name: Seq<char>) -> spec_fn(CatalogEntryView) -> bool {
    |entry: CatalogEntryView| canonical_bytes(entry.name) == canonical_bytes(name)
}

/// Whether an entry is a table's.
pub open spec fn entry_of(table: Seq<u8>) -> spec_fn(CatalogEntryView) -> bool {
    |entry: CatalogEntryView| entry.definition.table == table
}

/// Whether a binding is a column's.
pub open spec fn binding_of(column: Seq<u8>) -> spec_fn(BindingView) -> bool {
    |binding: BindingView| binding.column == column
}

/// Whether a binding has a name.
pub open spec fn binding_named(name: Seq<char>) -> spec_fn(BindingView) -> bool {
    |binding: BindingView| canonical_bytes(binding.name) == canonical_bytes(name)
}

/// The entry that a name binds.
pub open spec fn entry_named(tables: Seq<CatalogEntryView>, name: Seq<char>) -> Option<
    CatalogEntryView,
> {
    first(tables, bound_to(name))
}

/// The entry of a table.
pub open spec fn entry_by_id(tables: Seq<CatalogEntryView>, table: Seq<u8>) -> Option<
    CatalogEntryView,
> {
    first(tables, entry_of(table))
}

/// The table that a name binds.
pub open spec fn table_named(tables: Seq<CatalogEntryView>, name: Seq<char>) -> Option<TableView> {
    match entry_named(tables, name) {
        Some(entry) => Some(entry.definition),
        None => None,
    }
}

/// The table with an identity.
pub open spec fn table_by_id(tables: Seq<CatalogEntryView>, table: Seq<u8>) -> Option<TableView> {
    match entry_by_id(tables, table) {
        Some(entry) => Some(entry.definition),
        None => None,
    }
}

/// The name that a table has now.
pub open spec fn current_name(tables: Seq<CatalogEntryView>, table: Seq<u8>) -> Option<Seq<char>> {
    match entry_by_id(tables, table) {
        Some(entry) => Some(entry.name),
        None => None,
    }
}

/// The name that a column has now.
pub open spec fn current_column_name(
    tables: Seq<CatalogEntryView>,
    table: Seq<u8>,
    column: Seq<u8>,
) -> Option<Seq<char>> {
    match entry_by_id(tables, table) {
        Some(entry) => match first(entry.bindings, binding_of(column)) {
            Some(binding) => Some(binding.name),
            None => None,
        },
        None => None,
    }
}

/// The column of a table that a name binds now.
pub open spec fn column_named(
    tables: Seq<CatalogEntryView>,
    table: Seq<u8>,
    name: Seq<char>,
) -> Option<Seq<u8>> {
    match entry_by_id(tables, table) {
        Some(entry) => match first(entry.bindings, binding_named(name)) {
            Some(binding) => Some(binding.column),
            None => None,
        },
        None => None,
    }
}

/// The foreign keys among some that refer to a table, with the table they are
/// of.
pub open spec fn references_to(
    child: TableView,
    foreign_keys: Seq<RelationshipView>,
    parent: Seq<u8>,
) -> Seq<(TableView, RelationshipView)>
    decreases foreign_keys.len(),
{
    if foreign_keys.len() == 0 {
        Seq::empty()
    } else {
        let before = references_to(child, foreign_keys.drop_last(), parent);
        if foreign_keys.last().referenced_table == parent {
            before.push((child, foreign_keys.last()))
        } else {
            before
        }
    }
}

/// The foreign keys of a catalog that refer to a table.
pub open spec fn incoming_of(tables: Seq<CatalogEntryView>, parent: Seq<u8>) -> Seq<
    (TableView, RelationshipView),
>
    decreases tables.len(),
{
    if tables.len() == 0 {
        Seq::empty()
    } else {
        incoming_of(tables.drop_last(), parent) + references_to(
            tables.last().definition,
            tables.last().definition.foreign_keys,
            parent,
        )
    }
}

/// Whether an entry is another table's.
pub open spec fn other_entry(table: Seq<u8>) -> spec_fn(CatalogEntryView) -> bool {
    |entry: CatalogEntryView| entry.definition.table != table
}

/// The entries without a table's.
pub open spec fn without_table(tables: Seq<CatalogEntryView>, table: Seq<u8>) -> Seq<
    CatalogEntryView,
> {
    tables.filter(other_entry(table))
}

/// The name that a column has now, or a refusal.
pub open spec fn plain_name(tables: Seq<CatalogEntryView>, table: Seq<u8>, missing: Seq<char>) -> spec_fn(
    Seq<u8>,
) -> std::result::Result<Seq<char>, ErrorView> {
    |column: Seq<u8>|
        match current_column_name(tables, table, column) {
            Some(name) => Ok(name),
            None => Err(ErrorView::InvalidDatabase(missing)),
        }
}

/// The names that columns have now, or a refusal.
pub open spec fn plain_names(
    tables: Seq<CatalogEntryView>,
    table: Seq<u8>,
    columns: Seq<Seq<u8>>,
    missing: Seq<char>,
) -> std::result::Result<Seq<Seq<char>>, ErrorView> {
    try_map(columns, plain_name(tables, table, missing))
}

/// What a filter keeps was there before.
pub proof fn lemma_kept<V>(items: Seq<V>, test: spec_fn(V) -> bool, i: int)
    requires
        0 <= i < items.filter(test).len(),
    ensures
        items.contains(items.filter(test)[i]),
    decreases items.len(),
{
    reveal(Seq::filter);
    let init = items.drop_last();
    if i < init.filter(test).len() {
        lemma_kept(init, test, i);
        let j = choose|j: int| 0 <= j < init.len() && init[j] == init.filter(test)[i];
        assert(items[j] == init[j]);
    } else {
        assert(items[items.len() - 1] == items.last());
    }
}

/// The bindings that a new table starts with: every column under its own name.
pub open spec fn own_bindings(columns: Seq<ColumnView>) -> Seq<BindingView> {
    Seq::new(
        columns.len(),
        |i: int| BindingView { column: columns[i].id, name: columns[i].name },
    )
}

/// The entry that a new table starts with.
pub open spec fn new_entry(definition: TableView) -> CatalogEntryView {
    CatalogEntryView {
        name: definition.name,
        definition,
        bindings: own_bindings(definition.columns),
    }
}

/// Why a table cannot enter a catalog, if it cannot.
pub open spec fn entry_fault(tables: Seq<CatalogEntryView>, definition: TableView) -> Option<
    ErrorView,
> {
    if !definition_sound(definition) {
        Some(ErrorView::InvalidDatabase("schema catalog holds an invalid definition"@))
    } else if entry_by_id(tables, definition.table) is Some || entry_named(
        tables,
        definition.name,
    ) is Some {
        Some(ErrorView::InvalidDatabase("table is already bound in the schema catalog"@))
    } else {
        None
    }
}

/// A consistent copy of the schema catalog. Every definition in it is sound.
#[derive(Debug, PartialEq, Eq)]
pub struct CatalogSnapshot {
    tables: Vec<CatalogEntry>,
}

impl View for CatalogSnapshot {
    type V = Seq<CatalogEntryView>;

    closed spec fn view(&self) -> Seq<CatalogEntryView> {
        views(self.tables@)
    }
}

impl Clone for CatalogSnapshot {
    fn clone(&self) -> (r: Self)
        ensures
            r@ == self@,
    {
        proof {
            use_type_invariant(self);
        }
        let copy = |entry: &CatalogEntry| -> (r: CatalogEntry)
            ensures
                r@ == entry@,
            { entry.clone() };
        let tables = each(
            self.tables.as_slice(),
            copy,
            Ghost(|entry: CatalogEntryView| entry),
        );
        assert(views(tables@) =~= views(self.tables@));
        assert forall|i: int| 0 <= i < tables@.len() implies definition_sound(
            (#[trigger] tables@[i]).definition@,
        ) by {
            assert(views(tables@)[i] == views(self.tables@)[i]);
            assert(self.tables@[i]@ == tables@[i]@);
        }
        CatalogSnapshot { tables }
    }
}

impl CatalogSnapshot {
    #[verifier::type_invariant]
    spec fn well_formed(self) -> bool {
        forall|i: int|
            0 <= i < self.tables@.len() ==> definition_sound(
                (#[trigger] self.tables@[i]).definition@,
            )
    }

    /// The empty catalog.
    pub fn new() -> (r: CatalogSnapshot)
        ensures
            r@ == Seq::<CatalogEntryView>::empty(),
    {
        let tables: Vec<CatalogEntry> = Vec::new();
        let r = CatalogSnapshot { tables };
        assert(r@ =~= Seq::<CatalogEntryView>::empty());
        r
    }

    /// Add an entry as it was stored.
    pub fn bind(self, entry: CatalogEntry) -> (r: Result<CatalogSnapshot>)
        ensures
            match r {
                Ok(catalog) => definition_sound(entry@.definition) && catalog@ == self@.push(
                    entry@,
                ),
                Err(error) => !definition_sound(entry@.definition) && error@
                    == ErrorView::InvalidDatabase("schema catalog holds an invalid definition"@),
            },
    {
        proof {
            use_type_invariant(&self);
        }
        if entry.definition.validate_ir().is_err() {
            return Err(Error::InvalidDatabase("schema catalog holds an invalid definition"));
        }
        let ghost before = self.tables@;
        let CatalogSnapshot { mut tables } = self;
        tables.push(entry);
        assert forall|i: int| 0 <= i < tables@.len() implies definition_sound(
            (#[trigger] tables@[i]).definition@,
        ) by {
            if i < before.len() {
                assert(tables@[i] == before[i]);
            }
        }
        assert(views(tables@) =~= views(before).push(entry@));
        Ok(CatalogSnapshot { tables })
    }

    /// Add a new table under its own names.
    pub fn insert(self, created: &CreateTable) -> (r: Result<CatalogSnapshot>)
        ensures
            match r {
                Ok(catalog) => entry_fault(self@, created@) is None && catalog@ == self@.push(
                    new_entry(created@),
                ),
                Err(error) => entry_fault(self@, created@) == Some(error@),
            },
    {
        if created.validate_ir().is_err() {
            return Err(Error::InvalidDatabase("schema catalog holds an invalid definition"));
        }
        if self.find_entry(created.table).is_some() || self.find_bound(
            created.name.value(),
        ).is_some() {
            return Err(Error::InvalidDatabase("table is already bound in the schema catalog"));
        }
        let mut bindings: Vec<ColumnBinding> = Vec::new();
        let mut i: usize = 0;
        while i < created.columns.len()
            invariant
                i <= created.columns@.len(),
                bindings@.len() == i,
                forall|j: int|
                    0 <= j < i ==> (#[trigger] bindings@[j])@ == (BindingView {
                        column: created.columns@[j]@.id,
                        name: created.columns@[j]@.name,
                    }),
            decreases created.columns.len() - i,
        {
            let column = &created.columns[i];
            bindings.push(ColumnBinding { column: column.id, name: column.name.clone() });
            i += 1;
        }
        let entry = CatalogEntry {
            name: created.name.clone(),
            definition: created.clone(),
            bindings,
        };
        assert(views(entry.bindings@) =~= own_bindings(created@.columns));
        self.bind(entry)
    }

    /// The catalog without a table.
    pub fn remove_by_id(self, table: TableId) -> (r: CatalogSnapshot)
        ensures
            r@ == without_table(self@, table@),
    {
        proof {
            use_type_invariant(&self);
        }
        let ghost before = self@;
        let ghost sound = self.tables@;
        let another = |entry: &CatalogEntry| -> (r: bool)
            ensures
                r == other_entry(table@)(entry@),
            { !entry.definition.table.same(&table) };
        let CatalogSnapshot { tables } = self;
        let tables = retain(tables, another, Ghost(other_entry(table@)));
        assert forall|i: int| 0 <= i < tables@.len() implies definition_sound(
            (#[trigger] tables@[i]).definition@,
        ) by {
            assert(views(tables@)[i] == tables@[i]@);
            lemma_kept(before, other_entry(table@), i);
            let j = choose|j: int| 0 <= j < before.len() && before[j] == views(tables@)[i];
            assert(sound[j]@ == before[j]);
        }
        CatalogSnapshot { tables }
    }

    /// The names that columns have now. The message is that of a column without
    /// one.
    pub fn column_names(&self, table: TableId, columns: &[ColumnId], missing: &'static str) -> (r:
        Result<Vec<String>>)
        ensures
            list_verdict(r) == plain_names(self@, table@, views(columns@), missing@),
    {
        let name = |column: &ColumnId| -> (r: Result<String>)
            ensures
                verdict(r) == plain_name(self@, table@, missing@)(column@),
            {
                match self.column_name_by_id(table, *column) {
                    Some(name) => Ok(name.value().to_owned()),
                    None => Err(Error::InvalidDatabase(missing)),
                }
            };
        attempt_each(columns, name, Ghost(plain_name(self@, table@, missing@)))
    }

    /// The entries.
    pub fn tables(&self) -> (r: &[CatalogEntry])
        ensures
            views(r@) == self@,
            forall|i: int| 0 <= i < r@.len() ==> definition_sound((#[trigger] r@[i]).definition@),
    {
        proof {
            use_type_invariant(self);
        }
        self.tables.as_slice()
    }

    /// Find the entry of a table.
    fn find_entry(&self, table: TableId) -> (r: Option<usize>)
        ensures
            match r {
                Some(i) => i < self.tables@.len() && entry_by_id(self@, table@) == Some(
                    self.tables@[i as int]@,
                ) && self.tables@[i as int]@.definition.table == table@ && forall|j: int|
                    0 <= j < i ==> (#[trigger] self@[j]).definition.table != table@,
                None => entry_by_id(self@, table@) is None,
            },
    {
        let matching = |entry: &CatalogEntry| -> (r: bool)
            ensures
                r == entry_of(table@)(entry@),
            { entry.definition.table.same(&table) };
        let r = find(self.tables.as_slice(), matching, Ghost(entry_of(table@)));
        if let Some(i) = r {
            assert forall|j: int| 0 <= j < i implies (#[trigger] self@[j]).definition.table
                != table@ by {
                assert(!entry_of(table@)(views(self.tables@)[j]));
            }
        }
        r
    }

    /// Find the entry that a name binds.
    fn find_bound(&self, name: &str) -> (r: Option<usize>)
        ensures
            match r {
                Some(i) => i < self.tables@.len() && entry_named(self@, name@) == Some(
                    self.tables@[i as int]@,
                ),
                None => entry_named(self@, name@) is None,
            },
    {
        let canonical = fold_bytes(name.as_bytes());
        let matching = |entry: &CatalogEntry| -> (r: bool)
            ensures
                r == bound_to(name@)(entry@),
            { same_bytes(entry.name.canonical(), canonical.as_slice()) };
        find(self.tables.as_slice(), matching, Ghost(bound_to(name@)))
    }

    /// The table that a name binds.
    pub fn by_name(&self, name: &str) -> (r: Option<&CreateTable>)
        ensures
            match r {
                Some(table) => table_named(self@, name@) == Some(table@) && definition_sound(
                    table@,
                ),
                None => table_named(self@, name@) is None,
            },
    {
        proof {
            use_type_invariant(self);
        }
        match self.find_bound(name) {
            Some(i) => Some(&self.tables[i].definition),
            None => None,
        }
    }

    /// The table with an identity.
    pub fn by_id(&self, table: TableId) -> (r: Option<&CreateTable>)
        ensures
            match r {
                Some(found) => table_by_id(self@, table@) == Some(found@) && definition_sound(
                    found@,
                ),
                None => table_by_id(self@, table@) is None,
            },
    {
        proof {
            use_type_invariant(self);
        }
        match self.find_entry(table) {
            Some(i) => Some(&self.tables[i].definition),
            None => None,
        }
    }

    /// The name that a table has now.
    pub fn name_by_id(&self, table: TableId) -> (r: Option<&SqlName>)
        ensures
            match r {
                Some(name) => current_name(self@, table@) == Some(name@),
                None => current_name(self@, table@) is None,
            },
    {
        match self.find_entry(table) {
            Some(i) => Some(&self.tables[i].name),
            None => None,
        }
    }

    /// The name that a column has now.
    pub fn column_name_by_id(&self, table: TableId, column: ColumnId) -> (r: Option<&SqlName>)
        ensures
            match r {
                Some(name) => current_column_name(self@, table@, column@) == Some(name@),
                None => current_column_name(self@, table@, column@) is None,
            },
    {
        match self.find_entry(table) {
            Some(i) => {
                let matching = |binding: &ColumnBinding| -> (r: bool)
                    ensures
                        r == binding_of(column@)(binding@),
                    { binding.column.same(&column) };
                match find(
                    self.tables[i].bindings.as_slice(),
                    matching,
                    Ghost(binding_of(column@)),
                ) {
                    Some(k) => Some(&self.tables[i].bindings[k].name),
                    None => None,
                }
            },
            None => None,
        }
    }

    /// The column of a table that a name binds now.
    pub fn column_id_by_name(&self, table: TableId, name: &SqlName) -> (r: Option<ColumnId>)
        ensures
            match r {
                Some(column) => column_named(self@, table@, name@) == Some(column@),
                None => column_named(self@, table@, name@) is None,
            },
    {
        match self.find_entry(table) {
            Some(i) => {
                let matching = |binding: &ColumnBinding| -> (r: bool)
                    ensures
                        r == binding_named(name@)(binding@),
                    { binding.name.same_canonical(name) };
                match find(
                    self.tables[i].bindings.as_slice(),
                    matching,
                    Ghost(binding_named(name@)),
                ) {
                    Some(k) => Some(self.tables[i].bindings[k].column),
                    None => None,
                }
            },
            None => None,
        }
    }

    /// The foreign keys that refer to a table, with the tables they are of.
    pub fn incoming_foreign_keys(&self, parent: TableId) -> (r: Vec<
        (&CreateTable, &ForeignKeyDefinition),
    >)
        ensures
            views(r@) == incoming_of(self@, parent@),
    {
        let ghost all = self@;
        let mut r: Vec<(&CreateTable, &ForeignKeyDefinition)> = Vec::new();
        let ghost mut known: Seq<(TableView, RelationshipView)> = Seq::empty();
        let mut i: usize = 0;
        proof {
            assert(all.subrange(0, 0) =~= Seq::<CatalogEntryView>::empty());
            assert(views(r@) =~= known);
        }
        while i < self.tables.len()
            invariant
                i <= self.tables@.len(),
                all == views(self.tables@),
                known == incoming_of(all.subrange(0, i as int), parent@),
                views(r@) == known,
            decreases self.tables.len() - i,
        {
            let child = &self.tables[i].definition;
            let ghost keys = child@.foreign_keys;
            let ghost start = known;
            let mut j: usize = 0;
            proof {
                assert(keys == views(child.foreign_keys@));
                assert(keys.subrange(0, 0) =~= Seq::<RelationshipView>::empty());
                assert(start + Seq::<(TableView, RelationshipView)>::empty() =~= start);
            }
            while j < child.foreign_keys.len()
                invariant
                    j <= child.foreign_keys@.len(),
                    keys == views(child.foreign_keys@),
                    known == start + references_to(
                        child@,
                        keys.subrange(0, j as int),
                        parent@,
                    ),
                    views(r@) == known,
                decreases child.foreign_keys.len() - j,
            {
                let foreign_key = &child.foreign_keys[j];
                let ghost next = keys.subrange(0, j as int + 1);
                let ghost more = start + references_to(child@, next, parent@);
                assert(next.drop_last() =~= keys.subrange(0, j as int));
                assert(next.last() == foreign_key@);
                if foreign_key.referenced_table.same(&parent) {
                    r.push((child, foreign_key));
                    assert(views(r@) =~= known.push((child@, foreign_key@)));
                    assert(known.push((child@, foreign_key@)) =~= more);
                }
                proof {
                    known = more;
                }
                j += 1;
            }
            proof {
                assert(keys.subrange(0, j as int) =~= keys);
                let next = all.subrange(0, i as int + 1);
                assert(next.drop_last() =~= all.subrange(0, i as int));
                assert(next.last() == self.tables@[i as int]@);
            }
            i += 1;
        }
        assert(all.subrange(0, i as int) =~= all);
        r
    }
}

} // verus!
