//! How a change takes effect in the catalog.

use super::steps::{CatalogChange, CatalogChangeView};
use crate::catalog::{
    copy_bindings, BindingView, CatalogEntry, CatalogEntryView, CatalogSnapshot, ColumnBinding,
};
use crate::codec::views;
use crate::each::{each, retain};
use crate::error::{ErrorView, Result};
use crate::identity::{ColumnId, TableId};
use crate::logical::schema::definition::{
    column_ids, definition_sound, same_checks, same_columns, CheckDefinition, CheckView, Column,
    ColumnView, CreateTable, TableView,
};
use crate::logical::schema::evolve::{
    evolve_revision, evolved, other_check, other_column, rename_revision, renamed_revision,
};
use crate::logical::schema::table::{column_by_id, find_column};
use vstd::prelude::*;

verus! {

/// The first place of an identity in a list, or the end of the list.
pub open spec fn place_of(ids: Seq<Seq<u8>>, id: Seq<u8>) -> int
    decreases ids.len(),
{
    if ids.len() == 0 || ids[0] == id {
        0
    } else {
        1 + place_of(ids.drop_first(), id)
    }
}

/// The place in a list at which an identity stands that follows in another list
/// what it followed there: behind the item before it, or at the end where that
/// is gone.
pub open spec fn landing(ids: Seq<Seq<u8>>, source: Seq<Seq<u8>>, id: Seq<u8>) -> int {
    let at = place_of(source, id);
    if at == 0 {
        0
    } else {
        let behind = place_of(ids, source[at - 1]);
        if behind < ids.len() {
            behind + 1
        } else {
            ids.len() as int
        }
    }
}

/// The columns that bindings are of.
pub open spec fn bound_ids(bindings: Seq<BindingView>) -> Seq<Seq<u8>> {
    Seq::new(bindings.len(), |i: int| bindings[i].column)
}

/// Whether a binding is another column's.
pub open spec fn other_binding(id: Seq<u8>) -> spec_fn(BindingView) -> bool {
    |binding: BindingView| binding.column != id
}

/// A binding, under another name where it is a column's.
pub open spec fn rebound(column: Seq<u8>, name: Seq<char>) -> spec_fn(BindingView) -> BindingView {
    |binding: BindingView|
        if binding.column == column {
            BindingView { name, ..binding }
        } else {
            binding
        }
}

/// Columns with one more, where another list has it. Where nothing else
/// differs, the other list itself.
pub open spec fn merged_columns(
    columns: Seq<ColumnView>,
    source: Seq<ColumnView>,
    id: Seq<u8>,
) -> Seq<ColumnView> {
    if columns == source.filter(other_column(id)) {
        source
    } else {
        match column_by_id(source, id) {
            Some(column) => columns.insert(
                landing(column_ids(columns), column_ids(source), id),
                column,
            ),
            None => columns,
        }
    }
}

/// Whether a CHECK came with a column.
pub open spec fn own_check(id: Seq<u8>) -> spec_fn(CheckView) -> bool {
    |check: CheckView| check.owner == Some(id)
}

/// CHECKs with those of one more column, where another list has them. Where
/// nothing else differs, the other list itself.
pub open spec fn merged_checks(
    checks: Seq<CheckView>,
    source: Seq<CheckView>,
    id: Seq<u8>,
) -> Seq<CheckView> {
    if checks == source.filter(other_check(id)) {
        source
    } else {
        checks + source.filter(own_check(id))
    }
}

/// A definition with a column that another one has.
pub open spec fn fold_added(current: TableView, source: TableView, id: Seq<u8>) -> TableView {
    TableView {
        columns: merged_columns(current.columns, source.columns, id),
        checks: merged_checks(current.checks, source.checks, id),
        schema_revision: evolved(current.schema_revision, id),
        ..current
    }
}

/// A definition without a column.
pub open spec fn fold_removed(current: TableView, id: Seq<u8>) -> TableView {
    TableView {
        columns: current.columns.filter(other_column(id)),
        checks: current.checks.filter(other_check(id)),
        schema_revision: evolved(current.schema_revision, id),
        ..current
    }
}

/// An entry after a change.
pub open spec fn changed(entry: CatalogEntryView, change: CatalogChangeView) -> CatalogEntryView {
    match change {
        CatalogChangeView::RenameTable { new_name } => CatalogEntryView { name: new_name, ..entry },
        CatalogChangeView::RenameColumn { column, old_name, new_name } => CatalogEntryView {
            bindings: entry.bindings.map_values(rebound(column, new_name)),
            definition: TableView {
                schema_revision: renamed_revision(
                    entry.definition.schema_revision,
                    column,
                    old_name,
                    new_name,
                ),
                ..entry.definition
            },
            ..entry
        },
        CatalogChangeView::InsertColumn { column, name, source } => CatalogEntryView {
            bindings: entry.bindings.insert(
                landing(bound_ids(entry.bindings), column_ids(source.columns), column),
                BindingView { column, name },
            ),
            definition: fold_added(entry.definition, source, column),
            ..entry
        },
        CatalogChangeView::RemoveColumn { column } => CatalogEntryView {
            bindings: entry.bindings.filter(other_binding(column)),
            definition: fold_removed(entry.definition, column),
            ..entry
        },
    }
}

/// A catalog after a change of one table.
pub open spec fn performed(
    tables: Seq<CatalogEntryView>,
    table: Seq<u8>,
    change: CatalogChangeView,
) -> Seq<CatalogEntryView> {
    Seq::new(
        tables.len(),
        |i: int|
            if tables[i].definition.table == table {
                changed(tables[i], change)
            } else {
                tables[i]
            },
    )
}

/// The first place of an identity in a list, or the end of the list.
proof fn lemma_place_of(ids: Seq<Seq<u8>>, id: Seq<u8>)
    ensures
        0 <= place_of(ids, id) <= ids.len(),
        place_of(ids, id) < ids.len() ==> ids[place_of(ids, id)] == id,
        forall|i: int| 0 <= i < place_of(ids, id) ==> ids[i] != id,
    decreases ids.len(),
{
    if ids.len() > 0 && ids[0] != id {
        let rest = ids.drop_first();
        lemma_place_of(rest, id);
        assert forall|i: int| 0 <= i < place_of(ids, id) implies ids[i] != id by {
            if i > 0 {
                assert(rest[i - 1] == ids[i]);
            }
        }
        if place_of(ids, id) < ids.len() {
            assert(rest[place_of(rest, id)] == ids[place_of(ids, id)]);
        }
    }
}

/// A landing place lies in the list or at its end.
pub proof fn lemma_landing(ids: Seq<Seq<u8>>, source: Seq<Seq<u8>>, id: Seq<u8>)
    ensures
        0 <= landing(ids, source, id) <= ids.len(),
{
    lemma_place_of(source, id);
    let at = place_of(source, id);
    if at > 0 {
        lemma_place_of(ids, source[at - 1]);
    }
}

/// The first place of a column in a list of columns.
fn find_place(columns: &[Column], id: ColumnId) -> (r: usize)
    ensures
        r == place_of(column_ids(views(columns@)), id@),
        r <= columns@.len(),
{
    let ghost ids = column_ids(views(columns@));
    let mut i: usize = 0;
    proof {
        lemma_place_of(ids, id@);
    }
    while i < columns.len()
        invariant
            i <= columns@.len(),
            ids == column_ids(views(columns@)),
            i <= place_of(ids, id@) <= ids.len(),
            place_of(ids, id@) < ids.len() ==> ids[place_of(ids, id@)] == id@,
            forall|j: int| 0 <= j < place_of(ids, id@) ==> ids[j] != id@,
        decreases columns.len() - i,
    {
        if columns[i].id.same(&id) {
            assert(ids[i as int] == id@);
            return i;
        }
        assert(ids[i as int] != id@);
        i += 1;
    }
    i
}

/// The first place of a column in a list of bindings.
fn find_binding(bindings: &[ColumnBinding], id: ColumnId) -> (r: usize)
    ensures
        r == place_of(bound_ids(views(bindings@)), id@),
        r <= bindings@.len(),
{
    let ghost ids = bound_ids(views(bindings@));
    let mut i: usize = 0;
    proof {
        lemma_place_of(ids, id@);
    }
    while i < bindings.len()
        invariant
            i <= bindings@.len(),
            ids == bound_ids(views(bindings@)),
            i <= place_of(ids, id@) <= ids.len(),
            place_of(ids, id@) < ids.len() ==> ids[place_of(ids, id@)] == id@,
            forall|j: int| 0 <= j < place_of(ids, id@) ==> ids[j] != id@,
        decreases bindings.len() - i,
    {
        if bindings[i].column.same(&id) {
            assert(ids[i as int] == id@);
            return i;
        }
        assert(ids[i as int] != id@);
        i += 1;
    }
    i
}

impl CreateTable {
    /// Take in a column that another definition has.
    pub fn fold_added_column(&self, source: &CreateTable, id: ColumnId) -> (r: CreateTable)
        ensures
            r@ == fold_added(self@, source@, id@),
    {
        let current = self.clone();
        let from = source.clone();
        let from_rest = source.clone();
        let ghost view = self@;
        assert(view.columns == views(self.columns@));
        assert(view.checks == views(self.checks@));
        assert(source@.columns == views(source.columns@));
        assert(source@.checks == views(source.checks@));
        let CreateTable {
            mutation,
            sql,
            name,
            table,
            schema_revision,
            primary_index,
            mode,
            storage,
            columns,
            unique_constraints,
            indexes,
            foreign_keys,
            checks,
        } = current;
        let keep_column = |column: &Column| -> (r: bool)
            ensures
                r == other_column(id@)(column@),
            { !column.id.same(&id) };
        let keep_check = |check: &CheckDefinition| -> (r: bool)
            ensures
                r == other_check(id@)(check@),
            { !owned_by(check, id) };
        let take_check = |check: &CheckDefinition| -> (r: bool)
            ensures
                r == own_check(id@)(check@),
            { owned_by(check, id) };
        let other_columns = retain(from_rest.columns, keep_column, Ghost(other_column(id@)));
        let other_checks = retain(from_rest.checks, keep_check, Ghost(other_check(id@)));
        let mut columns = columns;
        if same_columns(&columns, &other_columns) {
            columns = from.columns;
        } else {
            let place = find_place(source.columns.as_slice(), id);
            if let Some(i) = find_column(source.columns.as_slice(), id) {
                let at: usize = if place == 0 {
                    0
                } else {
                    let behind = find_place(columns.as_slice(), source.columns[place - 1].id);
                    if behind < columns.len() {
                        behind + 1
                    } else {
                        columns.len()
                    }
                };
                let ghost before = views(columns@);
                assert(column_ids(source@.columns)[place - 1]
                    == source.columns@[place - 1]@.id || place == 0);
                assert(at == landing(column_ids(before), column_ids(source@.columns), id@));
                let column = source.columns[i].clone();
                columns.insert(at, column);
                assert(views(columns@) =~= before.insert(at as int, column@));
            }
        }
        assert(views(columns@) == merged_columns(view.columns, source@.columns, id@));
        let mut checks = checks;
        if same_checks(&checks, &other_checks) {
            checks = from.checks;
        } else {
            let ghost before = views(checks@);
            let mut own = retain(from.checks, take_check, Ghost(own_check(id@)));
            let ghost more = views(own@);
            checks.append(&mut own);
            assert(views(checks@) =~= before + more);
        }
        assert(views(checks@) == merged_checks(view.checks, source@.checks, id@));
        CreateTable {
            mutation,
            sql,
            name,
            table,
            schema_revision: evolve_revision(schema_revision, id),
            primary_index,
            mode,
            storage,
            columns,
            unique_constraints,
            indexes,
            foreign_keys,
            checks,
        }
    }

    /// Give up a column.
    pub fn fold_removed_column(&self, id: ColumnId) -> (r: CreateTable)
        ensures
            r@ == fold_removed(self@, id@),
    {
        let CreateTable {
            mutation,
            sql,
            name,
            table,
            schema_revision,
            primary_index,
            mode,
            storage,
            columns,
            unique_constraints,
            indexes,
            foreign_keys,
            checks,
        } = self.clone();
        let keep_column = |column: &Column| -> (r: bool)
            ensures
                r == other_column(id@)(column@),
            { !column.id.same(&id) };
        let keep_check = |check: &CheckDefinition| -> (r: bool)
            ensures
                r == other_check(id@)(check@),
            { !owned_by(check, id) };
        let columns = retain(columns, keep_column, Ghost(other_column(id@)));
        let checks = retain(checks, keep_check, Ghost(other_check(id@)));
        CreateTable {
            mutation,
            sql,
            name,
            table,
            schema_revision: evolve_revision(schema_revision, id),
            primary_index,
            mode,
            storage,
            columns,
            unique_constraints,
            indexes,
            foreign_keys,
            checks,
        }
    }
}

/// Whether a CHECK came with a column.
fn owned_by(check: &CheckDefinition, id: ColumnId) -> (r: bool)
    ensures
        r == (check@.owner == Some(id@)),
{
    match &check.owner {
        Some(owner) => owner.same(&id),
        None => false,
    }
}

impl CatalogEntry {
    /// The entry after a change.
    pub fn change(&self, change: &CatalogChange) -> (r: CatalogEntry)
        ensures
            r@ == changed(self@, change@),
    {
        let r = match change {
            CatalogChange::RenameTable { new_name } => CatalogEntry {
                name: new_name.clone(),
                definition: self.definition.clone(),
                bindings: copy_bindings(self.bindings.as_slice()),
            },
            CatalogChange::RenameColumn { column, old_name, new_name } => {
                let rename = |binding: &ColumnBinding| -> (r: ColumnBinding)
                    ensures
                        r@ == rebound(column@, new_name@)(binding@),
                    {
                        let name = if binding.column.same(column) {
                            new_name.clone()
                        } else {
                            binding.name.clone()
                        };
                        ColumnBinding { column: binding.column, name }
                    };
                let mut definition = self.definition.clone();
                definition.schema_revision = rename_revision(
                    definition.schema_revision,
                    *column,
                    old_name,
                    new_name,
                );
                CatalogEntry {
                    name: self.name.clone(),
                    definition,
                    bindings: each(
                        self.bindings.as_slice(),
                        rename,
                        Ghost(rebound(column@, new_name@)),
                    ),
                }
            },
            CatalogChange::InsertColumn { column, name, source } => {
                let ghost before = views(self.bindings@);
                let mut bindings = copy_bindings(self.bindings.as_slice());
                let place = find_place(source.columns.as_slice(), *column);
                let at: usize = if place == 0 {
                    0
                } else if source.columns.len() == 0 {
                    0
                } else {
                    let behind = find_binding(bindings.as_slice(), source.columns[place - 1].id);
                    if behind < bindings.len() {
                        behind + 1
                    } else {
                        bindings.len()
                    }
                };
                assert(at == landing(
                    bound_ids(before),
                    column_ids(source@.columns),
                    column@,
                ));
                bindings.insert(at, ColumnBinding { column: *column, name: name.clone() });
                assert(views(bindings@) =~= before.insert(
                    at as int,
                    BindingView { column: column@, name: name@ },
                ));
                CatalogEntry {
                    name: self.name.clone(),
                    definition: self.definition.fold_added_column(source, *column),
                    bindings,
                }
            },
            CatalogChange::RemoveColumn { column } => {
                let keep = |binding: &ColumnBinding| -> (r: bool)
                    ensures
                        r == other_binding(column@)(binding@),
                    { !binding.column.same(column) };
                CatalogEntry {
                    name: self.name.clone(),
                    definition: self.definition.fold_removed_column(*column),
                    bindings: retain(
                        copy_bindings(self.bindings.as_slice()),
                        keep,
                        Ghost(other_binding(column@)),
                    ),
                }
            },
        };
        assert(r@ =~= changed(self@, change@));
        r
    }
}

/// Whether every definition of a catalog is sound.
pub open spec fn all_sound(tables: Seq<CatalogEntryView>) -> bool {
    forall|i: int| 0 <= i < tables.len() ==> definition_sound((#[trigger] tables[i]).definition)
}

impl CatalogSnapshot {
    /// The catalog after a change of one table.
    pub fn perform(&self, table: TableId, change: &CatalogChange) -> (r: Result<CatalogSnapshot>)
        ensures
            match r {
                Ok(catalog) => catalog@ == performed(self@, table@, change@) && all_sound(
                    catalog@,
                ),
                Err(error) => !all_sound(performed(self@, table@, change@)) && error@
                    == ErrorView::InvalidDatabase("schema catalog holds an invalid definition"@),
            },
    {
        let ghost all = self@;
        let ghost want = performed(all, table@, change@);
        let entries = self.tables();
        let mut catalog = CatalogSnapshot::new();
        let mut i: usize = 0;
        assert(want.subrange(0, 0) =~= Seq::<CatalogEntryView>::empty());
        while i < entries.len()
            invariant
                i <= entries@.len(),
                all == views(entries@),
                all == self@,
                want == performed(all, table@, change@),
                catalog@ == want.subrange(0, i as int),
                all_sound(catalog@),
            decreases entries.len() - i,
        {
            let entry = &entries[i];
            assert(all[i as int] == entry@);
            let next = if entry.definition.table.same(&table) {
                entry.change(change)
            } else {
                entry.clone()
            };
            assert(next@ =~= want[i as int]);
            let ghost had = catalog@;
            catalog = match catalog.bind(next) {
                Err(error) => {
                    assert(!definition_sound(want[i as int].definition));
                    return Err(error);
                },
                Ok(catalog) => catalog,
            };
            assert(catalog@ =~= want.subrange(0, i as int + 1));
            assert forall|j: int| 0 <= j < catalog@.len() implies definition_sound(
                (#[trigger] catalog@[j]).definition,
            ) by {
                if j < had.len() {
                    assert(catalog@[j] == had[j]);
                }
            }
            i += 1;
        }
        assert(want.subrange(0, i as int) =~= want);
        Ok(catalog)
    }
}

} // verus!
