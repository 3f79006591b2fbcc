//! The creation of a table.

use super::definition::{
    definition_sound, CheckDefinition, CheckView, Column, ColumnView, CreateTable,
    ForeignKeyDefinition, RelationshipView, TableView, UniqueConstraint, UniqueView,
};
use super::error::{schema_error_text, SchemaCodecError};
use super::evolve::{check_of, column_of, describe_check, describe_column};
use super::statement::{
    CreateCheckConstraint, CreateCheckView, CreateColumn, CreateColumnView, CreateForeignKey,
    CreateForeignKeyView, CreateTableSpec, CreateTableView, CreateUnique, CreateUniqueView,
};
use super::table::{
    column_by_name, find_named, named, primary_ids, resolution, resolve_names, resolved,
};
use super::codec::same_column_ids;
use crate::attempt::{lemma_try_map_ok, lemma_try_map_total, try_map};
use crate::catalog::{
    column_named, table_named, CatalogEntryView, CatalogSnapshot,
};
use crate::codec::views;
use crate::each::{attempt_each, first, lemma_first};
use crate::error::{verdict, Error, ErrorView, Result};
use crate::identity::{
    random_uuid, ColumnId, ForeignKeyId, IndexId, MutationId, SchemaRevisionId, TableId,
};
use crate::name::{canonical_bytes, SqlName};
use vstd::prelude::*;

verus! {

/// The column that a CHECK of a statement is written at.
pub open spec fn check_owner(columns: Seq<ColumnView>, check: CreateCheckView) -> Option<Seq<u8>> {
    match check.column {
        Some(name) => match column_by_name(columns, name) {
            Some(column) => Some(column.id),
            None => None,
        },
        None => None,
    }
}

/// Whether a column is what a statement describes, under a new identity.
pub open spec fn column_matches(column: ColumnView, spec: CreateColumnView) -> bool {
    random_uuid(column.id) && column == column_of(column.id, spec)
}

/// Whether a UNIQUE constraint is what a statement describes, under a new
/// identity.
pub open spec fn unique_matches(
    columns: Seq<ColumnView>,
    unique: UniqueView,
    spec: CreateUniqueView,
) -> bool {
    &&& random_uuid(unique.index)
    &&& unique.name == spec.name
    &&& resolved(columns, spec.columns) == Ok::<Seq<Seq<u8>>, SchemaCodecError>(unique.columns)
}

/// Whether a table is what a statement describes but for its foreign keys, under
/// new identities.
pub open spec fn table_matches(table: TableView, sql: Seq<char>, spec: CreateTableView) -> bool {
    &&& random_uuid(table.mutation)
    &&& random_uuid(table.table)
    &&& random_uuid(table.schema_revision)
    &&& random_uuid(table.primary_index)
    &&& table.sql == sql
    &&& table.name == spec.name
    &&& table.mode == spec.mode
    &&& table.storage == spec.storage
    &&& table.columns.len() == spec.columns.len()
    &&& forall|i: int|
        0 <= i < spec.columns.len() ==> column_matches(
            #[trigger] table.columns[i],
            spec.columns[i],
        )
    &&& table.unique_constraints.len() == spec.unique_constraints.len()
    &&& forall|i: int|
        0 <= i < spec.unique_constraints.len() ==> unique_matches(
            table.columns,
            #[trigger] table.unique_constraints[i],
            spec.unique_constraints[i],
        )
    &&& table.indexes.len() == 0
    &&& table.checks.len() == spec.checks.len()
    &&& forall|i: int|
        0 <= i < spec.checks.len() ==> check_of(
            table.columns,
            check_owner(table.columns, spec.checks[i]),
            spec.checks[i],
        ) == Ok::<CheckView, SchemaCodecError>(#[trigger] table.checks[i])
}

/// Whether a statement describes a column of some name.
pub open spec fn describes(columns: Seq<CreateColumnView>, name: Seq<char>) -> bool {
    exists|i: int|
        0 <= i < columns.len() && canonical_bytes((#[trigger] columns[i]).name) == canonical_bytes(
            name,
        )
}

/// Whether a statement describes every column of some names.
pub open spec fn describes_all(columns: Seq<CreateColumnView>, names: Seq<Seq<char>>) -> bool {
    forall|i: int| 0 <= i < names.len() ==> describes(columns, #[trigger] names[i])
}

/// Whether every column that a statement's constraints name is among its own.
pub open spec fn names_known(spec: CreateTableView) -> bool {
    &&& forall|i: int|
        0 <= i < spec.unique_constraints.len() ==> describes_all(
            spec.columns,
            (#[trigger] spec.unique_constraints[i]).columns,
        )
    &&& forall|i: int|
        0 <= i < spec.checks.len() ==> describes_all(
            spec.columns,
            (#[trigger] spec.checks[i]).columns,
        )
}

/// A name that a statement describes binds one of its columns.
proof fn lemma_described(
    columns: Seq<ColumnView>,
    specs: Seq<CreateColumnView>,
    names: Seq<Seq<char>>,
)
    requires
        columns.len() == specs.len(),
        forall|i: int|
            0 <= i < specs.len() ==> column_matches(#[trigger] columns[i], specs[i]),
    ensures
        (resolved(columns, names) is Ok) == describes_all(specs, names),
{
    let f = resolution(columns);
    assert forall|n: Seq<char>| (column_by_name(columns, n) is Some) == #[trigger] describes(
        specs,
        n,
    ) by {
        lemma_first(columns, named(n));
        if describes(specs, n) {
            let i = choose|i: int|
                0 <= i < specs.len() && canonical_bytes((#[trigger] specs[i]).name)
                    == canonical_bytes(n);
            assert(column_matches(columns[i], specs[i]));
            assert(named(n)(columns[i]));
        }
        if let Some(column) = column_by_name(columns, n) {
            let i = choose|i: int| 0 <= i < columns.len() && columns[i] == column;
            assert(column_matches(columns[i], specs[i]));
            assert(canonical_bytes(specs[i].name) == canonical_bytes(n));
        }
    }
    if describes_all(specs, names) {
        assert forall|i: int| 0 <= i < names.len() implies f(#[trigger] names[i]) is Ok by {
            assert(describes(specs, names[i]));
        }
        lemma_try_map_total(names, f);
    }
    if resolved(columns, names) is Ok {
        lemma_try_map_ok(names, f);
        assert forall|i: int| 0 <= i < names.len() implies describes(
            specs,
            #[trigger] names[i],
        ) by {
            assert(f(names[i]) == Ok::<Seq<u8>, SchemaCodecError>(try_map(names, f)->Ok_0[i]));
        }
    }
}

/// The columns of a statement under new identities.
fn mint_columns(specs: &[CreateColumn]) -> (r: Vec<Column>)
    ensures
        r@.len() == specs@.len(),
        forall|i: int|
            0 <= i < specs@.len() ==> column_matches(#[trigger] views(r@)[i], views(specs@)[i]),
{
    let mut r: Vec<Column> = Vec::new();
    let mut i: usize = 0;
    while i < specs.len()
        invariant
            i <= specs@.len(),
            r@.len() == i,
            forall|j: int| 0 <= j < i ==> column_matches((#[trigger] r@[j])@, specs@[j]@),
        decreases specs.len() - i,
    {
        r.push(describe_column(ColumnId::fresh(), &specs[i]));
        i += 1;
    }
    r
}

/// The UNIQUE constraints of a statement under new identities.
fn mint_uniques(columns: &[Column], specs: &[CreateUnique]) -> (r: std::result::Result<
    Vec<UniqueConstraint>,
    SchemaCodecError,
>)
    ensures
        match r {
            Ok(uniques) => uniques@.len() == specs@.len() && forall|i: int|
                0 <= i < specs@.len() ==> unique_matches(
                    views(columns@),
                    #[trigger] views(uniques@)[i],
                    views(specs@)[i],
                ),
            Err(error) => exists|i: int|
                0 <= i < specs@.len() && resolved(
                    views(columns@),
                    (#[trigger] views(specs@)[i]).columns,
                ) == Err::<Seq<Seq<u8>>, SchemaCodecError>(error),
        },
{
    let mut r: Vec<UniqueConstraint> = Vec::new();
    let mut i: usize = 0;
    while i < specs.len()
        invariant
            i <= specs@.len(),
            r@.len() == i,
            forall|j: int|
                0 <= j < i ==> unique_matches(views(columns@), (#[trigger] r@[j])@, specs@[j]@),
        decreases specs.len() - i,
    {
        assert(views(specs@)[i as int] == specs@[i as int]@);
        let ids = match resolve_names(columns, specs[i].columns.as_slice()) {
            Err(error) => {
                return Err(error);
            },
            Ok(ids) => ids,
        };
        let name = match &specs[i].name {
            Some(name) => Some(name.clone()),
            None => None,
        };
        r.push(UniqueConstraint { index: IndexId::fresh(), name, columns: ids });
        i += 1;
    }
    Ok(r)
}

/// The CHECKs of a statement.
fn mint_checks(columns: &[Column], specs: &[CreateCheckConstraint]) -> (r: std::result::Result<
    Vec<CheckDefinition>,
    SchemaCodecError,
>)
    ensures
        match r {
            Ok(checks) => checks@.len() == specs@.len() && forall|i: int|
                0 <= i < specs@.len() ==> check_of(
                    views(columns@),
                    check_owner(views(columns@), views(specs@)[i]),
                    views(specs@)[i],
                ) == Ok::<CheckView, SchemaCodecError>(#[trigger] views(checks@)[i]),
            Err(error) => exists|i: int|
                0 <= i < specs@.len() && resolved(
                    views(columns@),
                    (#[trigger] views(specs@)[i]).columns,
                ) == Err::<Seq<Seq<u8>>, SchemaCodecError>(error),
        },
{
    let mut r: Vec<CheckDefinition> = Vec::new();
    let mut i: usize = 0;
    while i < specs.len()
        invariant
            i <= specs@.len(),
            r@.len() == i,
            forall|j: int|
                0 <= j < i ==> check_of(
                    views(columns@),
                    check_owner(views(columns@), specs@[j]@),
                    specs@[j]@,
                ) == Ok::<CheckView, SchemaCodecError>((#[trigger] r@[j])@),
        decreases specs.len() - i,
    {
        assert(views(specs@)[i as int] == specs@[i as int]@);
        let owner = match &specs[i].column {
            Some(name) => match find_named(columns, name) {
                Some(k) => Some(columns[k].id),
                None => None,
            },
            None => None,
        };
        match describe_check(columns, owner, &specs[i]) {
            Err(error) => {
                return Err(error);
            },
            Ok(check) => {
                r.push(check);
            },
        }
        i += 1;
    }
    Ok(r)
}

/// The refusal of constraints that name unknown columns.
pub open spec fn unknown_columns() -> SchemaCodecError {
    SchemaCodecError::InvalidSchema
}

/// Every failure to resolve names is the same.
proof fn lemma_unresolved(columns: Seq<ColumnView>, names: Seq<Seq<char>>)
    ensures
        resolved(columns, names) matches Err(error) ==> error == unknown_columns(),
    decreases names.len(),
{
    if names.len() > 0 {
        lemma_unresolved(columns, names.drop_last());
    }
}

impl CreateTable {
    /// The table that a statement describes but for its foreign keys, under new
    /// identities.
    fn describe(sql: &str, spec: &CreateTableSpec) -> (r: std::result::Result<
        CreateTable,
        SchemaCodecError,
    >)
        ensures
            match r {
                Ok(table) => names_known(spec@) && table_matches(table@, sql@, spec@)
                    && table@.foreign_keys.len() == 0,
                Err(error) => !names_known(spec@) && error == unknown_columns(),
            },
    {
        let columns = mint_columns(spec.columns.as_slice());
        proof {
            assert(spec@.columns == views(spec.columns@));
            assert(spec@.unique_constraints == views(spec.unique_constraints@));
            assert(spec@.checks == views(spec.checks@));
            assert forall|names: Seq<Seq<char>>|
                (#[trigger] resolved(views(columns@), names) is Ok) == describes_all(
                    spec@.columns,
                    names,
                ) by {
                lemma_described(views(columns@), spec@.columns, names);
            }
            assert forall|names: Seq<Seq<char>>|
                #[trigger] resolved(views(columns@), names) matches Err(error) ==> error
                    == unknown_columns() by {
                lemma_unresolved(views(columns@), names);
            }
        }
        let unique_constraints = match mint_uniques(
            columns.as_slice(),
            spec.unique_constraints.as_slice(),
        ) {
            Err(error) => {
                return Err(error);
            },
            Ok(uniques) => uniques,
        };
        let checks = match mint_checks(columns.as_slice(), spec.checks.as_slice()) {
            Err(error) => {
                return Err(error);
            },
            Ok(checks) => checks,
        };
        let table = CreateTable {
            mutation: MutationId::fresh(),
            sql: sql.to_owned(),
            name: spec.name.clone(),
            table: TableId::fresh(),
            schema_revision: SchemaRevisionId::fresh(),
            primary_index: IndexId::fresh(),
            mode: spec.mode,
            storage: spec.storage,
            columns,
            unique_constraints,
            indexes: Vec::new(),
            foreign_keys: Vec::new(),
            checks,
        };
        proof {
            assert forall|i: int| 0 <= i < spec@.unique_constraints.len() implies describes_all(
                spec@.columns,
                (#[trigger] spec@.unique_constraints[i]).columns,
            ) by {
                assert(unique_matches(
                    views(columns@),
                    table@.unique_constraints[i],
                    spec@.unique_constraints[i],
                ));
            }
            assert forall|i: int| 0 <= i < spec@.checks.len() implies describes_all(
                spec@.columns,
                (#[trigger] spec@.checks[i]).columns,
            ) by {
                assert(table@.checks[i] == views(checks@)[i]);
            }
        }
        Ok(table)
    }

    /// The table that a statement without foreign keys describes, under new
    /// identities.
    pub fn new(sql: &str, spec: CreateTableSpec) -> (r: CreateTable)
        requires
            spec@.foreign_keys.len() == 0,
            names_known(spec@),
        ensures
            table_matches(r@, sql@, spec@),
            r@.foreign_keys.len() == 0,
    {
        CreateTable::describe(sql, &spec).unwrap()
    }
}

/// What resolving a column of a foreign key's parent gives.
pub open spec fn parent_column(tables: Seq<CatalogEntryView>, parent: Seq<u8>) -> spec_fn(
    Seq<char>,
) -> std::result::Result<Seq<u8>, ErrorView> {
    |name: Seq<char>|
        match column_named(tables, parent, name) {
            Some(column) => Ok(column),
            None => Err(
                ErrorView::UnsupportedSql("FOREIGN KEY references an unknown parent column"@),
            ),
        }
}

/// The columns that a foreign key refers to: those that it names, or the primary
/// key.
pub open spec fn parent_columns(
    tables: Seq<CatalogEntryView>,
    parent: TableView,
    names: Option<Seq<Seq<char>>>,
) -> std::result::Result<Seq<Seq<u8>>, ErrorView> {
    match names {
        None => Ok(primary_ids(parent.columns)),
        Some(names) => try_map(names, parent_column(tables, parent.table)),
    }
}

/// The first index of a table, primary key first, that has exactly some columns.
pub open spec fn index_on(table: TableView, columns: Seq<Seq<u8>>) -> Option<Seq<u8>> {
    if primary_ids(table.columns) == columns {
        Some(table.primary_index)
    } else {
        match first(table.unique_constraints, |unique: UniqueView| unique.columns == columns) {
            Some(unique) => Some(unique.index),
            None => match first(
                table.indexes,
                |index: super::definition::NamedIndexView|
                    index.unique && index.active && index.columns == columns,
            ) {
                Some(index) => Some(index.index),
                None => None,
            },
        }
    }
}

/// The foreign key that a statement describes, under an identity.
pub open spec fn relationship_of(
    tables: Seq<CatalogEntryView>,
    columns: Seq<ColumnView>,
    spec: CreateForeignKeyView,
    id: Seq<u8>,
) -> std::result::Result<RelationshipView, ErrorView> {
    match table_named(tables, spec.referenced_table) {
        None => Err(ErrorView::UnsupportedSql("FOREIGN KEY references an unknown table"@)),
        Some(parent) => match resolved(columns, spec.columns) {
            Err(error) => Err(ErrorView::InvalidMultiliteOp(schema_error_text(error))),
            Ok(child) => match parent_columns(tables, parent, spec.referenced_columns) {
                Err(error) => Err(error),
                Ok(referenced) => if referenced.len() != child.len() {
                    Err(
                        ErrorView::UnsupportedSql(
                            "FOREIGN KEY has another number of parent columns"@,
                        ),
                    )
                } else {
                    match index_on(parent, referenced) {
                        None => Err(
                            ErrorView::UnsupportedSql("FOREIGN KEY target is not a unique key"@),
                        ),
                        Some(index) => Ok(
                            RelationshipView {
                                id,
                                name: spec.name,
                                columns: child,
                                referenced_table: parent.table,
                                referenced_index: index,
                                referenced_columns: referenced,
                                active: true,
                            },
                        ),
                    }
                },
            },
        },
    }
}

/// The first index of a table that has exactly some columns.
fn find_index(table: &CreateTable, columns: &Vec<ColumnId>) -> (r: Option<IndexId>)
    requires
        definition_sound(table@),
    ensures
        match r {
            Some(index) => index_on(table@, views(columns@)) == Some(index@),
            None => index_on(table@, views(columns@)) is None,
        },
{
    assert(table@.unique_constraints == views(table.unique_constraints@));
    assert(table@.indexes == views(table.indexes@));
    let primary = primary_key_ids(table);
    if same_column_ids(&primary, columns) {
        return Some(table.primary_index);
    }
    let ghost unique_test = |unique: UniqueView| unique.columns == views(columns@);
    let has_columns = |unique: &UniqueConstraint| -> (r: bool)
        ensures
            r == (unique@.columns == views(columns@)),
        { same_column_ids(&unique.columns, columns) };
    if let Some(i) = crate::each::find(
        table.unique_constraints.as_slice(),
        has_columns,
        Ghost(unique_test),
    ) {
        return Some(table.unique_constraints[i].index);
    }
    let ghost index_test = |index: super::definition::NamedIndexView|
        index.unique && index.active && index.columns == views(columns@);
    let is_target = |index: &super::definition::NamedIndex| -> (r: bool)
        ensures
            r == (index@.unique && index@.active && index@.columns == views(columns@)),
        { index.unique && index.active && same_column_ids(&index.columns, columns) };
    match crate::each::find(table.indexes.as_slice(), is_target, Ghost(index_test)) {
        Some(i) => Some(table.indexes[i].index),
        None => None,
    }
}

/// The identities of the primary key's columns.
fn primary_key_ids(table: &CreateTable) -> (r: Vec<ColumnId>)
    requires
        definition_sound(table@),
    ensures
        views(r@) == primary_ids(table@.columns),
{
    let primary = table.primary_key_columns();
    let mut ids: Vec<ColumnId> = Vec::new();
    let mut i: usize = 0;
    while i < primary.len()
        invariant
            i <= primary@.len(),
            ids@.len() == i,
            forall|j: int| 0 <= j < i ==> (#[trigger] ids@[j])@ == primary@[j]@.id,
        decreases primary.len() - i,
    {
        ids.push(primary[i].id);
        i += 1;
    }
    assert(views(ids@) =~= primary_ids(table@.columns));
    ids
}

/// Resolve a foreign key under a given identity.
pub fn resolve_relationship(
    catalog: &CatalogSnapshot,
    columns: &[Column],
    spec: &CreateForeignKey,
    id: ForeignKeyId,
) -> (r: Result<ForeignKeyDefinition>)
    ensures
        verdict(r) == relationship_of(catalog@, views(columns@), spec@, id@),
{
    let parent = match catalog.by_name(spec.referenced_table.value()) {
        None => {
            return Err(Error::UnsupportedSql("FOREIGN KEY references an unknown table"));
        },
        Some(parent) => parent,
    };
    let child = match resolve_names(columns, spec.columns.as_slice()) {
        Err(error) => {
            return Err(Error::InvalidMultiliteOp(error.text()));
        },
        Ok(child) => child,
    };
    let referenced = match &spec.referenced_columns {
        None => primary_key_ids(parent),
        Some(names) => {
            let table = parent.table_id();
            let resolve = |name: &SqlName| -> (r: Result<ColumnId>)
                ensures
                    verdict(r) == parent_column(catalog@, table@)(name@),
                {
                    match catalog.column_id_by_name(table, name) {
                        Some(column) => Ok(column),
                        None => Err(
                            Error::UnsupportedSql(
                                "FOREIGN KEY references an unknown parent column",
                            ),
                        ),
                    }
                };
            match attempt_each(names.as_slice(), resolve, Ghost(parent_column(catalog@, table@))) {
                Err(error) => {
                    return Err(error);
                },
                Ok(ids) => ids,
            }
        },
    };
    assert(views(referenced@).len() == referenced@.len());
    assert(views(child@).len() == child@.len());
    if referenced.len() != child.len() {
        return Err(Error::UnsupportedSql("FOREIGN KEY has another number of parent columns"));
    }
    let index = match find_index(parent, &referenced) {
        None => {
            return Err(Error::UnsupportedSql("FOREIGN KEY target is not a unique key"));
        },
        Some(index) => index,
    };
    let name = match &spec.name {
        Some(name) => Some(name.clone()),
        None => None,
    };
    let r = ForeignKeyDefinition {
        id,
        name,
        columns: child,
        referenced_table: parent.table_id(),
        referenced_index: index,
        referenced_columns: referenced,
        active: true,
    };
    Ok(r)
}

/// Whether a table's foreign keys are what a statement describes, under new
/// identities.
pub open spec fn relationships_match(
    tables: Seq<CatalogEntryView>,
    table: TableView,
    specs: Seq<CreateForeignKeyView>,
) -> bool {
    &&& table.foreign_keys.len() == specs.len()
    &&& forall|i: int|
        0 <= i < specs.len() ==> random_uuid((#[trigger] table.foreign_keys[i]).id)
            && relationship_of(tables, table.columns, specs[i], table.foreign_keys[i].id) == Ok::<
            RelationshipView,
            ErrorView,
        >(table.foreign_keys[i])
}

impl CreateTable {
    /// Resolve the creation of a table against the catalog, under new identities.
    pub fn prepare(catalog: &CatalogSnapshot, sql: &str, spec: CreateTableSpec) -> (r: Result<
        CreateTable,
    >)
        ensures
            match r {
                Ok(table) => table_matches(table@, sql@, spec@) && relationships_match(
                    catalog@,
                    table@,
                    spec@.foreign_keys,
                ) && definition_sound(table@),
                Err(error) => {
                    ||| !names_known(spec@) && error@ == ErrorView::InvalidMultiliteOp(
                        schema_error_text(unknown_columns()),
                    )
                    ||| exists|table: TableView, i: int, id: Seq<u8>|
                        table_matches(table, sql@, spec@) && 0 <= i < spec@.foreign_keys.len()
                            && #[trigger] relationship_of(
                            catalog@,
                            table.columns,
                            spec@.foreign_keys[i],
                            id,
                        ) == Err::<RelationshipView, ErrorView>(error@)
                    ||| exists|table: TableView|
                        #[trigger] table_matches(table, sql@, spec@) && relationships_match(
                            catalog@,
                            table,
                            spec@.foreign_keys,
                        ) && !definition_sound(table) && error@ == ErrorView::InvalidMultiliteOp(
                            schema_error_text(SchemaCodecError::InvalidSchema),
                        )
                },
            },
    {
        let mut table = match CreateTable::describe(sql, &spec) {
            Err(error) => {
                return Err(Error::InvalidMultiliteOp(error.text()));
            },
            Ok(table) => table,
        };
        let ghost base = table@;
        let ghost specs = spec@.foreign_keys;
        let mut foreign_keys: Vec<ForeignKeyDefinition> = Vec::new();
        let mut i: usize = 0;
        proof {
            assert(specs == views(spec.foreign_keys@));
        }
        while i < spec.foreign_keys.len()
            invariant
                i <= spec.foreign_keys@.len(),
                specs == views(spec.foreign_keys@),
                specs == spec@.foreign_keys,
                base == table@,
                base.columns == views(table.columns@),
                table_matches(base, sql@, spec@),
                foreign_keys@.len() == i,
                forall|j: int|
                    0 <= j < i ==> random_uuid((#[trigger] foreign_keys@[j])@.id)
                        && relationship_of(
                        catalog@,
                        base.columns,
                        specs[j],
                        foreign_keys@[j]@.id,
                    ) == Ok::<RelationshipView, ErrorView>(foreign_keys@[j]@),
            decreases spec.foreign_keys.len() - i,
        {
            assert(specs[i as int] == spec.foreign_keys@[i as int]@);
            let id = ForeignKeyId::fresh();
            match resolve_relationship(
                catalog,
                table.columns.as_slice(),
                &spec.foreign_keys[i],
                id,
            ) {
                Err(error) => {
                    assert(relationship_of(catalog@, base.columns, specs[i as int], id@) == Err::<
                        RelationshipView,
                        ErrorView,
                    >(error@));
                    return Err(error);
                },
                Ok(foreign_key) => {
                    foreign_keys.push(foreign_key);
                },
            }
            i += 1;
        }
        table.foreign_keys = foreign_keys;
        assert(table_matches(table@, sql@, spec@));
        assert(relationships_match(catalog@, table@, specs));
        match table.validate_ir() {
            Err(error) => Err(Error::InvalidMultiliteOp(error.text())),
            Ok(()) => Ok(table),
        }
    }
}

} // verus!
