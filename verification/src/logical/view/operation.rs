//! Validation and resolution of a change of a view.

use super::error::{invalid_operation, view_error_text, ViewCodecError};
use super::frame::{
    view_operation_decoded, view_operation_fits, view_operation_frame, view_operation_roundtrip,
    view_operation_shrinks, view_operation_valid, ViewAction, ViewColumnDependency, ViewColumnView,
    ViewDependency, ViewDependencyView, ViewOperation, ViewOperationView,
};
use crate::attempt::try_map;
use crate::catalog::{current_column_name, table_named, CatalogEntryView, CatalogSnapshot};
use crate::codec::{outcome, views};
use crate::each::{any, attempt_each};
use crate::error::{list_verdict, refusal, verdict, Error, ErrorView, Result};
use crate::identity::{random_uuid, MutationId};
use crate::logical::schema::definition::{Column, ColumnView};
use crate::logical::schema::statement::{
    reading_of, statement_of, CreateViewSpec, CreateViewView, DropViewSpec, DropViewView,
    ParsedTexts, StatementView, Statements, ValidatedExecute,
};
use crate::name::{canonical_bytes, SqlName};
use vstd::prelude::*;

verus! {

/// The names of the tables that a view reads.
pub open spec fn dependency_names(dependencies: Seq<ViewDependencyView>) -> Seq<Seq<char>> {
    Seq::new(dependencies.len(), |i: int| dependencies[i].name)
}

/// Whether no table occurs twice among dependencies, by identity or by name.
pub open spec fn distinct_dependencies(dependencies: Seq<ViewDependencyView>) -> bool {
    forall|i: int, j: int|
        0 <= i < j < dependencies.len() ==> (#[trigger] dependencies[i]).table
            != (#[trigger] dependencies[j]).table && canonical_bytes(dependencies[i].name)
            != canonical_bytes(dependencies[j].name)
}

/// Whether no column occurs twice, by identity or by name.
pub open spec fn distinct_columns(columns: Seq<ViewColumnView>) -> bool {
    forall|i: int, j: int|
        0 <= i < j < columns.len() ==> (#[trigger] columns[i]).column
            != (#[trigger] columns[j]).column && canonical_bytes(columns[i].name)
            != canonical_bytes(columns[j].name)
}

/// Whether dependencies are sound: there is one, none occurs twice, and each
/// has columns, none twice.
pub open spec fn dependencies_sound(dependencies: Seq<ViewDependencyView>) -> bool {
    &&& dependencies.len() > 0
    &&& distinct_dependencies(dependencies)
    &&& forall|i: int|
        0 <= i < dependencies.len() ==> (#[trigger] dependencies[i]).columns.len() > 0
            && distinct_columns(dependencies[i].columns)
}

/// Why a change of a view is refused, if it is, given what the statement that
/// creates the view stands for.
pub open spec fn view_fault(op: ViewOperationView, statement: Option<StatementView>) -> Option<
    ViewCodecError,
> {
    match statement {
        Some(StatementView::CreateView(spec)) => if spec.name != op.name || spec.dependencies
            != dependency_names(op.dependencies) {
            Some(ViewCodecError::SqlMismatch)
        } else if !dependencies_sound(op.dependencies) {
            Some(ViewCodecError::InvalidDependencies)
        } else {
            None
        },
        _ => Some(ViewCodecError::InvalidSql),
    }
}

/// What decoding a frame gives, given what texts stand for.
pub open spec fn view_read(b: Seq<u8>, parsed: ParsedTexts) -> std::result::Result<
    ViewOperationView,
    ViewCodecError,
> {
    match view_operation_decoded(b) {
        Err(error) => Err(error),
        Ok(op) => match view_fault(op, statement_of(parsed, op.create_sql)) {
            Some(error) => Err(error),
            None => Ok(op),
        },
    }
}

/// Decoding the frame of a valid change of a view gives it back.
pub proof fn view_roundtrip(op: ViewOperationView, parsed: ParsedTexts)
    requires
        view_operation_valid(op),
        view_operation_fits(op),
        view_fault(op, statement_of(parsed, op.create_sql)) is None,
    ensures
        view_read(view_operation_frame(op), parsed) == Ok::<ViewOperationView, ViewCodecError>(op),
{
    view_operation_roundtrip(op);
}

/// A decoded change is valid and can be written again, in no more bytes.
pub proof fn view_shrinks(b: Seq<u8>, parsed: ParsedTexts)
    ensures
        view_read(b, parsed) matches Ok(op) ==> view_operation_valid(op) && view_operation_fits(op)
            && view_operation_frame(op).len() <= b.len() && view_fault(
            op,
            statement_of(parsed, op.create_sql),
        ) is None,
{
    view_operation_shrinks(b);
}

/// A column that a view depends on, under the name it has now.
pub open spec fn resolved_view_column(
    tables: Seq<CatalogEntryView>,
    table: Seq<u8>,
) -> spec_fn(ColumnView) -> std::result::Result<ViewColumnView, ErrorView> {
    |column: ColumnView|
        match current_column_name(tables, table, column.id) {
            Some(name) => Ok(ViewColumnView { column: column.id, name }),
            None => Err(
                ErrorView::InvalidDatabase("view dependency column has no name binding"@),
            ),
        }
}

/// The table that a name in a view's statement binds now, with its columns.
pub open spec fn resolved_dependency(tables: Seq<CatalogEntryView>) -> spec_fn(
    Seq<char>,
) -> std::result::Result<ViewDependencyView, ErrorView> {
    |name: Seq<char>|
        match table_named(tables, name) {
            None => Err(
                ErrorView::UnsupportedSql("views may reference only synchronized base tables"@),
            ),
            Some(table) => match try_map(
                table.columns,
                resolved_view_column(tables, table.table),
            ) {
                Err(error) => Err(error),
                Ok(columns) => Ok(ViewDependencyView { table: table.table, name, columns }),
            },
        }
}

/// The tables that names in a view's statement bind now.
pub open spec fn resolved_dependencies(
    tables: Seq<CatalogEntryView>,
    names: Seq<Seq<char>>,
) -> std::result::Result<Seq<ViewDependencyView>, ErrorView> {
    try_map(names, resolved_dependency(tables))
}

/// A change of a view that its statement must bear out.
pub open spec fn settled_view(
    op: ViewOperationView,
    parsed: ParsedTexts,
) -> std::result::Result<ViewOperationView, ErrorView> {
    match view_fault(op, statement_of(parsed, op.create_sql)) {
        Some(error) => Err(ErrorView::InvalidMultiliteOp(view_error_text(error))),
        None => Ok(op),
    }
}

/// What resolving the creation of a view gives.
pub open spec fn created_view(
    mutation: Seq<u8>,
    tables: Seq<CatalogEntryView>,
    parsed: ParsedTexts,
    sql: Seq<char>,
    spec: CreateViewView,
) -> std::result::Result<ViewOperationView, ErrorView> {
    match resolved_dependencies(tables, spec.dependencies) {
        Err(error) => Err(error),
        Ok(dependencies) => settled_view(
            ViewOperationView {
                mutation_id: mutation,
                action: ViewAction::Create,
                name: spec.name,
                create_sql: sql,
                dependencies,
            },
            parsed,
        ),
    }
}

/// An optional text as a mathematical value.
pub open spec fn stored_text(stored: Option<&str>) -> Option<Seq<char>> {
    match stored {
        Some(sql) => Some(sql@),
        None => None,
    }
}

/// What resolving the drop of a view gives, given the statement that the
/// database stores for it.
pub open spec fn dropped_view(
    mutation: Seq<u8>,
    tables: Seq<CatalogEntryView>,
    parsed: ParsedTexts,
    stored: Option<Seq<char>>,
    spec: DropViewView,
) -> std::result::Result<ViewOperationView, ErrorView> {
    match stored {
        None => Err(ErrorView::UnsupportedSql("DROP VIEW target is not a synchronized view"@)),
        Some(create_sql) => match reading_of(parsed, create_sql) {
            Err(error) => Err(error),
            Ok(StatementView::CreateView(created)) => if canonical_bytes(created.name)
                != canonical_bytes(spec.name) {
                Err(ErrorView::InvalidDatabase("stored view name contradicts SQLite schema"@))
            } else {
                match resolved_dependencies(tables, created.dependencies) {
                    Err(error) => Err(error),
                    Ok(dependencies) => settled_view(
                        ViewOperationView {
                            mutation_id: mutation,
                            action: ViewAction::Drop,
                            name: spec.name,
                            create_sql,
                            dependencies,
                        },
                        parsed,
                    ),
                }
            },
            _ => Err(
                ErrorView::InvalidDatabase("stored view SQL is outside the supported grammar"@),
            ),
        },
    }
}

/// Why a table may not go while a view reads it, if it may not: the first view
/// that reads it, or whose stored statement says nothing that is understood.
pub open spec fn reference_fault(
    stored: Seq<Seq<char>>,
    parsed: ParsedTexts,
    table: Seq<char>,
) -> Option<ErrorView>
    decreases stored.len(),
{
    if stored.len() == 0 {
        None
    } else if let Some(error) = reference_fault(stored.drop_last(), parsed, table) {
        Some(error)
    } else {
        match statement_of(parsed, stored.last()) {
            None => Some(
                ErrorView::InvalidDatabase("stored view SQL is outside the supported grammar"@),
            ),
            Some(StatementView::CreateView(view)) => if exists|i: int|
                0 <= i < view.dependencies.len() && canonical_bytes(#[trigger] view.dependencies[i])
                    == canonical_bytes(table) {
                Some(ErrorView::UnsupportedSql("table is referenced by a synchronized view"@))
            } else {
                None
            },
            _ => Some(
                ErrorView::InvalidDatabase("stored view SQL does not describe a view"@),
            ),
        }
    }
}

/// A refusal of an earlier view stands.
proof fn lemma_reference_stop(
    stored: Seq<Seq<char>>,
    i: int,
    parsed: ParsedTexts,
    table: Seq<char>,
)
    requires
        0 <= i <= stored.len(),
        reference_fault(stored.subrange(0, i), parsed, table) is Some,
    ensures
        reference_fault(stored, parsed, table) == reference_fault(
            stored.subrange(0, i),
            parsed,
            table,
        ),
    decreases stored.len() - i,
{
    if i == stored.len() {
        assert(stored.subrange(0, i) =~= stored);
    } else {
        assert(stored.subrange(0, i + 1).drop_last() =~= stored.subrange(0, i));
        lemma_reference_stop(stored, i + 1, parsed, table);
    }
}

/// Refuse to drop a table that a synchronized view reads, given the statements
/// that the database stores for its views.
pub fn ensure_table_not_referenced(
    stored: &[String],
    statements: &Statements,
    table: &SqlName,
) -> (r: Result<()>)
    ensures
        refusal(r) == reference_fault(views(stored@), statements@, table@),
{
    let ghost all = views(stored@);
    let mut i: usize = 0;
    assert(all.subrange(0, 0) =~= Seq::<Seq<char>>::empty());
    while i < stored.len()
        invariant
            i <= stored@.len(),
            all == views(stored@),
            reference_fault(all.subrange(0, i as int), statements@, table@) is None,
        decreases stored.len() - i,
    {
        let ghost next = all.subrange(0, i as int + 1);
        proof {
            assert(next.drop_last() =~= all.subrange(0, i as int));
            assert(next.last() == stored@[i as int]@);
            if reference_fault(next, statements@, table@) is Some {
                lemma_reference_stop(all, i as int + 1, statements@, table@);
            }
        }
        match statements.validate_execute(stored[i].as_str()) {
            Err(_) => {
                return Err(
                    Error::InvalidDatabase("stored view SQL is outside the supported grammar"),
                );
            },
            Ok(ValidatedExecute::CreateView(view)) => {
                let reads = |dependency: &SqlName| -> (r: bool)
                    ensures
                        r == (canonical_bytes(dependency@) == canonical_bytes(table@)),
                    { dependency.same_canonical(table) };
                let ghost test = |dependency: Seq<char>|
                    canonical_bytes(dependency) == canonical_bytes(table@);
                if any(view.dependencies.as_slice(), reads, Ghost(test)) {
                    return Err(
                        Error::UnsupportedSql("table is referenced by a synchronized view"),
                    );
                }
            },
            _ => {
                return Err(Error::InvalidDatabase("stored view SQL does not describe a view"));
            },
        }
        i += 1;
    }
    assert(all.subrange(0, i as int) =~= all);
    Ok(())
}

/// Whether no column occurs twice.
fn check_columns(columns: &[ViewColumnDependency]) -> (r: bool)
    ensures
        r == distinct_columns(views(columns@)),
{
    let ghost all = views(columns@);
    let mut j: usize = 0;
    while j < columns.len()
        invariant
            j <= columns@.len(),
            all == views(columns@),
            distinct_columns(all.subrange(0, j as int)),
        decreases columns.len() - j,
    {
        let mut i: usize = 0;
        while i < j
            invariant
                i <= j < columns@.len(),
                all == views(columns@),
                forall|k: int|
                    0 <= k < i ==> (#[trigger] all[k]).column != all[j as int].column
                        && canonical_bytes(all[k].name) != canonical_bytes(all[j as int].name),
            decreases j - i,
        {
            assert(all[i as int] == columns@[i as int]@);
            assert(all[j as int] == columns@[j as int]@);
            if columns[i].column.same(&columns[j].column) || columns[i].name.same_canonical(
                &columns[j].name,
            ) {
                assert(!distinct_columns(all));
                return false;
            }
            i += 1;
        }
        assert(distinct_columns(all.subrange(0, j as int + 1))) by {
            let next = all.subrange(0, j as int + 1);
            let before = all.subrange(0, j as int);
            assert forall|a: int, b: int| 0 <= a < b < next.len() implies (#[trigger] next[a]).column
                != (#[trigger] next[b]).column && canonical_bytes(next[a].name) != canonical_bytes(
                next[b].name,
            ) by {
                assert(next[a] == all[a]);
                if b < j {
                    assert(before[a] == next[a]);
                    assert(before[b] == next[b]);
                }
            }
        }
        j += 1;
    }
    assert(all.subrange(0, j as int) =~= all);
    true
}

/// Whether dependencies are sound.
fn check_dependencies(dependencies: &[ViewDependency]) -> (r: bool)
    ensures
        r == dependencies_sound(views(dependencies@)),
{
    let ghost all = views(dependencies@);
    if dependencies.len() == 0 {
        return false;
    }
    let mut j: usize = 0;
    while j < dependencies.len()
        invariant
            j <= dependencies@.len(),
            dependencies@.len() > 0,
            all == views(dependencies@),
            distinct_dependencies(all.subrange(0, j as int)),
            forall|k: int|
                0 <= k < j ==> (#[trigger] all[k]).columns.len() > 0 && distinct_columns(
                    all[k].columns,
                ),
        decreases dependencies.len() - j,
    {
        assert(all[j as int] == dependencies@[j as int]@);
        let mut i: usize = 0;
        while i < j
            invariant
                i <= j < dependencies@.len(),
                all == views(dependencies@),
                forall|k: int|
                    0 <= k < i ==> (#[trigger] all[k]).table != all[j as int].table
                        && canonical_bytes(all[k].name) != canonical_bytes(all[j as int].name),
            decreases j - i,
        {
            assert(all[i as int] == dependencies@[i as int]@);
            assert(all[j as int] == dependencies@[j as int]@);
            if dependencies[i].table.same(&dependencies[j].table)
                || dependencies[i].name.same_canonical(&dependencies[j].name) {
                assert(!distinct_dependencies(all));
                return false;
            }
            i += 1;
        }
        if dependencies[j].columns.len() == 0 || !check_columns(
            dependencies[j].columns.as_slice(),
        ) {
            return false;
        }
        assert(distinct_dependencies(all.subrange(0, j as int + 1))) by {
            let next = all.subrange(0, j as int + 1);
            let before = all.subrange(0, j as int);
            assert forall|a: int, b: int| 0 <= a < b < next.len() implies (#[trigger] next[a]).table
                != (#[trigger] next[b]).table && canonical_bytes(next[a].name) != canonical_bytes(
                next[b].name,
            ) by {
                assert(next[a] == all[a]);
                if b < j {
                    assert(before[a] == next[a]);
                    assert(before[b] == next[b]);
                }
            }
        }
        j += 1;
    }
    assert(all.subrange(0, j as int) =~= all);
    true
}

/// Whether names are those of dependencies, in order.
fn check_names(names: &[SqlName], dependencies: &[ViewDependency]) -> (r: bool)
    ensures
        r == (views(names@) == dependency_names(views(dependencies@))),
{
    let ghost wanted = dependency_names(views(dependencies@));
    if names.len() != dependencies.len() {
        assert(views(names@).len() != wanted.len());
        return false;
    }
    let mut i: usize = 0;
    while i < names.len()
        invariant
            i <= names@.len(),
            names@.len() == dependencies@.len(),
            wanted == dependency_names(views(dependencies@)),
            forall|k: int| 0 <= k < i ==> views(names@)[k] == wanted[k],
        decreases names.len() - i,
    {
        if !names[i].same(&dependencies[i].name) {
            assert(views(names@)[i as int] != wanted[i as int]);
            return false;
        }
        i += 1;
    }
    assert(views(names@) =~= wanted);
    true
}

/// The tables that names in a view's statement bind now.
fn resolve_dependencies(catalog: &CatalogSnapshot, names: &[SqlName]) -> (r: Result<
    Vec<ViewDependency>,
>)
    ensures
        list_verdict(r) == resolved_dependencies(catalog@, views(names@)),
{
    let resolve = |name: &SqlName| -> (r: Result<ViewDependency>)
        ensures
            verdict(r) == resolved_dependency(catalog@)(name@),
        { resolve_dependency(catalog, name) };
    attempt_each(names, resolve, Ghost(resolved_dependency(catalog@)))
}

/// The table that a name in a view's statement binds now.
fn resolve_dependency(catalog: &CatalogSnapshot, name: &SqlName) -> (r: Result<ViewDependency>)
    ensures
        verdict(r) == resolved_dependency(catalog@)(name@),
{
    let table = match catalog.by_name(name.value()) {
        None => {
            return Err(
                Error::UnsupportedSql("views may reference only synchronized base tables"),
            );
        },
        Some(table) => table,
    };
    let id = table.table_id();
    let resolve = |column: &Column| -> (r: Result<ViewColumnDependency>)
        ensures
            verdict(r) == resolved_view_column(catalog@, id@)(column@),
        {
            match catalog.column_name_by_id(id, column.id) {
                Some(name) => Ok(ViewColumnDependency { column: column.id, name: name.clone() }),
                None => Err(Error::InvalidDatabase("view dependency column has no name binding")),
            }
        };
    assert(table@.columns == views(table.columns@));
    match attempt_each(
        table.columns.as_slice(),
        resolve,
        Ghost(resolved_view_column(catalog@, id@)),
    ) {
        Err(error) => Err(error),
        Ok(columns) => Ok(ViewDependency { table: id, name: name.clone(), columns }),
    }
}

impl ViewOperation {
    /// Refuse a change that is not what the view's statement says.
    pub fn validate(&self, statements: &Statements) -> (r: std::result::Result<
        (),
        ViewCodecError,
    >)
        ensures
            r == (match view_fault(self@, statement_of(statements@, self@.create_sql)) {
                Some(error) => Err::<(), ViewCodecError>(error),
                None => Ok(()),
            }),
    {
        assert(self@.dependencies == views(self.dependencies@));
        match statements.validate_execute(self.create_sql.as_str()) {
            Ok(ValidatedExecute::CreateView(spec)) => {
                if !spec.name.same(&self.name) || !check_names(
                    spec.dependencies.as_slice(),
                    self.dependencies.as_slice(),
                ) {
                    return Err(ViewCodecError::SqlMismatch);
                }
                if !check_dependencies(self.dependencies.as_slice()) {
                    return Err(ViewCodecError::InvalidDependencies);
                }
                Ok(())
            },
            _ => Err(ViewCodecError::InvalidSql),
        }
    }

    /// Decode and validate one complete frame, given what texts stand for.
    pub fn decode(frame: &[u8], statements: &Statements) -> (r: std::result::Result<
        ViewOperation,
        ViewCodecError,
    >)
        ensures
            outcome(r) == view_read(frame@, statements@),
    {
        match ViewOperation::decode_fields(frame) {
            Err(error) => Err(error),
            Ok(operation) => match operation.validate(statements) {
                Err(error) => Err(error),
                Ok(()) => Ok(operation),
            },
        }
    }

    /// Let the statement bear the change out.
    fn settle(self, statements: &Statements) -> (r: Result<ViewOperation>)
        ensures
            verdict(r) == settled_view(self@, statements@),
    {
        match self.validate(statements) {
            Err(error) => Err(invalid_operation(error)),
            Ok(()) => Ok(self),
        }
    }

    /// Resolve the creation of a view under a given mutation.
    pub fn resolve_create(
        mutation_id: MutationId,
        catalog: &CatalogSnapshot,
        statements: &Statements,
        sql: &str,
        spec: &CreateViewSpec,
    ) -> (r: Result<ViewOperation>)
        ensures
            verdict(r) == created_view(mutation_id@, catalog@, statements@, sql@, spec@),
    {
        let dependencies = match resolve_dependencies(catalog, spec.dependencies.as_slice()) {
            Err(error) => {
                return Err(error);
            },
            Ok(dependencies) => dependencies,
        };
        ViewOperation {
            mutation_id,
            action: ViewAction::Create,
            name: spec.name.clone(),
            create_sql: sql.to_owned(),
            dependencies,
        }.settle(statements)
    }

    /// Resolve the creation of a view under a new mutation.
    pub fn prepare_create(
        catalog: &CatalogSnapshot,
        statements: &Statements,
        sql: &str,
        spec: &CreateViewSpec,
    ) -> (r: Result<ViewOperation>)
        ensures
            exists|mutation: Seq<u8>|
                random_uuid(mutation) && verdict(r) == #[trigger] created_view(
                    mutation,
                    catalog@,
                    statements@,
                    sql@,
                    spec@,
                ),
    {
        ViewOperation::resolve_create(MutationId::fresh(), catalog, statements, sql, spec)
    }

    /// Resolve the drop of a view under a given mutation.
    pub fn resolve_drop(
        mutation_id: MutationId,
        catalog: &CatalogSnapshot,
        statements: &Statements,
        stored: Option<&str>,
        spec: &DropViewSpec,
    ) -> (r: Result<ViewOperation>)
        ensures
            verdict(r) == dropped_view(
                mutation_id@,
                catalog@,
                statements@,
                stored_text(stored),
                spec@,
            ),
    {
        let create_sql = match stored {
            None => {
                return Err(
                    Error::UnsupportedSql("DROP VIEW target is not a synchronized view"),
                );
            },
            Some(create_sql) => create_sql,
        };
        let created = match statements.validate_execute(create_sql) {
            Err(error) => {
                return Err(error);
            },
            Ok(ValidatedExecute::CreateView(created)) => created,
            _ => {
                return Err(
                    Error::InvalidDatabase("stored view SQL is outside the supported grammar"),
                );
            },
        };
        if !created.name.same_canonical(&spec.name) {
            return Err(Error::InvalidDatabase("stored view name contradicts SQLite schema"));
        }
        let dependencies = match resolve_dependencies(catalog, created.dependencies.as_slice()) {
            Err(error) => {
                return Err(error);
            },
            Ok(dependencies) => dependencies,
        };
        ViewOperation {
            mutation_id,
            action: ViewAction::Drop,
            name: spec.name.clone(),
            create_sql: create_sql.to_owned(),
            dependencies,
        }.settle(statements)
    }

    /// Resolve the drop of a view under a new mutation.
    pub fn prepare_drop(
        catalog: &CatalogSnapshot,
        statements: &Statements,
        stored: Option<&str>,
        spec: &DropViewSpec,
    ) -> (r: Result<ViewOperation>)
        ensures
            exists|mutation: Seq<u8>|
                random_uuid(mutation) && verdict(r) == #[trigger] dropped_view(
                    mutation,
                    catalog@,
                    statements@,
                    stored_text(stored),
                    spec@,
                ),
    {
        ViewOperation::resolve_drop(MutationId::fresh(), catalog, statements, stored, spec)
    }
}

} // verus!
