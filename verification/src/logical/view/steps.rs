//! What a change of a view does to the local database, and what undoes it.

use super::error::{invalid_operation, view_error_text};
use super::frame::{
    ViewAction, ViewColumnDependency, ViewColumnView, ViewDependencyView, ViewOperation,
    ViewOperationView,
};
use super::operation::{stored_text, view_fault};
use crate::catalog::{current_column_name, current_name, CatalogEntryView, CatalogSnapshot};
use crate::codec::{view_of, views};
use crate::error::{refusal, verdict, Error, ErrorView, Result};
use crate::identity::TableId;
use crate::logical::schema::statement::{statement_of, ParsedTexts, Statements};
use crate::name::{canonical_bytes, same_text};
use crate::sqlite::{quote_identifier, quoted};
use crate::text::joined;
use vstd::prelude::*;

verus! {

/// A statement to run, and a query that must then compile.
#[derive(Debug, PartialEq, Eq)]
pub struct ViewPlan {
    pub execute: String,
    pub probe: Option<String>,
}

/// A plan as a mathematical value.
pub struct ViewPlanView {
    pub execute: Seq<char>,
    pub probe: Option<Seq<char>>,
}

impl View for ViewPlan {
    type V = ViewPlanView;

    open spec fn view(&self) -> ViewPlanView {
        ViewPlanView { execute: self.execute@, probe: view_of(self.probe) }
    }
}

/// Why the columns that a view reads are not what they were, if they are not.
pub open spec fn column_dependency_fault(
    tables: Seq<CatalogEntryView>,
    table: Seq<u8>,
    columns: Seq<ViewColumnView>,
) -> Option<ErrorView>
    decreases columns.len(),
{
    if columns.len() == 0 {
        None
    } else if let Some(error) = column_dependency_fault(tables, table, columns.drop_last()) {
        Some(error)
    } else {
        match current_column_name(tables, table, columns.last().column) {
            None => Some(ErrorView::InvalidDatabase("view dependency column is missing"@)),
            Some(current) => if canonical_bytes(current) != canonical_bytes(columns.last().name) {
                Some(
                    ErrorView::InvalidDatabase(
                        "view dependency column was renamed before materialization"@,
                    ),
                )
            } else {
                None
            },
        }
    }
}

/// Why a table that a view reads is not what it was, if it is not.
pub open spec fn one_dependency_fault(
    tables: Seq<CatalogEntryView>,
    dependency: ViewDependencyView,
) -> Option<ErrorView> {
    match current_name(tables, dependency.table) {
        None => Some(ErrorView::InvalidDatabase("view dependency table is missing"@)),
        Some(name) => if canonical_bytes(name) != canonical_bytes(dependency.name) {
            Some(
                ErrorView::InvalidDatabase("view dependency was renamed before materialization"@),
            )
        } else {
            column_dependency_fault(tables, dependency.table, dependency.columns)
        },
    }
}

/// Why the tables that a view reads are not what they were, if they are not.
pub open spec fn dependencies_fault(
    tables: Seq<CatalogEntryView>,
    dependencies: Seq<ViewDependencyView>,
) -> Option<ErrorView>
    decreases dependencies.len(),
{
    if dependencies.len() == 0 {
        None
    } else if let Some(error) = dependencies_fault(tables, dependencies.drop_last()) {
        Some(error)
    } else {
        one_dependency_fault(tables, dependencies.last())
    }
}

/// Why what the database has under a name is not what is expected, if it is not.
pub open spec fn presence_fault(actual: Option<Seq<char>>, expected: bool) -> Option<ErrorView> {
    if actual == (if expected {
        Some("view"@)
    } else {
        None
    }) {
        None
    } else {
        Some(ErrorView::InvalidDatabase("pending view no longer matches SQLite schema"@))
    }
}

/// The query that a sound view answers.
pub open spec fn probe_sql(name: Seq<char>) -> Seq<char> {
    "SELECT * FROM "@ + quoted(name) + " LIMIT 0"@
}

/// Create the view and probe it.
pub open spec fn create_plan(op: ViewOperationView) -> ViewPlanView {
    ViewPlanView { execute: op.create_sql, probe: Some(probe_sql(op.name)) }
}

/// Drop the view.
pub open spec fn drop_plan(op: ViewOperationView) -> ViewPlanView {
    ViewPlanView { execute: "DROP VIEW "@ + quoted(op.name), probe: None }
}

/// What applying a change takes, given what the database has under the name.
pub open spec fn view_applied(
    op: ViewOperationView,
    parsed: ParsedTexts,
    tables: Seq<CatalogEntryView>,
    actual: Option<Seq<char>>,
) -> std::result::Result<ViewPlanView, ErrorView> {
    if let Some(error) = view_fault(op, statement_of(parsed, op.create_sql)) {
        Err(ErrorView::InvalidMultiliteOp(view_error_text(error)))
    } else {
        match op.action {
            ViewAction::Create => match dependencies_fault(tables, op.dependencies) {
                Some(error) => Err(error),
                None => Ok(create_plan(op)),
            },
            ViewAction::Drop => match presence_fault(actual, true) {
                Some(error) => Err(error),
                None => Ok(drop_plan(op)),
            },
        }
    }
}

/// What undoing a change takes, given what the database has under the name.
pub open spec fn view_rolled_back(
    op: ViewOperationView,
    tables: Seq<CatalogEntryView>,
    actual: Option<Seq<char>>,
) -> std::result::Result<ViewPlanView, ErrorView> {
    match op.action {
        ViewAction::Create => match presence_fault(actual, true) {
            Some(error) => Err(error),
            None => Ok(drop_plan(op)),
        },
        ViewAction::Drop => if let Some(error) = presence_fault(actual, false) {
            Err(error)
        } else if let Some(error) = dependencies_fault(tables, op.dependencies) {
            Err(error)
        } else {
            Ok(create_plan(op))
        },
    }
}

/// What the local database has under a name must be a view, or nothing.
pub fn ensure_view(actual: Option<&str>, expected: bool) -> (r: Result<()>)
    ensures
        refusal(r) == presence_fault(stored_text(actual), expected),
{
    let there = match actual {
        Some(kind) => {
            proof {
                reveal_strlit("view");
            }
            expected && same_text(kind, "view")
        },
        None => !expected,
    };
    if there {
        Ok(())
    } else {
        Err(Error::InvalidDatabase("pending view no longer matches SQLite schema"))
    }
}

/// Check the columns that a view reads.
fn check_columns(catalog: &CatalogSnapshot, table: TableId, columns: &[ViewColumnDependency]) -> (r:
    Result<()>)
    ensures
        refusal(r) == column_dependency_fault(catalog@, table@, views(columns@)),
{
    let ghost all = views(columns@);
    let mut i: usize = 0;
    assert(all.subrange(0, 0) =~= Seq::<ViewColumnView>::empty());
    while i < columns.len()
        invariant
            i <= columns@.len(),
            all == views(columns@),
            column_dependency_fault(catalog@, table@, all.subrange(0, i as int)) is None,
        decreases columns.len() - i,
    {
        let ghost next = all.subrange(0, i as int + 1);
        proof {
            assert(next.drop_last() =~= all.subrange(0, i as int));
            assert(next.last() == columns@[i as int]@);
            if column_dependency_fault(catalog@, table@, next) is Some {
                lemma_columns_stop(catalog@, table@, all, i as int + 1);
            }
        }
        match catalog.column_name_by_id(table, columns[i].column) {
            None => {
                return Err(Error::InvalidDatabase("view dependency column is missing"));
            },
            Some(current) => {
                if !current.same_canonical(&columns[i].name) {
                    return Err(
                        Error::InvalidDatabase(
                            "view dependency column was renamed before materialization",
                        ),
                    );
                }
            },
        }
        i += 1;
    }
    assert(all.subrange(0, i as int) =~= all);
    Ok(())
}

/// A refusal of an earlier column stands.
proof fn lemma_columns_stop(
    tables: Seq<CatalogEntryView>,
    table: Seq<u8>,
    columns: Seq<ViewColumnView>,
    i: int,
)
    requires
        0 <= i <= columns.len(),
        column_dependency_fault(tables, table, columns.subrange(0, i)) is Some,
    ensures
        column_dependency_fault(tables, table, columns) == column_dependency_fault(
            tables,
            table,
            columns.subrange(0, i),
        ),
    decreases columns.len() - i,
{
    if i == columns.len() {
        assert(columns.subrange(0, i) =~= columns);
    } else {
        assert(columns.subrange(0, i + 1).drop_last() =~= columns.subrange(0, i));
        lemma_columns_stop(tables, table, columns, i + 1);
    }
}

/// A refusal of an earlier dependency stands.
proof fn lemma_dependencies_stop(
    tables: Seq<CatalogEntryView>,
    dependencies: Seq<ViewDependencyView>,
    i: int,
)
    requires
        0 <= i <= dependencies.len(),
        dependencies_fault(tables, dependencies.subrange(0, i)) is Some,
    ensures
        dependencies_fault(tables, dependencies) == dependencies_fault(
            tables,
            dependencies.subrange(0, i),
        ),
    decreases dependencies.len() - i,
{
    if i == dependencies.len() {
        assert(dependencies.subrange(0, i) =~= dependencies);
    } else {
        assert(dependencies.subrange(0, i + 1).drop_last() =~= dependencies.subrange(0, i));
        lemma_dependencies_stop(tables, dependencies, i + 1);
    }
}

impl ViewOperation {
    /// Refuse a view whose tables or columns are not what they were.
    pub fn validate_dependencies(&self, catalog: &CatalogSnapshot) -> (r: Result<()>)
        ensures
            refusal(r) == dependencies_fault(catalog@, self@.dependencies),
    {
        let ghost all = self@.dependencies;
        let mut i: usize = 0;
        proof {
            assert(all == views(self.dependencies@));
            assert(all.subrange(0, 0) =~= Seq::<ViewDependencyView>::empty());
        }
        while i < self.dependencies.len()
            invariant
                i <= self.dependencies@.len(),
                all == views(self.dependencies@),
                all == self@.dependencies,
                dependencies_fault(catalog@, all.subrange(0, i as int)) is None,
            decreases self.dependencies.len() - i,
        {
            let dependency = &self.dependencies[i];
            let ghost next = all.subrange(0, i as int + 1);
            proof {
                assert(next.drop_last() =~= all.subrange(0, i as int));
                assert(next.last() == dependency@);
                if dependencies_fault(catalog@, next) is Some {
                    lemma_dependencies_stop(catalog@, all, i as int + 1);
                }
            }
            match catalog.name_by_id(dependency.table) {
                None => {
                    return Err(Error::InvalidDatabase("view dependency table is missing"));
                },
                Some(name) => {
                    if !name.same_canonical(&dependency.name) {
                        return Err(
                            Error::InvalidDatabase(
                                "view dependency was renamed before materialization",
                            ),
                        );
                    }
                },
            }
            if let Err(error) = check_columns(
                catalog,
                dependency.table,
                dependency.columns.as_slice(),
            ) {
                return Err(error);
            }
            i += 1;
        }
        assert(all.subrange(0, i as int) =~= all);
        Ok(())
    }

    /// The query that a sound view answers.
    fn probe(&self) -> (r: String)
        ensures
            r@ == probe_sql(self@.name),
    {
        let mut sql = joined("SELECT * FROM ", quote_identifier(self.name.value()).as_str());
        sql.append(" LIMIT 0");
        sql
    }

    /// Create the view and probe it.
    fn creation(&self) -> (r: ViewPlan)
        ensures
            r@ == create_plan(self@),
    {
        ViewPlan { execute: self.create_sql.clone(), probe: Some(self.probe()) }
    }

    /// Drop the view.
    fn removal(&self) -> (r: ViewPlan)
        ensures
            r@ == drop_plan(self@),
    {
        ViewPlan {
            execute: joined("DROP VIEW ", quote_identifier(self.name.value()).as_str()),
            probe: None,
        }
    }

    /// What applying the change takes, given what the database has under the
    /// view's name.
    pub fn apply(
        &self,
        statements: &Statements,
        catalog: &CatalogSnapshot,
        actual: Option<&str>,
    ) -> (r: Result<ViewPlan>)
        ensures
            verdict(r) == view_applied(self@, statements@, catalog@, stored_text(actual)),
    {
        if let Err(error) = self.validate(statements) {
            return Err(invalid_operation(error));
        }
        match self.action {
            ViewAction::Create => match self.validate_dependencies(catalog) {
                Err(error) => Err(error),
                Ok(()) => Ok(self.creation()),
            },
            ViewAction::Drop => match ensure_view(actual, true) {
                Err(error) => Err(error),
                Ok(()) => Ok(self.removal()),
            },
        }
    }

    /// What undoing the change takes, given what the database has under the
    /// view's name.
    pub fn rollback(&self, catalog: &CatalogSnapshot, actual: Option<&str>) -> (r: Result<ViewPlan>)
        ensures
            verdict(r) == view_rolled_back(self@, catalog@, stored_text(actual)),
    {
        match self.action {
            ViewAction::Create => match ensure_view(actual, true) {
                Err(error) => Err(error),
                Ok(()) => Ok(self.removal()),
            },
            ViewAction::Drop => {
                if let Err(error) = ensure_view(actual, false) {
                    return Err(error);
                }
                match self.validate_dependencies(catalog) {
                    Err(error) => Err(error),
                    Ok(()) => Ok(self.creation()),
                }
            },
        }
    }

    /// Check a view that a branch has created. The query that is returned must
    /// compile.
    pub fn validate_created(&self, catalog: &CatalogSnapshot, actual: Option<&str>) -> (r: Result<
        String,
    >)
        ensures
            verdict(r) == (if self@.action != ViewAction::Create {
                Err(ErrorView::CaptureInvariant("DROP VIEW validated as a creation"@))
            } else if let Some(error) = presence_fault(stored_text(actual), true) {
                Err(error)
            } else if let Some(error) = dependencies_fault(catalog@, self@.dependencies) {
                Err(error)
            } else {
                Ok(probe_sql(self@.name))
            }),
    {
        match self.action {
            ViewAction::Create => {},
            ViewAction::Drop => {
                return Err(Error::CaptureInvariant("DROP VIEW validated as a creation"));
            },
        }
        if let Err(error) = ensure_view(actual, true) {
            return Err(error);
        }
        match self.validate_dependencies(catalog) {
            Err(error) => Err(error),
            Ok(()) => Ok(self.probe()),
        }
    }

    /// Check what the database has under the view's name after the change.
    pub fn verify_materialized(&self, actual: Option<&str>) -> (r: Result<()>)
        ensures
            refusal(r) == presence_fault(stored_text(actual), self@.action == ViewAction::Create),
    {
        let expected = match self.action {
            ViewAction::Create => true,
            ViewAction::Drop => false,
        };
        ensure_view(actual, expected)
    }
}

/// Undoing a change of a view runs what the opposite change of the same view runs
/// where that can be applied: dropping undoes creating, and creating undoes
/// dropping.
pub proof fn undoing_a_view_change_is_its_opposite(
    op: ViewOperationView,
    opposite: ViewOperationView,
    parsed: ParsedTexts,
    tables: Seq<CatalogEntryView>,
    actual: Option<Seq<char>>,
)
    requires
        op.action != opposite.action,
        op.name == opposite.name,
        op.create_sql == opposite.create_sql,
        op.dependencies == opposite.dependencies,
        view_applied(opposite, parsed, tables, actual) is Ok,
        presence_fault(actual, op.action == ViewAction::Create) is None,
    ensures
        view_rolled_back(op, tables, actual) == view_applied(opposite, parsed, tables, actual),
{
}

} // verus!
