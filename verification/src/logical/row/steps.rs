//! The statements that carry the changes of a table out, in their order.

use super::apply::{
    arrange_step, arranged, insertion_plan, nothing_arranged, removal_plan, turned, update_plan,
    ArrangementView, Removal, RemovalView,
};
use super::cells::{DeltaView, Row, RowView};
use super::changes::{befores, TableChanges, TableChangesView};
use super::rules::RulesView;
use super::statement::{RowStatement, RowStatementView};
use crate::attempt::try_fold;
use crate::catalog::{CatalogEntryView, CatalogSnapshot};
use crate::codec::views;
use crate::error::{list_verdict, Error, ErrorView, Result};
use crate::logical::schema::definition::{definition_sound, CreateTable, TableView};
use vstd::prelude::*;

verus! {

/// One step of carrying changes out.
pub enum RowStep {
    /// Read rows once more, hold them to their images, and delete them.
    Remove(Removal),
    /// Update rows that keep their keys.
    Update(RowStatement),
    /// Insert rows.
    Insert(RowStatement),
    /// Give up: what would follow cannot be planned.
    Fail(Error),
}

/// A step as a mathematical value.
pub enum RowStepView {
    Remove(RemovalView),
    Update(RowStatementView),
    Insert(RowStatementView),
    Fail(ErrorView),
}

impl View for RowStep {
    type V = RowStepView;

    open spec fn view(&self) -> RowStepView {
        match self {
            RowStep::Remove(removal) => RowStepView::Remove(removal@),
            RowStep::Update(statement) => RowStepView::Update(statement@),
            RowStep::Insert(statement) => RowStepView::Insert(statement@),
            RowStep::Fail(error) => RowStepView::Fail(error@),
        }
    }
}

/// How stored rows are removed: not at all where there is none.
pub open spec fn removal_steps(
    tables: Seq<CatalogEntryView>,
    table: TableView,
    removed: Seq<RowView>,
) -> Seq<RowStepView> {
    if removed.len() == 0 {
        Seq::empty()
    } else {
        match removal_plan(tables, table, removed) {
            Ok(removal) => seq![RowStepView::Remove(removal)],
            Err(error) => seq![RowStepView::Fail(error)],
        }
    }
}

/// How rows that keep their keys are updated: not at all where there is none.
pub open spec fn update_steps(
    tables: Seq<CatalogEntryView>,
    table: TableView,
    rules: RulesView,
    stable: Seq<DeltaView>,
) -> Seq<RowStepView> {
    if stable.len() == 0 {
        Seq::empty()
    } else {
        match update_plan(tables, table, rules, stable) {
            Ok(Some(statement)) => seq![RowStepView::Update(statement)],
            Ok(None) => Seq::empty(),
            Err(error) => seq![RowStepView::Fail(error)],
        }
    }
}

/// How rows are inserted: not at all where there is none.
pub open spec fn insertion_steps(
    tables: Seq<CatalogEntryView>,
    table: TableView,
    rules: RulesView,
    inserted: Seq<RowView>,
) -> Seq<RowStepView> {
    if inserted.len() == 0 {
        Seq::empty()
    } else {
        match insertion_plan(tables, table, rules, inserted) {
            Ok(statement) => seq![RowStepView::Insert(statement)],
            Err(error) => seq![RowStepView::Fail(error)],
        }
    }
}

/// Whether steps end in giving up.
pub open spec fn given_up(steps: Seq<RowStepView>) -> bool {
    steps.len() > 0 && steps.last() is Fail
}

/// Steps behind others, unless those give up.
pub open spec fn followed(first: Seq<RowStepView>, then: Seq<RowStepView>) -> Seq<RowStepView> {
    if given_up(first) {
        first
    } else {
        first + then
    }
}

/// The steps of changes in the given direction, given the stored rows that they
/// start from: first rows are removed, then rows that keep their keys are
/// updated, then rows are inserted. The first step that cannot be planned is the
/// last one.
pub open spec fn steps_of(
    tables: Seq<CatalogEntryView>,
    table: TableView,
    changes: TableChangesView,
    reverse: bool,
    current: Seq<RowView>,
) -> std::result::Result<Seq<RowStepView>, ErrorView> {
    match arranged(changes, reverse, current) {
        Err(error) => Err(error),
        Ok(done) => Ok(
            followed(
                followed(
                    removal_steps(tables, table, done.removed),
                    update_steps(tables, table, changes.rules, done.stable),
                ),
                insertion_steps(tables, table, changes.rules, done.inserted),
            ),
        ),
    }
}

/// Rows that keep their keys have both images.
proof fn lemma_stable(rules: RulesView, rows: Seq<DeltaView>, current: Seq<RowView>)
    ensures
        try_fold(nothing_arranged(), rows, arrange_step(rules, current)) matches Ok(done)
            ==> forall|i: int|
            0 <= i < done.stable.len() ==> (#[trigger] done.stable[i]).before is Some
                && done.stable[i].after is Some,
    decreases rows.len(),
{
    if rows.len() > 0 {
        lemma_stable(rules, rows.drop_last(), current);
        if let Ok(done) = try_fold(nothing_arranged(), rows, arrange_step(rules, current)) {
            let held = try_fold(
                nothing_arranged(),
                rows.drop_last(),
                arrange_step(rules, current),
            )->Ok_0;
            assert forall|i: int| 0 <= i < done.stable.len() implies (
            #[trigger] done.stable[i]).before is Some && done.stable[i].after is Some by {
                if i < held.stable.len() {
                    assert(done.stable[i] == held.stable[i]);
                } else {
                    assert(done.stable[i] == rows.last());
                }
            }
        }
    }
}

impl TableChanges {
    /// The steps that carry the changes out in the given direction, given the
    /// stored rows that they start from.
    pub fn replay_steps(
        &self,
        catalog: &CatalogSnapshot,
        created: &CreateTable,
        reverse: bool,
        current: &[Row],
    ) -> (r: Result<Vec<RowStep>>)
        requires
            definition_sound(created@),
            current@.len() == befores(self@.rows.map_values(turned(reverse))).len(),
        ensures
            list_verdict(r) == steps_of(
                catalog@,
                created@,
                self@,
                reverse,
                views(current@),
            ),
    {
        let done = match self.arrange(reverse, current) {
            Err(error) => {
                return Err(error);
            },
            Ok(done) => done,
        };
        let ghost held: ArrangementView = arranged(self@, reverse, views(current@))->Ok_0;
        proof {
            lemma_stable(
                self@.rules,
                self@.rows.map_values(turned(reverse)),
                views(current@),
            );
            assert forall|i: int| 0 <= i < done.stable@.len() implies (
            #[trigger] done.stable@[i]).before is Some && done.stable@[i].after is Some by {
                assert(held.stable[i] == done.stable@[i]@);
            }
        }
        let ghost first = removal_steps(catalog@, created@, held.removed);
        let ghost second = update_steps(catalog@, created@, self@.rules, held.stable);
        let ghost third = insertion_steps(catalog@, created@, self@.rules, held.inserted);
        let mut steps: Vec<RowStep> = Vec::new();
        assert(done.removed@.len() == held.removed.len());
        assert(done.stable@.len() == held.stable.len());
        assert(done.inserted@.len() == held.inserted.len());
        if done.removed.len() > 0 {
            match self.removal_plan(catalog, created, done.removed.as_slice()) {
                Err(error) => {
                    steps.push(RowStep::Fail(error));
                    assert(views(steps@) =~= first);
                    return Ok(steps);
                },
                Ok(removal) => {
                    steps.push(RowStep::Remove(removal));
                },
            }
        }
        assert(views(steps@) =~= first);
        if done.stable.len() > 0 {
            match self.update_plan(catalog, created, done.stable.as_slice()) {
                Err(error) => {
                    steps.push(RowStep::Fail(error));
                    assert(views(steps@) =~= first + second);
                    return Ok(steps);
                },
                Ok(Some(update)) => {
                    steps.push(RowStep::Update(update));
                },
                Ok(None) => {},
            }
        }
        assert(views(steps@) =~= first + second);
        if done.inserted.len() > 0 {
            match self.insertion_plan(catalog, created, done.inserted.as_slice()) {
                Err(error) => {
                    steps.push(RowStep::Fail(error));
                },
                Ok(insertion) => {
                    steps.push(RowStep::Insert(insertion));
                },
            }
        }
        assert(views(steps@) =~= first + second + third);
        Ok(steps)
    }
}

} // verus!
