//! The settings of a connection while row changes are carried out on it.
//!
//! Changes are a final state: no trigger may add to it, and foreign keys are held
//! to once all of it is there.

use super::cells::RowView;
use super::changes::{canonical_fault, RowChangesView};
use super::replay::{
    applicable, tables_carried, tables_restored, undoing_a_statement_restores_every_table,
};
use vstd::multiset::Multiset;
use vstd::prelude::*;

verus! {

/// Whether triggers fire and foreign keys are enforced row by row.
#[derive(Clone, Copy, Debug, PartialEq, Eq, Structural)]
pub struct Settings {
    pub triggers: bool,
    pub foreign_keys: bool,
}

/// One step around the changes.
#[derive(Clone, Copy, Debug, PartialEq, Eq, Structural)]
pub enum ContextStep {
    /// Remember the state of the database.
    Savepoint,
    /// Let triggers fire, or not.
    Triggers(bool),
    /// Enforce foreign keys row by row, or not.
    ForeignKeys(bool),
    /// Keep what was done.
    Release,
    /// Give up what was done.
    Rollback,
}

/// What comes before the changes.
pub open spec fn entering() -> Seq<ContextStep> {
    seq![
        ContextStep::Savepoint,
        ContextStep::Triggers(false),
        ContextStep::ForeignKeys(false),
    ]
}

/// What comes after the changes: the settings from before, and then the changes
/// are kept or given up as a whole.
pub open spec fn leaving(before: Settings, done: bool) -> Seq<ContextStep> {
    seq![
        ContextStep::ForeignKeys(before.foreign_keys),
        ContextStep::Triggers(before.triggers),
        if done {
            ContextStep::Release
        } else {
            ContextStep::Rollback
        },
    ]
}

/// The settings after a step.
pub open spec fn setting_after(settings: Settings, step: ContextStep) -> Settings {
    match step {
        ContextStep::Triggers(triggers) => Settings { triggers, ..settings },
        ContextStep::ForeignKeys(foreign_keys) => Settings { foreign_keys, ..settings },
        _ => settings,
    }
}

/// The settings after steps.
pub open spec fn settings_after(settings: Settings, steps: Seq<ContextStep>) -> Settings
    decreases steps.len(),
{
    if steps.len() == 0 {
        settings
    } else {
        setting_after(settings_after(settings, steps.drop_last()), steps.last())
    }
}

/// What comes before the changes.
pub fn enter_context() -> (r: Vec<ContextStep>)
    ensures
        r@ == entering(),
{
    let r = vec![
        ContextStep::Savepoint,
        ContextStep::Triggers(false),
        ContextStep::ForeignKeys(false),
    ];
    assert(r@ =~= entering());
    r
}

/// What comes after the changes, given the settings from before and whether all
/// of the changes were made.
pub fn leave_context(before: Settings, done: bool) -> (r: Vec<ContextStep>)
    ensures
        r@ == leaving(before, done),
{
    let last = if done {
        ContextStep::Release
    } else {
        ContextStep::Rollback
    };
    let r = vec![
        ContextStep::ForeignKeys(before.foreign_keys),
        ContextStep::Triggers(before.triggers),
        last,
    ];
    assert(r@ =~= leaving(before, done));
    r
}

/// While changes are carried out no trigger fires and no foreign key is enforced
/// row by row, and afterwards the settings are what they were, whether the changes
/// were made or not.
pub proof fn settings_come_back(before: Settings, done: bool)
    ensures
        settings_after(before, entering()) == (Settings {
            triggers: false,
            foreign_keys: false,
        }),
        settings_after(settings_after(before, entering()), leaving(before, done)) == before,
{
    reveal_with_fuel(settings_after, 4);
    let first = entering();
    assert(first.drop_last() =~= seq![ContextStep::Savepoint, ContextStep::Triggers(false)]);
    assert(first.drop_last().drop_last() =~= seq![ContextStep::Savepoint]);
    let last = leaving(before, done);
    assert(last.drop_last() =~= seq![
        ContextStep::ForeignKeys(before.foreign_keys),
        ContextStep::Triggers(before.triggers),
    ]);
    assert(last.drop_last().drop_last() =~= seq![
        ContextStep::ForeignKeys(before.foreign_keys),
    ]);
}

/// The rows of every table, and the settings of the connection.
#[verifier::ext_equal]
pub struct DatabaseView {
    pub rows: Map<Seq<u8>, Multiset<RowView>>,
    pub settings: Settings,
}

/// A database on which the changes of a statement were carried out, or undone.
pub open spec fn replayed(
    database: DatabaseView,
    changes: RowChangesView,
    reverse: bool,
) -> DatabaseView {
    DatabaseView {
        rows: if reverse {
            tables_restored(database.rows, changes.tables)
        } else {
            tables_carried(database.rows, changes.tables)
        },
        settings: settings_after(
            settings_after(database.settings, entering()),
            leaving(database.settings, true),
        ),
    }
}

/// A statement whose changes are carried out and then undone leaves the database
/// as it was: every row of every table, and the settings of the connection.
pub proof fn undoing_a_statement_restores_the_database(
    database: DatabaseView,
    changes: RowChangesView,
)
    requires
        canonical_fault(changes.tables) is None,
        forall|i: int|
            0 <= i < changes.tables.len() ==> applicable(
                database.rows,
                #[trigger] changes.tables[i],
            ),
    ensures
        replayed(replayed(database, changes, false), changes, true) == database,
{
    settings_come_back(database.settings, true);
    undoing_a_statement_restores_every_table(database.rows, changes);
}

/// While changes are made, no trigger fires and no foreign key is enforced, and a
/// savepoint was set before the settings changed. Changes that were all made are
/// kept, and any others are given up as a whole, after the settings came back.
pub proof fn changes_are_made_alone_and_as_a_whole(settings: Settings, done: bool)
    ensures
        !settings_after(settings, entering()).triggers,
        !settings_after(settings, entering()).foreign_keys,
        entering()[0] is Savepoint,
        leaving(settings, done).last() is Release <==> done,
        leaving(settings, done).last() is Rollback <==> !done,
{
    reveal_with_fuel(settings_after, 4);
    let steps = entering();
    assert(steps.drop_last() =~= seq![ContextStep::Savepoint, ContextStep::Triggers(false)]);
    assert(steps.drop_last().drop_last() =~= seq![ContextStep::Savepoint]);
}

} // verus!
