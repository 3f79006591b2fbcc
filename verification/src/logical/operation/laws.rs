//! What holds of every operation.

use super::codec::OpView;
use super::compile::{emitted, lowered, operation_family, LoweredView};
use crate::error::ErrorView;
use crate::logical::alter::laws::{
    added_columns_do_not_compile, dropped_columns_do_not_compile, lowered_renames_compile,
};
use crate::logical::alter::lower::alter_emissions;
use crate::logical::alter::operation::{alter_fault, AlterView};
use crate::logical::charter::calls_for;
use crate::logical::contract::{permits_mutation, GuardClass, GuardReason};
use crate::logical::drop_table::lower::{drop_table_emissions, lowered_drops_compile};
use crate::logical::drop_table::operation::drop_fault;
use crate::logical::guard::{
    guard_requirements, has_guard, lemma_mutations_fault, mutation_fault, mutation_guarded,
    mutation_target,
};
use crate::logical::lowering::mutations_of;
use crate::logical::row::changes::{
    canonical_fault, changed_rows, row_changes_frame, MAX_CAPTURED_CHANGES,
    MAX_ROW_OPERATION_BYTES,
};
use crate::logical::row::laws::lowered_changes_compile;
use crate::logical::row::lower::{changes_lowered, pruned};
use crate::logical::row::sound::budgets_bound_rows_and_bytes;
use crate::logical::schema::lower::{create_emissions, lowered_creations_compile};
use crate::logical::schema::statement::{statement_of, ParsedTexts};
use crate::logical::target::classified;
use crate::logical::user_version::{lowered_user_version_compiles, user_version_emissions};
use crate::logical::view::lower::{lowered_views_compile, view_emissions};
use crate::logical::view::operation::view_fault;
use vstd::prelude::*;

verus! {

/// What an operation emits is within the contract of its family: no operation
/// is refused for what it was lowered to. Added and dropped columns are always
/// refused, and changes of an index are where the mutations that they were given
/// break the contract.
pub proof fn emitted_operations_compile(op: OpView, parsed: ParsedTexts)
    requires
        emitted(op, parsed) is Ok,
        op matches OpView::AlterTable(altered) ==> altered.delta is RenameTable
            || altered.delta is RenameColumn,
        !(op is Index),
    ensures
        lowered(op, parsed) == emitted(op, parsed),
{
    reveal(emitted);
    match op {
        OpView::AlterTable(op) => {
            lowered_renames_compile(op);
        },
        OpView::CreateTable(op) => {
            lowered_creations_compile(op);
        },
        OpView::DropTable(op) => {
            lowered_drops_compile(op);
        },
        OpView::ChangeRows(op) => {
            assert(canonical_fault(op.tables) is None);
            lowered_changes_compile(op);
        },
        OpView::Index(_) => {},
        OpView::SetUserVersion(op) => {
            lowered_user_version_compiles(op);
        },
        OpView::View(op) => {
            lowered_views_compile(op);
        },
    }
}

/// Added and dropped columns never compile: lowering omits a guard that the
/// contract of their family asks for.
pub proof fn column_changes_do_not_compile(op: AlterView, parsed: ParsedTexts)
    requires
        emitted(OpView::AlterTable(op), parsed) is Ok,
        op.delta is AddColumn || op.delta is DropColumn,
    ensures
        lowered(OpView::AlterTable(op), parsed) == Err::<LoweredView, ErrorView>(
            ErrorView::CaptureInvariant(
                if op.delta is AddColumn {
                    "compiler omitted a guard required by a mutation"@
                } else {
                    "compiler omitted a required operation guard"@
                },
            ),
        ),
{
    reveal(emitted);
    if op.delta is AddColumn {
        added_columns_do_not_compile(op);
    } else {
        dropped_columns_do_not_compile(op);
    }
}

/// An operation is lowered only where its statement bears it out, and where its
/// rows are sound and within the limits.
pub proof fn lowered_operations_are_borne_out(op: OpView, parsed: ParsedTexts)
    requires
        lowered(op, parsed) is Ok,
    ensures
        match op {
            OpView::AlterTable(op) => alter_fault(op, statement_of(parsed, op.sql)) is None,
            OpView::DropTable(op) => drop_fault(op, statement_of(parsed, op.sql)) is None,
            OpView::View(op) => view_fault(op, statement_of(parsed, op.create_sql)) is None,
            OpView::ChangeRows(op) => canonical_fault(op.tables) is None && changed_rows(op.tables)
                <= MAX_CAPTURED_CHANGES && row_changes_frame(op).len() <= MAX_ROW_OPERATION_BYTES,
            _ => true,
        },
{
    reveal(emitted);
    if let OpView::ChangeRows(op) = op {
        budgets_bound_rows_and_bytes(
            op,
            MAX_CAPTURED_CHANGES as nat,
            MAX_ROW_OPERATION_BYTES as nat,
        );
    }
}

/// An operation is lowered to the mutations that carry it out: what they leave
/// of a key space is what its emissions leave there, and for changes of rows what
/// is left of these without redundant deletions.
pub proof fn lowered_operations_carry_themselves_out(op: OpView, parsed: ParsedTexts)
    requires
        lowered(op, parsed) is Ok,
    ensures
        match op {
            OpView::AlterTable(op) => lowered(OpView::AlterTable(op), parsed)->Ok_0.mutations
                == mutations_of(alter_emissions(op)),
            OpView::CreateTable(op) => lowered(OpView::CreateTable(op), parsed)->Ok_0.mutations
                == mutations_of(create_emissions(op)),
            OpView::DropTable(op) => lowered(OpView::DropTable(op), parsed)->Ok_0.mutations
                == mutations_of(drop_table_emissions(op)),
            OpView::ChangeRows(op) => changes_lowered(op) is Ok && lowered(
                OpView::ChangeRows(op),
                parsed,
            )->Ok_0.mutations == pruned(mutations_of(changes_lowered(op)->Ok_0)),
            OpView::Index(op) => lowered(OpView::Index(op), parsed)->Ok_0.mutations == op.mutations,
            OpView::SetUserVersion(op) => lowered(
                OpView::SetUserVersion(op),
                parsed,
            )->Ok_0.mutations == mutations_of(user_version_emissions(op)),
            OpView::View(op) => lowered(OpView::View(op), parsed)->Ok_0.mutations == mutations_of(
                view_emissions(op),
            ),
        },
{
    reveal(emitted);
}

/// Every mutation of a lowered operation is one that its family may make, on a
/// key that is known, and every guard that it calls for is set on that very key.
pub proof fn lowered_mutations_are_permitted_and_guarded(
    op: OpView,
    parsed: ParsedTexts,
    i: int,
    class: GuardClass,
    reason: GuardReason,
)
    requires
        lowered(op, parsed) is Ok,
        0 <= i < lowered(op, parsed)->Ok_0.mutations.len(),
    ensures
        ({
            let done = lowered(op, parsed)->Ok_0;
            &&& mutation_target(done.mutations[i]) is Some
            &&& mutation_target(done.mutations[i]) matches Some((kind, key)) ==> {
                &&& classified(key) matches Some(target) && permits_mutation(
                    operation_family(op),
                    kind,
                    target,
                ) && (calls_for(operation_family(op), kind, target, class, reason) ==> exists|
                    g: int,
                |
                    0 <= g < done.guards.entries.len() && (
                    #[trigger] done.guards.entries[g]).target == key
                        && done.guards.entries[g].class == class
                        && done.guards.entries[g].reason == reason)
            }
        }),
{
    let done = lowered(op, parsed)->Ok_0;
    let family = operation_family(op);
    lemma_mutations_fault(family, done.mutations);
    assert(mutation_fault(family, done.mutations[i]) is None);
    assert(mutation_guarded(family, done.mutations[i], done.guards.entries));
    if let Some((kind, key)) = mutation_target(done.mutations[i]) {
        let target = classified(key)->Some_0;
        let needs = guard_requirements(family, kind, target);
        if needs.contains((class, reason)) {
            let j = choose|j: int| 0 <= j < needs.len() && needs[j] == (class, reason);
            assert(has_guard(done.guards.entries, key, needs[j].0, needs[j].1));
        }
    }
}

} // verus!
