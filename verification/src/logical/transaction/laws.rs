//! What holds of every transaction.

use super::codec::{
    operations_fit, transaction_decoded, transaction_roundtrip, transaction_sound,
    transaction_start, transaction_step, transaction_steps, TransactionErrorView, TransactionState,
    TransactionView, MAX_TRANSACTION_FRAME_BYTES, MAX_TRANSACTION_OPERATIONS,
};
use super::compile::{
    joined_guards, lowering, manifest, manifest_frame, operations_lowered, raised,
    transaction_lowered,
};
use crate::attempt::lemma_try_map_ok;
use crate::bytes::{fits, lemma_run_bounded, run_fields};
use crate::error::ErrorView;
use crate::footprint::topmost;
use crate::identity::random_uuid;
use crate::key::{MutationView, Path};
use crate::logical::contract::{permits_guard, GuardClass, OperationFamily};
use crate::logical::guard::{class_targets, entries_footprint, GuardView};
use crate::logical::index::{index_sound, indexes_closed, IndexOpView};
use crate::logical::isolation::IsolationLevel;
use crate::logical::lowering::{guards_of, Emission};
use crate::logical::operation::codec::{operation_shrinks, operation_valid, OpView};
use crate::logical::operation::compile::{emitted, lowered, LoweredView};
use crate::logical::schema::statement::ParsedTexts;
use vstd::prelude::*;

verus! {

/// Whether known fields of a transaction are sound and can be written again.
spec fn state_sound(
    s: TransactionState,
    parsed: ParsedTexts,
    indexes: Seq<(Seq<u8>, std::result::Result<IndexOpView, Seq<char>>)>,
) -> bool {
    &&& operations_fit(s.operations)
    &&& forall|i: int|
        0 <= i < s.operations.len() ==> operation_valid(#[trigger] s.operations[i], parsed, indexes)
    &&& s.id matches Some(id) ==> random_uuid(id)
}

/// One more field keeps known fields sound.
proof fn lemma_step_sound(
    s: TransactionState,
    tag: u8,
    payload: Seq<u8>,
    parsed: ParsedTexts,
    indexes: Seq<(Seq<u8>, std::result::Result<IndexOpView, Seq<char>>)>,
    max_operations: usize,
)
    requires
        indexes_closed(indexes),
        state_sound(s, parsed, indexes),
    ensures
        transaction_step(s, tag, payload, parsed, indexes, max_operations) matches Ok(next) ==> state_sound(
            next,
            parsed,
            indexes,
        ),
{
    operation_shrinks(payload, parsed, indexes);
}

/// A decoded transaction is sound, and every operation of it can be written
/// again.
pub proof fn lemma_decoded_fit(
    b: Seq<u8>,
    parsed: ParsedTexts,
    indexes: Seq<(Seq<u8>, std::result::Result<IndexOpView, Seq<char>>)>,
    max_operations: usize,
    max_bytes: usize,
)
    requires
        indexes_closed(indexes),
    ensures
        transaction_decoded(b, parsed, indexes, max_operations, max_bytes) matches Ok(transaction) ==> {
            &&& transaction_sound(transaction)
            &&& operations_fit(transaction.operations)
            &&& forall|i: int|
                0 <= i < transaction.operations.len() ==> operation_valid(
                    #[trigger] transaction.operations[i],
                    parsed,
                    indexes,
                )
        },
{
    reveal(transaction_decoded);
    if transaction_decoded(b, parsed, indexes, max_operations, max_bytes) is Ok {
        let body = b.subrange(1, b.len() as int);
        let good = |s: TransactionState| state_sound(s, parsed, indexes);
        let size = |s: TransactionState| 0nat;
        let step = transaction_steps(parsed, indexes, max_operations);
        let s0 = transaction_start();
        assert forall|s: TransactionState, tag: u8, payload: Seq<u8>|
            good(s) && fits(payload) && (#[trigger] step(s, tag, payload)) is Ok implies good(
            step(s, tag, payload)->Ok_0,
        ) && size(step(s, tag, payload)->Ok_0) <= size(s) + 5 + payload.len() by {
            lemma_step_sound(s, tag, payload, parsed, indexes, max_operations);
        }
        lemma_run_bounded(s0, body, step, good, size, TransactionErrorView::Truncated);
        let end = run_fields(s0, body, step, TransactionErrorView::Truncated)->Ok_0;
        assert(state_sound(end, parsed, indexes));
    }
}

/// The batch that a transaction is lowered to is read back as that transaction.
pub proof fn lowered_transactions_are_read_back(
    transaction: TransactionView,
    parsed: ParsedTexts,
    indexes: Seq<(Seq<u8>, std::result::Result<IndexOpView, Seq<char>>)>,
)
    requires
        transaction_sound(transaction),
        operations_fit(transaction.operations),
        forall|i: int|
            0 <= i < transaction.operations.len() ==> operation_valid(
                #[trigger] transaction.operations[i],
                parsed,
                indexes,
            ),
        transaction_lowered(transaction, parsed) is Ok,
    ensures
        raised(transaction_lowered(transaction, parsed)->Ok_0.mutations, parsed, indexes) == Ok::<
            TransactionView,
            TransactionErrorView,
        >(transaction),
{
    transaction_roundtrip(
        transaction,
        parsed,
        indexes,
        MAX_TRANSACTION_OPERATIONS,
        MAX_TRANSACTION_FRAME_BYTES,
    );
    let frame = manifest_frame(transaction)->Ok_0;
    let mutations = transaction_lowered(transaction, parsed)->Ok_0.mutations;
    assert(mutations[0] == manifest(transaction.id, frame));
}

/// A batch that is read as a transaction is exactly what that transaction is
/// lowered to: nothing is missing, added, changed, or moved.
pub proof fn read_batches_are_exact(
    mutations: Seq<MutationView>,
    parsed: ParsedTexts,
    indexes: Seq<(Seq<u8>, std::result::Result<IndexOpView, Seq<char>>)>,
)
    requires
        raised(mutations, parsed, indexes) is Ok,
    ensures
        transaction_lowered(raised(mutations, parsed, indexes)->Ok_0, parsed) is Ok,
        transaction_lowered(raised(mutations, parsed, indexes)->Ok_0, parsed)->Ok_0.mutations == mutations,
{
}

/// Whether no guard counts only under serializable isolation.
pub open spec fn mandatory(entries: Seq<GuardView>) -> bool {
    forall|i: int| 0 <= i < entries.len() ==> (#[trigger] entries[i]).class
        != GuardClass::SerializableRead
}

/// Emitted guards are mandatory or guard writes.
proof fn lemma_guards_mandatory(operation: OperationFamily, emissions: Seq<Emission>)
    ensures
        mandatory(guards_of(operation, emissions)),
    decreases emissions.len(),
{
    if emissions.len() > 0 {
        lemma_guards_mandatory(operation, emissions.drop_last());
    }
}

/// The guards of an operation are mandatory or guard writes.
proof fn lemma_lowered_mandatory(op: OpView, parsed: ParsedTexts)
    requires
        op matches OpView::Index(changed) ==> index_sound(changed),
    ensures
        lowered(op, parsed) matches Ok(lowered) ==> mandatory(lowered.guards.entries),
{
    reveal(emitted);
    if let Ok(done) = lowered(op, parsed) {
        match op {
            OpView::AlterTable(op) => {
                lemma_guards_mandatory(
                    crate::logical::alter::lower::alter_family(op.delta),
                    crate::logical::alter::lower::alter_emissions(op),
                );
            },
            OpView::CreateTable(op) => {
                lemma_guards_mandatory(
                    OperationFamily::CreateTable,
                    crate::logical::schema::lower::create_emissions(op),
                );
            },
            OpView::DropTable(op) => {
                lemma_guards_mandatory(
                    OperationFamily::DropTable,
                    crate::logical::drop_table::lower::drop_table_emissions(op),
                );
            },
            OpView::ChangeRows(op) => {
                lemma_guards_mandatory(
                    OperationFamily::RowChanges,
                    crate::logical::row::lower::changes_lowered(op)->Ok_0,
                );
            },
            OpView::Index(op) => {
                assert forall|i: int| 0 <= i < op.guards.entries.len() implies (
                #[trigger] op.guards.entries[i]).class != GuardClass::SerializableRead by {
                    assert(permits_guard(
                        op.family,
                        op.guards.entries[i].class,
                        op.guards.entries[i].reason,
                        op.guards.entries[i].family,
                    ));
                }
            },
            OpView::SetUserVersion(op) => {
                lemma_guards_mandatory(
                    OperationFamily::SetUserVersion,
                    crate::logical::user_version::user_version_emissions(op),
                );
            },
            OpView::View(op) => {
                lemma_guards_mandatory(
                    crate::logical::view::lower::view_family(op.action),
                    crate::logical::view::lower::view_emissions(op),
                );
            },
        }
    }
}

/// The guards of operations are mandatory or guard writes.
proof fn lemma_joined_mandatory(operations: Seq<LoweredView>)
    requires
        forall|i: int|
            0 <= i < operations.len() ==> mandatory((#[trigger] operations[i]).guards.entries),
    ensures
        mandatory(joined_guards(operations)),
    decreases operations.len(),
{
    if operations.len() > 0 {
        let rest = operations.drop_last();
        assert forall|i: int| 0 <= i < rest.len() implies mandatory(
            (#[trigger] rest[i]).guards.entries,
        ) by {
            assert(rest[i] == operations[i]);
        }
        lemma_joined_mandatory(rest);
        let last = operations[operations.len() - 1];
        assert(mandatory(last.guards.entries));
    }
}

/// A transaction asks the same of the authority at both isolation levels: its
/// operations read nothing beyond what they depend on in any case.
pub proof fn transactions_plan_identically_at_both_levels(
    transaction: TransactionView,
    parsed: ParsedTexts,
)
    requires
        forall|i: int|
            0 <= i < transaction.operations.len() ==> ((
            #[trigger] transaction.operations[i]) matches OpView::Index(changed) ==> index_sound(
                changed,
            )),
        transaction_lowered(transaction, parsed) is Ok,
    ensures
        ({
            let footprint = entries_footprint(
                transaction_lowered(transaction, parsed)->Ok_0.guards.entries,
            );
            footprint.asserted(IsolationLevel::Snapshot) == footprint.asserted(
                IsolationLevel::Serializable,
            )
        }),
{
    let operations = operations_lowered(transaction.operations, parsed)->Ok_0;
    lemma_try_map_ok(transaction.operations, lowering(parsed));
    assert forall|i: int| 0 <= i < operations.len() implies mandatory(
        (#[trigger] operations[i]).guards.entries,
    ) by {
        lemma_lowered_mandatory(transaction.operations[i], parsed);
        assert(lowering(parsed)(transaction.operations[i]) == Ok::<LoweredView, ErrorView>(
            operations[i],
        ));
    }
    lemma_joined_mandatory(operations);
    let entries = joined_guards(operations);
    let reads = class_targets(entries, GuardClass::SerializableRead);
    assert(reads =~= Set::<Path>::empty());
    assert(topmost(reads) =~= Set::<Path>::empty());
    let footprint = entries_footprint(entries);
    assert(footprint.asserted(IsolationLevel::Serializable) =~= footprint.asserted(
        IsolationLevel::Snapshot,
    ));
}

} // verus!
