//! Laws on lowered transactions: what their operations contribute.

use super::codec::{
    first_operations, transaction_decoded, transaction_encoded, TransactionView,
};
use super::compile::{
    enveloped, joined_guards, joined_mutations, lowering, manifest, manifest_frame,
    operations_lowered, rejections, repairs, transaction_lowered,
};
use crate::attempt::lemma_try_map_ok;
use crate::error::ErrorView;
use crate::key::{MutationView, Path};
use crate::logical::guard::GuardView;
use crate::logical::index::IndexOpView;
use crate::logical::layout::transaction_path;
use crate::logical::operation::codec::OpView;
use crate::logical::operation::compile::{
    lowered, rejection_of, repair_of, LoweredView,
};
use crate::logical::schema::statement::ParsedTexts;
use crate::logical::space::{held, lemma_held_concat, performed, Space};
use vstd::prelude::*;

verus! {

/// The mutations of operations, one list behind the other.
proof fn lemma_joined(operations: Seq<LoweredView>, o: int, m: MutationView, g: GuardView)
    requires
        0 <= o < operations.len(),
    ensures
        operations[o].mutations.contains(m) ==> joined_mutations(operations).contains(m),
        operations[o].guards.entries.contains(g) ==> joined_guards(operations).contains(g),
    decreases operations.len(),
{
    let init = operations.drop_last();
    let last = operations.last();
    let a = joined_mutations(init);
    let b = joined_guards(init);
    if o < init.len() {
        assert(init[o] == operations[o]);
        lemma_joined(init, o, m, g);
        if a.contains(m) {
            let k = choose|k: int| 0 <= k < a.len() && a[k] == m;
            assert((a + last.mutations)[k] == m);
        }
        if b.contains(g) {
            let k = choose|k: int| 0 <= k < b.len() && b[k] == g;
            assert((b + last.guards.entries)[k] == g);
        }
    } else {
        if last.mutations.contains(m) {
            let k = choose|k: int| 0 <= k < last.mutations.len() && last.mutations[k] == m;
            assert((a + last.mutations)[a.len() + k] == m);
        }
        if last.guards.entries.contains(g) {
            let k = choose|k: int|
                0 <= k < last.guards.entries.len() && last.guards.entries[k] == g;
            assert((b + last.guards.entries)[b.len() + k] == g);
        }
    }
}

/// What joined lists hold is held by one of them.
proof fn lemma_joined_from(operations: Seq<LoweredView>, g: GuardView)
    requires
        joined_guards(operations).contains(g),
    ensures
        exists|o: int|
            0 <= o < operations.len() && (#[trigger] operations[o]).guards.entries.contains(g),
    decreases operations.len(),
{
    let init = operations.drop_last();
    let last = operations.last();
    let b = joined_guards(init);
    let all = b + last.guards.entries;
    let k = choose|k: int| 0 <= k < all.len() && all[k] == g;
    if k < b.len() {
        assert(b[k] == g);
        lemma_joined_from(init, g);
        let o = choose|o: int|
            0 <= o < init.len() && (#[trigger] init[o]).guards.entries.contains(g);
        assert(operations[o] == init[o]);
    } else {
        assert(last.guards.entries[k - b.len()] == g);
        assert(operations[operations.len() - 1].guards.entries.contains(g));
    }
}

/// A lowered transaction begins with its manifest, under its identity, and has
/// every mutation and every guard of each of its operations, and no guard else.
pub proof fn transactions_hold_their_operations(
    transaction: TransactionView,
    parsed: ParsedTexts,
    o: int,
    mutation: MutationView,
    guard: GuardView,
)
    requires
        transaction_lowered(transaction, parsed) is Ok,
        0 <= o < transaction.operations.len(),
    ensures
        ({
            let whole = transaction_lowered(transaction, parsed)->Ok_0;
            let part = lowered(transaction.operations[o], parsed);
            &&& manifest_frame(transaction) matches Ok(frame) && whole.mutations[0]
                == (MutationView::Put { key: transaction_path(transaction.id), value: frame })
            &&& part is Ok
            &&& part->Ok_0.mutations.contains(mutation) ==> whole.mutations.contains(mutation)
            &&& part->Ok_0.guards.entries.contains(guard) ==> whole.guards.entries.contains(guard)
            &&& whole.guards.entries.contains(guard) ==> exists|p: int|
                0 <= p < transaction.operations.len() && lowered(
                    #[trigger] transaction.operations[p],
                    parsed,
                )->Ok_0.guards.entries.contains(guard)
        }),
{
    let f = lowering(parsed);
    let operations = operations_lowered(transaction.operations, parsed)->Ok_0;
    let whole = transaction_lowered(transaction, parsed)->Ok_0;
    let joined = joined_mutations(operations);
    lemma_try_map_ok(transaction.operations, f);
    assert(f(transaction.operations[o]) == Ok::<LoweredView, ErrorView>(operations[o]));
    lemma_joined(operations, o, mutation, guard);
    if joined.contains(mutation) {
        let k = choose|k: int| 0 <= k < joined.len() && joined[k] == mutation;
        assert(whole.mutations[k + 1] == mutation);
    }
    if whole.guards.entries.contains(guard) {
        lemma_joined_from(operations, guard);
        let p = choose|p: int|
            0 <= p < operations.len() && (#[trigger] operations[p]).guards.entries.contains(guard);
        assert(f(transaction.operations[p]) == Ok::<LoweredView, ErrorView>(operations[p]));
        assert(lowered(transaction.operations[p], parsed)->Ok_0.guards.entries.contains(guard));
    }
}

/// Operations are carried out in turn behind the manifest: what one more
/// operation leaves is what its mutations leave of what was left before it.
pub proof fn operations_are_carried_out_in_turn(
    id: Seq<u8>,
    frame: Seq<u8>,
    operations: Seq<LoweredView>,
    operation: LoweredView,
    space: Space,
    key: Path,
)
    ensures
        performed(space, enveloped(id, frame, operations.push(operation)).mutations)(key)
            == performed(
            performed(space, enveloped(id, frame, operations).mutations),
            operation.mutations,
        )(key),
        performed(space, enveloped(id, frame, Seq::empty()).mutations)(key) == (if key
            == transaction_path(id) {
            Some(frame)
        } else {
            space(key)
        }),
{
    let more = operations.push(operation);
    let first = enveloped(id, frame, operations).mutations;
    assert(more.drop_last() =~= operations);
    assert(more.last() == operation);
    assert(enveloped(id, frame, more).mutations =~= first + operation.mutations);
    lemma_held_concat(space, first, operation.mutations, key);
    let alone = enveloped(id, frame, Seq::empty()).mutations;
    assert(alone =~= seq![manifest(id, frame)]);
    assert(alone.drop_last() =~= Seq::<MutationView>::empty());
    reveal_with_fuel(held, 2);
}

/// Operations are undone the last one first, each as itself.
pub proof fn operations_are_undone_backwards(operations: Seq<OpView>, o: int)
    requires
        0 <= o < operations.len(),
    ensures
        rejections(operations).len() == operations.len(),
        rejections(operations)[operations.len() - 1 - o] == rejection_of(operations[o]),
{
}

/// Different operations are undone differently: what undoes an operation holds
/// all of it.
pub proof fn undoing_holds_the_whole_operation(a: OpView, b: OpView)
    ensures
        rejection_of(a) == rejection_of(b) <==> a == b,
{
}

/// The operations that destroy stored values, and they alone, keep them in a
/// sidecar under their own identity: dropped tables and dropped columns.
pub proof fn destructive_operations_are_repaired(operations: Seq<OpView>, id: Seq<u8>)
    ensures
        repairs(operations).contains(id) <==> exists|o: int|
            0 <= o < operations.len() && match #[trigger] operations[o] {
                OpView::DropTable(op) => op.mutation_id == id,
                OpView::AlterTable(op) => op.delta is DropColumn && op.mutation_id == id,
                _ => false,
            },
    decreases operations.len(),
{
    if operations.len() > 0 {
        let init = operations.drop_last();
        let last = operations.last();
        let before = repairs(init);
        let all = repairs(operations);
        destructive_operations_are_repaired(init, id);
        assert(operations[operations.len() - 1] == last);
        if all.contains(id) {
            let k = choose|k: int| 0 <= k < all.len() && all[k] == id;
            if k < before.len() {
                assert(before[k] == id);
                let o = choose|o: int|
                    0 <= o < init.len() && match #[trigger] init[o] {
                        OpView::DropTable(op) => op.mutation_id == id,
                        OpView::AlterTable(op) => op.delta is DropColumn && op.mutation_id == id,
                        _ => false,
                    };
                assert(operations[o] == init[o]);
            }
        }
        if before.contains(id) {
            let k = choose|k: int| 0 <= k < before.len() && before[k] == id;
            assert(all[k] == id);
        }
        if repair_of(last) == Some(id) {
            assert(all[before.len() as int] == id);
        }
        if exists|o: int|
            0 <= o < operations.len() && match #[trigger] operations[o] {
                OpView::DropTable(op) => op.mutation_id == id,
                OpView::AlterTable(op) => op.delta is DropColumn && op.mutation_id == id,
                _ => false,
            } {
            let o = choose|o: int|
                0 <= o < operations.len() && match #[trigger] operations[o] {
                    OpView::DropTable(op) => op.mutation_id == id,
                    OpView::AlterTable(op) => op.delta is DropColumn && op.mutation_id == id,
                    _ => false,
                };
            if o < init.len() {
                assert(init[o] == operations[o]);
            }
        }
    }
}

/// A transaction has a manifest only where it has no more operations than the
/// limit, and no manifest is longer than the limit.
pub proof fn manifests_stay_within_their_limits(
    transaction: TransactionView,
    max_operations: usize,
    max_bytes: usize,
)
    requires
        transaction.operations.len() > 0,
    ensures
        transaction_encoded(transaction, max_operations, max_bytes) matches Ok(frame)
            ==> transaction.operations.len() <= max_operations && frame.len() <= max_bytes,
        transaction.operations.len() > max_operations ==> transaction_encoded(
            transaction,
            max_operations,
            max_bytes,
        ) is Err,
{
    let n = transaction.operations.len() as int;
    assert(transaction.operations.subrange(0, n) =~= transaction.operations);
    assert(first_operations(transaction, n) =~= transaction);
}

/// A manifest that is longer than the limit is refused.
pub proof fn long_manifests_are_refused(
    b: Seq<u8>,
    parsed: ParsedTexts,
    indexes: Seq<(Seq<u8>, std::result::Result<IndexOpView, Seq<char>>)>,
    max_operations: usize,
    max_bytes: usize,
)
    ensures
        transaction_decoded(b, parsed, indexes, max_operations, max_bytes) is Ok ==> b.len()
            <= max_bytes,
{
    reveal(transaction_decoded);
}

} // verus!
