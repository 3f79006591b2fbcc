//! What a transaction is lowered to, and how it is undone.

use super::codec::{
    operations_fit, transaction_decoded, transaction_encoded, transaction_error_text,
    transaction_outcome, MultiliteTransaction, TransactionCodecError, TransactionErrorView,
    TransactionView, MAX_TRANSACTION_FRAME_BYTES, MAX_TRANSACTION_OPERATIONS,
};
use crate::attempt::{
    lemma_try_fold_start, lemma_try_fold_step, lemma_try_fold_stop, map_step, try_fold, try_map,
};
use crate::codec::views;
use crate::each::reversed;
use crate::error::{error_text, verdict, Error, ErrorView, Result};
use crate::footprint::{asserted_paths, ascending, topmost, AdmissionSeq, ConflictFootprint, RangeAssert};
use crate::identity::{fresh_uuid, random_uuid};
use crate::key::{mutations_view, same_mutations, Mutation, MutationView};
use crate::logical::contract::OperationFamily;
use crate::logical::guard::{
    entries_footprint, lemma_mutations_fault, mutation_fault, mutations_fault, validate_mutations,
    GuardPlan, GuardView, PlanView,
};
use crate::logical::index::{IndexOpView, Indexes};
use crate::logical::isolation::IsolationLevel;
use crate::logical::layout::{lemma_transaction_family, transaction_log_key, transaction_path};
use crate::logical::operation::codec::{operation_fits, MultiliteOp, OpView};
use crate::logical::operation::compile::{
    lowered, rejection_of, repair_of, CompiledOperation, LoweredView, RejectionEffect,
    RejectionView,
};
use crate::logical::schema::statement::{ParsedTexts, Statements};
use vstd::prelude::*;

verus! {

/// The mutations of operations, in order.
pub open spec fn joined_mutations(operations: Seq<LoweredView>) -> Seq<MutationView>
    decreases operations.len(),
{
    if operations.len() == 0 {
        Seq::empty()
    } else {
        joined_mutations(operations.drop_last()) + operations.last().mutations
    }
}

/// The guards of operations, in order.
pub open spec fn joined_guards(operations: Seq<LoweredView>) -> Seq<GuardView>
    decreases operations.len(),
{
    if operations.len() == 0 {
        Seq::empty()
    } else {
        joined_guards(operations.drop_last()) + operations.last().guards.entries
    }
}

/// The mutation that records a transaction's manifest.
pub open spec fn manifest(id: Seq<u8>, frame: Seq<u8>) -> MutationView {
    MutationView::Put { key: transaction_path(id), value: frame }
}

/// A transaction's manifest, followed by what its operations are lowered to. The
/// merged plan belongs to no single family.
pub open spec fn enveloped(id: Seq<u8>, frame: Seq<u8>, operations: Seq<LoweredView>) -> LoweredView {
    LoweredView {
        mutations: seq![manifest(id, frame)] + joined_mutations(operations),
        guards: PlanView { operation: None, entries: joined_guards(operations) },
    }
}

/// What each operation is lowered to.
pub open spec fn lowering(parsed: ParsedTexts) -> spec_fn(
    OpView,
) -> std::result::Result<LoweredView, ErrorView> {
    |op: OpView| lowered(op, parsed)
}

/// What operations are lowered to, or the first failure.
pub open spec fn operations_lowered(
    operations: Seq<OpView>,
    parsed: ParsedTexts,
) -> std::result::Result<Seq<LoweredView>, ErrorView> {
    try_map(operations, lowering(parsed))
}

/// The manifest of a transaction within the limits of every manifest.
pub open spec fn manifest_frame(transaction: TransactionView) -> std::result::Result<
    Seq<u8>,
    ErrorView,
> {
    transaction_encoded(transaction, MAX_TRANSACTION_OPERATIONS, MAX_TRANSACTION_FRAME_BYTES)
}

/// What a transaction is lowered to.
pub open spec fn transaction_lowered(
    transaction: TransactionView,
    parsed: ParsedTexts,
) -> std::result::Result<LoweredView, ErrorView> {
    match manifest_frame(transaction) {
        Err(error) => Err(error),
        Ok(frame) => match operations_lowered(transaction.operations, parsed) {
            Err(error) => Err(error),
            Ok(operations) => Ok(enveloped(transaction.id, frame, operations)),
        },
    }
}

/// How operations are undone: the last one first.
pub open spec fn rejections(operations: Seq<OpView>) -> Seq<RejectionView> {
    operations.map_values(|op: OpView| rejection_of(op)).reverse()
}

/// Mutations of one transaction, the guards that they depend on, and the
/// footprint of the guards.
#[derive(Debug, PartialEq, Eq)]
pub struct HomebaseTransaction {
    mutations: Vec<Mutation>,
    footprint: ConflictFootprint,
    guards: GuardPlan,
}

impl View for HomebaseTransaction {
    type V = LoweredView;

    closed spec fn view(&self) -> LoweredView {
        LoweredView { mutations: mutations_view(self.mutations@), guards: self.guards@ }
    }
}

impl HomebaseTransaction {
    #[verifier::type_invariant]
    spec fn well_formed(self) -> bool {
        self.footprint@ == entries_footprint(self.guards@.entries)
    }

    /// The mutations and the footprint.
    pub fn into_parts(self) -> (r: (Vec<Mutation>, ConflictFootprint))
        ensures
            mutations_view(r.0@) == self@.mutations,
            r.1@ == entries_footprint(self@.guards.entries),
    {
        proof {
            use_type_invariant(&self);
        }
        (self.mutations, self.footprint)
    }

    /// The mutations: the manifest, then those of the operations.
    pub fn mutations(&self) -> (r: &[Mutation])
        ensures
            mutations_view(r@) == self@.mutations,
    {
        self.mutations.as_slice()
    }

    /// The footprint of the guards.
    pub fn footprint(&self) -> (r: &ConflictFootprint)
        ensures
            r@ == entries_footprint(self@.guards.entries),
    {
        proof {
            use_type_invariant(self);
        }
        &self.footprint
    }

    /// The guards of the operations, in order.
    pub fn guards(&self) -> (r: &GuardPlan)
        ensures
            r@ == self@.guards,
    {
        &self.guards
    }

    /// The mutations, and the assertions that an isolation level asks of the
    /// authority up to an admission.
    pub fn plan(self, isolation: IsolationLevel, upto: AdmissionSeq) -> (r: (
        Vec<Mutation>,
        Vec<RangeAssert>,
    ))
        ensures
            mutations_view(r.0@) == self@.mutations,
            forall|i: int|
                0 <= i < r.1@.len() ==> (#[trigger] r.1@[i]).upto == upto
                    && r.1@[i].range is Prefix,
            ascending(asserted_paths(r.1@)),
            asserted_paths(r.1@).to_set() == topmost(
                entries_footprint(self@.guards.entries).asserted(isolation),
            ),
    {
        proof {
            use_type_invariant(&self);
        }
        let assertions = self.footprint.plan(isolation, upto);
        (self.mutations, assertions)
    }
}

/// One transaction with its single lowering and how it is undone.
#[derive(Debug, PartialEq, Eq)]
pub struct CompiledTransaction {
    logical: MultiliteTransaction,
    homebase: HomebaseTransaction,
    rejection: Vec<RejectionEffect>,
}

impl CompiledTransaction {
    /// The transaction.
    pub closed spec fn transaction(&self) -> TransactionView {
        self.logical@
    }

    /// What the transaction is lowered to.
    pub closed spec fn lowering(&self) -> LoweredView {
        self.homebase@
    }

    /// How the transaction is undone, in order.
    pub closed spec fn inverses(&self) -> Seq<RejectionView> {
        views(self.rejection@)
    }

    /// The transaction.
    pub fn logical(&self) -> (r: &MultiliteTransaction)
        ensures
            r@ == self.transaction(),
    {
        &self.logical
    }

    /// What the transaction is lowered to.
    pub fn homebase(&self) -> (r: &HomebaseTransaction)
        ensures
            r@ == self.lowering(),
    {
        &self.homebase
    }

    /// How the transaction is undone, in order.
    pub fn rejection(&self) -> (r: &[RejectionEffect])
        ensures
            views(r@) == self.inverses(),
    {
        self.rejection.as_slice()
    }
}

/// The manifest is within the contract of its envelope.
proof fn lemma_manifest(id: Seq<u8>, frame: Seq<u8>)
    ensures
        mutations_fault(OperationFamily::TransactionEnvelope, seq![manifest(id, frame)]) is None,
{
    lemma_transaction_family(id);
    let mutations = seq![manifest(id, frame)];
    assert(mutation_fault(OperationFamily::TransactionEnvelope, mutations[0]) is None);
    lemma_mutations_fault(OperationFamily::TransactionEnvelope, mutations);
}

/// The mutation that records a manifest, alone in a list.
fn record(id: [u8; 16], frame: Vec<u8>) -> (r: Result<Vec<Mutation>>)
    ensures
        r is Ok,
        mutations_view(r->Ok_0@) == seq![manifest(id@, frame@)],
{
    let ghost value = frame@;
    let mut mutations: Vec<Mutation> = Vec::new();
    mutations.push(Mutation::Put { key: transaction_log_key(id), value: frame });
    proof {
        assert(mutations_view(mutations@) =~= seq![manifest(id@, value)]);
        lemma_manifest(id@, value);
    }
    match validate_mutations(OperationFamily::TransactionEnvelope, mutations.as_slice()) {
        Err(error) => Err(error),
        Ok(()) => Ok(mutations),
    }
}

/// Mutations behind each other.
proof fn lemma_mutations_append(a: Seq<Mutation>, b: Seq<Mutation>)
    ensures
        mutations_view(a + b) == mutations_view(a) + mutations_view(b),
{
    assert(mutations_view(a + b) =~= mutations_view(a) + mutations_view(b));
}

impl MultiliteTransaction {
    /// Lower the manifest, followed by what every operation is lowered to.
    pub fn to_homebase(&self, statements: &Statements) -> (r: Result<HomebaseTransaction>)
        requires
            operations_fit(self@.operations),
        ensures
            verdict(r) == transaction_lowered(self@, statements@),
    {
        let frame = match self.encode() {
            Err(error) => {
                return Err(error);
            },
            Ok(frame) => frame,
        };
        let ghost bytes = frame@;
        let mutations = match record(self.id(), frame) {
            Err(error) => {
                return Err(error);
            },
            Ok(mutations) => mutations,
        };
        let mut mutations = mutations;
        let mut guards = GuardPlan::merged();
        let operations = self.operations();
        let ghost all = self@.operations;
        let ghost f = lowering(statements@);
        let ghost none = Seq::<LoweredView>::empty();
        let ghost mut done = none;
        let ghost first = seq![manifest(self@.id, bytes)];
        let mut i: usize = 0;
        proof {
            lemma_try_fold_start(none, all, map_step(f));
            assert(first + joined_mutations(done) =~= first);
        }
        while i < operations.len()
            invariant
                i <= operations@.len(),
                all == self@.operations,
                all == views(operations@),
                operations_fit(all),
                f == lowering(statements@),
                none == Seq::<LoweredView>::empty(),
                manifest_frame(self@) == Ok::<Seq<u8>, ErrorView>(bytes),
                try_fold(none, all.subrange(0, i as int), map_step(f)) == Ok::<
                    Seq<LoweredView>,
                    ErrorView,
                >(done),
                mutations_view(mutations@) == first + joined_mutations(done),
                guards@.operation is None,
                guards@.entries == joined_guards(done),
            decreases operations.len() - i,
        {
            proof {
                assert(all[i as int] == operations@[i as int]@);
                assert(operation_fits(all[i as int]));
                lemma_try_fold_step(none, all, i as int, map_step(f));
                if try_fold(none, all.subrange(0, i as int + 1), map_step(f)) is Err {
                    lemma_try_fold_stop(none, all, i as int + 1, map_step(f));
                }
            }
            let op = match operations[i].to_homebase(statements) {
                Err(error) => {
                    return Err(error);
                },
                Ok(op) => op,
            };
            let ghost view = op@;
            let (more, _footprint, own) = op.into_all_parts();
            let mut more = more;
            let ghost before = mutations@;
            proof {
                lemma_mutations_append(before, more@);
                let next = done.push(view);
                assert(next.drop_last() =~= done);
                done = next;
            }
            mutations.append(&mut more);
            guards.extend(own);
            assert(mutations_view(mutations@) =~= first + joined_mutations(done));
            i += 1;
        }
        assert(all.subrange(0, i as int) =~= all);
        let footprint = guards.footprint();
        let r = HomebaseTransaction { mutations, footprint, guards };
        assert(r@ == enveloped(self@.id, bytes, done));
        Ok(r)
    }

    /// Assemble a transaction of compiled operations.
    pub fn compile_operations(id: [u8; 16], operations: Vec<CompiledOperation>) -> (r: Result<
        CompiledTransaction,
    >)
        requires
            random_uuid(id@),
            operations@.len() > 0,
            operations_fit(compiled_ops(operations@)),
        ensures
            assembled(id@, operations@, r),
    {
        let ghost ops = compiled_ops(operations@);
        let ghost lows = compiled_lowerings(operations@);
        let ghost undo = compiled_inverses(operations@);
        let ghost all = operations@;
        let mut left = reversed(operations);
        let mut logical: Vec<MultiliteOp> = Vec::new();
        let mut changed: Vec<Mutation> = Vec::new();
        let mut guards = GuardPlan::merged();
        let mut rejection: Vec<RejectionEffect> = Vec::new();
        let ghost mut i: int = 0;
        proof {
            assert(views(logical@) =~= ops.subrange(0, 0));
            assert(views(rejection@) =~= undo.subrange(0, 0));
            assert(mutations_view(changed@) =~= joined_mutations(lows.subrange(0, 0)));
            assert(all.subrange(0, all.len() as int) =~= all);
        }
        while left.len() > 0
            invariant
                0 <= i <= all.len(),
                ops == compiled_ops(all),
                lows == compiled_lowerings(all),
                undo == compiled_inverses(all),
                left@ == all.subrange(i, all.len() as int).reverse(),
                views(logical@) == ops.subrange(0, i),
                views(rejection@) == undo.subrange(0, i),
                mutations_view(changed@) == joined_mutations(lows.subrange(0, i)),
                guards@.operation is None,
                guards@.entries == joined_guards(lows.subrange(0, i)),
            decreases left.len(),
        {
            let ghost rest = left@;
            let operation = left.pop().unwrap();
            proof {
                assert(rest.len() == all.len() - i);
                assert(operation == all[i]);
                assert(left@ =~= all.subrange(i + 1, all.len() as int).reverse());
                assert(ops.subrange(0, i + 1) =~= ops.subrange(0, i).push(ops[i]));
                assert(lows.subrange(0, i + 1).drop_last() =~= lows.subrange(0, i));
                assert(undo.subrange(0, i + 1) =~= undo.subrange(0, i).push(undo[i]));
            }
            let (op, homebase, inverse) = operation.into_parts();
            let (more, _footprint, own) = homebase.into_all_parts();
            let mut more = more;
            let ghost before = views(logical@);
            let ghost had = views(rejection@);
            proof {
                lemma_mutations_append(changed@, more@);
            }
            logical.push(op);
            assert(views(logical@) =~= before.push(op@));
            changed.append(&mut more);
            guards.extend(own);
            rejection.push(inverse);
            assert(views(rejection@) =~= had.push(inverse@));
            proof {
                i = i + 1;
            }
        }
        proof {
            assert(all.subrange(i, all.len() as int).reverse().len() == 0);
            assert(ops.subrange(0, i) =~= ops);
            assert(lows.subrange(0, i) =~= lows);
            assert(undo.subrange(0, i) =~= undo);
            assert(views(logical@).len() == logical@.len());
        }
        let rejection = reversed(rejection);
        assert(views(rejection@) =~= undo.reverse());
        let transaction = match MultiliteTransaction::assemble(id, logical) {
            Err(error) => {
                return Err(error);
            },
            Ok(transaction) => transaction,
        };
        let frame = match transaction.encode() {
            Err(error) => {
                return Err(error);
            },
            Ok(frame) => frame,
        };
        let ghost bytes = frame@;
        let mutations = match record(id, frame) {
            Err(error) => {
                return Err(error);
            },
            Ok(mutations) => mutations,
        };
        let mut mutations = mutations;
        proof {
            lemma_mutations_append(mutations@, changed@);
        }
        mutations.append(&mut changed);
        let footprint = guards.footprint();
        let homebase = HomebaseTransaction { mutations, footprint, guards };
        assert(homebase@ == enveloped(id@, bytes, lows));
        Ok(CompiledTransaction { logical: transaction, homebase, rejection })
    }

    /// Mint a transaction of operations that were compiled one by one.
    pub fn from_compiled_operations(operations: Vec<CompiledOperation>) -> (r: Result<
        CompiledTransaction,
    >)
        requires
            operations_fit(compiled_ops(operations@)),
        ensures
            if operations@.len() == 0 {
                r matches Err(error) && error@ == ErrorView::InvalidMultiliteTransaction(
                    "transaction contains no operations"@,
                )
            } else {
                exists|id: Seq<u8>| random_uuid(id) && #[trigger] assembled(id, operations@, r)
            },
    {
        if operations.len() == 0 {
            return Err(
                Error::InvalidMultiliteTransaction("transaction contains no operations".to_owned()),
            );
        }
        let id = fresh_uuid();
        let r = MultiliteTransaction::compile_operations(id, operations);
        assert(random_uuid(id@) && assembled(id@, operations@, r));
        r
    }

    /// Validate and lower the transaction once.
    pub fn compile(self, statements: &Statements) -> (r: Result<CompiledTransaction>)
        requires
            operations_fit(self@.operations),
        ensures
            match r {
                Ok(compiled) => compiled.transaction() == self@ && transaction_lowered(
                    self@,
                    statements@,
                ) == Ok::<LoweredView, ErrorView>(compiled.lowering()) && compiled.inverses()
                    == rejections(self@.operations),
                Err(error) => (match operations_lowered(self@.operations, statements@) {
                    Err(refused) => error@ == refused,
                    Ok(_) => manifest_frame(self@) == Err::<Seq<u8>, ErrorView>(error@),
                }),
            },
    {
        let ghost all = self@.operations;
        let ghost whole = self@;
        let ghost f = lowering(statements@);
        let ghost none = Seq::<LoweredView>::empty();
        let (id, operations) = self.into_parts();
        let ghost items = operations@;
        let mut left = reversed(operations);
        let mut compiled: Vec<CompiledOperation> = Vec::new();
        let ghost mut i: int = 0;
        proof {
            lemma_try_fold_start(none, all, map_step(f));
            assert(compiled_lowerings(compiled@) =~= none);
            assert(compiled_ops(compiled@) =~= all.subrange(0, 0));
            assert(items.subrange(0, items.len() as int) =~= items);
        }
        while left.len() > 0
            invariant
                0 <= i <= all.len(),
                all == views(items),
                operations_fit(all),
                f == lowering(statements@),
                none == Seq::<LoweredView>::empty(),
                left@ == items.subrange(i, items.len() as int).reverse(),
                compiled@.len() == i,
                compiled_ops(compiled@) == all.subrange(0, i),
                forall|j: int|
                    0 <= j < i ==> (#[trigger] compiled@[j]).inverse() == rejection_of(all[j]),
                try_fold(none, all.subrange(0, i), map_step(f)) == Ok::<
                    Seq<LoweredView>,
                    ErrorView,
                >(compiled_lowerings(compiled@)),
                whole == self@,
                all == self@.operations,
            decreases left.len(),
        {
            let ghost rest = left@;
            let operation = left.pop().unwrap();
            proof {
                assert(rest.len() == items.len() - i);
                assert(operation == items[i]);
                assert(operation@ == all[i]);
                assert(operation_fits(all[i]));
                assert(left@ =~= items.subrange(i + 1, items.len() as int).reverse());
                lemma_try_fold_step(none, all, i, map_step(f));
                if try_fold(none, all.subrange(0, i + 1), map_step(f)) is Err {
                    lemma_try_fold_stop(none, all, i + 1, map_step(f));
                }
            }
            match operation.compile(statements) {
                Err(error) => {
                    return Err(error);
                },
                Ok(done) => {
                    let ghost lows = compiled_lowerings(compiled@);
                    let ghost had = compiled_ops(compiled@);
                    compiled.push(done);
                    proof {
                        assert(compiled_lowerings(compiled@) =~= lows.push(done.lowering()));
                        assert(compiled_ops(compiled@) =~= had.push(done.op()));
                        assert(all.subrange(0, i + 1) =~= all.subrange(0, i).push(all[i]));
                        i = i + 1;
                    }
                },
            }
        }
        proof {
            assert(items.subrange(i, items.len() as int).reverse().len() == 0);
            assert(all.subrange(0, i) =~= all);
            assert(compiled_inverses(compiled@) =~= all.map_values(|op: OpView| rejection_of(op)));
        }
        MultiliteTransaction::compile_operations(id, compiled)
    }

    /// The sidecars that must exist while the transaction is pending.
    pub fn repair_ids(&self) -> (r: Vec<[u8; 16]>)
        ensures
            views(r@) == repairs(self@.operations),
    {
        let operations = self.operations();
        let ghost all = self@.operations;
        let mut ids: Vec<[u8; 16]> = Vec::new();
        let mut i: usize = 0;
        assert(views(ids@) =~= repairs(all.subrange(0, 0)));
        while i < operations.len()
            invariant
                i <= operations@.len(),
                all == views(operations@),
                views(ids@) == repairs(all.subrange(0, i as int)),
            decreases operations.len() - i,
        {
            proof {
                assert(all[i as int] == operations@[i as int]@);
                assert(all.subrange(0, i as int + 1).drop_last() =~= all.subrange(0, i as int));
            }
            if let Some(id) = operations[i].repair_id() {
                let ghost before = views(ids@);
                ids.push(id);
                assert(views(ids@) =~= before.push(id@));
            }
            i += 1;
        }
        assert(all.subrange(0, i as int) =~= all);
        ids
    }

    /// Read an admitted batch as the transaction whose manifest it begins with,
    /// and hold every other mutation to it.
    pub fn raise(
        mutations: &[Mutation],
        statements: &Statements,
        indexes: &Indexes,
    ) -> (r: std::result::Result<MultiliteTransaction, TransactionCodecError>)
        ensures
            transaction_outcome(r) == raised(mutations_view(mutations@), statements@, indexes@),
    {
        assert(mutations_view(mutations@).len() == mutations@.len());
        if mutations.len() == 0 {
            return Err(TransactionCodecError::InvalidBatch);
        }
        assert(mutations_view(mutations@)[0] == mutations@[0]@);
        let transaction = match &mutations[0] {
            Mutation::Put { value, .. } => match MultiliteTransaction::decode(
                value.as_slice(),
                statements,
                indexes,
            ) {
                Err(error) => {
                    return Err(error);
                },
                Ok(transaction) => {
                    proof {
                        use_type_invariant(indexes);
                        super::laws::lemma_decoded_fit(
                            value@,
                            statements@,
                            indexes@,
                            MAX_TRANSACTION_OPERATIONS,
                            MAX_TRANSACTION_FRAME_BYTES,
                        );
                    }
                    transaction
                },
            },
            _ => {
                return Err(TransactionCodecError::InvalidBatch);
            },
        };
        let lowered = match transaction.to_homebase(statements) {
            Err(error) => {
                return Err(TransactionCodecError::InvalidOperation(error.text()));
            },
            Ok(lowered) => lowered,
        };
        if !same_mutations(mutations, lowered.mutations()) {
            return Err(TransactionCodecError::InvalidBatch);
        }
        Ok(transaction)
    }

    /// Read an admitted batch as a transaction.
    pub fn from_homebase(
        mutations: &[Mutation],
        statements: &Statements,
        indexes: &Indexes,
    ) -> (r: Result<MultiliteTransaction>)
        ensures
            verdict(r) == (match raised(mutations_view(mutations@), statements@, indexes@) {
                Ok(transaction) => Ok(transaction),
                Err(error) => Err(
                    ErrorView::InvalidMultiliteTransaction(transaction_error_text(error)),
                ),
            }),
    {
        match MultiliteTransaction::raise(mutations, statements, indexes) {
            Ok(transaction) => Ok(transaction),
            Err(error) => Err(Error::InvalidMultiliteTransaction(error.text())),
        }
    }
}

/// The operations of compiled ones.
pub open spec fn compiled_ops(operations: Seq<CompiledOperation>) -> Seq<OpView> {
    Seq::new(operations.len(), |i: int| operations[i].op())
}

/// What compiled operations are lowered to.
pub open spec fn compiled_lowerings(operations: Seq<CompiledOperation>) -> Seq<LoweredView> {
    Seq::new(operations.len(), |i: int| operations[i].lowering())
}

/// How compiled operations are undone.
pub open spec fn compiled_inverses(operations: Seq<CompiledOperation>) -> Seq<RejectionView> {
    Seq::new(operations.len(), |i: int| operations[i].inverse())
}

/// What assembling compiled operations under an identity gives.
pub open spec fn assembled(
    id: Seq<u8>,
    operations: Seq<CompiledOperation>,
    r: Result<CompiledTransaction>,
) -> bool {
    let transaction = TransactionView { id, operations: compiled_ops(operations) };
    match manifest_frame(transaction) {
        Err(refused) => r matches Err(error) && error@ == refused,
        Ok(frame) => r matches Ok(compiled) && compiled.transaction() == transaction
            && compiled.lowering() == enveloped(id, frame, compiled_lowerings(operations))
            && compiled.inverses() == compiled_inverses(operations).reverse(),
    }
}

/// The sidecars of pending operations, in order.
pub open spec fn repairs(operations: Seq<OpView>) -> Seq<Seq<u8>>
    decreases operations.len(),
{
    if operations.len() == 0 {
        Seq::empty()
    } else {
        match repair_of(operations.last()) {
            Some(id) => repairs(operations.drop_last()).push(id),
            None => repairs(operations.drop_last()),
        }
    }
}

/// What reading an admitted batch gives.
pub open spec fn raised(
    mutations: Seq<MutationView>,
    parsed: ParsedTexts,
    indexes: Seq<(Seq<u8>, std::result::Result<IndexOpView, Seq<char>>)>,
) -> std::result::Result<TransactionView, TransactionErrorView> {
    if mutations.len() == 0 {
        Err(TransactionErrorView::InvalidBatch)
    } else {
        match mutations[0] {
            MutationView::Put { value, .. } => match transaction_decoded(
                value,
                parsed,
                indexes,
                MAX_TRANSACTION_OPERATIONS,
                MAX_TRANSACTION_FRAME_BYTES,
            ) {
                Err(error) => Err(error),
                Ok(transaction) => match transaction_lowered(transaction, parsed) {
                    Err(error) => Err(TransactionErrorView::InvalidOperation(error_text(error))),
                    Ok(lowered) => if mutations != lowered.mutations {
                        Err(TransactionErrorView::InvalidBatch)
                    } else {
                        Ok(transaction)
                    },
                },
            },
            _ => Err(TransactionErrorView::InvalidBatch),
        }
    }
}

} // verus!
