//! One ordered unit of materialization, submission, and repair.

use crate::bytes::{
    fields_bytes, fields_fit, fits, fold_fields, lemma_fit_concat, lemma_fit_push, lemma_fold_list,
    lemma_fold_push, lemma_run_fold, lemma_fields_len, run_fields, FrameWriter, Reader,
};
use crate::codec::{filled, views};
use crate::error::{Error, ErrorView, Result};
use crate::identity::{fresh_uuid, random_uuid, uuid_bytes, UuidError};
use crate::logical::index::{IndexOpView, Indexes};
use crate::logical::operation::codec::{
    operation_decoded, operation_error_text, operation_fits, operation_frame, operation_roundtrip,
    operation_valid, MultiliteOp, OpView,
};
use crate::logical::schema::statement::{ParsedTexts, Statements};
use crate::text::{decimal, decimal_text, joined};
use vstd::prelude::*;
use vstd::string::*;

verus! {

/// Version of the frame.
pub const TRANSACTION_FRAME_VERSION: u8 = 1;

/// Marks the identity of a transaction.
pub const TAG_TRANSACTION_ID: u8 = 1;

/// Marks an operation of a transaction.
pub const TAG_OPERATION: u8 = 2;

/// The most operations of one transaction.
pub const MAX_TRANSACTION_OPERATIONS: usize = 100_000;

/// The most bytes of one manifest.
pub const MAX_TRANSACTION_FRAME_BYTES: usize = 67_108_864;

/// A transaction as a mathematical value.
#[verifier::ext_equal]
pub struct TransactionView {
    pub id: Seq<u8>,
    pub operations: Seq<OpView>,
}

/// One ordered unit of materialization, submission, and repair. It has a random
/// identity and at least one operation.
#[derive(Debug, PartialEq, Eq)]
pub struct MultiliteTransaction {
    id: [u8; 16],
    operations: Vec<MultiliteOp>,
}

impl View for MultiliteTransaction {
    type V = TransactionView;

    closed spec fn view(&self) -> TransactionView {
        TransactionView { id: self.id@, operations: views(self.operations@) }
    }
}

/// Whether a transaction is one that can be.
pub open spec fn transaction_sound(transaction: TransactionView) -> bool {
    random_uuid(transaction.id) && transaction.operations.len() > 0
}

/// Why a manifest is refused.
#[derive(Debug, PartialEq, Eq)]
pub enum TransactionCodecError {
    UnknownVersion(u8),
    Truncated,
    DuplicateField(u8),
    MissingField(u8),
    InvalidLength,
    InvalidUuid,
    Empty,
    TooManyOperations,
    FrameTooLarge,
    InvalidOperation(String),
    InvalidBatch,
}

/// A refusal as a mathematical value.
pub enum TransactionErrorView {
    UnknownVersion(u8),
    Truncated,
    DuplicateField(u8),
    MissingField(u8),
    InvalidLength,
    InvalidUuid,
    Empty,
    TooManyOperations,
    FrameTooLarge,
    InvalidOperation(Seq<char>),
    InvalidBatch,
}

impl View for TransactionCodecError {
    type V = TransactionErrorView;

    open spec fn view(&self) -> TransactionErrorView {
        match self {
            TransactionCodecError::UnknownVersion(v) => TransactionErrorView::UnknownVersion(*v),
            TransactionCodecError::Truncated => TransactionErrorView::Truncated,
            TransactionCodecError::DuplicateField(tag) => TransactionErrorView::DuplicateField(
                *tag,
            ),
            TransactionCodecError::MissingField(tag) => TransactionErrorView::MissingField(*tag),
            TransactionCodecError::InvalidLength => TransactionErrorView::InvalidLength,
            TransactionCodecError::InvalidUuid => TransactionErrorView::InvalidUuid,
            TransactionCodecError::Empty => TransactionErrorView::Empty,
            TransactionCodecError::TooManyOperations => TransactionErrorView::TooManyOperations,
            TransactionCodecError::FrameTooLarge => TransactionErrorView::FrameTooLarge,
            TransactionCodecError::InvalidOperation(text) => TransactionErrorView::InvalidOperation(
                text@,
            ),
            TransactionCodecError::InvalidBatch => TransactionErrorView::InvalidBatch,
        }
    }
}

/// The message of a refusal.
pub open spec fn transaction_error_text(error: TransactionErrorView) -> Seq<char> {
    match error {
        TransactionErrorView::UnknownVersion(v) => "unknown transaction manifest version "@
            + decimal(v as nat),
        TransactionErrorView::Truncated => "transaction manifest is truncated"@,
        TransactionErrorView::DuplicateField(tag) => "duplicate transaction field "@ + decimal(
            tag as nat,
        ),
        TransactionErrorView::MissingField(tag) => "missing transaction field "@ + decimal(
            tag as nat,
        ),
        TransactionErrorView::InvalidLength => "transaction field has an invalid length"@,
        TransactionErrorView::InvalidUuid => "transaction id is not a UUID v4"@,
        TransactionErrorView::Empty => "transaction contains no operations"@,
        TransactionErrorView::TooManyOperations => "transaction contains too many operations"@,
        TransactionErrorView::FrameTooLarge => "transaction manifest is too large"@,
        TransactionErrorView::InvalidOperation(text) => "invalid transaction operation: "@ + text,
        TransactionErrorView::InvalidBatch => "admitted transaction does not match its manifest"@,
    }
}

impl TransactionCodecError {
    /// The refusal's message.
    pub fn text(&self) -> (r: String)
        ensures
            r@ == transaction_error_text(self@),
    {
        match self {
            TransactionCodecError::UnknownVersion(v) => joined(
                "unknown transaction manifest version ",
                decimal_text(*v as u64).as_str(),
            ),
            TransactionCodecError::Truncated => "transaction manifest is truncated".to_owned(),
            TransactionCodecError::DuplicateField(tag) => joined(
                "duplicate transaction field ",
                decimal_text(*tag as u64).as_str(),
            ),
            TransactionCodecError::MissingField(tag) => joined(
                "missing transaction field ",
                decimal_text(*tag as u64).as_str(),
            ),
            TransactionCodecError::InvalidLength =>
                "transaction field has an invalid length".to_owned(),
            TransactionCodecError::InvalidUuid => "transaction id is not a UUID v4".to_owned(),
            TransactionCodecError::Empty => "transaction contains no operations".to_owned(),
            TransactionCodecError::TooManyOperations =>
                "transaction contains too many operations".to_owned(),
            TransactionCodecError::FrameTooLarge =>
                "transaction manifest is too large".to_owned(),
            TransactionCodecError::InvalidOperation(text) => joined(
                "invalid transaction operation: ",
                text.as_str(),
            ),
            TransactionCodecError::InvalidBatch =>
                "admitted transaction does not match its manifest".to_owned(),
        }
    }
}

/// The fields of operations.
pub open spec fn operation_fields(operations: Seq<OpView>) -> Seq<(u8, Seq<u8>)> {
    Seq::new(operations.len(), |i: int| (TAG_OPERATION, operation_frame(operations[i])))
}

/// The fields of a manifest.
pub open spec fn transaction_fields(transaction: TransactionView) -> Seq<(u8, Seq<u8>)> {
    seq![(TAG_TRANSACTION_ID, transaction.id)] + operation_fields(transaction.operations)
}

/// The manifest of a transaction.
#[verifier::opaque]
pub open spec fn transaction_frame(transaction: TransactionView) -> Seq<u8> {
    seq![TRANSACTION_FRAME_VERSION] + fields_bytes(transaction_fields(transaction))
}

/// The first operations of a transaction.
pub open spec fn first_operations(transaction: TransactionView, i: int) -> TransactionView {
    TransactionView { id: transaction.id, operations: transaction.operations.subrange(0, i) }
}

/// Why an operation does not fit behind the ones before it.
pub open spec fn operation_excess(
    transaction: TransactionView,
    max_bytes: usize,
    i: int,
) -> Option<ErrorView> {
    if transaction_frame(first_operations(transaction, i + 1)).len() > max_bytes {
        Some(
            ErrorView::CaptureLimitExceeded {
                resource: "transaction frame bytes"@,
                limit: max_bytes,
            },
        )
    } else if !fits(operation_frame(transaction.operations[i])) {
        Some(ErrorView::InvalidMultiliteTransaction("transaction field is too large"@))
    } else {
        None
    }
}

/// The first of the given operations that does not fit.
pub open spec fn operations_excess(
    transaction: TransactionView,
    max_bytes: usize,
    count: int,
) -> Option<ErrorView>
    decreases count,
{
    if count <= 0 {
        None
    } else {
        match operations_excess(transaction, max_bytes, count - 1) {
            Some(error) => Some(error),
            None => operation_excess(transaction, max_bytes, count - 1),
        }
    }
}

/// The manifest of a transaction within limits, or why it has none.
pub open spec fn transaction_encoded(
    transaction: TransactionView,
    max_operations: usize,
    max_bytes: usize,
) -> std::result::Result<Seq<u8>, ErrorView> {
    if transaction.operations.len() > max_operations {
        Err(
            ErrorView::CaptureLimitExceeded {
                resource: "transaction operation count"@,
                limit: max_operations,
            },
        )
    } else {
        match operations_excess(transaction, max_bytes, transaction.operations.len() as int) {
            Some(error) => Err(error),
            None => Ok(transaction_frame(transaction)),
        }
    }
}

/// Whether every field of every operation has a length that a `u32` holds.
pub open spec fn operations_fit(operations: Seq<OpView>) -> bool {
    forall|i: int| 0 <= i < operations.len() ==> operation_fits(#[trigger] operations[i])
}

/// What is known of a transaction after some of its fields.
#[verifier::ext_equal]
pub struct TransactionState {
    pub id: Option<Seq<u8>>,
    pub operations: Seq<OpView>,
}

/// What reading an identity gives.
pub open spec fn id_field(value: Seq<u8>) -> std::result::Result<Seq<u8>, TransactionErrorView> {
    if value.len() != 16 {
        Err(TransactionErrorView::InvalidLength)
    } else if !random_uuid(value) {
        Err(TransactionErrorView::InvalidUuid)
    } else {
        Ok(value)
    }
}

/// What one field adds.
pub open spec fn transaction_step(
    s: TransactionState,
    tag: u8,
    payload: Seq<u8>,
    parsed: ParsedTexts,
    indexes: Seq<(Seq<u8>, std::result::Result<IndexOpView, Seq<char>>)>,
    max_operations: usize,
) -> std::result::Result<TransactionState, TransactionErrorView> {
    if tag == TAG_TRANSACTION_ID {
        match filled(
            s.id,
            id_field(payload),
            TransactionErrorView::DuplicateField(TAG_TRANSACTION_ID),
        ) {
            Err(error) => Err(error),
            Ok(id) => Ok(TransactionState { id, ..s }),
        }
    } else if tag == TAG_OPERATION {
        if s.operations.len() == max_operations {
            Err(TransactionErrorView::TooManyOperations)
        } else {
            match operation_decoded(payload, parsed, indexes) {
                Err(error) => Err(
                    TransactionErrorView::InvalidOperation(operation_error_text(error)),
                ),
                Ok(op) => Ok(TransactionState { operations: s.operations.push(op), ..s }),
            }
        }
    } else {
        Ok(s)
    }
}

/// [`transaction_step`] as a value.
pub open spec fn transaction_steps(
    parsed: ParsedTexts,
    indexes: Seq<(Seq<u8>, std::result::Result<IndexOpView, Seq<char>>)>,
    max_operations: usize,
) -> spec_fn(TransactionState, u8, Seq<u8>) -> std::result::Result<
    TransactionState,
    TransactionErrorView,
> {
    |s: TransactionState, tag: u8, payload: Seq<u8>|
        transaction_step(s, tag, payload, parsed, indexes, max_operations)
}

/// Nothing is known before the first field.
pub open spec fn transaction_start() -> TransactionState {
    TransactionState { id: None, operations: Seq::empty() }
}

/// A transaction that the fields describe.
pub open spec fn transaction_finish(s: TransactionState) -> std::result::Result<
    TransactionView,
    TransactionErrorView,
> {
    if s.operations.len() == 0 {
        Err(TransactionErrorView::Empty)
    } else {
        match s.id {
            None => Err(TransactionErrorView::MissingField(TAG_TRANSACTION_ID)),
            Some(id) => Ok(TransactionView { id, operations: s.operations }),
        }
    }
}

/// What decoding a manifest gives within limits, given what texts stand for.
#[verifier::opaque]
pub open spec fn transaction_decoded(
    b: Seq<u8>,
    parsed: ParsedTexts,
    indexes: Seq<(Seq<u8>, std::result::Result<IndexOpView, Seq<char>>)>,
    max_operations: usize,
    max_bytes: usize,
) -> std::result::Result<TransactionView, TransactionErrorView> {
    if b.len() > max_bytes {
        Err(TransactionErrorView::FrameTooLarge)
    } else if b.len() == 0 {
        Err(TransactionErrorView::Truncated)
    } else if b[0] != TRANSACTION_FRAME_VERSION {
        Err(TransactionErrorView::UnknownVersion(b[0]))
    } else {
        match run_fields(
            transaction_start(),
            b.subrange(1, b.len() as int),
            transaction_steps(parsed, indexes, max_operations),
            TransactionErrorView::Truncated,
        ) {
            Err(error) => Err(error),
            Ok(s) => transaction_finish(s),
        }
    }
}

/// What is left of a decoded transaction.
pub open spec fn transaction_outcome(
    r: std::result::Result<MultiliteTransaction, TransactionCodecError>,
) -> std::result::Result<TransactionView, TransactionErrorView> {
    match r {
        Ok(transaction) => Ok(transaction@),
        Err(error) => Err(error@),
    }
}

/// One more operation makes the manifest longer by its field.
proof fn lemma_frame_grows(transaction: TransactionView, i: int)
    requires
        0 <= i < transaction.operations.len(),
    ensures
        transaction_frame(first_operations(transaction, i + 1)).len() == transaction_frame(
            first_operations(transaction, i),
        ).len() + 5 + operation_frame(transaction.operations[i]).len(),
{
    reveal(transaction_frame);
    let before = transaction_fields(first_operations(transaction, i));
    let after = transaction_fields(first_operations(transaction, i + 1));
    let frame = operation_frame(transaction.operations[i]);
    assert(after =~= before.push((TAG_OPERATION, frame)));
    lemma_fields_len(before, TAG_OPERATION, frame);
}

/// The manifest of a transaction without its operations.
proof fn lemma_frame_start(transaction: TransactionView)
    requires
        transaction.id.len() == 16,
    ensures
        transaction_frame(first_operations(transaction, 0)).len() == 22,
        first_operations(transaction, transaction.operations.len() as int) == transaction,
{
    reveal(transaction_frame);
    let none = Seq::<(u8, Seq<u8>)>::empty();
    let fields = transaction_fields(first_operations(transaction, 0));
    assert(fields =~= none.push((TAG_TRANSACTION_ID, transaction.id)));
    lemma_fields_len(none, TAG_TRANSACTION_ID, transaction.id);
    assert(fields_bytes(none).len() == 0);
    assert(transaction.operations.subrange(0, transaction.operations.len() as int)
        =~= transaction.operations);
}

/// What does not fit among the first operations does not fit among all.
proof fn lemma_excess(transaction: TransactionView, max_bytes: usize, i: int, count: int)
    requires
        0 <= i <= count,
        operations_excess(transaction, max_bytes, i) is Some,
    ensures
        operations_excess(transaction, max_bytes, count) == operations_excess(
            transaction,
            max_bytes,
            i,
        ),
    decreases count - i,
{
    if i < count {
        lemma_excess(transaction, max_bytes, i, count - 1);
    }
}

impl MultiliteTransaction {
    #[verifier::type_invariant]
    spec fn well_formed(self) -> bool {
        random_uuid(self.id@) && self.operations@.len() > 0
    }

    /// The transaction with an identity and operations.
    pub fn assemble(id: [u8; 16], operations: Vec<MultiliteOp>) -> (r: Result<MultiliteTransaction>)
        requires
            random_uuid(id@),
        ensures
            match r {
                Ok(transaction) => operations@.len() > 0 && transaction@ == (TransactionView {
                    id: id@,
                    operations: views(operations@),
                }),
                Err(error) => operations@.len() == 0 && error@
                    == ErrorView::InvalidMultiliteTransaction(
                    "transaction contains no operations"@,
                ),
            },
    {
        if operations.len() == 0 {
            return Err(
                Error::InvalidMultiliteTransaction("transaction contains no operations".to_owned()),
            );
        }
        Ok(MultiliteTransaction { id, operations })
    }

    /// Mint a transaction of the given operations.
    pub fn new(operations: Vec<MultiliteOp>) -> (r: Result<MultiliteTransaction>)
        ensures
            match r {
                Ok(transaction) => operations@.len() > 0 && transaction_sound(transaction@)
                    && transaction@.operations == views(operations@),
                Err(error) => operations@.len() == 0 && error@
                    == ErrorView::InvalidMultiliteTransaction(
                    "transaction contains no operations"@,
                ),
            },
    {
        MultiliteTransaction::assemble(fresh_uuid(), operations)
    }

    /// The transaction's identity.
    pub fn id(&self) -> (r: [u8; 16])
        ensures
            r@ == self@.id,
            random_uuid(r@),
    {
        proof {
            use_type_invariant(self);
        }
        self.id
    }

    /// The operations in the order in which they are applied.
    pub fn operations(&self) -> (r: &[MultiliteOp])
        ensures
            views(r@) == self@.operations,
            r@.len() > 0,
    {
        proof {
            use_type_invariant(self);
        }
        self.operations.as_slice()
    }

    /// The identity and the operations.
    pub fn into_parts(self) -> (r: ([u8; 16], Vec<MultiliteOp>))
        ensures
            r.0@ == self@.id,
            random_uuid(r.0@),
            views(r.1@) == self@.operations,
            r.1@.len() > 0,
    {
        proof {
            use_type_invariant(&self);
        }
        (self.id, self.operations)
    }

    /// Encode the manifest.
    pub fn encode(&self) -> (r: Result<Vec<u8>>)
        requires
            operations_fit(self@.operations),
        ensures
            crate::error::verdict(r) == transaction_encoded(
                self@,
                MAX_TRANSACTION_OPERATIONS,
                MAX_TRANSACTION_FRAME_BYTES,
            ),
    {
        self.encode_with_limits(MAX_TRANSACTION_OPERATIONS, MAX_TRANSACTION_FRAME_BYTES)
    }

    /// Encode the manifest within limits.
    pub fn encode_with_limits(&self, max_operations: usize, max_bytes: usize) -> (r: Result<
        Vec<u8>,
    >)
        requires
            operations_fit(self@.operations),
        ensures
            crate::error::verdict(r) == transaction_encoded(self@, max_operations, max_bytes),
    {
        proof {
            use_type_invariant(self);
            lemma_frame_start(self@);
        }
        if self.operations.len() > max_operations {
            return Err(
                Error::CaptureLimitExceeded {
                    resource: "transaction operation count",
                    limit: max_operations,
                },
            );
        }
        let ghost all = self@.operations;
        let mut w = FrameWriter::versioned(TRANSACTION_FRAME_VERSION).field(
            TAG_TRANSACTION_ID,
            &self.id,
        );
        let mut encoded_bytes: usize = 22;
        let mut i: usize = 0;
        assert(w.fields() =~= transaction_fields(first_operations(self@, 0)));
        while i < self.operations.len()
            invariant
                i <= self.operations@.len(),
                all == self@.operations,
                all == views(self.operations@),
                all.len() <= max_operations,
                operations_fit(all),
                w.head() == seq![TRANSACTION_FRAME_VERSION],
                w.fields() == transaction_fields(first_operations(self@, i as int)),
                encoded_bytes == transaction_frame(first_operations(self@, i as int)).len(),
                operations_excess(self@, max_bytes, i as int) is None,
            decreases self.operations.len() - i,
        {
            proof {
                assert(all[i as int] == self.operations@[i as int]@);
                lemma_frame_grows(self@, i as int);
                if operations_excess(self@, max_bytes, i as int + 1) is Some {
                    lemma_excess(self@, max_bytes, i as int + 1, all.len() as int);
                }
            }
            let operation = self.operations[i].encode();
            let total: Option<usize> = match encoded_bytes.checked_add(5) {
                None => None,
                Some(bytes) => bytes.checked_add(operation.len()),
            };
            encoded_bytes = match total {
                Some(bytes) if bytes <= max_bytes => bytes,
                _ => {
                    return Err(
                        Error::CaptureLimitExceeded {
                            resource: "transaction frame bytes",
                            limit: max_bytes,
                        },
                    );
                },
            };
            if operation.len() > 4294967295 {
                return Err(
                    Error::InvalidMultiliteTransaction("transaction field is too large".to_owned()),
                );
            }
            w = w.field(TAG_OPERATION, operation.as_slice());
            assert(w.fields() =~= transaction_fields(first_operations(self@, i as int + 1)));
            i += 1;
        }
        let r = w.finish();
        assert(r@ == transaction_frame(self@)) by {
            reveal(transaction_frame);
        }
        Ok(r)
    }

    /// Decode one complete manifest, given what texts stand for.
    pub fn decode(frame: &[u8], statements: &Statements, indexes: &Indexes) -> (r: std::result::Result<
        MultiliteTransaction,
        TransactionCodecError,
    >)
        ensures
            transaction_outcome(r) == transaction_decoded(
                frame@,
                statements@,
                indexes@,
                MAX_TRANSACTION_OPERATIONS,
                MAX_TRANSACTION_FRAME_BYTES,
            ),
    {
        MultiliteTransaction::decode_with_limits(
            frame,
            statements,
            indexes,
            MAX_TRANSACTION_OPERATIONS,
            MAX_TRANSACTION_FRAME_BYTES,
        )
    }

    /// Decode one complete manifest within limits.
    pub fn decode_with_limits(
        frame: &[u8],
        statements: &Statements,
        indexes: &Indexes,
        max_operations: usize,
        max_bytes: usize,
    ) -> (r: std::result::Result<MultiliteTransaction, TransactionCodecError>)
        ensures
            transaction_outcome(r) == transaction_decoded(
                frame@,
                statements@,
                indexes@,
                max_operations,
                max_bytes,
            ),
    {
        reveal(transaction_decoded);
        if frame.len() > max_bytes {
            return Err(TransactionCodecError::FrameTooLarge);
        }
        let mut reader = Reader::new(frame);
        let version: u8 = match reader.u8() {
            None => {
                return Err(TransactionCodecError::Truncated);
            },
            Some(version) => version,
        };
        if version != TRANSACTION_FRAME_VERSION {
            return Err(TransactionCodecError::UnknownVersion(version));
        }
        let ghost want = transaction_decoded(frame@, statements@, indexes@, max_operations, max_bytes);
        let ghost steps = transaction_steps(statements@, indexes@, max_operations);
        let mut id: Option<[u8; 16]> = None;
        let mut operations: Vec<MultiliteOp> = Vec::new();
        let ghost mut state = transaction_start();
        assert(views(operations@) =~= Seq::<OpView>::empty());
        while !reader.is_empty()
            invariant
                want == transaction_decoded(frame@, statements@, indexes@, max_operations, max_bytes),
                steps == transaction_steps(statements@, indexes@, max_operations),
                state.operations == views(operations@),
                state.id == (match id {
                    Some(id) => Some(id@),
                    None => None,
                }),
                id matches Some(id) ==> random_uuid(id@),
                want == (match run_fields(
                    state,
                    reader.remaining(),
                    steps,
                    TransactionErrorView::Truncated,
                ) {
                    Err(error) => Err(error),
                    Ok(s) => transaction_finish(s),
                }),
            decreases reader.remaining().len(),
        {
            let (tag, payload) = match reader.field() {
                Ok(Some(field)) => field,
                _ => {
                    return Err(TransactionCodecError::Truncated);
                },
            };
            let ghost next = transaction_step(
                state,
                tag,
                payload@,
                statements@,
                indexes@,
                max_operations,
            );
            assert(steps(state, tag, payload@) == next);
            assert(views(operations@).len() == operations@.len());
            if tag == TAG_TRANSACTION_ID {
                match uuid_bytes(payload) {
                    Err(UuidError::Length) => {
                        return Err(TransactionCodecError::InvalidLength);
                    },
                    Err(UuidError::Kind) => {
                        return Err(TransactionCodecError::InvalidUuid);
                    },
                    Ok(bytes) => {
                        if id.is_some() {
                            return Err(TransactionCodecError::DuplicateField(TAG_TRANSACTION_ID));
                        }
                        id = Some(bytes);
                    },
                }
            } else if tag == TAG_OPERATION {
                if operations.len() == max_operations {
                    return Err(TransactionCodecError::TooManyOperations);
                }
                match MultiliteOp::decode(payload, statements, indexes) {
                    Err(error) => {
                        return Err(TransactionCodecError::InvalidOperation(error.text()));
                    },
                    Ok(op) => {
                        let ghost before = views(operations@);
                        operations.push(op);
                        assert(views(operations@) =~= before.push(op@));
                    },
                }
            }
            proof {
                state = next->Ok_0;
            }
        }
        assert(views(operations@).len() == operations@.len());
        if operations.len() == 0 {
            return Err(TransactionCodecError::Empty);
        }
        match id {
            None => Err(TransactionCodecError::MissingField(TAG_TRANSACTION_ID)),
            Some(id) => Ok(MultiliteTransaction { id, operations }),
        }
    }
}

/// Decoding the manifest of a transaction gives it back.
pub proof fn transaction_roundtrip(
    transaction: TransactionView,
    parsed: ParsedTexts,
    indexes: Seq<(Seq<u8>, std::result::Result<IndexOpView, Seq<char>>)>,
    max_operations: usize,
    max_bytes: usize,
)
    requires
        transaction_sound(transaction),
        operations_fit(transaction.operations),
        forall|i: int|
            0 <= i < transaction.operations.len() ==> operation_valid(
                #[trigger] transaction.operations[i],
                parsed,
                indexes,
            ),
        transaction_encoded(transaction, max_operations, max_bytes) is Ok,
    ensures
        transaction_decoded(
            transaction_encoded(transaction, max_operations, max_bytes)->Ok_0,
            parsed,
            indexes,
            max_operations,
            max_bytes,
        ) == Ok::<TransactionView, TransactionErrorView>(transaction),
{
    reveal(transaction_decoded);
    let ops = transaction.operations;
    let n = ops.len() as int;
    lemma_frame_start(transaction);
    lemma_all_fit(transaction, max_bytes, n);
    let b = transaction_frame(transaction);
    assert(operation_excess(transaction, max_bytes, n - 1) is None);
    assert(b.len() <= max_bytes);
    let none = Seq::<(u8, Seq<u8>)>::empty();
    let step = transaction_steps(parsed, indexes, max_operations);
    let s0 = transaction_start();
    let s1 = TransactionState { id: Some(transaction.id), operations: Seq::empty() };
    let f1 = none.push((TAG_TRANSACTION_ID, transaction.id));
    lemma_fold_push(s0, none, TAG_TRANSACTION_ID, transaction.id, step);
    assert(fold_fields(s0, none, step) == Ok::<TransactionState, TransactionErrorView>(s0));
    assert(step(s0, TAG_TRANSACTION_ID, transaction.id) == Ok::<
        TransactionState,
        TransactionErrorView,
    >(s1));
    assert(fields_fit(none));
    lemma_fit_push(none, TAG_TRANSACTION_ID, transaction.id);
    let fields = operation_fields(ops);
    let states = |i: int| TransactionState { id: Some(transaction.id), operations: ops.subrange(0, i) };
    assert(states(0) =~= s1);
    assert forall|i: int| 0 <= i < fields.len() implies #[trigger] step(
        states(i),
        fields[i].0,
        fields[i].1,
    ) == Ok::<TransactionState, TransactionErrorView>(states(i + 1)) by {
        operation_roundtrip(ops[i], parsed, indexes);
        assert(ops.subrange(0, i).push(ops[i]) =~= ops.subrange(0, i + 1));
    }
    lemma_fold_list(s0, f1, fields, states, step);
    assert forall|i: int| 0 <= i < fields.len() implies fits((#[trigger] fields[i]).1) by {
        assert(fits(operation_frame(ops[i])));
    }
    lemma_fit_concat(f1, fields);
    let all = f1 + fields;
    assert(all =~= transaction_fields(transaction));
    lemma_run_fold(s0, all, step, TransactionErrorView::Truncated);
    assert(b == seq![TRANSACTION_FRAME_VERSION] + fields_bytes(all)) by {
        reveal(transaction_frame);
    }
    assert(b.subrange(1, b.len() as int) =~= fields_bytes(all));
    assert(states(n) =~= TransactionState { id: Some(transaction.id), operations: ops });
}

/// Where all operations fit, each of them does.
proof fn lemma_all_fit(transaction: TransactionView, max_bytes: usize, count: int)
    requires
        0 <= count <= transaction.operations.len(),
        operations_excess(transaction, max_bytes, count) is None,
    ensures
        forall|i: int|
            0 <= i < count ==> fits(operation_frame(#[trigger] transaction.operations[i])),
        count > 0 ==> operation_excess(transaction, max_bytes, count - 1) is None,
    decreases count,
{
    if count > 0 {
        lemma_all_fit(transaction, max_bytes, count - 1);
    }
}

} // verus!
