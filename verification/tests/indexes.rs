use multilite::error::Error;
use multilite::footprint::AdmissionSeq;
use multilite::identity::{SchemaRevisionId, TableId};
use multilite::key::Mutation;
use multilite::logical::contract::{GuardReason, OperationFamily};
use multilite::logical::guard::GuardPlan;
use multilite::logical::index::{IndexOperation, Indexes, UNREADABLE};
use multilite::logical::isolation::IsolationLevel;
use multilite::logical::layout::{
    active_schema_revision_key, schema_object_name_scope_key, table_schema_key, user_version_key,
    write_revision_key,
};
use multilite::logical::operation::codec::{MultiliteOp, OperationCodecError, INDEX_OPERATION};
use multilite::logical::operation::compile::RejectionEffect;
use multilite::logical::schema::statement::Statements;
use multilite::logical::transaction::codec::MultiliteTransaction;
use multilite::name::SqlName;

fn test_uuid(byte: u8) -> [u8; 16] {
    let mut id = [byte; 16];
    id[6] = (id[6] & 0x0f) | 0x40;
    id[8] = (id[8] & 0x3f) | 0x80;
    id
}

fn table() -> TableId {
    TableId::from_bytes(test_uuid(1))
}

fn index_name() -> SqlName {
    SqlName::new("notes_by_title".to_string())
}

fn guards(family: OperationFamily) -> GuardPlan {
    let mut guards = GuardPlan::for_operation(family);
    guards
        .add_invariant(schema_object_name_scope_key(&index_name()), GuardReason::SchemaObjectName)
        .unwrap();
    guards
        .add_invariant(active_schema_revision_key(table()), GuardReason::SchemaRevision)
        .unwrap();
    guards.write(active_schema_revision_key(table()), GuardReason::SchemaRevision).unwrap();
    guards
}

fn revision() -> SchemaRevisionId {
    SchemaRevisionId::from_bytes(test_uuid(2))
}

fn created() -> IndexOperation {
    let mut guards = guards(OperationFamily::CreateIndex);
    guards.write(write_revision_key(table()), GuardReason::WriteContract).unwrap();
    IndexOperation::new(
        OperationFamily::CreateIndex,
        table(),
        vec![3, 1, 4],
        vec![
            Mutation::Put { key: schema_object_name_scope_key(&index_name()), value: vec![1] },
            Mutation::Put { key: table_schema_key(table(), revision()), value: vec![2] },
            Mutation::Put { key: active_schema_revision_key(table()), value: vec![3] },
            Mutation::Put { key: write_revision_key(table()), value: vec![4] },
        ],
        guards,
    )
    .unwrap()
}

fn dropped() -> IndexOperation {
    IndexOperation::new(
        OperationFamily::DropIndex,
        table(),
        vec![2, 7],
        vec![
            Mutation::Put { key: active_schema_revision_key(table()), value: vec![3] },
            Mutation::Delete { key: schema_object_name_scope_key(&index_name()) },
        ],
        guards(OperationFamily::DropIndex),
    )
    .unwrap()
}

fn indexes() -> Indexes {
    let mut indexes = Indexes::new();
    indexes.record(created());
    indexes.record(dropped());
    indexes
}

#[test]
fn index_changes_are_read_back_from_their_frames() {
    for change in [created(), dropped()] {
        let operation = MultiliteOp::Index(change.clone());
        let mut frame = vec![1, INDEX_OPERATION];
        frame.extend(change.encode());
        assert_eq!(operation.encode(), frame);
        assert_eq!(
            MultiliteOp::decode(&frame, &Statements::new(), &indexes()).unwrap(),
            operation
        );
        assert_eq!(operation.repair_id(), None);
        assert_eq!(change.table_id(), table());
    }
    assert_eq!(created().family(), OperationFamily::CreateIndex);
    assert_eq!(dropped().family(), OperationFamily::DropIndex);
}

#[test]
fn index_payloads_are_refused_with_their_reason() {
    let mut indexes = indexes();
    indexes.refuse(vec![9], "index operation frame is truncated".to_string());
    let decode = |frame: &[u8]| MultiliteOp::decode(frame, &Statements::new(), &indexes);
    assert_eq!(
        decode(&[1, INDEX_OPERATION, 9]),
        Err(OperationCodecError::InvalidPayload("index operation frame is truncated".to_string()))
    );
    assert_eq!(
        decode(&[1, INDEX_OPERATION, 8]),
        Err(OperationCodecError::InvalidPayload(UNREADABLE.to_string()))
    );
    assert_eq!(decode(&[1, 4, 8]), Err(OperationCodecError::UnknownKind(4)));
}

#[test]
fn the_first_reading_of_a_payload_stays() {
    let mut indexes = indexes();
    indexes.refuse(vec![2, 7], "too late".to_string());
    indexes.record_as(vec![2, 7, 200], &[2, 7]);
    indexes.record_as(vec![2], &[2, 7]);
    indexes.record_as(vec![5, 5], &[6, 6]);
    assert_eq!(IndexOperation::decode(&[2, 7], &indexes), Ok(dropped()));
    assert_eq!(IndexOperation::decode(&[2, 7, 200], &indexes), Ok(dropped()));
    assert_eq!(IndexOperation::decode(&[2], &indexes), Err(UNREADABLE.to_string()));
    assert_eq!(IndexOperation::decode(&[5, 5], &indexes), Err(UNREADABLE.to_string()));
}

#[test]
fn index_changes_compile_to_their_own_reversal() {
    for change in [created(), dropped()] {
        let operation = MultiliteOp::Index(change.clone());
        let compiled = operation.clone().compile(&Statements::new()).unwrap();
        assert_eq!(compiled.logical(), &operation);
        assert_eq!(compiled.homebase(), &operation.to_homebase(&Statements::new()).unwrap());
        let (logical, homebase, rejection) = compiled.into_parts();
        assert_eq!(logical, operation);
        assert_eq!(homebase.guards().operation(), Some(change.family()));
        assert_eq!(rejection, RejectionEffect::RevertIndex { operation: change });
    }
}

#[test]
fn index_changes_outside_their_contract_are_refused() {
    let bare = IndexOperation::new(
        OperationFamily::DropIndex,
        table(),
        vec![1],
        vec![Mutation::Put { key: active_schema_revision_key(table()), value: vec![] }],
        GuardPlan::for_operation(OperationFamily::DropIndex),
    )
    .unwrap();
    assert_eq!(
        MultiliteOp::Index(bare).to_homebase(&Statements::new()),
        Err(Error::CaptureInvariant("compiler omitted a required operation guard"))
    );
    let foreign = IndexOperation::new(
        OperationFamily::DropIndex,
        table(),
        vec![1],
        vec![Mutation::Put { key: user_version_key(), value: vec![] }],
        guards(OperationFamily::DropIndex),
    )
    .unwrap();
    assert!(MultiliteOp::Index(foreign).to_homebase(&Statements::new()).is_err());
}

#[test]
fn only_index_families_make_index_changes() {
    let make = |family, guards| IndexOperation::new(family, table(), vec![], vec![], guards);
    assert_eq!(
        make(
            OperationFamily::CreateTable,
            GuardPlan::for_operation(OperationFamily::CreateTable)
        ),
        None
    );
    assert_eq!(make(OperationFamily::CreateIndex, guards(OperationFamily::DropIndex)), None);
    assert_eq!(make(OperationFamily::CreateIndex, GuardPlan::merged()), None);
    let mut mixed = GuardPlan::for_operation(OperationFamily::CreateIndex);
    mixed.extend(guards(OperationFamily::DropIndex));
    assert_eq!(make(OperationFamily::CreateIndex, mixed), None);
}

#[test]
fn transactions_carry_index_changes() {
    let transaction = MultiliteTransaction::assemble(
        test_uuid(5),
        vec![MultiliteOp::Index(created()), MultiliteOp::Index(dropped())],
    )
    .unwrap();
    let statements = Statements::new();
    let indexes = indexes();
    let frame = transaction.encode().unwrap();
    assert_eq!(
        MultiliteTransaction::decode(&frame, &statements, &indexes).unwrap(),
        transaction
    );
    let lowered = transaction.to_homebase(&statements).unwrap();
    assert_eq!(lowered.mutations().len(), 1 + 4 + 2);
    let read =
        MultiliteTransaction::from_homebase(lowered.mutations(), &statements, &indexes).unwrap();
    assert_eq!(read, transaction);
    assert!(MultiliteTransaction::from_homebase(
        lowered.mutations(),
        &statements,
        &Indexes::new()
    )
    .is_err());
    let compiled = transaction.compile(&statements).unwrap();
    assert_eq!(
        compiled.rejection(),
        [
            RejectionEffect::RevertIndex { operation: dropped() },
            RejectionEffect::RevertIndex { operation: created() },
        ]
    );
    let frontier = AdmissionSeq(4);
    assert_eq!(
        lowered.footprint().plan(IsolationLevel::Snapshot, frontier),
        lowered.footprint().plan(IsolationLevel::Serializable, frontier)
    );
}
