use multilite::catalog::CatalogSnapshot;
use multilite::error::Error;
use multilite::footprint::AdmissionSeq;
use multilite::key::{Key, Mutation, Range};
use multilite::logical::codes;
use multilite::logical::index::Indexes;
use multilite::logical::isolation::IsolationLevel;
use multilite::logical::layout::write_revision_key;
use multilite::logical::operation::codec::{
    MultiliteOp, OperationCodecError, CREATE_TABLE_OPERATION,
};
use multilite::logical::operation::compile::RejectionEffect;
use multilite::logical::row::capture::CapturedRow;
use multilite::logical::row::changes::RowChanges;
use multilite::logical::row::fixture::{DeletedRowsFixture, UpdatedRowsFixture};
use multilite::logical::row::set::RowSet;
use multilite::logical::schema::definition::CreateTable;
use multilite::logical::schema::statement::{
    CreateColumn, CreateTableSpec, Statements, ValidatedExecute,
};
use multilite::logical::transaction::codec::{
    MultiliteTransaction, TransactionCodecError, TAG_OPERATION, TAG_TRANSACTION_ID,
    TRANSACTION_FRAME_VERSION,
};
use multilite::logical::types::{TableMode, TableStorage, TypeDeclaration};
use multilite::name::SqlName;
use multilite::value::StoredValue;

const CREATE_NOTES: &str = "CREATE TABLE notes (id INTEGER PRIMARY KEY)";

fn name(text: &str) -> SqlName {
    SqlName::new(text.to_string())
}

fn column(text: &str, declared_type: TypeDeclaration, primary_key: Option<u32>) -> CreateColumn {
    CreateColumn {
        name: name(text),
        declared_type,
        not_null: false,
        not_null_name: None,
        default: None,
        primary_key,
    }
}

fn table(text: &str, columns: Vec<CreateColumn>) -> CreateTableSpec {
    CreateTableSpec {
        name: name(text),
        mode: TableMode::Ordinary,
        storage: TableStorage::Rowid,
        primary_key_name: None,
        columns,
        unique_constraints: Vec::new(),
        foreign_keys: Vec::new(),
        checks: Vec::new(),
    }
}

fn notes() -> CreateTableSpec {
    table("notes", vec![column("id", TypeDeclaration::integer(), Some(0))])
}

fn statements() -> Statements {
    let mut statements = Statements::new();
    statements.record(CREATE_NOTES.to_string(), ValidatedExecute::CreateTable(notes()));
    statements
}

fn create_operation() -> MultiliteOp {
    MultiliteOp::create_table(CREATE_NOTES, notes())
}

fn created_table(operation: &MultiliteOp) -> &CreateTable {
    match operation {
        MultiliteOp::CreateTable(created) => created,
        _ => unreachable!(),
    }
}

fn note(id: i64) -> CapturedRow {
    CapturedRow {
        table: "notes".to_string(),
        rowid: id,
        values: vec![StoredValue::Integer(id)],
    }
}

fn test_uuid(byte: u8) -> [u8; 16] {
    let mut id = [byte; 16];
    id[6] = (id[6] & 0x0f) | 0x40;
    id[8] = (id[8] & 0x3f) | 0x80;
    id
}

fn mixed_transaction() -> MultiliteTransaction {
    let created = create_operation();
    let catalog = CatalogSnapshot::new().insert(created_table(&created)).unwrap();
    let inserted = RowSet::from_catalog(&catalog, &[note(7)]).unwrap().unwrap();
    MultiliteTransaction::assemble(
        test_uuid(1),
        vec![created, MultiliteOp::ChangeRows(RowChanges::inserted(inserted))],
    )
    .unwrap()
}

fn key_of(mutation: &Mutation) -> &Key {
    match mutation {
        Mutation::Put { key, .. } | Mutation::Delete { key } => key,
        Mutation::DeleteRange { range: Range::Prefix(key) } => key,
        Mutation::DeleteRange { range: Range::Full } => unreachable!(),
    }
}

fn field(frame: &mut Vec<u8>, tag: u8, payload: &[u8]) {
    frame.push(tag);
    frame.extend_from_slice(&(payload.len() as u32).to_be_bytes());
    frame.extend_from_slice(payload);
}

#[test]
fn operation_dispatches_schema_translation_and_exposes_its_footprint() {
    let operation = create_operation();
    let (mutations, footprint) = operation.to_homebase(&statements()).unwrap().into_parts();

    assert_eq!(mutations.len(), 9);
    assert_eq!(footprint.constraints().len(), 1);
    assert!(footprint.constraints().contains(key_of(&mutations[1])));
    assert_eq!(footprint.writes().len(), 1);
    assert!(footprint
        .writes()
        .contains(&write_revision_key(created_table(&operation).table_id())));
    assert!(footprint.reads().is_empty());
}

#[test]
fn compilation_binds_lowering_and_rejection_to_the_same_operation() {
    let operation = create_operation();
    let copy = MultiliteOp::CreateTable(created_table(&operation).clone());
    let expected = operation.to_homebase(&statements()).unwrap();
    let compiled = copy.compile(&statements()).unwrap();

    assert_eq!(compiled.logical(), &operation);
    assert_eq!(compiled.homebase(), &expected);
    let (_, _, rejection) = compiled.into_parts();
    assert!(matches!(
        &rejection,
        RejectionEffect::RemoveCreatedTable { created } if created.table_name() == "notes"
    ));
}

#[test]
fn operation_codec_roundtrips_insert_shaped_row_changes() {
    let statements = statements();
    let created = CreateTable::new(CREATE_NOTES, notes());
    let catalog = CatalogSnapshot::new().insert(&created).unwrap();
    let inserted = RowSet::from_catalog(&catalog, &[note(7)]).unwrap().unwrap();
    let operation = MultiliteOp::ChangeRows(RowChanges::inserted(inserted));

    assert_eq!(
        MultiliteOp::decode(&operation.encode(), &statements, &Indexes::new()).unwrap(),
        operation
    );
    assert_eq!(
        MultiliteOp::decode(&[], &statements, &Indexes::new()),
        Err(OperationCodecError::Truncated)
    );
    assert_eq!(
        MultiliteOp::decode(&[2, CREATE_TABLE_OPERATION], &statements, &Indexes::new()),
        Err(OperationCodecError::UnknownVersion(2))
    );
    assert_eq!(
        MultiliteOp::decode(&[1, 77], &statements, &Indexes::new()),
        Err(OperationCodecError::UnknownKind(77))
    );
    assert!(matches!(
        MultiliteOp::decode(&[1, CREATE_TABLE_OPERATION, 0], &statements, &Indexes::new()),
        Err(OperationCodecError::InvalidPayload(_))
    ));

    let deleted = MultiliteOp::ChangeRows(RowChanges::deleted(
        &DeletedRowsFixture::from_catalog(&catalog, &[note(7)]).unwrap().unwrap(),
    ));
    assert_eq!(
        MultiliteOp::decode(&deleted.encode(), &statements, &Indexes::new()).unwrap(),
        deleted
    );
    let (mutations, footprint) = deleted.to_homebase(&statements).unwrap().into_parts();
    assert!(matches!(mutations.as_slice(), [Mutation::Delete { .. }]));
    assert_eq!(footprint.writes().len(), 1);

    let update_table = CreateTable::new(
        "CREATE TABLE updates (id INTEGER PRIMARY KEY, body TEXT)",
        table(
            "updates",
            vec![
                column("id", TypeDeclaration::integer(), Some(0)),
                column("body", TypeDeclaration::text(), None),
            ],
        ),
    );
    let catalog = catalog.insert(&update_table).unwrap();
    let image = |body: &str| CapturedRow {
        table: "updates".to_string(),
        rowid: 7,
        values: vec![StoredValue::Integer(7), StoredValue::Text(body.as_bytes().to_vec())],
    };
    let updated = MultiliteOp::ChangeRows(RowChanges::updated(
        &UpdatedRowsFixture::from_catalog(&catalog, &[(image("before"), image("after"))])
            .unwrap()
            .unwrap(),
    ));
    assert_eq!(
        MultiliteOp::decode(&updated.encode(), &statements, &Indexes::new()).unwrap(),
        updated
    );
    let (mutations, footprint) = updated.to_homebase(&statements).unwrap().into_parts();
    assert!(matches!(mutations.as_slice(), [Mutation::Put { .. }]));
    assert_eq!(footprint.writes().len(), 1);
}

#[test]
fn manifest_and_homebase_batch_roundtrip_ordered_operations() {
    let statements = statements();
    let transaction = mixed_transaction();
    let encoded = transaction.encode().unwrap();
    let decoded = MultiliteTransaction::decode(&encoded, &statements, &Indexes::new()).unwrap();
    assert_eq!(decoded, transaction);

    let lowered = transaction.to_homebase(&statements).unwrap();
    let compiled = decoded.compile(&statements).unwrap();
    assert_eq!(compiled.logical(), &transaction);
    assert_eq!(compiled.homebase(), &lowered);
    assert!(matches!(
        compiled.rejection(),
        [
            RejectionEffect::RestoreRowChanges { .. },
            RejectionEffect::RemoveCreatedTable { .. }
        ]
    ));
    let held = transaction
        .operations()
        .iter()
        .map(|operation| operation.to_homebase(&statements).unwrap().mutations().len())
        .collect::<Vec<_>>();
    assert_eq!(held, [9, 1]);
    assert_eq!(lowered.mutations().len(), 1 + 9 + 1);
    assert_eq!(lowered.footprint().writes().len(), 2);
    assert_eq!(lowered.footprint().constraints().len(), 4);
    assert!(lowered.footprint().reads().is_empty());
    let Mutation::Put { key, value } = &lowered.mutations()[0] else {
        panic!("manifest was not a set")
    };
    assert_eq!(key.components()[1].as_bytes(), codes::TRANSACTIONS.as_bytes());
    assert_eq!(value, &encoded);
    assert_eq!(
        MultiliteTransaction::from_homebase(lowered.mutations(), &statements, &Indexes::new())
            .unwrap(),
        transaction
    );
}

#[test]
fn manifest_codec_enforces_operation_and_byte_budgets() {
    let statements = statements();
    let transaction = MultiliteTransaction::new(vec![create_operation()]).unwrap();
    assert!(matches!(
        transaction.encode_with_limits(0, usize::MAX),
        Err(Error::CaptureLimitExceeded { resource: "transaction operation count", limit: 0 })
    ));
    assert!(matches!(
        transaction.encode_with_limits(usize::MAX, 1),
        Err(Error::CaptureLimitExceeded { resource: "transaction frame bytes", limit: 1 })
    ));

    let encoded = transaction.encode().unwrap();
    assert_eq!(
        MultiliteTransaction::decode_with_limits(
            &encoded,
            &statements,
            &Indexes::new(),
            0,
            encoded.len(),
        ),
        Err(TransactionCodecError::TooManyOperations)
    );
    assert_eq!(
        MultiliteTransaction::decode_with_limits(
            &encoded,
            &statements,
            &Indexes::new(),
            usize::MAX,
            encoded.len() - 1,
        ),
        Err(TransactionCodecError::FrameTooLarge)
    );
}

#[test]
fn current_operations_plan_identically_at_both_isolation_levels() {
    let transaction = mixed_transaction();
    let frontier = AdmissionSeq(23);
    let planned = |isolation| {
        transaction.to_homebase(&statements()).unwrap().plan(isolation, frontier).1
    };
    let snapshot = planned(IsolationLevel::Snapshot);
    let serializable = planned(IsolationLevel::Serializable);

    assert_eq!(snapshot, serializable);
    assert_eq!(snapshot.len(), 4);
    assert!(snapshot.iter().all(|assertion| assertion.upto == frontier));
}

#[test]
fn admitted_batch_rejects_missing_extra_and_crossed_operation_mutations() {
    let statements = statements();
    let lowered = mixed_transaction().to_homebase(&statements).unwrap().into_parts().0;
    let refused = |mutations: &[Mutation]| {
        matches!(
            MultiliteTransaction::from_homebase(mutations, &statements, &Indexes::new()),
            Err(Error::InvalidMultiliteTransaction(_))
        )
    };

    let mut missing = lowered.clone();
    missing.pop();
    assert!(refused(&missing));

    let mut extra = lowered.clone();
    extra.push(lowered.last().unwrap().clone());
    assert!(refused(&extra));

    let mut crossed = lowered.clone();
    crossed.swap(1, 7);
    assert!(refused(&crossed));

    assert!(!refused(&lowered));
    assert!(refused(&[]));
    assert!(refused(&lowered[1..]));
}

#[test]
fn manifest_rejects_empty_invalid_uuid_and_truncation() {
    let statements = statements();
    let decode = |frame: &[u8]| MultiliteTransaction::decode(frame, &statements, &Indexes::new());
    assert_eq!(decode(&[]), Err(TransactionCodecError::Truncated));
    let mut empty = vec![TRANSACTION_FRAME_VERSION];
    field(&mut empty, TAG_TRANSACTION_ID, &test_uuid(1));
    assert_eq!(decode(&empty), Err(TransactionCodecError::Empty));
    let mut invalid_id = vec![TRANSACTION_FRAME_VERSION];
    field(&mut invalid_id, TAG_TRANSACTION_ID, &[0; 16]);
    field(&mut invalid_id, TAG_OPERATION, &create_operation().encode());
    assert_eq!(decode(&invalid_id), Err(TransactionCodecError::InvalidUuid));
}

#[test]
fn manifest_names_the_field_that_it_refuses() {
    let statements = statements();
    let decode = |frame: &[u8]| MultiliteTransaction::decode(frame, &statements, &Indexes::new());
    let version = TRANSACTION_FRAME_VERSION;
    assert_eq!(decode(&[version + 1]), Err(TransactionCodecError::UnknownVersion(version + 1)));

    let mut nameless = vec![version];
    field(&mut nameless, TAG_OPERATION, &create_operation().encode());
    assert_eq!(decode(&nameless), Err(TransactionCodecError::MissingField(TAG_TRANSACTION_ID)));

    let mut repeated = vec![version];
    field(&mut repeated, TAG_TRANSACTION_ID, &test_uuid(1));
    field(&mut repeated, TAG_TRANSACTION_ID, &test_uuid(1));
    assert_eq!(decode(&repeated), Err(TransactionCodecError::DuplicateField(TAG_TRANSACTION_ID)));

    let mut short = vec![version];
    field(&mut short, TAG_TRANSACTION_ID, &[1; 3]);
    assert_eq!(decode(&short), Err(TransactionCodecError::InvalidLength));

    let mut broken = vec![version];
    field(&mut broken, TAG_TRANSACTION_ID, &test_uuid(1));
    field(&mut broken, TAG_OPERATION, &[1, 77]);
    assert!(matches!(decode(&broken), Err(TransactionCodecError::InvalidOperation(_))));

    assert!(matches!(
        MultiliteTransaction::new(Vec::new()),
        Err(Error::InvalidMultiliteTransaction(message))
            if message == "transaction contains no operations"
    ));
}

#[test]
fn compiled_operations_make_the_transaction_that_they_come_from() {
    let statements = statements();
    let operation = create_operation();
    let expected = operation.to_homebase(&statements).unwrap();
    let compiled = operation.compile(&statements).unwrap();
    let transaction =
        MultiliteTransaction::from_compiled_operations(vec![compiled]).unwrap();
    assert_eq!(&transaction.homebase().mutations()[1..], expected.mutations());
    assert_eq!(transaction.logical().operations().len(), 1);
    assert!(transaction.logical().repair_ids().is_empty());
    assert_eq!(
        MultiliteTransaction::from_homebase(
            transaction.homebase().mutations(),
            &statements,
            &Indexes::new(),
        )
            .unwrap(),
        *transaction.logical()
    );
    assert!(MultiliteTransaction::from_compiled_operations(Vec::new()).is_err());
}
