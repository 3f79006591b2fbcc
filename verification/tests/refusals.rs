use multilite::catalog::CatalogSnapshot;
use multilite::identity::{uuid_bytes, UuidError};
use multilite::key::{Key, KeyError};
use multilite::logical::alter::error::AlterTableCodecError;
use multilite::logical::alter::frame as alter_frame;
use multilite::logical::alter::operation::AlterTableOperation;
use multilite::logical::drop_table::error::DropTableCodecError;
use multilite::logical::drop_table::frame as drop_frame;
use multilite::logical::drop_table::frame::DropTableOperation;
use multilite::logical::index::Indexes;
use multilite::logical::row::capture::CapturedRow;
use multilite::logical::row::cells::{Cell, Row, ROW_IMAGE_FRAME_VERSION, TAG_COLUMN_VALUE};
use multilite::logical::row::error::RowCodecError;
use multilite::logical::row::rules as set_frame;
use multilite::logical::row::set::RowSet;
use multilite::logical::schema::definition as table_frame;
use multilite::logical::schema::definition::CreateTable;
use multilite::logical::schema::error::SchemaCodecError;
use multilite::logical::schema::statement::{
    CreateColumn, CreateTableSpec, CreateViewSpec, DropTableSpec, RenameTableSpec, Statements,
    ValidatedExecute,
};
use multilite::logical::transaction::codec::{MultiliteTransaction, TransactionCodecError};
use multilite::logical::types::{TableMode, TableStorage, TypeDeclaration};
use multilite::logical::view::error::ViewCodecError;
use multilite::logical::view::frame as view_frame;
use multilite::logical::view::frame::ViewOperation;
use multilite::name::SqlName;
use multilite::repair::tuple::{decode_tuple, RepairCodecError};
use multilite::value::{StoredValue, StoredValueCodecError};

const CREATE: &str = "CREATE TABLE memberships (tenant TEXT PRIMARY KEY) WITHOUT ROWID";
const DROP: &str = "DROP TABLE memberships";
const RENAME: &str = "ALTER TABLE memberships RENAME TO members";
const VIEW: &str = "CREATE VIEW tenants AS SELECT tenant FROM memberships";

fn name(text: &str) -> SqlName {
    SqlName::new(text.to_string())
}

fn memberships() -> CreateTable {
    CreateTable::new(
        CREATE,
        CreateTableSpec {
            name: name("memberships"),
            mode: TableMode::Ordinary,
            storage: TableStorage::WithoutRowid,
            primary_key_name: None,
            columns: vec![CreateColumn {
                name: name("tenant"),
                declared_type: TypeDeclaration::text(),
                not_null: true,
                not_null_name: None,
                default: None,
                primary_key: Some(0),
            }],
            unique_constraints: Vec::new(),
            foreign_keys: Vec::new(),
            checks: Vec::new(),
        },
    )
}

fn catalog() -> CatalogSnapshot {
    CatalogSnapshot::new().insert(&memberships()).unwrap()
}

fn rename() -> RenameTableSpec {
    RenameTableSpec { table: name("memberships"), new_name: name("members") }
}

fn removal() -> DropTableSpec {
    DropTableSpec { name: name("memberships") }
}

fn tenants() -> CreateViewSpec {
    CreateViewSpec { name: name("tenants"), dependencies: vec![name("memberships")] }
}

fn statements() -> Statements {
    let mut statements = Statements::new();
    statements.record(RENAME.to_string(), ValidatedExecute::RenameTable(rename()));
    statements.record(DROP.to_string(), ValidatedExecute::DropTable(removal()));
    statements.record(VIEW.to_string(), ValidatedExecute::CreateView(tenants()));
    statements
}

/// A frame taken apart into its version and its fields.
#[derive(Clone)]
struct Frame {
    version: u8,
    fields: Vec<(u8, Vec<u8>)>,
}

impl Frame {
    fn of(encoded: &[u8]) -> Frame {
        let mut fields = Vec::new();
        let mut rest = &encoded[1..];
        while !rest.is_empty() {
            let length = u32::from_be_bytes([rest[1], rest[2], rest[3], rest[4]]) as usize;
            fields.push((rest[0], rest[5..5 + length].to_vec()));
            rest = &rest[5 + length..];
        }
        Frame { version: encoded[0], fields }
    }

    fn bytes(&self) -> Vec<u8> {
        let mut bytes = vec![self.version];
        for (tag, payload) in &self.fields {
            bytes.push(*tag);
            bytes.extend_from_slice(&(payload.len() as u32).to_be_bytes());
            bytes.extend_from_slice(payload);
        }
        bytes
    }

    fn newer(&self) -> Vec<u8> {
        Frame { version: self.version + 1, fields: self.fields.clone() }.bytes()
    }

    fn cut(&self) -> Vec<u8> {
        let mut bytes = self.bytes();
        bytes.pop();
        bytes
    }

    fn without(&self, tag: u8) -> Vec<u8> {
        let mut frame = self.clone();
        frame.fields.retain(|field| field.0 != tag);
        frame.bytes()
    }

    fn twice(&self, tag: u8) -> Vec<u8> {
        let mut frame = self.clone();
        let again = frame.fields.iter().find(|field| field.0 == tag).unwrap().clone();
        frame.fields.push(again);
        frame.bytes()
    }

    fn with(&self, tag: u8, payload: &[u8]) -> Vec<u8> {
        let mut frame = self.clone();
        for field in &mut frame.fields {
            if field.0 == tag {
                field.1 = payload.to_vec();
            }
        }
        frame.bytes()
    }
}

#[test]
fn definitions_name_what_is_wrong_with_their_frames() {
    let frame = Frame::of(&memberships().encode());
    let error = |bytes: Vec<u8>| CreateTable::decode(&bytes).unwrap_err();
    assert_eq!(CreateTable::decode(&frame.bytes()).unwrap().encode(), frame.bytes());
    assert_eq!(error(frame.newer()), SchemaCodecError::UnknownVersion);
    assert_eq!(error(frame.cut()), SchemaCodecError::Truncated);
    for tag in [table_frame::TAG_TABLE_SQL, table_frame::TAG_TABLE_ID] {
        assert_eq!(error(frame.twice(tag)), SchemaCodecError::DuplicateField);
        assert_eq!(error(frame.without(tag)), SchemaCodecError::MissingField(tag));
    }
    let id = table_frame::TAG_TABLE_ID;
    assert_eq!(error(frame.with(id, &[1; 15])), SchemaCodecError::InvalidLength);
    assert_eq!(error(frame.with(id, &[0; 16])), SchemaCodecError::InvalidUuid);
    let sql = table_frame::TAG_TABLE_SQL;
    assert_eq!(error(frame.with(sql, &[0xff])), SchemaCodecError::InvalidUtf8);
    let column = table_frame::TAG_TABLE_COLUMN;
    assert_eq!(error(frame.without(column)), SchemaCodecError::InvalidSchema);
}

#[test]
fn alterations_name_what_is_wrong_with_their_frames() {
    let statements = statements();
    let operation = AlterTableOperation::prepare_rename_table(
        &catalog(),
        &statements,
        RENAME,
        &rename(),
    )
    .unwrap();
    let frame = Frame::of(&operation.encode());
    let error = |bytes: Vec<u8>| AlterTableOperation::decode(&bytes, &statements).unwrap_err();
    assert_eq!(AlterTableOperation::decode(&frame.bytes(), &statements).unwrap(), operation);
    assert_eq!(error(frame.newer()), AlterTableCodecError::UnknownVersion);
    assert_eq!(error(frame.cut()), AlterTableCodecError::Truncated);
    let (id, sql) = (alter_frame::TAG_MUTATION_ID, alter_frame::TAG_SQL);
    assert_eq!(error(frame.twice(id)), AlterTableCodecError::DuplicateField);
    assert_eq!(error(frame.without(id)), AlterTableCodecError::MissingField(id));
    assert_eq!(error(frame.with(id, &[1; 15])), AlterTableCodecError::InvalidLength);
    assert_eq!(error(frame.with(id, &[0; 16])), AlterTableCodecError::InvalidUuid);
    assert_eq!(error(frame.with(sql, &[0xff])), AlterTableCodecError::InvalidUtf8);
    assert_eq!(error(frame.with(sql, b"VACUUM")), AlterTableCodecError::InvalidSql);
    assert_eq!(error(frame.with(sql, DROP.as_bytes())), AlterTableCodecError::InvalidRename);
    let action = alter_frame::TAG_ACTION;
    assert_eq!(error(frame.with(action, &[99])), AlterTableCodecError::InvalidAction);
    let mut extended = frame.clone();
    extended.fields.push((alter_frame::TAG_BEFORE, vec![0]));
    assert_eq!(error(extended.bytes()), AlterTableCodecError::InvalidSchema);
}

#[test]
fn drops_name_what_is_wrong_with_their_frames() {
    let statements = statements();
    let operation =
        DropTableOperation::prepare(&catalog(), &[], &statements, DROP, &removal()).unwrap();
    let frame = Frame::of(&operation.encode());
    let error = |bytes: Vec<u8>| DropTableOperation::decode(&bytes, &statements).unwrap_err();
    assert_eq!(DropTableOperation::decode(&frame.bytes(), &statements).unwrap(), operation);
    assert_eq!(error(frame.newer()), DropTableCodecError::UnknownVersion);
    assert_eq!(error(frame.cut()), DropTableCodecError::Truncated);
    let (id, sql) = (drop_frame::TAG_MUTATION_ID, drop_frame::TAG_SQL);
    assert_eq!(error(frame.twice(id)), DropTableCodecError::DuplicateField);
    assert_eq!(error(frame.without(id)), DropTableCodecError::MissingField(id));
    assert_eq!(error(frame.with(id, &[1; 15])), DropTableCodecError::InvalidLength);
    assert_eq!(error(frame.with(id, &[0; 16])), DropTableCodecError::InvalidUuid);
    assert_eq!(error(frame.with(sql, &[0xff])), DropTableCodecError::InvalidUtf8);
    assert_eq!(error(frame.with(sql, RENAME.as_bytes())), DropTableCodecError::InvalidSql);
    let source = drop_frame::TAG_SOURCE_TABLE;
    assert_eq!(error(frame.with(source, b"other")), DropTableCodecError::SqlMismatch);
    let before = drop_frame::TAG_BEFORE;
    assert_eq!(error(frame.with(before, &[0])), DropTableCodecError::InvalidSchema);
}

#[test]
fn views_name_what_is_wrong_with_their_frames() {
    let statements = statements();
    let operation =
        ViewOperation::prepare_create(&catalog(), &statements, VIEW, &tenants()).unwrap();
    let frame = Frame::of(&operation.encode());
    let error = |bytes: Vec<u8>| ViewOperation::decode(&bytes, &statements).unwrap_err();
    assert_eq!(ViewOperation::decode(&frame.bytes(), &statements).unwrap(), operation);
    assert_eq!(error(frame.newer()), ViewCodecError::UnknownVersion);
    assert_eq!(error(frame.cut()), ViewCodecError::Truncated);
    let (id, sql) = (view_frame::TAG_MUTATION_ID, view_frame::TAG_CREATE_SQL);
    assert_eq!(error(frame.twice(id)), ViewCodecError::DuplicateField);
    assert_eq!(error(frame.without(id)), ViewCodecError::MissingField(id));
    assert_eq!(error(frame.with(id, &[1; 15])), ViewCodecError::InvalidLength);
    assert_eq!(error(frame.with(id, &[0; 16])), ViewCodecError::InvalidUuid);
    assert_eq!(error(frame.with(sql, &[0xff])), ViewCodecError::InvalidUtf8);
    assert_eq!(error(frame.with(sql, DROP.as_bytes())), ViewCodecError::InvalidSql);
    let action = view_frame::TAG_ACTION;
    assert_eq!(error(frame.with(action, &[99])), ViewCodecError::InvalidAction);
    let named = view_frame::TAG_NAME;
    assert_eq!(error(frame.with(named, b"other")), ViewCodecError::SqlMismatch);
    let dependency = view_frame::TAG_DEPENDENCY;
    assert_eq!(error(frame.without(dependency)), ViewCodecError::SqlMismatch);
}

fn tenant(value: StoredValue) -> CapturedRow {
    CapturedRow { table: "memberships".to_string(), rowid: 0, values: vec![value] }
}

#[test]
fn row_sets_name_what_is_wrong_with_their_frames() {
    let north = tenant(StoredValue::Text(b"north".to_vec()));
    let set = RowSet::from_catalog(&catalog(), &[north]).unwrap().unwrap();
    let frame = Frame::of(&set.encode());
    let error = |bytes: Vec<u8>| RowSet::decode(&bytes).unwrap_err();
    assert_eq!(RowSet::decode(&frame.bytes()).unwrap(), set);
    assert_eq!(error(frame.newer()), RowCodecError::UnknownVersion);
    assert_eq!(error(frame.cut()), RowCodecError::Truncated);
    let table = set_frame::TAG_SET_TABLE;
    assert_eq!(error(frame.twice(table)), RowCodecError::DuplicateField);
    assert_eq!(error(frame.without(table)), RowCodecError::MissingField(table));
    assert_eq!(error(frame.with(table, &[1; 15])), RowCodecError::InvalidLength);
    assert_eq!(error(frame.with(table, &[0; 16])), RowCodecError::InvalidUuid);

    let image = Frame::of(&set.rows[0].encode());
    assert_eq!(image.version, ROW_IMAGE_FRAME_VERSION);
    let mut cell = set.rows[0].values[0].encode();
    let kind = cell.len() - b"north".len() - 1;
    cell[kind] = 77;
    assert_eq!(
        Row::decode(&image.with(TAG_COLUMN_VALUE, &cell)),
        Err(RowCodecError::InvalidValue)
    );

    let row = |value: StoredValue| Row {
        values: vec![Cell { column: set.rows[0].values[0].column, value }],
    };
    assert_eq!(
        set.rules.row_key(&row(StoredValue::Null)),
        Err(RowCodecError::NullPrimaryKey)
    );
    assert_eq!(
        set.rules.row_key(&row(StoredValue::Text(vec![120; 255]))),
        Err(RowCodecError::InvalidKey(KeyError::ComponentTooLong))
    );
    assert!(set.rules.row_key(&row(StoredValue::Text(vec![120; 254]))).is_ok());
    assert_eq!(
        set.rules.row_key(&row(StoredValue::Integer(7))),
        Err(RowCodecError::InvalidRow)
    );
}

#[test]
fn small_codecs_name_what_they_refuse() {
    assert_eq!(StoredValue::decode(&[]), Err(StoredValueCodecError::Truncated));
    assert_eq!(StoredValue::decode(&[9]), Err(StoredValueCodecError::InvalidKind(9)));
    assert_eq!(decode_tuple(&[1, 1, 0, 0, 0, 2, 4]), Err(RepairCodecError::Truncated));
    assert_eq!(decode_tuple(&[1, 1, 0, 0, 0, 1, 9]), Err(RepairCodecError::InvalidValue));
    assert_eq!(uuid_bytes(&[1; 15]), Err(UuidError::Length));
    assert_eq!(uuid_bytes(&[0; 16]), Err(UuidError::Kind));
    assert_eq!(Key::from_bytes(vec![vec![0; 256]]), Err(KeyError::ComponentTooLong));
    assert!(Key::from_bytes(vec![vec![0; 255]]).is_ok());
    assert_eq!(
        MultiliteTransaction::raise(&[], &statements(), &Indexes::new()),
        Err(TransactionCodecError::InvalidBatch)
    );
}
