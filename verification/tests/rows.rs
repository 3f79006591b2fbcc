use multilite::catalog::CatalogSnapshot;
use multilite::error::Error;
use multilite::footprint::{AdmissionSeq, ConflictFootprint};
use multilite::identity::{ColumnId, IndexId, SchemaRevisionId};
use multilite::key::{Key, Mutation, Range};
use multilite::logical::alter::operation::AlterTableOperation;
use multilite::logical::alter::rebuild::{rebuild_table_if_needed, HeldColumn};
use multilite::logical::alter::steps::AlterStep;
use multilite::logical::codes;
use multilite::logical::contract::{GuardClass, GuardReason, MutationKind, OperationFamily};
use multilite::logical::guard::validate_compiled_output;
use multilite::logical::isolation::IsolationLevel;
use multilite::logical::layout::{active_primary_index_key, write_revision_key};
use multilite::logical::operation::codec::MultiliteOp;
use multilite::logical::row::apply::{
    check_changed, check_references, check_retired_key, start_mismatch, TableReplay,
    AFTER_DIVERGED, DIVERGED, INSERT_DIVERGED,
};
use multilite::logical::row::audit::{
    backfill_unique_index, expected_materialized_cells, table_scan, validate_materialized_cells,
};
use multilite::logical::row::capture::{CaptureBudget, CapturedChange, CapturedRow};
use multilite::logical::row::cells::{
    decode_stored_row, Row, RowDelta, ROW_DELTA_FRAME_VERSION, ROW_FRAME_VERSION,
    TAG_COLUMN_VALUE, TAG_DELTA_AFTER, TAG_DELTA_BEFORE, TAG_SCHEMA_REVISION,
};
use multilite::logical::row::changes::{
    RowChanges, TableChanges, ROW_CHANGES_FRAME_VERSION, TABLE_CHANGES_FRAME_VERSION,
    TAG_CHANGED_TABLE, TAG_CHANGE_ROW, TAG_CHANGE_RULES,
};
use multilite::logical::row::context::{
    enter_context, leave_context, ContextStep, Settings,
};
use multilite::logical::row::error::RowCodecError;
use multilite::logical::row::fixture::{DeletedRowsFixture, UpdatedRowsFixture};
use multilite::logical::row::image::{key_image, normalize_captured_value};
use multilite::logical::row::keys::{
    foreign_reference_prefix, row_prefix, unique_prefix, IndexEntry,
};
use multilite::logical::row::lower::prune_redundant_point_deletes;
use multilite::logical::row::owners::OwnerMap;
use multilite::logical::row::prefix::primary_key_prefix;
use multilite::logical::row::rules::{
    KeyPartRules, RowRules, ROW_SET_FRAME_VERSION, TAG_COLUMN_AFFINITY, TAG_COLUMN_ID,
    TAG_KEY_PART_FLAGS, TAG_SET_ROW, TAG_SET_TABLE,
};
use multilite::logical::row::set::RowSet;
use multilite::logical::row::statement::{RowStatement, Values};
use multilite::logical::row::steps::RowStep;
use multilite::logical::schema::definition::{CreateTable, NamedIndex};
use multilite::logical::schema::statement::{
    AddColumnSpec, CreateColumn, CreateForeignKey, CreateTableSpec, CreateUnique,
    DefaultDefinition, DropColumnSpec, RenameTableSpec, Statements, ValidatedExecute,
};
use multilite::logical::target::TargetFamily;
use multilite::logical::transaction::codec::MultiliteTransaction;
use multilite::logical::types::{
    Affinity, ForeignKeyAction, TableMode, TableStorage, TypeDeclaration,
};
use multilite::name::SqlName;
use multilite::value::{StoredValue, StoredValueCodecError};
use rusqlite::config::DbConfig;
use rusqlite::types::{ToSqlOutput, ValueRef};
use rusqlite::{params_from_iter, Connection, OptionalExtension, ToSql};
use std::collections::{BTreeMap, BTreeSet};

struct Bound<'a>(&'a StoredValue);

impl ToSql for Bound<'_> {
    fn to_sql(&self) -> rusqlite::Result<ToSqlOutput<'_>> {
        Ok(ToSqlOutput::Borrowed(match self.0 {
            StoredValue::Null => ValueRef::Null,
            StoredValue::Integer(value) => ValueRef::Integer(*value),
            StoredValue::Real(bits) => ValueRef::Real(f64::from_bits(*bits)),
            StoredValue::Text(bytes) => ValueRef::Text(bytes),
            StoredValue::Blob(bytes) => ValueRef::Blob(bytes),
        }))
    }
}

fn captured(value: ValueRef<'_>) -> StoredValue {
    match value {
        ValueRef::Null => StoredValue::Null,
        ValueRef::Integer(value) => StoredValue::Integer(value),
        ValueRef::Real(value) => StoredValue::Real(value.to_bits()),
        ValueRef::Text(bytes) => StoredValue::Text(bytes.to_vec()),
        ValueRef::Blob(bytes) => StoredValue::Blob(bytes.to_vec()),
    }
}

fn bind(values: &Values) -> impl rusqlite::Params + '_ {
    params_from_iter(values.values.iter().map(Bound))
}

fn name(text: &str) -> SqlName {
    SqlName::new(text.to_string())
}

fn column(text: &str, declared_type: TypeDeclaration, primary_key: Option<u32>) -> CreateColumn {
    CreateColumn {
        name: name(text),
        declared_type,
        not_null: false,
        not_null_name: None,
        default: None,
        primary_key,
    }
}

fn table(text: &str, columns: Vec<CreateColumn>) -> CreateTableSpec {
    CreateTableSpec {
        name: name(text),
        mode: TableMode::Ordinary,
        storage: TableStorage::Rowid,
        primary_key_name: None,
        columns,
        unique_constraints: Vec::new(),
        foreign_keys: Vec::new(),
        checks: Vec::new(),
    }
}

fn unique(constraint: Option<&str>, columns: &[&str]) -> CreateUnique {
    CreateUnique {
        name: constraint.map(name),
        columns: columns.iter().map(|column| name(column)).collect(),
    }
}

fn integer() -> TypeDeclaration {
    TypeDeclaration::integer()
}

fn text_type() -> TypeDeclaration {
    TypeDeclaration::text()
}

struct Database {
    connection: Connection,
    catalog: CatalogSnapshot,
}

impl Database {
    fn empty() -> Database {
        Database {
            connection: Connection::open_in_memory().unwrap(),
            catalog: CatalogSnapshot::new(),
        }
    }

    fn with(created: &CreateTable) -> Database {
        let mut database = Database::empty();
        database.add(created);
        database
    }

    fn add(&mut self, created: &CreateTable) {
        self.connection.execute(&created.sql, ()).unwrap();
        let catalog = std::mem::replace(&mut self.catalog, CatalogSnapshot::new());
        self.catalog = catalog.insert(created).unwrap();
    }

    fn create(&mut self, sql: &str, spec: CreateTableSpec) -> CreateTable {
        let created = CreateTable::prepare(&self.catalog, sql, spec).unwrap();
        self.add(&created);
        created
    }

    fn rows(&self, captured: &[CapturedRow]) -> RowSet {
        RowSet::from_catalog(&self.catalog, captured).unwrap().unwrap()
    }

    fn deletes(&self, captured: &[CapturedRow]) -> DeletedRowsFixture {
        DeletedRowsFixture::from_catalog(&self.catalog, captured).unwrap().unwrap()
    }

    fn updates(&self, captured: &[(CapturedRow, CapturedRow)]) -> UpdatedRowsFixture {
        UpdatedRowsFixture::from_catalog(&self.catalog, captured).unwrap().unwrap()
    }

    fn changes(&self, events: &[CapturedChange]) -> RowChanges {
        RowChanges::from_catalog(&self.catalog, events).unwrap().unwrap()
    }

    fn fetch(&self, created: &CreateTable, select: &RowStatement) -> Vec<Option<Row>> {
        let mut statement = self.connection.prepare(&select.sql).unwrap();
        select
            .parameters
            .iter()
            .map(|parameters| {
                statement
                    .query_row(bind(parameters), |row| {
                        Ok(Row {
                            values: created
                                .columns
                                .iter()
                                .enumerate()
                                .map(|(index, column)| {
                                    Ok(multilite::logical::row::cells::Cell {
                                        column: column.id,
                                        value: captured(row.get_ref(index)?),
                                    })
                                })
                                .collect::<rusqlite::Result<Vec<_>>>()?,
                        })
                    })
                    .optional()
                    .unwrap()
            })
            .collect()
    }

    fn run(&self, statement: &RowStatement, expected: Option<&'static str>) -> Result<(), Error> {
        for parameters in &statement.parameters {
            let changed = self.connection.execute(&statement.sql, bind(parameters)).unwrap();
            if let Some(mismatch) = expected {
                check_changed(changed, mismatch)?;
            }
        }
        Ok(())
    }

    fn insert(&self, set: &RowSet) -> Result<(), Error> {
        let created = set.definition(&self.catalog)?;
        self.run(&set.insert_plan(&self.catalog, created)?, None)
    }

    fn delete(&self, set: &RowSet) -> Result<(), Error> {
        let created = set.definition(&self.catalog)?;
        let found = self.fetch(created, &set.select_plan(&self.catalog, created)?);
        let delete = set.delete_materialized(&self.catalog, created, &found)?;
        self.run(&delete, Some(INSERT_DIVERGED))
    }

    fn apply_table(&self, replay: &TableReplay<'_>) -> Result<(), Error> {
        let TableReplay { changes, reverse } = *replay;
        let created = changes.definition(&self.catalog, reverse)?;
        let start = changes.start_set(reverse);
        let current = if start.rows.is_empty() {
            Vec::new()
        } else {
            let found = self.fetch(created, &start.select_plan(&self.catalog, created)?);
            start.match_rows(&found, start_mismatch(reverse))?
        };
        for step in changes.replay_steps(&self.catalog, created, reverse, &current)? {
            match step {
                RowStep::Remove(removal) => {
                    let found = self.fetch(created, &removal.select);
                    removal.rows.match_rows(&found, DIVERGED)?;
                    self.run(&removal.delete, Some(DIVERGED))?;
                }
                RowStep::Update(update) => self.run(&update, Some(DIVERGED))?,
                RowStep::Insert(insertion) => self.run(&insertion, None)?,
                RowStep::Fail(error) => return Err(error),
            }
        }
        Ok(())
    }

    fn config(&self, config: DbConfig, value: bool) {
        self.connection.set_db_config(config, value).unwrap();
    }

    fn steps(&self, steps: Vec<ContextStep>) {
        for step in steps {
            match step {
                ContextStep::Savepoint => self.execute("SAVEPOINT row_changes"),
                ContextStep::Triggers(on) => {
                    self.config(DbConfig::SQLITE_DBCONFIG_ENABLE_TRIGGER, on)
                }
                ContextStep::ForeignKeys(on) => {
                    self.config(DbConfig::SQLITE_DBCONFIG_ENABLE_FKEY, on)
                }
                ContextStep::Release => self.execute("RELEASE row_changes"),
                ContextStep::Rollback => {
                    self.execute("ROLLBACK TO row_changes; RELEASE row_changes")
                }
            }
        }
    }

    fn replay(&self, changes: &RowChanges, reverse: bool) -> Result<(), Error> {
        let config = |config| self.connection.db_config(config).unwrap();
        let before = Settings {
            triggers: config(DbConfig::SQLITE_DBCONFIG_ENABLE_TRIGGER),
            foreign_keys: config(DbConfig::SQLITE_DBCONFIG_ENABLE_FKEY),
        };
        self.steps(enter_context());
        let order = if reverse { changes.restore_materialized() } else { changes.apply() };
        let mut result = order.iter().try_for_each(|table| self.apply_table(table));
        if result.is_ok() {
            let violations = self.scalar("SELECT EXISTS(SELECT 1 FROM pragma_foreign_key_check)");
            result = check_references(violations);
        }
        self.steps(leave_context(before, result.is_ok()));
        result
    }

    fn apply(&self, changes: &RowChanges) -> Result<(), Error> {
        self.replay(changes, false)
    }

    fn restore(&self, changes: &RowChanges) -> Result<(), Error> {
        self.replay(changes, true)
    }

    fn verify(&self, changes: &RowChanges) -> Result<(), Error> {
        for changed in &changes.tables {
            if let Some(after) = changed.after_rows() {
                let created = after.definition(&self.catalog)?;
                let found = self.fetch(created, &after.select_plan(&self.catalog, created)?);
                after.match_rows(&found, AFTER_DIVERGED)?;
            }
            let retired = changed.retired_rows()?;
            if !retired.is_empty() {
                let retired = changed.rules.with_rows(retired);
                let created = retired.definition(&self.catalog)?;
                let absence = retired.absence_plan(&self.catalog, created)?;
                for parameters in &absence.parameters {
                    let found = self
                        .connection
                        .query_row(&absence.sql, bind(parameters), |_| Ok(()))
                        .optional()
                        .unwrap();
                    check_retired_key(found.is_some())?;
                }
            }
        }
        Ok(())
    }

    fn scalar<T: rusqlite::types::FromSql>(&self, sql: &str) -> T {
        self.connection.query_row(sql, (), |row| row.get(0)).unwrap()
    }

    fn execute(&self, sql: &str) {
        self.connection.execute_batch(sql).unwrap();
    }

    fn notes(&self) -> Vec<(i64, Option<String>, Vec<u8>)> {
        self.connection
            .prepare("SELECT id, body, payload FROM notes ORDER BY id")
            .unwrap()
            .query_map((), |row| Ok((row.get(0)?, row.get(1)?, row.get(2)?)))
            .unwrap()
            .map(|row| row.unwrap())
            .collect()
    }

    fn bodies(&self) -> Vec<(i64, String)> {
        self.connection
            .prepare("SELECT id, body FROM notes ORDER BY id")
            .unwrap()
            .query_map((), |row| Ok((row.get(0)?, row.get(1)?)))
            .unwrap()
            .map(|row| row.unwrap())
            .collect()
    }

    fn scan(&self, created: &CreateTable, table: &str) -> Vec<CapturedRow> {
        let sql = table_scan(&self.catalog, created).unwrap();
        self.connection
            .prepare(&sql)
            .unwrap()
            .query_map((), |row| {
                let values = (0..created.columns.len())
                    .map(|index| Ok(captured(row.get_ref(index)?)))
                    .collect::<rusqlite::Result<Vec<_>>>()?;
                Ok(created.scanned_row(table, values).unwrap())
            })
            .unwrap()
            .map(|row| row.unwrap())
            .collect()
    }
}

fn text(value: &str) -> StoredValue {
    StoredValue::Text(value.as_bytes().to_vec())
}

fn row(table: &str, rowid: i64, values: Vec<StoredValue>) -> CapturedRow {
    CapturedRow { table: table.to_string(), rowid, values }
}

fn numbered(table: &str, id: i64, rest: Vec<StoredValue>) -> CapturedRow {
    let mut values = vec![StoredValue::Integer(id)];
    values.extend(rest);
    row(table, id, values)
}

fn note(id: i64, body: &str) -> CapturedRow {
    numbered("notes", id, vec![text(body), StoredValue::Blob(Vec::new())])
}

fn profile(id: i64, tenant: &str, email: &str, username: &str) -> CapturedRow {
    numbered("profiles", id, vec![text(tenant), text(email), text(username)])
}

fn account(id: i64, organization: &str, email: &str) -> CapturedRow {
    numbered("accounts", id, vec![text(organization), text(email)])
}

fn notes_like(table_name: &str) -> CreateTable {
    CreateTable::new(
        &format!("CREATE TABLE {table_name} (id INTEGER PRIMARY KEY, body TEXT, payload BLOB)"),
        table(
            table_name,
            vec![
                column("id", integer(), Some(0)),
                column("body", text_type(), None),
                column("payload", TypeDeclaration::blob(), None),
            ],
        ),
    )
}

fn definition() -> CreateTable {
    notes_like("notes")
}

fn without_rowid_definition() -> CreateTable {
    let mut spec = table(
        "memberships",
        vec![
            column("tenant", text_type(), Some(1)),
            column("member", integer(), Some(0)),
            column("body", text_type(), None),
        ],
    );
    spec.storage = TableStorage::WithoutRowid;
    CreateTable::new(
        "CREATE TABLE memberships (
            tenant TEXT,
            member INTEGER,
            body TEXT,
            PRIMARY KEY (member, tenant)
        ) WITHOUT ROWID",
        spec,
    )
}

fn unique_definition() -> CreateTable {
    let mut spec = table(
        "accounts",
        vec![
            column("id", integer(), Some(0)),
            column("organization", text_type(), None),
            column("email", text_type(), None),
        ],
    );
    spec.unique_constraints.push(unique(None, &["organization", "email"]));
    CreateTable::new(
        "CREATE TABLE accounts (
            id INTEGER PRIMARY KEY,
            organization TEXT,
            email TEXT,
            UNIQUE (organization, email)
        )",
        spec,
    )
}

fn overlapping_unique_definition() -> CreateTable {
    let mut spec = table(
        "profiles",
        vec![
            column("id", integer(), Some(0)),
            column("tenant", text_type(), None),
            column("email", text_type(), None),
            column("username", text_type(), None),
        ],
    );
    spec.unique_constraints = vec![
        unique(Some("email_key"), &["email"]),
        unique(None, &["username"]),
        unique(Some("tenant_email"), &["tenant", "email"]),
        unique(Some("tenant_username"), &["tenant", "username"]),
    ];
    CreateTable::new(
        "CREATE TABLE profiles (
            id INTEGER PRIMARY KEY,
            tenant TEXT,
            email TEXT CONSTRAINT email_key UNIQUE,
            username TEXT UNIQUE,
            CONSTRAINT tenant_email UNIQUE (tenant, email),
            CONSTRAINT tenant_username UNIQUE (tenant, username)
        )",
        spec,
    )
}

fn reference(columns: &[&str], parent: &str, referenced: &[&str]) -> CreateForeignKey {
    CreateForeignKey {
        name: None,
        columns: columns.iter().map(|column| name(column)).collect(),
        referenced_table: name(parent),
        referenced_columns: Some(referenced.iter().map(|column| name(column)).collect()),
        on_delete: ForeignKeyAction::NoAction,
    }
}

fn foreign_key_tables() -> (Database, CreateTable, CreateTable) {
    let mut database = Database::empty();
    let parent = database.create(
        "CREATE TABLE parents (id INTEGER PRIMARY KEY, body TEXT)",
        table(
            "parents",
            vec![column("id", integer(), Some(0)), column("body", text_type(), None)],
        ),
    );
    let mut spec = table(
        "children",
        vec![
            column("id", integer(), Some(0)),
            column("parent", integer(), None),
            column("body", text_type(), None),
        ],
    );
    spec.foreign_keys.push(reference(&["parent"], "parents", &["id"]));
    let child = database.create(
        "CREATE TABLE children (
            id INTEGER PRIMARY KEY,
            parent INTEGER REFERENCES parents(id),
            body TEXT
        )",
        spec,
    );
    (database, parent, child)
}

fn unique_foreign_key_tables() -> (Database, CreateTable, CreateTable) {
    let mut database = Database::empty();
    let mut spec = table(
        "accounts",
        vec![
            column("id", integer(), Some(0)),
            column("tenant", text_type(), None),
            column("email", text_type(), None),
        ],
    );
    spec.unique_constraints.push(unique(None, &["tenant", "email"]));
    let parent = database.create(
        "CREATE TABLE accounts (
            id INTEGER PRIMARY KEY,
            tenant TEXT,
            email TEXT,
            UNIQUE (tenant, email)
        )",
        spec,
    );
    let mut spec = table(
        "messages",
        vec![
            column("id", integer(), Some(0)),
            column("tenant", text_type(), None),
            column("recipient", text_type(), None),
        ],
    );
    spec.foreign_keys.push(reference(&["tenant", "recipient"], "accounts", &["tenant", "email"]));
    let child = database.create(
        "CREATE TABLE messages (
            id INTEGER PRIMARY KEY,
            tenant TEXT,
            recipient TEXT,
            FOREIGN KEY (tenant, recipient) REFERENCES accounts (tenant, email)
        )",
        spec,
    );
    (database, parent, child)
}

fn inserted(database: &Database) -> RowSet {
    database.rows(&[
        numbered("notes", 7, vec![text("hello"), StoredValue::Blob(vec![0, 1])]),
        numbered("notes", 9, vec![StoredValue::Null, StoredValue::Blob(Vec::new())]),
    ])
}

fn key_of(mutation: &Mutation) -> &Key {
    match mutation {
        Mutation::Put { key, .. } | Mutation::Delete { key } => key,
        Mutation::DeleteRange { range: Range::Prefix(key) } => key,
        Mutation::DeleteRange { range: Range::Full } => unreachable!(),
    }
}

fn component(mutation: &Mutation, index: usize) -> Vec<u8> {
    key_of(mutation).components()[index].as_bytes().to_vec()
}

fn is_unique(mutation: &&Mutation) -> bool {
    component(mutation, 3) == codes::UNIQUE.as_bytes()
}

fn deletes_range(mutations: &[Mutation], prefix: &Key) -> bool {
    mutations.iter().any(|mutation| {
        matches!(mutation, Mutation::DeleteRange { range: Range::Prefix(key) } if key == prefix)
    })
}

fn assert_explicit_range_assertions(footprint: &ConflictFootprint, keys: &[Key]) {
    let upto = AdmissionSeq(7);
    let asserted = footprint.plan(IsolationLevel::Snapshot, upto);
    for key in keys {
        assert!(asserted.iter().any(|assertion| {
            assertion.upto == upto && assertion.range == Range::Prefix(key.clone())
        }));
    }
}

struct Frame(Vec<u8>);

impl Frame {
    fn versioned(version: u8) -> Frame {
        Frame(vec![version])
    }

    fn field(mut self, tag: u8, payload: &[u8]) -> Frame {
        self.0.push(tag);
        self.0.extend_from_slice(&(payload.len() as u32).to_be_bytes());
        self.0.extend_from_slice(payload);
        self
    }
}

#[test]
fn range_retirements_prune_only_redundant_point_deletes() {
    let key = |parts: &[&[u8]]| {
        Key::from_bytes(parts.iter().map(|part| part.to_vec()).collect()).unwrap()
    };
    let prefix = key(&[b"foreign", b"parent"]);
    let covered = key(&[b"foreign", b"parent", b"child"]);
    let sibling = key(&[b"foreign", b"other", b"child"]);
    let mut mutations = vec![
        Mutation::Delete { key: covered.clone() },
        Mutation::Put { key: covered.clone(), value: b"replacement".to_vec() },
        Mutation::Delete { key: sibling.clone() },
        Mutation::DeleteRange { range: Range::Prefix(prefix.clone()) },
    ];

    prune_redundant_point_deletes(&mut mutations);

    assert_eq!(
        mutations,
        vec![
            Mutation::Put { key: covered, value: b"replacement".to_vec() },
            Mutation::Delete { key: sibling },
            Mutation::DeleteRange { range: Range::Prefix(prefix) },
        ]
    );
}

#[test]
fn capture_budget_fails_deterministically_and_can_be_reused() {
    let event = CapturedChange::Insert(note(7, "hello"));
    let retained = event.retained_bytes().unwrap();

    let mut count = CaptureBudget::with_limits(1, usize::MAX);
    count.record(&event).unwrap();
    assert!(matches!(
        count.record(&event),
        Err(Error::CaptureLimitExceeded { resource: "row-change count", limit: 1 })
    ));
    count.reset();
    count.record(&event).unwrap();

    let mut bytes = CaptureBudget::with_limits(usize::MAX, retained - 1);
    assert!(matches!(
        bytes.record(&event),
        Err(Error::CaptureLimitExceeded { resource: "row-capture bytes", limit })
            if limit == retained - 1
    ));
}

#[test]
fn normalized_row_changes_enforce_count_and_frame_budgets() {
    let database = Database::with(&definition());
    let changes = database.changes(&[CapturedChange::Insert(note(7, "hello"))]);

    assert_eq!(
        changes.validate_budget_with(0, usize::MAX),
        Err(RowCodecError::TooManyChanges)
    );
    assert_eq!(changes.validate_budget_with(usize::MAX, 1), Err(RowCodecError::FrameTooLarge));
    changes
        .validate_budget_with(changes.tables[0].rows.len(), changes.encode().len())
        .unwrap();
}

#[test]
fn statement_delta_folds_repeated_touches_and_cancels_transient_rows() {
    let database = Database::with(&definition());
    database.execute("INSERT INTO notes VALUES (7, 'before', x'')");
    let transient = note(9, "transient");
    let transient_set = database.rows(std::slice::from_ref(&transient));
    let transient_key = transient_set.rules.row_key(&transient_set.rows[0]).unwrap();
    let changes = database.changes(&[
        CapturedChange::Update { before: note(7, "before"), after: note(7, "middle") },
        CapturedChange::Update { before: note(7, "middle"), after: note(7, "after") },
        CapturedChange::Insert(transient.clone()),
        CapturedChange::Delete(transient),
    ]);

    assert_eq!(changes.tables[0].rows.len(), 1);
    assert_eq!(RowChanges::decode(&changes.encode()).unwrap(), changes);
    let lowered = changes.to_homebase().unwrap();
    assert!(matches!(lowered.mutations.as_slice(), [Mutation::Put { .. }]));
    assert!(lowered.guards.entries().iter().all(|guard| guard.target() != &transient_key));

    database.apply(&changes).unwrap();
    assert_eq!(database.scalar::<String>("SELECT body FROM notes WHERE id = 7"), "after");
    database.restore(&changes).unwrap();
    assert_eq!(database.scalar::<String>("SELECT body FROM notes WHERE id = 7"), "before");
}

#[test]
fn statement_delta_folds_upsert_insert_then_update_into_one_insert() {
    let database = Database::with(&definition());
    let changes = database.changes(&[
        CapturedChange::Insert(note(7, "inserted")),
        CapturedChange::Update { before: note(7, "inserted"), after: note(7, "updated") },
    ]);

    assert_eq!(changes.tables[0].rows.len(), 1);
    assert!(changes.tables[0].rows[0].before.is_none());
    assert!(changes.tables[0].rows[0].after.is_some());
    assert!(matches!(
        changes.to_homebase().unwrap().mutations.as_slice(),
        [Mutation::Put { .. }]
    ));

    database.apply(&changes).unwrap();
    assert_eq!(database.scalar::<String>("SELECT body FROM notes WHERE id = 7"), "updated");
    database.restore(&changes).unwrap();
    assert_eq!(database.scalar::<i64>("SELECT count(*) FROM notes"), 0);
}

#[test]
fn statement_delta_discards_unchanged_and_transient_upsert_streams() {
    let database = Database::with(&definition());
    let folded = |events: &[CapturedChange]| {
        RowChanges::from_catalog(&database.catalog, events).unwrap()
    };
    assert!(folded(&[CapturedChange::Update {
        before: note(7, "same"),
        after: note(7, "same")
    }])
    .is_none());
    assert!(folded(&[
        CapturedChange::Insert(note(9, "transient")),
        CapturedChange::Delete(note(9, "transient")),
    ])
    .is_none());
    assert!(folded(&[]).is_none());
}

#[test]
fn statement_delta_treats_delete_then_insert_as_one_replacement() {
    let database = Database::with(&definition());
    database.execute("INSERT INTO notes VALUES (7, 'before', x'')");
    let changes = database.changes(&[
        CapturedChange::Delete(note(7, "before")),
        CapturedChange::Insert(note(7, "after")),
    ]);

    assert_eq!(changes.tables[0].rows.len(), 1);
    assert!(changes.tables[0].rows[0].before.is_some());
    assert!(changes.tables[0].rows[0].after.is_some());
    database.apply(&changes).unwrap();
    assert_eq!(database.scalar::<String>("SELECT body FROM notes"), "after");
    database.restore(&changes).unwrap();
    assert_eq!(database.scalar::<String>("SELECT body FROM notes"), "before");
}

fn profiles(database: &Database) -> Vec<(i64, String, String, String)> {
    database
        .connection
        .prepare("SELECT id, tenant, email, username FROM profiles ORDER BY id")
        .unwrap()
        .query_map((), |row| Ok((row.get(0)?, row.get(1)?, row.get(2)?, row.get(3)?)))
        .unwrap()
        .map(|row| row.unwrap())
        .collect()
}

fn profile_row(id: i64, tenant: &str, email: &str, username: &str) -> (i64, String, String, String) {
    (id, tenant.to_string(), email.to_string(), username.to_string())
}

#[test]
fn statement_delta_replaces_multiple_unique_victims_and_restores_them_exactly() {
    let created = overlapping_unique_definition();
    let database = Database::with(&created);
    database.execute(
        "INSERT INTO profiles VALUES
            (1, 'acme', 'shared@example.com', 'alpha'),
            (2, 'other', 'other@example.com', 'beta')",
    );
    let changes = database.changes(&[
        CapturedChange::Delete(profile(1, "acme", "shared@example.com", "alpha")),
        CapturedChange::Delete(profile(2, "other", "other@example.com", "beta")),
        CapturedChange::Insert(profile(3, "acme", "shared@example.com", "beta")),
    ]);

    assert_eq!(changes.tables[0].rows.len(), 3);
    assert_eq!(RowChanges::decode(&changes.encode()).unwrap(), changes);
    let lowered = changes.to_homebase().unwrap();
    let mut asserted = lowered
        .mutations
        .iter()
        .filter_map(|mutation| match mutation {
            Mutation::Put { key, .. } => Some(key.clone()),
            Mutation::Delete { .. } | Mutation::DeleteRange { .. } => None,
        })
        .collect::<Vec<_>>();
    asserted.extend([
        active_primary_index_key(created.table_id()),
        write_revision_key(created.table_id()),
    ]);
    assert_explicit_range_assertions(&lowered.footprint, &asserted);
    assert!(lowered
        .mutations
        .iter()
        .all(|mutation| lowered.footprint.writes().contains(key_of(mutation))));
    validate_compiled_output(OperationFamily::RowChanges, &lowered.mutations, &lowered.guards)
        .unwrap();
    assert!(lowered.mutations.iter().any(|one| matches!(one, Mutation::Delete { .. })));
    assert!(lowered.mutations.iter().any(|one| matches!(one, Mutation::Put { .. })));

    database.execute(
        "CREATE TABLE replay_audit (event TEXT NOT NULL);
         CREATE TRIGGER audit_profile_insert AFTER INSERT ON profiles BEGIN
             INSERT INTO replay_audit VALUES ('insert');
         END;
         CREATE TRIGGER audit_profile_delete AFTER DELETE ON profiles BEGIN
             INSERT INTO replay_audit VALUES ('delete');
         END",
    );
    let flags = || {
        [DbConfig::SQLITE_DBCONFIG_ENABLE_TRIGGER, DbConfig::SQLITE_DBCONFIG_ENABLE_FKEY]
            .into_iter()
            .all(|config| database.connection.db_config(config).unwrap())
    };
    database.config(DbConfig::SQLITE_DBCONFIG_ENABLE_TRIGGER, true);
    database.config(DbConfig::SQLITE_DBCONFIG_ENABLE_FKEY, true);
    database.apply(&changes).unwrap();
    assert!(flags());
    assert_eq!(database.scalar::<i64>("SELECT count(*) FROM replay_audit"), 0);
    assert_eq!(profiles(&database), [profile_row(3, "acme", "shared@example.com", "beta")]);

    database.restore(&changes).unwrap();
    assert!(flags());
    assert_eq!(database.scalar::<i64>("SELECT count(*) FROM replay_audit"), 0);
    assert_eq!(
        profiles(&database),
        [
            profile_row(1, "acme", "shared@example.com", "alpha"),
            profile_row(2, "other", "other@example.com", "beta"),
        ]
    );
}

#[test]
fn statement_delta_replay_rejects_an_invalid_final_foreign_key_state_atomically() {
    let (database, _parent, _child) = foreign_key_tables();
    database.config(DbConfig::SQLITE_DBCONFIG_ENABLE_TRIGGER, true);
    database.config(DbConfig::SQLITE_DBCONFIG_ENABLE_FKEY, true);
    let changes = database.changes(&[CapturedChange::Insert(numbered(
        "children",
        10,
        vec![StoredValue::Integer(999), text("orphan")],
    ))]);

    assert!(matches!(database.apply(&changes), Err(Error::CommitConflict(_))));
    assert_eq!(database.scalar::<i64>("SELECT count(*) FROM children"), 0);
    assert!(database.connection.db_config(DbConfig::SQLITE_DBCONFIG_ENABLE_TRIGGER).unwrap());
    assert!(database.connection.db_config(DbConfig::SQLITE_DBCONFIG_ENABLE_FKEY).unwrap());
}

#[test]
fn statement_delta_emits_exact_mandatory_guards_for_each_net_row_shape() {
    let created = definition();
    let database = Database::with(&created);
    let rows = database.rows(&[note(7, "after")]);
    let row_key = rows.rules.row_key(&rows.rows[0]).unwrap();
    let required = [
        (
            active_primary_index_key(created.table_id()),
            GuardClass::Invariant,
            GuardReason::PrimaryIndex,
        ),
        (
            write_revision_key(created.table_id()),
            GuardClass::Invariant,
            GuardReason::WriteContract,
        ),
    ];
    let both = &[GuardClass::Invariant, GuardClass::Write][..];

    for (event, mutation_kind, expected_row_classes) in [
        (CapturedChange::Insert(note(7, "after")), MutationKind::Put, both),
        (
            CapturedChange::Delete(note(7, "before")),
            MutationKind::Delete,
            &[GuardClass::Write][..],
        ),
        (
            CapturedChange::Update { before: note(7, "before"), after: note(7, "after") },
            MutationKind::Put,
            both,
        ),
    ] {
        let lowered = database.changes(&[event]).to_homebase().unwrap();
        assert_eq!(lowered.mutations.len(), 1);
        assert_eq!(key_of(&lowered.mutations[0]), &row_key);
        assert_eq!(
            match &lowered.mutations[0] {
                Mutation::Put { .. } => MutationKind::Put,
                Mutation::Delete { .. } => MutationKind::Delete,
                Mutation::DeleteRange { .. } => MutationKind::DeletePrefix,
            },
            mutation_kind
        );
        for class in expected_row_classes {
            assert!(lowered.guards.entries().iter().any(|guard| {
                guard.target() == &row_key
                    && guard.class() == *class
                    && guard.reason() == GuardReason::RowIdentity
                    && guard.family() == TargetFamily::Row
            }));
        }
        for (target, class, reason) in &required {
            assert!(lowered.guards.entries().iter().any(|guard| {
                guard.target() == target && guard.class() == *class && guard.reason() == *reason
            }));
        }
        validate_compiled_output(OperationFamily::RowChanges, &lowered.mutations, &lowered.guards)
            .unwrap();
    }
}

#[test]
fn statement_delta_codec_rejects_every_truncated_prefix() {
    let database = Database::with(&definition());
    let encoded = database.changes(&[CapturedChange::Insert(note(7, "hello"))]).encode();

    for length in 0..encoded.len() {
        assert!(RowChanges::decode(&encoded[..length]).is_err());
    }
}

#[test]
fn statement_delta_codec_rejects_malformed_nested_envelopes() {
    let database = Database::with(&definition());
    let changes = database.changes(&[CapturedChange::Insert(note(7, "hello"))]);

    assert_eq!(
        RowChanges::decode(&[ROW_CHANGES_FRAME_VERSION + 1]),
        Err(RowCodecError::UnknownVersion)
    );
    assert_eq!(
        RowChanges::decode(&[ROW_CHANGES_FRAME_VERSION]),
        Err(RowCodecError::MissingField(TAG_CHANGED_TABLE))
    );

    let encoded = changes.tables[0].encode();
    let duplicate_table = Frame::versioned(ROW_CHANGES_FRAME_VERSION)
        .field(TAG_CHANGED_TABLE, &encoded)
        .field(TAG_CHANGED_TABLE, &encoded);
    assert_eq!(RowChanges::decode(&duplicate_table.0), Err(RowCodecError::InvalidRow));

    let delta = changes.tables[0].rows[0].encode();
    let missing_rules =
        Frame::versioned(TABLE_CHANGES_FRAME_VERSION).field(TAG_CHANGE_ROW, &delta);
    assert_eq!(
        TableChanges::decode(&missing_rules.0),
        Err(RowCodecError::MissingField(TAG_CHANGE_RULES))
    );

    let rules = changes.tables[0].rules.encode();
    let duplicate_rules = Frame::versioned(TABLE_CHANGES_FRAME_VERSION)
        .field(TAG_CHANGE_RULES, &rules)
        .field(TAG_CHANGE_RULES, &rules)
        .field(TAG_CHANGE_ROW, &delta);
    assert_eq!(TableChanges::decode(&duplicate_rules.0), Err(RowCodecError::DuplicateField));

    let no_rows = Frame::versioned(TABLE_CHANGES_FRAME_VERSION).field(TAG_CHANGE_RULES, &rules);
    assert_eq!(TableChanges::decode(&no_rows.0), Err(RowCodecError::InvalidRow));

    let table_with_empty_delta = Frame::versioned(TABLE_CHANGES_FRAME_VERSION)
        .field(TAG_CHANGE_RULES, &rules)
        .field(TAG_CHANGE_ROW, &[ROW_DELTA_FRAME_VERSION]);
    assert_eq!(TableChanges::decode(&table_with_empty_delta.0), Err(RowCodecError::InvalidRow));

    let image = changes.tables[0].rows[0].after.as_ref().unwrap().encode();
    let duplicate_before = Frame::versioned(ROW_DELTA_FRAME_VERSION)
        .field(TAG_DELTA_BEFORE, &image)
        .field(TAG_DELTA_BEFORE, &image);
    assert_eq!(RowDelta::decode(&duplicate_before.0), Err(RowCodecError::DuplicateField));

    let unchanged = Frame::versioned(ROW_DELTA_FRAME_VERSION)
        .field(TAG_DELTA_BEFORE, &image)
        .field(TAG_DELTA_AFTER, &image);
    let unchanged_table = Frame::versioned(TABLE_CHANGES_FRAME_VERSION)
        .field(TAG_CHANGE_RULES, &rules)
        .field(TAG_CHANGE_ROW, &unchanged.0);
    assert_eq!(TableChanges::decode(&unchanged_table.0), Err(RowCodecError::InvalidRow));

    let rules_with_rows = Frame(rules).field(TAG_SET_ROW, &image);
    assert_eq!(RowRules::decode(&rules_with_rows.0), Err(RowCodecError::InvalidRow));
}

#[test]
fn statement_delta_normalizes_lineage_and_groups_cross_table_streams() {
    let mut database = Database::with(&definition());
    let update = |before: &str, after: &str| CapturedChange::Update {
        before: note(7, before),
        after: note(7, after),
    };
    let direct = database.changes(&[update("before", "after")]);
    let chained = database.changes(&[update("before", "middle"), update("middle", "after")]);
    assert_eq!(direct.encode(), chained.encode());
    assert_eq!(
        direct.to_homebase().unwrap().mutations,
        chained.to_homebase().unwrap().mutations
    );

    assert!(matches!(
        RowChanges::from_catalog(
            &database.catalog,
            &[update("before", "first"), update("before", "after")],
        ),
        Err(Error::CaptureInvariant(
            "SQLite update before-image contradicts the statement delta"
        ))
    ));

    database.add(&notes_like("tasks"));
    let note_insert = || CapturedChange::Insert(note(7, "note"));
    let task_insert = || {
        let mut task = note(8, "task");
        task.table = "tasks".to_string();
        CapturedChange::Insert(task)
    };
    let changes = database.changes(&[note_insert(), task_insert()]);
    let reversed = database.changes(&[task_insert(), note_insert()]);
    assert_eq!(changes.tables.len(), 2);
    assert_eq!(changes.encode(), reversed.encode());
    assert_eq!(
        changes.to_homebase().unwrap().mutations,
        reversed.to_homebase().unwrap().mutations
    );
    assert_eq!(RowChanges::decode(&changes.encode()).unwrap(), changes);
    let lowered = changes.to_homebase().unwrap();
    for changed in &changes.tables {
        let revision = write_revision_key(changed.rules.table);
        assert!(lowered.guards.entries().iter().any(|guard| guard.target() == &revision));
    }
    database.apply(&changes).unwrap();
    for name in ["notes", "tasks"] {
        assert_eq!(database.scalar::<i64>(&format!("SELECT count(*) FROM {name}")), 1);
    }
    database.restore(&changes).unwrap();
    for name in ["notes", "tasks"] {
        assert_eq!(database.scalar::<i64>(&format!("SELECT count(*) FROM {name}")), 0);
    }

    let mut noncanonical = changes;
    noncanonical.tables.reverse();
    assert_eq!(RowChanges::decode(&noncanonical.encode()), Err(RowCodecError::InvalidRow));
}

fn stored_row_frame(revision: SchemaRevisionId, row: &Row) -> Vec<u8> {
    let mut frame =
        Frame::versioned(ROW_FRAME_VERSION).field(TAG_SCHEMA_REVISION, &revision.as_bytes());
    for cell in &row.values {
        frame = frame.field(TAG_COLUMN_VALUE, &cell.encode());
    }
    frame.0
}

#[test]
fn insert_codec_and_homebase_envelope_roundtrip() {
    let created = definition();
    let database = Database::with(&created);
    let inserted = inserted(&database);

    assert_eq!(RowSet::decode(&inserted.encode()).unwrap(), inserted);
    let lowered = inserted.to_homebase().unwrap();
    assert_eq!(lowered.mutations.len(), 2);
    assert_eq!(lowered.footprint.writes().len(), 2);
    assert_eq!(lowered.footprint.constraints().len(), 4);
    let mut expected =
        lowered.mutations.iter().map(|mutation| key_of(mutation).clone()).collect::<Vec<_>>();
    expected.extend([
        active_primary_index_key(created.table_id()),
        write_revision_key(created.table_id()),
    ]);
    assert_explicit_range_assertions(&lowered.footprint, &expected);
    assert_eq!(
        key_of(&lowered.mutations[0]),
        &primary_key_prefix(&created, &[StoredValue::Integer(7)]).unwrap()
    );
    assert!(lowered
        .mutations
        .iter()
        .all(|mutation| lowered.footprint.constraints().contains(key_of(mutation))));
    for (mutation, assertion) in lowered.mutations.iter().zip(lowered.footprint.writes().keys()) {
        assert_eq!(key_of(mutation), assertion);
        assert_eq!(key_of(mutation).components().len(), 6);
    }
    inserted.validate_homebase(&lowered.mutations).unwrap();
}

fn with_cell(map: &OwnerMap, key: &Key, value: Option<Vec<u8>>) -> OwnerMap {
    let mut changed = OwnerMap::new();
    for entry in map.entries() {
        let value = if &entry.key == key { value.clone() } else { Some(entry.value.clone()) };
        if let Some(value) = value {
            changed = changed.insert(IndexEntry { key: entry.key.clone(), value }).0;
        }
    }
    changed
}

fn key_of_family(map: &OwnerMap, family: TargetFamily) -> Key {
    map.entries()
        .iter()
        .find(|entry| TargetFamily::classify(&entry.key) == Some(family))
        .unwrap()
        .key
        .clone()
}

#[test]
fn materialized_cell_audit_projects_historical_rows_and_rejects_corruption() {
    let created = definition();
    let database = Database::with(&created);
    database.execute("INSERT INTO notes VALUES (7, 'hello', x'0102')");
    let set = database.rows(&database.scan(&created, "notes"));
    let expected = expected_materialized_cells(&[set]).unwrap();
    let row_key = key_of_family(&expected, TargetFamily::Row);
    let mut historical = decode_stored_row(expected.get(&row_key).unwrap()).unwrap();
    historical.values.pop();

    let revision = created.schema_revision_id();
    let actual = with_cell(&expected, &row_key, Some(stored_row_frame(revision, &historical)));
    validate_materialized_cells(&expected, &actual).unwrap();

    historical.values[1].value = text("corrupt");
    let actual = with_cell(&expected, &row_key, Some(stored_row_frame(revision, &historical)));
    assert!(matches!(
        validate_materialized_cells(&expected, &actual),
        Err(Error::CaptureInvariant("authority row values diverge from materialized rows"))
    ));

    let actual = with_cell(&expected, &row_key, None);
    assert!(matches!(
        validate_materialized_cells(&expected, &actual),
        Err(Error::CaptureInvariant("authority row identities diverge from materialized rows"))
    ));
}

#[test]
fn materialized_cell_audit_rejects_corrupt_ownership_cells() {
    let created = unique_definition();
    let database = Database::with(&created);
    database.execute("INSERT INTO accounts VALUES (7, 'acme', 'a@example.com')");
    let set = database.rows(&database.scan(&created, "accounts"));
    let expected = expected_materialized_cells(&[set]).unwrap();
    let unique_key = key_of_family(&expected, TargetFamily::UniqueOwner);
    let actual = with_cell(&expected, &unique_key, Some(b"another owner".to_vec()));

    assert!(matches!(
        validate_materialized_cells(&expected, &actual),
        Err(Error::CaptureInvariant(
            "authority UNIQUE or foreign-reference cells diverge from materialized rows"
        ))
    ));
}

#[test]
fn row_codecs_store_rules_once_and_keep_homebase_values_compact() {
    let database = Database::with(&definition());
    let inserted = inserted(&database);
    let mut first_row = inserted.clone();
    first_row.rows.truncate(1);

    assert_eq!(
        inserted.encode().len(),
        first_row.encode().len() + 5 + inserted.rows[1].encode().len()
    );

    let lowered = inserted.to_homebase().unwrap();
    for (row, mutation) in inserted.rows.iter().zip(&lowered.mutations) {
        let Mutation::Put { value, .. } = mutation else {
            panic!("insert row mutation was not a set")
        };
        let encoded_values =
            row.values.iter().map(|cell| 5 + cell.encode().len()).sum::<usize>();
        assert_eq!(value.len(), 1 + 5 + 16 + encoded_values);
        assert_eq!(value, &inserted.rules.encode_row(row));
    }
}

#[test]
fn row_set_codec_rejects_duplicate_common_fields() {
    let database = Database::with(&definition());
    let inserted = inserted(&database);
    let malformed = Frame::versioned(ROW_SET_FRAME_VERSION)
        .field(TAG_SET_TABLE, &inserted.rules.table.as_bytes())
        .field(TAG_SET_TABLE, &inserted.rules.table.as_bytes());

    assert_eq!(RowSet::decode(&malformed.0), Err(RowCodecError::DuplicateField));
}

fn parent_row(id: i64, body: &str) -> CapturedRow {
    numbered("parents", id, vec![text(body)])
}

#[test]
fn foreign_reference_cells_follow_child_rows_and_fence_parent_removal() {
    let (database, parent, child) = foreign_key_tables();
    let child_row = numbered("children", 10, vec![StoredValue::Integer(7), text("body")]);
    let inserted = database.rows(std::slice::from_ref(&child_row));
    let child_key = inserted.rules.row_key(&inserted.rows[0]).unwrap();
    let references = inserted.rules.foreign_references(&inserted.rows[0]).unwrap();
    let reference = &references[0];
    let relationship = child.foreign_keys[0].id;
    let parent_image = key_image(
        &StoredValue::Integer(7),
        KeyPartRules {
            column: parent.columns[0].id,
            affinity: Affinity::Integer,
            rowid_alias: true,
        },
    )
    .unwrap();
    let expected_prefix = foreign_reference_prefix(
        parent.table_id(),
        relationship,
        parent.primary_index_id(),
        vec![parent_image],
    )
    .unwrap();

    assert!(reference.key.starts_with(&expected_prefix));
    assert_eq!(
        reference.key.components().len(),
        codes::FOREIGN_REFERENCE_KEY_FIXED_COMPONENTS + 1 + 1
    );
    assert_eq!(reference.value, child_key.encode());
    let lowered = inserted.to_homebase().unwrap();
    assert_eq!(lowered.mutations.len(), 2);
    assert_eq!(lowered.footprint.writes().len(), 2);
    assert_explicit_range_assertions(
        &lowered.footprint,
        &[
            child_key.clone(),
            reference.key.clone(),
            active_primary_index_key(child.table_id()),
            write_revision_key(child.table_id()),
        ],
    );
    assert!(lowered.footprint.writes().contains(&reference.key));
    assert!(lowered.footprint.constraints().contains(&reference.key));
    assert!(matches!(
        &lowered.mutations[1],
        Mutation::Put { key, value } if key == &reference.key && value == &child_key.encode()
    ));
    inserted.validate_homebase(&lowered.mutations).unwrap();
    let mut missing_reference = lowered.mutations.clone();
    missing_reference.pop();
    assert_eq!(
        inserted.validate_homebase(&missing_reference),
        Err(RowCodecError::InvalidBatch)
    );
    let mut corrupt_reference = lowered.mutations;
    let Mutation::Put { value, .. } = &mut corrupt_reference[1] else { unreachable!() };
    value.push(0);
    assert_eq!(
        inserted.validate_homebase(&corrupt_reference),
        Err(RowCodecError::InvalidBatch)
    );

    let deleted = database.deletes(std::slice::from_ref(&child_row)).to_homebase().unwrap();
    assert!(matches!(
        &deleted.mutations[1],
        Mutation::Delete { key } if key == &reference.key
    ));

    let parent_delete = database.deletes(&[parent_row(7, "parent")]).to_homebase().unwrap();
    assert_explicit_range_assertions(
        &parent_delete.footprint,
        &[
            expected_prefix.clone(),
            active_primary_index_key(parent.table_id()),
            write_revision_key(parent.table_id()),
        ],
    );
    assert!(parent_delete.footprint.writes().contains(&expected_prefix));
    assert!(parent_delete.footprint.constraints().contains(&expected_prefix));
    assert!(deletes_range(&parent_delete.mutations, &expected_prefix));
    assert!(!parent_delete.footprint.constraints().contains(
        &row_prefix(child.table_id(), child.primary_index_id(), Vec::new()).unwrap()
    ));

    let parent_move = database
        .updates(&[(parent_row(7, "parent"), parent_row(8, "parent"))])
        .to_homebase()
        .unwrap();
    assert_explicit_range_assertions(
        &parent_move.footprint,
        &[
            primary_key_prefix(&parent, &[StoredValue::Integer(8)]).unwrap(),
            expected_prefix.clone(),
            active_primary_index_key(parent.table_id()),
            write_revision_key(parent.table_id()),
        ],
    );
    assert!(parent_move.footprint.writes().contains(&expected_prefix));
    assert!(parent_move.footprint.constraints().contains(&expected_prefix));
    assert!(deletes_range(&parent_move.mutations, &expected_prefix));

    let null_child =
        database.rows(&[numbered("children", 11, vec![StoredValue::Null, text("null")])]);
    assert!(null_child.rules.foreign_references(&null_child.rows[0]).unwrap().is_empty());
    assert_eq!(null_child.to_homebase().unwrap().mutations.len(), 1);
}

#[test]
fn unique_foreign_references_fence_parent_key_changes_by_reference_range() {
    let (database, parent, child) = unique_foreign_key_tables();
    let target = parent.unique_constraints[0].index;
    assert_eq!(child.foreign_keys[0].referenced_index, target);

    let inserted = database
        .rows(&[numbered("messages", 10, vec![text("north"), text("user@example.com")])]);
    let reference = inserted.rules.foreign_references(&inserted.rows[0]).unwrap().remove(0);
    let columns = parent.foreign_key_target_columns(target).unwrap();
    let images = [text("north"), text("user@example.com")]
        .iter()
        .zip(columns)
        .map(|(value, id)| {
            let column = parent.columns.iter().find(|column| column.id == id).unwrap();
            key_image(
                value,
                KeyPartRules {
                    column: id,
                    affinity: column.affinity(parent.mode),
                    rowid_alias: false,
                },
            )
            .unwrap()
        })
        .collect::<Vec<_>>();
    let parent_ownership = unique_prefix(parent.table_id(), target, images.clone()).unwrap();
    let reference_prefix =
        foreign_reference_prefix(parent.table_id(), child.foreign_keys[0].id, target, images)
            .unwrap();
    assert!(reference.key.starts_with(&reference_prefix));
    let lowered = inserted.to_homebase().unwrap();
    assert_explicit_range_assertions(
        &lowered.footprint,
        &[
            inserted.rules.row_key(&inserted.rows[0]).unwrap(),
            reference.key.clone(),
            active_primary_index_key(child.table_id()),
            write_revision_key(child.table_id()),
        ],
    );
    assert!(lowered.footprint.writes().contains(&reference.key));
    assert!(lowered.footprint.constraints().contains(&reference.key));
    assert!(!lowered.footprint.constraints().contains(&parent_ownership));
    assert_eq!(RowSet::decode(&inserted.encode()).unwrap(), inserted);

    let updated = database.updates(&[(
        account(1, "north", "user@example.com"),
        account(1, "north", "moved@example.com"),
    )]);
    let old_reference =
        updated.before.rules.incoming_reference_prefixes(&updated.before.rows[0]).unwrap().remove(0);
    let lowered = updated.to_homebase().unwrap();
    assert_explicit_range_assertions(
        &lowered.footprint,
        &[
            old_reference.clone(),
            active_primary_index_key(parent.table_id()),
            write_revision_key(parent.table_id()),
        ],
    );
    assert!(lowered.footprint.writes().contains(&old_reference));
    assert!(lowered.footprint.constraints().contains(&old_reference));
    assert!(deletes_range(&lowered.mutations, &old_reference));
}

#[test]
fn multi_row_parent_key_moves_retire_only_operation_wide_removed_references() {
    let (database, _, _) = foreign_key_tables();
    let updated = database.updates(&[
        (parent_row(2, "two"), parent_row(1, "two")),
        (parent_row(3, "three"), parent_row(2, "three")),
    ]);
    let prefix_of = |index: usize| {
        let row = &updated.before.rows[index];
        updated.before.rules.incoming_reference_prefixes(row).unwrap().remove(0)
    };
    let retained = prefix_of(0);
    let retired = prefix_of(1);

    let lowered = updated.to_homebase().unwrap();
    assert!(!deletes_range(&lowered.mutations, &retained));
    assert!(deletes_range(&lowered.mutations, &retired));
    assert!(!lowered.footprint.writes().contains(&retained));
    assert!(lowered.footprint.writes().contains(&retired));
    assert!(lowered.footprint.constraints().contains(&retired));
}

#[test]
fn separate_foreign_keys_to_one_parent_keep_distinct_reference_cells() {
    let mut database = Database::empty();
    database.create(
        "CREATE TABLE people (id INTEGER PRIMARY KEY)",
        table("people", vec![column("id", integer(), Some(0))]),
    );
    let mut spec = table(
        "families",
        vec![
            column("id", integer(), Some(0)),
            column("mother", integer(), None),
            column("father", integer(), None),
        ],
    );
    spec.foreign_keys.push(reference(&["mother"], "people", &["id"]));
    spec.foreign_keys.push(reference(&["father"], "people", &["id"]));
    let child = database.create(
        "CREATE TABLE families (
            id INTEGER PRIMARY KEY,
            mother INTEGER REFERENCES people(id),
            father INTEGER REFERENCES people(id)
        )",
        spec,
    );

    let inserted = database.rows(&[numbered(
        "families",
        10,
        vec![StoredValue::Integer(1), StoredValue::Integer(2)],
    )]);
    let references = inserted.rules.foreign_references(&inserted.rows[0]).unwrap();
    assert_eq!(references.len(), 2);
    assert_ne!(references[0].key, references[1].key);
    assert_eq!(references[0].value, references[1].value);

    let lowered = inserted.to_homebase().unwrap();
    assert_eq!(lowered.mutations.len(), 3);
    let mut expected =
        lowered.mutations.iter().map(|mutation| key_of(mutation).clone()).collect::<Vec<_>>();
    expected.extend([
        active_primary_index_key(child.table_id()),
        write_revision_key(child.table_id()),
    ]);
    assert_explicit_range_assertions(&lowered.footprint, &expected);
    assert!(references.iter().all(|one| lowered.footprint.writes().contains(&one.key)));
    assert!(references.iter().all(|one| lowered.footprint.constraints().contains(&one.key)));
}

#[test]
fn foreign_key_updates_move_reverse_reference_cells() {
    let (database, _, _) = foreign_key_tables();
    let updated = database.updates(&[(
        numbered("children", 10, vec![StoredValue::Integer(7), text("before")]),
        numbered("children", 10, vec![StoredValue::Integer(8), text("after")]),
    )]);
    let before_reference = updated.before.foreign_reference_map().unwrap();
    let after_reference = updated.after.foreign_reference_map().unwrap();
    let lowered = updated.to_homebase().unwrap();
    let after_reference_key = after_reference.entries()[0].key.clone();
    assert_explicit_range_assertions(
        &lowered.footprint,
        &[
            after_reference_key,
            active_primary_index_key(updated.after.rules.table),
            write_revision_key(updated.after.rules.table),
        ],
    );

    assert_eq!(before_reference.entries().len(), 1);
    assert_eq!(after_reference.entries().len(), 1);
    assert_ne!(before_reference.entries()[0].key, after_reference.entries()[0].key);
    assert!(lowered.mutations.iter().any(|mutation| {
        matches!(mutation, Mutation::Delete { key } if before_reference.contains(key))
    }));
    assert!(lowered.mutations.iter().any(|mutation| {
        matches!(mutation, Mutation::Put { key, .. } if after_reference.contains(key))
    }));
}

#[test]
fn without_rowid_rows_discard_undefined_hook_rowids_and_keep_composite_order() {
    let created = without_rowid_definition();
    let database = Database::with(&created);
    let membership =
        |rowid| row("memberships", rowid, vec![text("north"), StoredValue::Integer(7), text("body")]);
    let inserted = database.rows(&[membership(41)]);

    assert_eq!(inserted.rules.storage, TableStorage::WithoutRowid);
    assert_eq!(
        inserted.rules.key_parts.iter().map(|part| part.column).collect::<Vec<_>>(),
        [created.columns[1].id, created.columns[0].id]
    );
    assert_eq!(RowSet::decode(&inserted.encode()).unwrap(), inserted);
    let lowered = inserted.to_homebase().unwrap();
    assert_eq!(key_of(&lowered.mutations[0]).components().len(), 7);

    assert!(UpdatedRowsFixture::from_catalog(
        &database.catalog,
        &[(membership(41), membership(999))]
    )
    .unwrap()
    .is_none());
}

#[test]
fn composite_indexes_lower_per_part_and_skip_null_tuples() {
    let created = unique_definition();
    let database = Database::with(&created);
    let without_organization =
        |id| numbered("accounts", id, vec![StoredValue::Null, text("a@example.com")]);
    let captured = [
        account(1, "acme", "a@example.com"),
        account(2, "other", "a@example.com"),
        without_organization(3),
        without_organization(4),
    ];
    let inserted = database.rows(&captured);

    assert_eq!(RowSet::decode(&inserted.encode()).unwrap(), inserted);
    let lowered = inserted.to_homebase().unwrap();
    assert_eq!(lowered.mutations.len(), 6);
    assert_eq!(lowered.footprint.writes().len(), 6);
    let mut expected =
        lowered.mutations.iter().map(|mutation| key_of(mutation).clone()).collect::<Vec<_>>();
    expected.extend([
        active_primary_index_key(created.table_id()),
        write_revision_key(created.table_id()),
    ]);
    assert_explicit_range_assertions(&lowered.footprint, &expected);
    let owners = lowered.mutations.iter().filter(is_unique).collect::<Vec<_>>();
    assert_eq!(owners.len(), 2);
    assert!(owners.iter().all(|mutation| key_of(mutation).components().len() == 7));
    assert!(owners
        .iter()
        .all(|mutation| lowered.footprint.constraints().contains(key_of(mutation))));
    inserted.validate_homebase(&lowered.mutations).unwrap();
    let deleted = database.deletes(&captured).to_homebase().unwrap();
    assert_eq!(deleted.mutations.len(), 6);
    assert!(deleted.mutations.iter().all(|one| matches!(one, Mutation::Delete { .. })));
}

fn secondary(created: &CreateTable, text: &str, columns: &[usize]) -> NamedIndex {
    NamedIndex {
        index: IndexId::fresh(),
        name: name(text),
        unique: false,
        active: true,
        columns: columns.iter().map(|column| created.columns[*column].id).collect(),
    }
}

#[test]
fn secondary_indexes_do_not_change_row_lowering() {
    let mut created = definition();
    let mut database = Database::with(&created);
    let captured = [
        numbered("notes", 1, vec![text("same"), StoredValue::Null]),
        numbered("notes", 2, vec![text("same"), StoredValue::Blob(vec![7])]),
    ];
    let baseline = database.rows(&captured).to_homebase().unwrap();

    let body = secondary(&created, "notes_body", &[1]);
    let payload = secondary(&created, "notes_payload_body", &[2, 1]);
    created.indexes.push(body);
    created.indexes.push(payload);
    database.catalog = CatalogSnapshot::new().insert(&created).unwrap();
    let inserted = database.rows(&captured);

    assert!(inserted.rules.indexes.is_empty());
    assert_eq!(RowSet::decode(&inserted.encode()).unwrap(), inserted);
    let lowered = inserted.to_homebase().unwrap();
    let outside = |mutations: &[Mutation]| {
        mutations.iter().all(|mutation| component(mutation, 3) != codes::INDEXES.as_bytes())
    };
    assert!(outside(&lowered.mutations));
    assert_eq!(lowered.mutations.len(), baseline.mutations.len());
    assert_eq!(lowered.footprint, baseline.footprint);
    inserted.validate_homebase(&lowered.mutations).unwrap();

    assert!(outside(&database.deletes(&captured).to_homebase().unwrap().mutations));
    let updated = database.updates(&[(
        captured[0].clone(),
        numbered("notes", 1, vec![text("changed"), StoredValue::Null]),
    )]);
    assert!(outside(&updated.to_homebase().unwrap().mutations));
}

#[test]
fn overlapping_unique_indexes_lower_and_delete_independently() {
    let database = Database::with(&overlapping_unique_definition());
    let captured = profile(1, "acme", "same", "same");
    let inserted = database.rows(std::slice::from_ref(&captured));

    assert_eq!(RowSet::decode(&inserted.encode()).unwrap(), inserted);
    let lowered = inserted.to_homebase().unwrap();
    assert_eq!(lowered.mutations.len(), 5);
    assert_eq!(lowered.footprint.writes().len(), 5);
    let owners = lowered.mutations.iter().filter(is_unique).collect::<Vec<_>>();
    assert_eq!(owners.len(), 4);
    assert_eq!(
        owners.iter().map(|mutation| component(mutation, 4)).collect::<BTreeSet<_>>().len(),
        4
    );
    assert_eq!(
        owners.iter().map(|mutation| key_of(mutation).components().len()).collect::<Vec<_>>(),
        [6, 6, 7, 7]
    );
    assert!(owners
        .iter()
        .all(|mutation| lowered.footprint.constraints().contains(key_of(mutation))));
    inserted.validate_homebase(&lowered.mutations).unwrap();

    let deleted = database.deletes(&[captured]).to_homebase().unwrap();
    assert_eq!(deleted.mutations.len(), lowered.mutations.len());
    assert_eq!(
        lowered.mutations.iter().map(key_of).collect::<BTreeSet<_>>(),
        deleted.mutations.iter().map(key_of).collect()
    );
    assert!(deleted.mutations.iter().all(|one| matches!(one, Mutation::Delete { .. })));
}

#[test]
fn one_insert_operation_rejects_duplicates_in_any_unique_index() {
    let database = Database::with(&overlapping_unique_definition());
    let captured = [
        profile(1, "acme", "shared@example.com", "alpha"),
        profile(2, "other", "shared@example.com", "beta"),
        profile(3, "acme", "third@example.com", "alpha"),
    ];
    assert!(matches!(
        RowSet::from_catalog(&database.catalog, &captured),
        Err(Error::InvalidMultiliteOp(message))
            if message == "row operation contains a duplicate UNIQUE key"
    ));

    let mut inserted = database.rows(std::slice::from_ref(&captured[0]));
    let duplicate = database.rows(std::slice::from_ref(&captured[1]));
    inserted.rows.extend(duplicate.rows);

    assert_eq!(
        RowSet::decode(&inserted.encode()),
        Err(RowCodecError::DuplicateUniqueKey)
    );
    assert!(matches!(
        inserted.to_homebase(),
        Err(Error::InvalidMultiliteOp(message))
            if message == "row operation contains a duplicate UNIQUE key"
    ));
}

#[test]
fn admitted_insert_rejects_missing_crossed_extra_and_corrupt_unique_cells() {
    let database = Database::with(&overlapping_unique_definition());
    let inserted = database.rows(&[profile(1, "acme", "email", "username")]);
    let lowered = inserted.to_homebase().unwrap().mutations;

    let mut missing = lowered.clone();
    missing.pop();
    assert_eq!(inserted.validate_homebase(&missing), Err(RowCodecError::InvalidBatch));

    let mut crossed = lowered.clone();
    crossed.swap(1, 2);
    assert_eq!(inserted.validate_homebase(&crossed), Err(RowCodecError::InvalidBatch));

    let mut extra = lowered.clone();
    extra.push(lowered.last().unwrap().clone());
    assert_eq!(inserted.validate_homebase(&extra), Err(RowCodecError::InvalidBatch));

    let mut corrupt = lowered;
    let Mutation::Put { value, .. } = &mut corrupt[1] else { unreachable!() };
    value.push(0);
    assert_eq!(inserted.validate_homebase(&corrupt), Err(RowCodecError::InvalidBatch));
}

#[test]
fn delete_codec_lowers_exact_keys_and_restores_complete_rows() {
    let created = definition();
    let database = Database::with(&created);
    let inserted = inserted(&database);
    let deleted = DeletedRowsFixture { deleted: inserted.clone() };

    assert_eq!(DeletedRowsFixture::decode(&deleted.encode()).unwrap(), deleted);
    let lowered = deleted.to_homebase().unwrap();
    assert_eq!(lowered.mutations.len(), 2);
    assert!(lowered.mutations.iter().all(|one| matches!(one, Mutation::Delete { .. })));
    assert_eq!(lowered.footprint.writes().len(), 2);
    assert_eq!(lowered.footprint.constraints().len(), 2);
    assert_explicit_range_assertions(
        &lowered.footprint,
        &[active_primary_index_key(created.table_id()), write_revision_key(created.table_id())],
    );
    assert_eq!(
        key_of(&lowered.mutations[0]),
        &primary_key_prefix(&created, &[StoredValue::Integer(7)]).unwrap()
    );

    let changes = RowChanges::deleted(&deleted);
    database.insert(&inserted).unwrap();
    database.apply(&changes).unwrap();
    assert_eq!(database.scalar::<i64>("SELECT count(*) FROM notes"), 0);
    database.restore(&changes).unwrap();
    assert_eq!(
        database.notes(),
        [(7, Some("hello".to_string()), vec![0, 1]), (9, None, Vec::new())]
    );
}

#[test]
fn integer_affinity_does_not_imply_a_rowid_alias() {
    let columns = |declared_type, not_null| {
        let mut id = column("id", declared_type, Some(0));
        id.not_null = not_null;
        vec![id, column("body", text_type(), None)]
    };
    let created = CreateTable::new(
        "CREATE TABLE aliases (id INTEGER PRIMARY KEY, body TEXT)",
        table("aliases", columns(integer(), false)),
    );
    assert!(created
        .primary_key_columns()
        .iter()
        .all(|column| created.is_rowid_alias(column.id)));

    let short = CreateTable::new(
        "CREATE TABLE aliases (id INT NOT NULL PRIMARY KEY, body TEXT)",
        table("aliases", columns(TypeDeclaration::short_integer(), true)),
    );
    assert_eq!(short.columns[0].affinity, created.columns[0].affinity);
    assert!(short
        .primary_key_columns()
        .iter()
        .all(|column| !short.is_rowid_alias(column.id)));

    let mut spec = table("aliases", columns(TypeDeclaration::short_integer(), true));
    spec.storage = TableStorage::WithoutRowid;
    let keyed = "CREATE TABLE aliases (id INT NOT NULL PRIMARY KEY, body TEXT) WITHOUT ROWID";
    let mut statements = Statements::new();
    statements.record(keyed.to_string(), ValidatedExecute::CreateTable(spec));
    assert!(matches!(
        statements
            .validate_execute("CREATE TABLE aliases (id INT NOT NULL PRIMARY KEY, body TEXT)"),
        Err(Error::UnsupportedSql(_))
    ));
    statements.validate_execute(keyed).unwrap();
}

fn alter(database: &mut Database, operation: &AlterTableOperation, statements: &Statements) {
    for step in operation.apply(statements, &database.catalog).unwrap() {
        match step {
            AlterStep::ExecuteStatement { .. } => database.execute(&operation.sql),
            AlterStep::Execute(sql) => database.execute(&sql),
            AlterStep::Catalog(change) => {
                database.catalog = database.catalog.perform(operation.table, &change).unwrap();
            }
            AlterStep::Rebuild { force } => {
                if operation.materializes_internally() {
                    database.execute(&operation.sql);
                }
                let held = database
                    .connection
                    .prepare("PRAGMA main.table_xinfo(\"notes\")")
                    .unwrap()
                    .query_map((), |row| {
                        Ok(HeldColumn { name: row.get(1)?, hidden: row.get(6)? })
                    })
                    .unwrap()
                    .map(|column| column.unwrap())
                    .collect::<Vec<_>>();
                let definition = database.catalog.by_id(operation.table).unwrap();
                let plan =
                    rebuild_table_if_needed(&database.catalog, definition, &held, force, [7; 16]);
                assert_eq!(plan.unwrap(), None);
            }
            other => panic!("unexpected step {other:?}"),
        }
    }
}

fn add_summary(database: &mut Database, sql: &str, not_null: bool, default: &str) {
    let spec = || {
        let mut summary = column("summary", text_type(), None);
        summary.not_null = not_null;
        summary.default =
            Some(DefaultDefinition { name: None, expression: default.to_string() });
        AddColumnSpec { table: name("notes"), column: summary, checks: Vec::new() }
    };
    let mut statements = Statements::new();
    statements.record(sql.to_string(), ValidatedExecute::AddColumn(spec()));
    let operation =
        AlterTableOperation::prepare_add_column(&database.catalog, &statements, sql, &spec())
            .unwrap();
    alter(database, &operation, &statements);
}

fn drop_payload(database: &mut Database) {
    let sql = "ALTER TABLE notes DROP COLUMN payload";
    let spec = || DropColumnSpec { table: name("notes"), column: name("payload") };
    let mut statements = Statements::new();
    statements.record(sql.to_string(), ValidatedExecute::DropColumn(spec()));
    let operation =
        AlterTableOperation::prepare_drop_column(&database.catalog, &statements, sql, &spec())
            .unwrap();
    alter(database, &operation, &statements);
}

#[test]
fn historical_inserts_project_through_added_and_dropped_columns() {
    let created = definition();
    let source = Database::with(&created);
    let inserted = source
        .rows(&[numbered("notes", 7, vec![text("body"), StoredValue::Blob(vec![1, 2])])]);

    let mut added = Database::with(&created);
    add_summary(
        &mut added,
        "ALTER TABLE notes ADD COLUMN summary TEXT NOT NULL DEFAULT 'new'",
        true,
        "'new'",
    );
    added.insert(&inserted).unwrap();
    assert_eq!(
        added
            .connection
            .query_row("SELECT body, payload, summary FROM notes WHERE id = 7", (), |row| {
                Ok((
                    row.get::<_, String>(0)?,
                    row.get::<_, Vec<u8>>(1)?,
                    row.get::<_, String>(2)?,
                ))
            })
            .unwrap(),
        ("body".to_string(), vec![1, 2], "new".to_string())
    );

    let mut dropped = Database::with(&created);
    drop_payload(&mut dropped);
    dropped.insert(&inserted).unwrap();
    assert_eq!(dropped.bodies(), [(7, "body".to_string())]);
}

#[test]
fn historical_updates_preserve_columns_added_after_capture() {
    let created = definition();
    let source = Database::with(&created);
    let image =
        |id, body: &str| numbered("notes", id, vec![text(body), StoredValue::Blob(vec![1])]);
    let stable = source.updates(&[(image(1, "before"), image(1, "after"))]);
    let moved = source.updates(&[(image(1, "before"), image(2, "moved"))]);

    for (updated, expected) in [(stable, (1, "after")), (moved, (2, "moved"))] {
        let mut target = Database::with(&created);
        target.execute("INSERT INTO notes VALUES (1, 'before', x'01')");
        add_summary(
            &mut target,
            "ALTER TABLE notes ADD COLUMN summary TEXT DEFAULT 'default'",
            false,
            "'default'",
        );
        target.execute("UPDATE notes SET summary = 'preserved'");
        target.apply(&RowChanges::updated(&updated)).unwrap();
        assert_eq!(
            target
                .connection
                .query_row("SELECT id, body, summary FROM notes", (), |row| {
                    Ok((
                        row.get::<_, i64>(0)?,
                        row.get::<_, String>(1)?,
                        row.get::<_, String>(2)?,
                    ))
                })
                .unwrap(),
            (expected.0, expected.1.to_string(), "preserved".to_string())
        );
    }
}

#[test]
fn stable_update_codec_replaces_rows_and_restores_before_images() {
    let created = definition();
    let database = Database::with(&created);
    let blob = |bytes: &[u8]| StoredValue::Blob(bytes.to_vec());
    let updated = database.updates(&[
        (
            numbered("notes", 7, vec![text("before"), blob(&[0])]),
            numbered("notes", 7, vec![text("after"), blob(&[1, 2])]),
        ),
        (
            numbered("notes", 9, vec![StoredValue::Null, blob(&[])]),
            numbered("notes", 9, vec![text("filled"), blob(&[3])]),
        ),
    ]);

    assert_eq!(UpdatedRowsFixture::decode(&updated.encode()).unwrap(), updated);
    let lowered = updated.to_homebase().unwrap();
    assert_eq!(lowered.mutations.len(), 2);
    assert!(lowered.mutations.iter().all(|one| matches!(one, Mutation::Put { .. })));
    assert_eq!(lowered.footprint.writes().len(), 2);
    assert_eq!(lowered.footprint.constraints().len(), 4);
    let before_key = |index: usize| {
        updated.before.rules.row_key(&updated.before.rows[index]).unwrap()
    };
    assert_explicit_range_assertions(
        &lowered.footprint,
        &[
            active_primary_index_key(created.table_id()),
            write_revision_key(created.table_id()),
            before_key(0),
            before_key(1),
        ],
    );

    let changes = RowChanges::updated(&updated);
    database.insert(&updated.before).unwrap();
    database.apply(&changes).unwrap();
    assert_eq!(
        database.notes(),
        [
            (7, Some("after".to_string()), vec![1, 2]),
            (9, Some("filled".to_string()), vec![3]),
        ]
    );

    database.restore(&changes).unwrap();
    assert_eq!(
        database.notes(),
        [(7, Some("before".to_string()), vec![0]), (9, None, Vec::new())]
    );
}

#[test]
fn update_replaces_changed_composite_unique_ownership() {
    let created = unique_definition();
    let database = Database::with(&created);
    database.execute("INSERT INTO accounts VALUES (1, 'acme', 'before@example.com')");
    let updated = database.updates(&[(
        account(1, "acme", "before@example.com"),
        account(1, "acme", "after@example.com"),
    )]);

    let lowered = updated.to_homebase().unwrap();
    assert_eq!(lowered.mutations.len(), 3);
    let claims = lowered
        .mutations
        .iter()
        .filter(is_unique)
        .filter(|mutation| matches!(mutation, Mutation::Put { .. }))
        .map(|mutation| key_of(mutation).clone())
        .collect::<Vec<_>>();
    assert_explicit_range_assertions(
        &lowered.footprint,
        &[
            claims[0].clone(),
            active_primary_index_key(created.table_id()),
            write_revision_key(created.table_id()),
        ],
    );
    assert_eq!(lowered.mutations.iter().filter(is_unique).count(), 2);
    assert!(claims.iter().all(|key| lowered.footprint.constraints().contains(key)));
    let changes = RowChanges::updated(&updated);
    database.apply(&changes).unwrap();
    let email = || database.scalar::<String>("SELECT email FROM accounts WHERE id = 1");
    assert_eq!(email(), "after@example.com");
    database.restore(&changes).unwrap();
    assert_eq!(email(), "before@example.com");
}

#[test]
fn update_changes_only_the_affected_overlapping_indexes() {
    let created = overlapping_unique_definition();
    let database = Database::with(&created);
    let updated = database.updates(&[(
        profile(1, "acme", "same@example.com", "before"),
        profile(1, "other", "same@example.com", "after"),
    )]);

    let lowered = updated.to_homebase().unwrap();
    assert_eq!(lowered.mutations.len(), 7);
    assert_eq!(lowered.footprint.writes().len(), 7);
    let counts = lowered.mutations.iter().filter(is_unique).fold(
        BTreeMap::<Vec<u8>, usize>::new(),
        |mut counts, mutation| {
            *counts.entry(component(mutation, 4)).or_default() += 1;
            counts
        },
    );
    assert_eq!(counts.len(), 3);
    assert!(counts.values().all(|count| *count == 2));
    assert!(!counts.contains_key(created.unique_constraints[0].index.as_bytes().as_slice()));
}

#[test]
fn primary_key_moves_reassign_unchanged_unique_ownership() {
    let database = Database::with(&unique_definition());
    let updated = database.updates(&[(
        account(1, "acme", "owner@example.com"),
        account(2, "acme", "owner@example.com"),
    )]);

    let lowered = updated.to_homebase().unwrap();
    let owners = lowered.mutations.iter().filter(is_unique).collect::<Vec<_>>();
    assert!(matches!(
        owners.as_slice(),
        [Mutation::Delete { key: deleted }, Mutation::Put { key: inserted, value: _ }]
            if deleted == inserted
    ));
    assert_eq!(lowered.footprint.writes().len(), 3);
}

#[test]
fn null_transitions_remove_and_create_unique_ownership() {
    let database = Database::with(&unique_definition());
    let present = || account(1, "acme", "nullable@example.com");
    let absent =
        || numbered("accounts", 1, vec![StoredValue::Null, text("nullable@example.com")]);

    let removed = database.updates(&[(present(), absent())]).to_homebase().unwrap();
    assert_eq!(
        removed
            .mutations
            .iter()
            .filter(is_unique)
            .filter(|mutation| matches!(mutation, Mutation::Delete { .. }))
            .count(),
        1
    );

    let claimed = database.updates(&[(absent(), present())]).to_homebase().unwrap();
    assert_eq!(
        claimed
            .mutations
            .iter()
            .filter(is_unique)
            .filter(|mutation| matches!(mutation, Mutation::Put { .. }))
            .count(),
        1
    );
}

#[test]
fn primary_key_update_moves_the_row_and_restores_the_before_image() {
    let created = definition();
    let database = Database::with(&created);
    let moved = database.updates(&[(note(1, "before"), note(2, "after"))]);
    let lowered = moved.to_homebase().unwrap();
    assert!(matches!(
        lowered.mutations.as_slice(),
        [Mutation::Delete { .. }, Mutation::Put { .. }]
    ));
    assert_eq!(lowered.footprint.writes().len(), 2);
    assert_explicit_range_assertions(
        &lowered.footprint,
        &[
            key_of(&lowered.mutations[1]).clone(),
            active_primary_index_key(created.table_id()),
            write_revision_key(created.table_id()),
        ],
    );

    let changes = RowChanges::updated(&moved);
    database.insert(&moved.before).unwrap();
    database.apply(&changes).unwrap();
    assert_eq!(database.bodies(), [(2, "after".to_string())]);
    database.restore(&changes).unwrap();
    assert_eq!(database.bodies(), [(1, "before".to_string())]);

    let empty = |rowid, id| {
        row(
            "notes",
            rowid,
            vec![StoredValue::Integer(id), StoredValue::Null, StoredValue::Blob(Vec::new())],
        )
    };
    assert!(matches!(
        UpdatedRowsFixture::from_catalog(&database.catalog, &[(empty(1, 1), empty(3, 2))]),
        Err(Error::CaptureInvariant("captured rowid contradicts its INTEGER PRIMARY KEY"))
    ));
}

#[test]
fn multi_row_key_moves_delete_every_source_before_setting_destinations() {
    let database = Database::with(&definition());
    let updated = database.updates(&[
        (note(2, "two"), note(3, "two-moved")),
        (note(1, "one"), note(2, "one-moved")),
    ]);

    let lowered = updated.to_homebase().unwrap();
    let [
        Mutation::Delete { key: first_source },
        Mutation::Delete { key: second_source },
        Mutation::Put { key: first_destination, .. },
        Mutation::Put { key: second_destination, .. },
    ] = lowered.mutations.as_slice()
    else {
        panic!("key moves did not lower as deletes followed by sets")
    };
    assert_eq!(first_source, second_destination);
    assert_ne!(first_source, first_destination);
    assert_ne!(second_source, second_destination);

    let changes = RowChanges::updated(&updated);
    database.insert(&updated.before).unwrap();
    database.apply(&changes).unwrap();
    database.verify(&changes).unwrap();
    assert_eq!(
        database.bodies(),
        [(2, "one-moved".to_string()), (3, "two-moved".to_string())]
    );
    database.restore(&changes).unwrap();
    assert_eq!(database.bodies(), [(1, "one".to_string()), (2, "two".to_string())]);
}

#[test]
fn update_validates_every_before_image_before_changing_any_row() {
    let database = Database::with(&definition());
    let image = |id: i64, body: &str, payload: u8| {
        numbered("notes", id, vec![text(body), StoredValue::Blob(vec![payload])])
    };
    let updated = database.updates(&[
        (image(7, "before-7", 7), image(7, "after-7", 70)),
        (image(9, "before-9", 9), image(9, "after-9", 90)),
    ]);
    database.insert(&updated.before).unwrap();
    database.execute("UPDATE notes SET body = 'diverged' WHERE id = 9");

    assert!(matches!(
        database.apply(&RowChanges::updated(&updated)),
        Err(Error::InvalidDatabase("row changes no longer match SQLite state"))
    ));
    assert_eq!(
        database.bodies(),
        [(7, "before-7".to_string()), (9, "diverged".to_string())]
    );
}

#[test]
fn multi_table_apply_failure_rolls_back_earlier_tables_and_restores_flags() {
    let notes = definition();
    let mut database = Database::with(&notes);
    let tasks = notes_like("tasks");
    database.add(&tasks);
    database.execute("INSERT INTO notes VALUES (1, 'before', x'')");
    database.execute("INSERT INTO tasks VALUES (1, 'before', x'')");
    database.config(DbConfig::SQLITE_DBCONFIG_ENABLE_TRIGGER, true);
    database.config(DbConfig::SQLITE_DBCONFIG_ENABLE_FKEY, true);

    let update = |table: &str| {
        let image = |body: &str| {
            numbered(table, 1, vec![text(body), StoredValue::Blob(Vec::new())])
        };
        CapturedChange::Update { before: image("before"), after: image("after") }
    };
    let changes = database.changes(&[update("notes"), update("tasks")]);
    let (first, second) = if notes.table_id().as_bytes() < tasks.table_id().as_bytes() {
        ("notes", "tasks")
    } else {
        ("tasks", "notes")
    };
    database.execute(&format!("UPDATE {second} SET body = 'diverged'"));

    assert!(matches!(
        database.apply(&changes),
        Err(Error::InvalidDatabase("row changes no longer match SQLite state"))
    ));
    let body = |table: &str| database.scalar::<String>(&format!("SELECT body FROM {table}"));
    assert_eq!(body(first), "before");
    assert_eq!(body(second), "diverged");
    assert!(database.connection.db_config(DbConfig::SQLITE_DBCONFIG_ENABLE_TRIGGER).unwrap());
    assert!(database.connection.db_config(DbConfig::SQLITE_DBCONFIG_ENABLE_FKEY).unwrap());
}

#[test]
fn row_set_codec_rejects_duplicate_primary_key_images() {
    let database = Database::with(&definition());
    let mut inserted = inserted(&database);
    let duplicate = inserted.rows[0].clone();
    inserted.rows.push(duplicate);

    assert_eq!(RowSet::decode(&inserted.encode()), Err(RowCodecError::DuplicateRow));
    assert!(matches!(
        inserted.to_homebase(),
        Err(Error::InvalidMultiliteOp(message))
            if message == "row operation contains a duplicate logical row"
    ));
}

#[test]
fn delete_refuses_a_row_whose_non_key_values_diverged() {
    let database = Database::with(&definition());
    let inserted = inserted(&database);
    let deleted = DeletedRowsFixture { deleted: inserted.clone() };
    database.insert(&inserted).unwrap();
    database.execute("UPDATE notes SET body = 'changed' WHERE id = 7");

    assert!(matches!(
        database.apply(&RowChanges::deleted(&deleted)),
        Err(Error::InvalidDatabase("row changes no longer match SQLite state"))
    ));
    assert_eq!(database.scalar::<i64>("SELECT count(*) FROM notes"), 2);
}

#[test]
fn apply_and_reject_effects_replay_exact_rows() {
    let database = Database::with(&definition());
    let inserted = inserted(&database);

    database.insert(&inserted).unwrap();
    assert_eq!(database.scalar::<i64>("SELECT count(*) FROM notes"), 2);
    database.delete(&inserted).unwrap();
    assert_eq!(database.scalar::<i64>("SELECT count(*) FROM notes"), 0);
    let changes = RowChanges::inserted(inserted);
    database.apply(&changes).unwrap();
    assert_eq!(database.scalar::<i64>("SELECT count(*) FROM notes"), 2);
    database.restore(&changes).unwrap();
    assert_eq!(database.scalar::<i64>("SELECT count(*) FROM notes"), 0);
}

#[test]
fn delete_verifier_rejects_a_reappeared_primary_key() {
    let database = Database::with(&definition());
    let inserted = inserted(&database);
    let changes = RowChanges::deleted(&DeletedRowsFixture { deleted: inserted.clone() });

    database.insert(&inserted).unwrap();
    database.apply(&changes).unwrap();
    database.verify(&changes).unwrap();
    database.execute("INSERT INTO notes VALUES (7, 'other', x'')");

    assert!(matches!(
        database.verify(&changes),
        Err(Error::InvalidDatabase(
            "canonical row changes retained a retired primary-key image"
        ))
    ));
}

#[test]
fn stale_rows_follow_table_identity_after_rename_and_name_reuse() {
    let created = definition();
    let mut database = Database::with(&created);
    let inserted = inserted(&database);
    let sql = "ALTER TABLE notes RENAME TO archived_notes";
    let spec = || RenameTableSpec { table: name("notes"), new_name: name("archived_notes") };
    let mut statements = Statements::new();
    statements.record(sql.to_string(), ValidatedExecute::RenameTable(spec()));
    let operation =
        AlterTableOperation::prepare_rename_table(&database.catalog, &statements, sql, &spec())
            .unwrap();
    alter(&mut database, &operation, &statements);

    database.add(&definition());
    database.insert(&inserted).unwrap();

    assert_eq!(database.scalar::<i64>("SELECT count(*) FROM archived_notes"), 2);
    assert_eq!(database.scalar::<i64>("SELECT count(*) FROM notes"), 0);
    database.delete(&inserted).unwrap();
    assert_eq!(database.scalar::<i64>("SELECT count(*) FROM archived_notes"), 0);
}

#[test]
fn key_images_normalize_equal_integer_and_real_values() {
    let part = || KeyPartRules {
        column: ColumnId::fresh(),
        affinity: Affinity::Blob,
        rowid_alias: false,
    };
    assert_eq!(
        key_image(&StoredValue::Integer(1), part()).unwrap(),
        key_image(&StoredValue::Real(1.0_f64.to_bits()), part()).unwrap()
    );
    assert_eq!(
        key_image(&StoredValue::Integer(0), part()).unwrap(),
        key_image(&StoredValue::Real((-0.0_f64).to_bits()), part()).unwrap()
    );
    assert_ne!(
        key_image(&StoredValue::Integer(1), part()).unwrap(),
        key_image(&StoredValue::Real(1.5_f64.to_bits()), part()).unwrap()
    );
    let bound = i64::MAX as f64;
    assert_ne!(
        key_image(&StoredValue::Integer(i64::MAX), part()).unwrap(),
        key_image(&StoredValue::Real(bound.to_bits()), part()).unwrap()
    );
}

#[test]
fn key_rule_codec_roundtrips_every_affinity_and_the_rowid_marker() {
    let column = ColumnId::fresh();
    for affinity in [
        Affinity::Integer,
        Affinity::Real,
        Affinity::Text,
        Affinity::Blob,
        Affinity::Numeric,
    ] {
        let part =
            KeyPartRules { column, affinity, rowid_alias: affinity == Affinity::Integer };
        assert_eq!(KeyPartRules::decode(&part.encode()).unwrap(), part);
    }

    let malformed = Frame(Vec::new())
        .field(TAG_COLUMN_ID, &column.as_bytes())
        .field(TAG_COLUMN_AFFINITY, &[Affinity::Text.to_u8()])
        .field(TAG_KEY_PART_FLAGS, &[1]);
    assert_eq!(KeyPartRules::decode(&malformed.0), Err(RowCodecError::InvalidRow));
}

#[test]
fn sqlite_affinity_is_captured_before_row_and_unique_key_lowering() {
    let mut spec = table(
        "typed_values",
        vec![
            column("id", integer(), Some(0)),
            column("amount", TypeDeclaration::numeric(), None),
            column("label", text_type(), None),
            column("payload", TypeDeclaration::blob(), None),
            column("ratio", TypeDeclaration::floating(), None),
        ],
    );
    spec.unique_constraints.push(unique(None, &["amount"]));
    let created = CreateTable::new(
        "CREATE TABLE typed_values (
            id INTEGER PRIMARY KEY,
            amount DECIMAL(10, 2) UNIQUE,
            label VARCHAR(40),
            payload BLOB,
            ratio DOUBLE
        )",
        spec,
    );
    let database = Database::with(&created);
    database.execute("INSERT INTO typed_values VALUES (1, '7', 8, 9, '10.5')");
    let captured = database.scan(&created, "typed_values");
    assert_eq!(
        captured[0].values,
        [
            StoredValue::Integer(1),
            StoredValue::Integer(7),
            text("8"),
            StoredValue::Integer(9),
            StoredValue::Real(10.5_f64.to_bits()),
        ]
    );

    let inserted = database.rows(&captured);
    let lowered = inserted.to_homebase().unwrap();
    assert_eq!(lowered.mutations.len(), 2);
    assert_eq!(lowered.footprint.writes().len(), 2);
    assert_eq!(RowSet::decode(&inserted.encode()).unwrap(), inserted);
}

#[test]
fn strict_rows_preserve_any_and_reject_invalid_admitted_storage_classes() {
    let mut spec = table(
        "strict_values",
        vec![
            column("id", integer(), Some(0)),
            column("count", TypeDeclaration::short_integer(), None),
            column("ratio", TypeDeclaration::floating(), None),
            column("label", text_type(), None),
            column("payload", TypeDeclaration::blob(), None),
            column("anything", TypeDeclaration::any(), None),
        ],
    );
    spec.mode = TableMode::Strict;
    spec.unique_constraints.push(unique(None, &["anything"]));
    let created = CreateTable::new(
        "CREATE TABLE strict_values (
            id INTEGER PRIMARY KEY,
            count INT,
            ratio REAL,
            label TEXT,
            payload BLOB,
            anything ANY UNIQUE
        ) STRICT",
        spec,
    );
    let database = Database::with(&created);
    database.execute(
        "INSERT INTO strict_values VALUES
            (1, '7', 2, 3, x'04', '000123'),
            (2, 8, 2.5, '4', x'05', 123)",
    );
    assert!(database
        .connection
        .execute(
            "INSERT INTO strict_values VALUES (3, 'not-an-integer', 1, 'x', x'00', 'bad')",
            (),
        )
        .is_err());

    let captured = database.scan(&created, "strict_values");
    assert_eq!(
        captured[0].values,
        [
            StoredValue::Integer(1),
            StoredValue::Integer(7),
            StoredValue::Real(2.0_f64.to_bits()),
            text("3"),
            StoredValue::Blob(vec![4]),
            text("000123"),
        ]
    );
    assert_eq!(captured[1].values[5], StoredValue::Integer(123));

    let inserted = database.rows(&captured);
    assert_eq!(inserted.rules.indexes[0].parts[0].affinity, Affinity::Blob);
    assert_eq!(inserted.to_homebase().unwrap().mutations.len(), 4);

    let mut invalid = inserted;
    let count = created.columns[1].id;
    invalid.rows[0].values.iter_mut().find(|cell| cell.column == count).unwrap().value =
        text("invalid");
    assert!(matches!(
        invalid.validate_against_catalog(&database.catalog, &created),
        Err(Error::InvalidMultiliteOp(message))
            if message == "row value has an invalid STRICT storage class"
    ));
}

#[test]
fn stored_value_codec_roundtrips_every_sqlite_storage_class() {
    for value in [
        StoredValue::Null,
        StoredValue::Integer(i64::MIN),
        StoredValue::Real((-0.5_f64).to_bits()),
        text("hello"),
        StoredValue::Blob(vec![0, 1, 0xff]),
    ] {
        assert_eq!(StoredValue::decode(&value.encode()).unwrap(), value);
    }
    assert_eq!(StoredValue::decode(&[0, 1]), Err(StoredValueCodecError::InvalidLength));
    assert_eq!(StoredValue::decode(&[1, 0]), Err(StoredValueCodecError::InvalidLength));
}

#[test]
fn canonical_apply_suppresses_unrepresented_trigger_side_effects() {
    let created = CreateTable::new(
        "CREATE TABLE notes (id INTEGER PRIMARY KEY)",
        table("notes", vec![column("id", integer(), Some(0))]),
    );
    let database = Database::with(&created);
    let inserted = database.rows(&[numbered("notes", 7, Vec::new())]);
    database.execute(
        "ALTER TABLE notes ADD COLUMN marker TEXT;
         CREATE TRIGGER mutate_canonical_insert
         AFTER INSERT ON notes
         BEGIN
             UPDATE notes SET id = id + 1 WHERE rowid = NEW.rowid;
         END",
    );
    let transaction =
        MultiliteTransaction::new(vec![MultiliteOp::ChangeRows(RowChanges::inserted(inserted))])
            .unwrap();

    for operation in transaction.operations() {
        let MultiliteOp::ChangeRows(changes) = operation else { unreachable!() };
        database.apply(changes).unwrap();
        database.verify(changes).unwrap();
    }
    assert_eq!(database.scalar::<i64>("SELECT id FROM notes"), 7);
}

#[test]
fn arranging_backwards_undoes_arranging_forwards() {
    let database = Database::with(&definition());
    database.execute("INSERT INTO notes VALUES (1, 'one', x''), (2, 'two', x''), (3, 'three', x'')");
    let before = database.notes();
    let changes = database.changes(&[
        CapturedChange::Update { before: note(1, "one"), after: note(1, "uno") },
        CapturedChange::Update { before: note(2, "two"), after: note(4, "two") },
        CapturedChange::Delete(note(3, "three")),
        CapturedChange::Insert(note(5, "five")),
    ]);
    database.apply(&changes).unwrap();
    database.verify(&changes).unwrap();
    assert_eq!(
        database.bodies(),
        [(1, "uno".to_string()), (4, "two".to_string()), (5, "five".to_string())]
    );
    assert!(matches!(
        database.apply(&changes),
        Err(Error::InvalidDatabase("row changes no longer match SQLite state"))
    ));
    database.restore(&changes).unwrap();
    assert_eq!(database.notes(), before);
    assert!(matches!(
        database.restore(&changes),
        Err(Error::InvalidDatabase("pending row changes no longer match SQLite state"))
    ));
}

#[test]
fn statement_streams_that_end_where_they_began_leave_nothing() {
    let database = Database::with(&definition());
    let folded = |events: &[CapturedChange]| {
        RowChanges::from_catalog(&database.catalog, events).unwrap()
    };
    assert!(folded(&[
        CapturedChange::Delete(note(7, "same")),
        CapturedChange::Insert(note(7, "same")),
    ])
    .is_none());
    assert!(folded(&[
        CapturedChange::Update { before: note(7, "one"), after: note(7, "two") },
        CapturedChange::Update { before: note(7, "two"), after: note(7, "one") },
    ])
    .is_none());
}

#[test]
fn integer_images_are_ordered_and_survive_a_real_column() {
    let part = || KeyPartRules {
        column: ColumnId::fresh(),
        affinity: Affinity::Blob,
        rowid_alias: false,
    };
    let image = |value: i64| key_image(&StoredValue::Integer(value), part()).unwrap();
    let ascending = [i64::MIN, -(1 << 53), -256, -1, 0, 1, 255, 256, 1 << 40, i64::MAX];
    for pair in ascending.windows(2) {
        assert!(image(pair[0]) < image(pair[1]));
    }
    for value in [-9_007_199_254_740_991, -3, 0, 7, 9_007_199_254_740_991] {
        let stored = normalize_captured_value(&StoredValue::Integer(value), Affinity::Real);
        assert_eq!(stored, StoredValue::Real((value as f64).to_bits()));
        assert_eq!(key_image(&stored, part()).unwrap(), image(value));
    }
    for value in [i64::MAX, i64::MIN, (1 << 53) + 1, -(1 << 53) - 1, (1 << 62) + 513] {
        assert_eq!(
            normalize_captured_value(&StoredValue::Integer(value), Affinity::Real),
            StoredValue::Real((value as f64).to_bits())
        );
    }
}

#[test]
fn unique_indexes_are_filled_from_the_rows_that_are_there() {
    let created = definition();
    let database = Database::with(&created);
    let index = |unique| NamedIndex {
        index: IndexId::fresh(),
        name: name("notes_body"),
        unique,
        active: true,
        columns: vec![created.columns[1].id],
    };
    let rows = [note(1, "one"), note(2, "two")];
    let filled = index(true);
    let entries = backfill_unique_index(&database.catalog, &created, &filled, &rows).unwrap();
    assert_eq!(entries.len(), 2);
    let set = database.rows(&rows);
    let prefix = unique_prefix(created.table_id(), filled.index, Vec::new()).unwrap();
    for row in &set.rows {
        let owner = set.rules.row_key(row).unwrap().encode();
        assert!(entries
            .iter()
            .any(|entry| entry.value == owner && entry.key.starts_with(&prefix)));
    }

    let empty = backfill_unique_index(&database.catalog, &created, &index(true), &[]).unwrap();
    assert!(empty.is_empty());
    assert!(matches!(
        backfill_unique_index(&database.catalog, &created, &index(false), &rows),
        Err(Error::CaptureInvariant("ordinary secondary indexes do not have Homebase entries"))
    ));
    let repeated = [note(1, "one"), note(2, "one")];
    assert!(matches!(
        backfill_unique_index(&database.catalog, &created, &index(true), &repeated),
        Err(Error::InvalidMultiliteOp(_))
    ));
}

#[test]
fn captured_rows_are_refused_for_what_is_wrong_with_them() {
    let database = Database::with(&definition());
    let unknown = || numbered("missing", 1, Vec::new());
    assert!(RowSet::from_catalog(&database.catalog, &[unknown()]).unwrap().is_none());
    assert!(matches!(
        RowSet::from_catalog(&database.catalog, &[note(1, "one"), unknown()]),
        Err(Error::CaptureInvariant("one row operation changed more than one table"))
    ));
    let short = numbered("notes", 1, vec![text("body")]);
    assert!(RowSet::from_catalog(&database.catalog, &[short]).is_err());
    assert!(RowSet::from_catalog(&database.catalog, &[]).unwrap().is_none());
}

#[test]
fn net_changes_leave_what_the_statement_leaves() {
    let created = definition();
    let stepwise = Database::with(&created);
    let replayed = Database::with(&created);
    for database in [&stepwise, &replayed] {
        database.execute("INSERT INTO notes VALUES (1, 'one', x''), (2, 'two', x'')");
    }
    stepwise.execute(
        "INSERT INTO notes VALUES (3, 'three', x'');
         UPDATE notes SET body = 'drei' WHERE id = 3;
         DELETE FROM notes WHERE id = 1;
         UPDATE notes SET id = 1, body = 'moved' WHERE id = 2;
         INSERT INTO notes VALUES (4, 'four', x'');
         DELETE FROM notes WHERE id = 4",
    );
    let changes = replayed.changes(&[
        CapturedChange::Insert(note(3, "three")),
        CapturedChange::Update { before: note(3, "three"), after: note(3, "drei") },
        CapturedChange::Delete(note(1, "one")),
        CapturedChange::Update { before: note(2, "two"), after: note(1, "moved") },
        CapturedChange::Insert(note(4, "four")),
        CapturedChange::Delete(note(4, "four")),
    ]);
    assert_eq!(changes.tables[0].rows.len(), 3);
    replayed.apply(&changes).unwrap();
    assert_eq!(replayed.notes(), stepwise.notes());
}

#[test]
fn assertions_cover_every_guard_and_nothing_else() {
    let database = Database::with(&overlapping_unique_definition());
    let lowered = database
        .changes(&[
            CapturedChange::Delete(profile(1, "acme", "one@example.com", "one")),
            CapturedChange::Insert(profile(2, "acme", "two@example.com", "two")),
        ])
        .to_homebase()
        .unwrap();
    for isolation in [IsolationLevel::Snapshot, IsolationLevel::Serializable] {
        let asserted = lowered.footprint.plan(isolation, AdmissionSeq(1));
        let keys = asserted
            .iter()
            .map(|assertion| match &assertion.range {
                Range::Prefix(key) => key,
                Range::Full => unreachable!(),
            })
            .collect::<Vec<_>>();
        for guard in lowered.guards.entries() {
            assert!(keys.iter().any(|key| guard.target().starts_with(key)));
        }
        for key in keys {
            assert!(lowered.guards.entries().iter().any(|guard| guard.target() == key));
        }
    }
}

#[test]
fn chained_changes_equal_the_change_that_they_amount_to() {
    let database = Database::with(&overlapping_unique_definition());
    let fold = |events: &[CapturedChange]| {
        RowChanges::from_catalog(&database.catalog, events).unwrap()
    };
    let a = || profile(1, "acme", "one@example.com", "one");
    let b = || profile(1, "acme", "two@example.com", "two");
    let c = || profile(2, "acme", "three@example.com", "three");
    let update = |before, after| CapturedChange::Update { before, after };

    let composed = fold(&[update(a(), c())]);
    assert!(composed.is_some());
    assert_eq!(fold(&[update(a(), b()), update(b(), c())]), composed);
    assert_eq!(
        fold(&[CapturedChange::Insert(a()), update(a(), b())]),
        fold(&[CapturedChange::Insert(b())])
    );
    assert_eq!(
        fold(&[CapturedChange::Delete(a()), CapturedChange::Insert(b())]),
        fold(&[update(a(), b())])
    );
    assert_eq!(fold(&[update(a(), a())]), None);
}

#[test]
fn rows_are_removed_then_updated_then_inserted() {
    let database = Database::with(&overlapping_unique_definition());
    let update = |before, after| CapturedChange::Update { before, after };
    let changes = database.changes(&[
        CapturedChange::Insert(profile(9, "acme", "nine@example.com", "nine")),
        update(
            profile(1, "acme", "one@example.com", "one"),
            profile(1, "acme", "uno@example.com", "uno"),
        ),
        CapturedChange::Delete(profile(2, "acme", "two@example.com", "two")),
    ]);
    let changed = &changes.tables[0];
    let created = changed.definition(&database.catalog, false).unwrap();
    let kinds = |reverse| {
        let current = changed.start_set(reverse).rows;
        changed
            .replay_steps(&database.catalog, created, reverse, &current)
            .unwrap()
            .iter()
            .map(|step| match step {
                RowStep::Remove(removal) => ("remove", removal.delete.parameters.len()),
                RowStep::Update(update) => ("update", update.parameters.len()),
                RowStep::Insert(insertion) => ("insert", insertion.parameters.len()),
                RowStep::Fail(_) => ("fail", 0),
            })
            .collect::<Vec<_>>()
    };
    assert_eq!(kinds(false), [("remove", 1), ("update", 1), ("insert", 1)]);
    assert_eq!(kinds(true), [("remove", 1), ("update", 1), ("insert", 1)]);
}

#[test]
fn a_step_that_cannot_be_planned_is_the_last() {
    let database = Database::with(&overlapping_unique_definition());
    let changes =
        database.changes(&[CapturedChange::Delete(profile(2, "acme", "two@example.com", "two"))]);
    let changed = &changes.tables[0];
    let created = changed.definition(&database.catalog, false).unwrap();
    let current = changed.start_set(false).rows;
    let steps =
        changed.replay_steps(&CatalogSnapshot::new(), created, false, &current).unwrap();
    assert!(matches!(
        steps.as_slice(),
        [RowStep::Fail(Error::InvalidDatabase(
            "row operation references a table without a current name binding"
        ))]
    ));
}

#[test]
fn row_deletes_come_before_row_puts_in_the_lowered_list() {
    let database = Database::with(&overlapping_unique_definition());
    let update = |before, after| CapturedChange::Update { before, after };
    let lowered = database
        .changes(&[
            update(
                profile(2, "acme", "two@example.com", "two"),
                profile(3, "acme", "two@example.com", "two"),
            ),
            update(
                profile(1, "acme", "one@example.com", "one"),
                profile(2, "acme", "one@example.com", "one"),
            ),
        ])
        .to_homebase()
        .unwrap();
    let rows = lowered
        .mutations
        .iter()
        .filter_map(|mutation| match mutation {
            Mutation::Put { key, .. } => Some((key, false)),
            Mutation::Delete { key } => Some((key, true)),
            Mutation::DeleteRange { .. } => None,
        })
        .filter(|(key, _)| TargetFamily::classify(key) == Some(TargetFamily::Row))
        .map(|(_, deleted)| deleted)
        .collect::<Vec<_>>();
    assert_eq!(rows, [true, true, false, false]);
}

#[test]
fn settings_come_back_whatever_became_of_the_changes() {
    for before in [(true, true), (true, false), (false, true), (false, false)] {
        let before = Settings { triggers: before.0, foreign_keys: before.1 };
        for done in [true, false] {
            let mut settings = before;
            let mut run = |steps: Vec<ContextStep>| {
                for step in steps {
                    match step {
                        ContextStep::Triggers(on) => settings.triggers = on,
                        ContextStep::ForeignKeys(on) => settings.foreign_keys = on,
                        _ => {}
                    }
                }
                settings
            };
            assert_eq!(run(enter_context()), Settings { triggers: false, foreign_keys: false });
            let leaving = leave_context(before, done);
            assert_eq!(leaving[2] == ContextStep::Release, done);
            assert_eq!(run(leaving), before);
        }
    }
}
