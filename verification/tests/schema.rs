use multilite::catalog::{CatalogEntry, CatalogSnapshot, ColumnBinding};
use multilite::error::Error;
use multilite::footprint::{AdmissionSeq, ConflictFootprint};
use multilite::identity::{ColumnId, MutationId};
use multilite::key::{Key, Mutation, Range};
use multilite::logical::alter::error::AlterTableCodecError;
use multilite::logical::alter::operation::{AlterTableDelta, AlterTableOperation};
use multilite::logical::alter::rebuild::{check_rebuilt, rebuild_table_if_needed, HeldColumn};
use multilite::logical::alter::steps::AlterStep;
use multilite::logical::drop_table::error::DropTableCodecError;
use multilite::logical::drop_table::frame::DropTableOperation;
use multilite::logical::drop_table::steps::check_violations;
use multilite::logical::index::Indexes;
use multilite::logical::isolation::IsolationLevel;
use multilite::logical::layout::{
    column_check_dependency_key, column_dependency_prefix, constraint_reference_key,
    schema_object_name_scope_key, table_prefix, table_schema_key, write_revision_key,
};
use multilite::logical::operation::codec::MultiliteOp;
use multilite::logical::row::keys::primary_index_prefix;
use multilite::logical::schema::definition::CreateTable;
use multilite::logical::schema::statement::{
    AddColumnSpec, CreateCheckConstraint, CreateColumn, CreateForeignKey, CreateIndexSpec,
    CreateIndexTerm, CreateTableSpec, CreateUnique, CreateViewSpec, DefaultDefinition,
    DropColumnSpec, DropTableSpec, DropViewSpec, RenameColumnSpec, RenameTableSpec, Statements,
    ValidatedExecute, UNLISTED,
};
use multilite::logical::types::{
    ForeignKeyAction, SortOrder, TableMode, TableStorage, TypeDeclaration,
};
use multilite::logical::user_version::{self, SetUserVersion, UserVersionCodecError};
use multilite::logical::view::error::ViewCodecError;
use multilite::logical::view::frame::ViewOperation;
use multilite::logical::view::operation::ensure_table_not_referenced;
use multilite::name::SqlName;
use multilite::physical::{verify_table, IndexText, TableText};
use multilite::repair::capture::{
    capture_plan, check_copied, check_job, check_measure, check_restored, check_restored_row,
    check_retired, restore_statement, restore_values, CaptureBudget, RepairJob, DELETE_JOB,
    DELETE_ROWS, INSERT_JOB, SELECT_JOB, SELECT_ROWS,
};
use multilite::repair::sidecar::{CREATE_TABLES, PACK_FUNCTION};
use multilite::repair::tuple::pack_tuple;
use multilite::sqlite::quote_identifier;
use multilite::value::StoredValue;
use rusqlite::functions::FunctionFlags;
use rusqlite::types::{ToSqlOutput, ValueRef};
use rusqlite::{params_from_iter, Connection, OptionalExtension, ToSql};

const TAG_BEFORE: u8 = 9;

fn name(text: &str) -> SqlName {
    SqlName::new(text.to_string())
}

fn column(text: &str, declared_type: TypeDeclaration, primary_key: Option<u32>) -> CreateColumn {
    CreateColumn {
        name: name(text),
        declared_type,
        not_null: false,
        not_null_name: None,
        default: None,
        primary_key,
    }
}

fn default(expression: &str) -> Option<DefaultDefinition> {
    Some(DefaultDefinition { name: None, expression: expression.to_string() })
}

fn table(text: &str, columns: Vec<CreateColumn>) -> CreateTableSpec {
    CreateTableSpec {
        name: name(text),
        mode: TableMode::Ordinary,
        storage: TableStorage::Rowid,
        primary_key_name: None,
        columns,
        unique_constraints: Vec::new(),
        foreign_keys: Vec::new(),
        checks: Vec::new(),
    }
}

struct Bound<'a>(&'a StoredValue);

impl ToSql for Bound<'_> {
    fn to_sql(&self) -> rusqlite::Result<ToSqlOutput<'_>> {
        Ok(ToSqlOutput::Borrowed(match self.0 {
            StoredValue::Null => ValueRef::Null,
            StoredValue::Integer(value) => ValueRef::Integer(*value),
            StoredValue::Real(bits) => ValueRef::Real(f64::from_bits(*bits)),
            StoredValue::Text(bytes) => ValueRef::Text(bytes),
            StoredValue::Blob(bytes) => ValueRef::Blob(bytes),
        }))
    }
}

fn captured(value: ValueRef<'_>) -> StoredValue {
    match value {
        ValueRef::Null => StoredValue::Null,
        ValueRef::Integer(value) => StoredValue::Integer(value),
        ValueRef::Real(value) => StoredValue::Real(value.to_bits()),
        ValueRef::Text(bytes) => StoredValue::Text(bytes.to_vec()),
        ValueRef::Blob(bytes) => StoredValue::Blob(bytes.to_vec()),
    }
}

/// A database with its catalog, what its statements stand for, and how its one
/// altered table is written under another name.
struct Replica {
    connection: Connection,
    catalog: CatalogSnapshot,
    statements: Statements,
    render: fn(&str, &[String]) -> String,
}

impl Replica {
    fn new() -> Replica {
        let connection = Connection::open_in_memory().unwrap();
        connection
            .create_scalar_function(
                PACK_FUNCTION,
                -1,
                FunctionFlags::SQLITE_UTF8 | FunctionFlags::SQLITE_DETERMINISTIC,
                |context| {
                    let values = (0..context.len())
                        .map(|index| captured(context.get_raw(index)))
                        .collect::<Vec<_>>();
                    Ok(pack_tuple(&values).unwrap())
                },
            )
            .unwrap();
        connection.execute_batch(CREATE_TABLES).unwrap();
        Replica {
            connection,
            catalog: CatalogSnapshot::new(),
            statements: Statements::new(),
            render: |_, _| unreachable!(),
        }
    }

    fn create(&mut self, sql: &str, spec: CreateTableSpec) -> CreateTable {
        let created = CreateTable::prepare(&self.catalog, sql, spec).unwrap();
        self.connection.execute(sql, ()).unwrap();
        self.insert(&created);
        created
    }

    fn insert(&mut self, created: &CreateTable) {
        let catalog = std::mem::replace(&mut self.catalog, CatalogSnapshot::new());
        self.catalog = catalog.insert(created).unwrap();
    }

    fn rename_table(&mut self, sql: &str, from: &str, to: &str) -> AlterTableOperation {
        let spec = || RenameTableSpec { table: name(from), new_name: name(to) };
        self.statements.record(sql.to_string(), ValidatedExecute::RenameTable(spec()));
        AlterTableOperation::prepare_rename_table(&self.catalog, &self.statements, sql, &spec())
            .unwrap()
    }

    fn rename_column(
        &mut self,
        sql: &str,
        table: &str,
        from: &str,
        to: &str,
    ) -> AlterTableOperation {
        let spec =
            || RenameColumnSpec { table: name(table), old_name: name(from), new_name: name(to) };
        self.statements.record(sql.to_string(), ValidatedExecute::RenameColumn(spec()));
        AlterTableOperation::prepare_rename_column(&self.catalog, &self.statements, sql, &spec())
            .unwrap()
    }

    fn add_column(
        &mut self,
        sql: &str,
        spec: impl Fn() -> AddColumnSpec,
    ) -> AlterTableOperation {
        self.statements.record(sql.to_string(), ValidatedExecute::AddColumn(spec()));
        AlterTableOperation::prepare_add_column(&self.catalog, &self.statements, sql, &spec())
            .unwrap()
    }

    fn drop_column(&mut self, sql: &str, table: &str, column: &str) -> AlterTableOperation {
        let spec = || DropColumnSpec { table: name(table), column: name(column) };
        self.statements.record(sql.to_string(), ValidatedExecute::DropColumn(spec()));
        AlterTableOperation::prepare_drop_column(&self.catalog, &self.statements, sql, &spec())
            .unwrap()
    }

    fn drop_table(&mut self, sql: &str, table: &str) -> DropTableOperation {
        let spec = || DropTableSpec { name: name(table) };
        self.statements.record(sql.to_string(), ValidatedExecute::DropTable(spec()));
        DropTableOperation::prepare(&self.catalog, &[], &self.statements, sql, &spec()).unwrap()
    }

    fn capture(&self, operation: &AlterTableOperation) {
        let Some(capture) = operation.capture_local_repair(&self.catalog).unwrap() else {
            return;
        };
        let id = operation.mutation_id.as_bytes();
        let plan =
            capture_plan(id, &capture.table, &capture.primary_key, &capture.column).unwrap();
        let (rows, bytes): (i64, i64) = self
            .connection
            .query_row(&plan.measure, (), |row| Ok((row.get(0)?, row.get(1)?)))
            .unwrap();
        let (rows, bytes) = check_measure(rows, bytes, CaptureBudget::standard()).unwrap();
        self.connection
            .execute(INSERT_JOB, (id.as_slice(), rows as i64, bytes as i64))
            .unwrap();
        check_copied(self.connection.execute(&plan.copy, [id.as_slice()]).unwrap(), rows).unwrap();
    }

    fn contains(&self, operation: &AlterTableOperation) -> bool {
        self.connection
            .query_row(SELECT_JOB, [operation.mutation_id.as_bytes().as_slice()], |_| Ok(()))
            .optional()
            .unwrap()
            .is_some()
    }

    fn held(&self, table: &SqlName) -> Vec<HeldColumn> {
        self.connection
            .prepare(&format!("PRAGMA main.table_xinfo({})", quote_identifier(table.value())))
            .unwrap()
            .query_map((), |row| Ok(HeldColumn { name: row.get(1)?, hidden: row.get(6)? }))
            .unwrap()
            .map(|column| column.unwrap())
            .collect()
    }

    fn rebuild(&self, operation: &AlterTableOperation, force: bool) {
        let definition = self.catalog.by_id(operation.table).unwrap();
        let table = self.catalog.name_by_id(operation.table).unwrap();
        let id = multilite::identity::fresh_uuid();
        let plan =
            rebuild_table_if_needed(&self.catalog, definition, &self.held(table), force, id)
                .unwrap();
        let Some(plan) = plan else {
            return;
        };
        let ids = definition.column_ids();
        let names = self.catalog.column_names(operation.table, &ids, "unbound").unwrap();
        let dependents = self
            .connection
            .prepare(
                "SELECT sql FROM main.sqlite_schema WHERE tbl_name = ?1 COLLATE NOCASE
                 AND type IN ('index', 'trigger') AND sql IS NOT NULL ORDER BY type, name",
            )
            .unwrap()
            .query_map([table.value()], |row| row.get::<_, String>(0))
            .unwrap()
            .collect::<rusqlite::Result<Vec<_>>>()
            .unwrap();
        let enforced: bool =
            self.connection.pragma_query_value(None, "foreign_keys", |row| row.get(0)).unwrap();
        self.connection.pragma_update(None, "foreign_keys", false).unwrap();
        self.connection.execute_batch(&(self.render)(&plan.temporary, &names)).unwrap();
        self.connection.execute_batch(&plan.copy).unwrap();
        self.connection.execute_batch(&plan.replace).unwrap();
        for sql in dependents {
            self.connection.execute_batch(&sql).unwrap();
        }
        let violations: bool = self
            .connection
            .query_row("SELECT EXISTS(SELECT 1 FROM pragma_foreign_key_check)", (), |row| {
                row.get(0)
            })
            .unwrap();
        check_rebuilt(violations).unwrap();
        self.connection.pragma_update(None, "foreign_keys", enforced).unwrap();
    }

    fn restore(&self, id: MutationId, operation: &AlterTableOperation, table: &str, column: &str) {
        let id = id.as_bytes();
        let definition = self.catalog.by_id(operation.table).unwrap();
        let key = definition
            .primary_key_columns()
            .iter()
            .map(|column| {
                let bound = self.catalog.column_name_by_id(operation.table, column.id).unwrap();
                bound.value().to_string()
            })
            .collect::<Vec<_>>();
        let job = self
            .connection
            .query_row(SELECT_JOB, [id.as_slice()], |row| {
                Ok(RepairJob { kind: row.get(0)?, row_count: row.get(1)? })
            })
            .optional()
            .unwrap();
        let expected = check_job(job, &key).unwrap();
        let update = restore_statement(table, &key, column);
        let rows = self
            .connection
            .prepare(SELECT_ROWS)
            .unwrap()
            .query_map([id.as_slice()], |row| {
                Ok((row.get::<_, Vec<u8>>(0)?, row.get::<_, Vec<u8>>(1)?))
            })
            .unwrap()
            .collect::<rusqlite::Result<Vec<_>>>()
            .unwrap();
        let mut restored = 0;
        for (primary, value) in rows {
            let values = restore_values(&primary, &value, key.len()).unwrap();
            let changed = self
                .connection
                .execute(&update, params_from_iter(values.iter().map(Bound)))
                .unwrap();
            check_restored_row(changed).unwrap();
            restored += 1;
        }
        check_restored(restored, expected).unwrap();
    }

    fn perform(&mut self, operation: &AlterTableOperation, steps: Vec<AlterStep>) {
        for step in steps {
            match step {
                AlterStep::Execute(sql) => self.connection.execute_batch(&sql).unwrap(),
                AlterStep::ExecuteStatement { table } => {
                    assert_eq!(table.canonical(), operation.source_table.canonical());
                    self.connection.execute_batch(&operation.sql).unwrap();
                }
                AlterStep::Catalog(change) => {
                    self.catalog = self.catalog.perform(operation.table, &change).unwrap();
                }
                AlterStep::FoldExpressions { .. } => {}
                AlterStep::RestoreValues { repair, table, name } => {
                    self.restore(repair, operation, table.value(), name.value());
                }
                AlterStep::Rebuild { force } => self.rebuild(operation, force),
                AlterStep::RetireRepair { repair } => {
                    let id = repair.as_bytes();
                    self.connection.execute(DELETE_ROWS, [id.as_slice()]).unwrap();
                    check_retired(self.connection.execute(DELETE_JOB, [id.as_slice()]).unwrap())
                        .unwrap();
                }
            }
        }
    }

    fn apply(&mut self, operation: &AlterTableOperation) {
        let steps = operation.apply(&self.statements, &self.catalog).unwrap();
        self.perform(operation, steps);
    }

    fn rollback(&mut self, operation: &AlterTableOperation) {
        let steps = operation.rollback(&self.statements, &self.catalog).unwrap();
        self.perform(operation, steps);
    }

    fn apply_speculative_drop(&mut self, operation: &AlterTableOperation) {
        self.capture(operation);
        self.apply(operation);
    }

    fn decode(&self, operation: &AlterTableOperation) -> AlterTableOperation {
        AlterTableOperation::decode(&operation.encode(), &self.statements).unwrap()
    }

    fn scalar<T: rusqlite::types::FromSql>(&self, sql: &str) -> T {
        self.connection.query_row(sql, (), |row| row.get(0)).unwrap()
    }
}

fn render_notes(table: &str, columns: &[String]) -> String {
    let columns = columns
        .iter()
        .map(|column| match column.as_str() {
            "id" => "id INTEGER PRIMARY KEY".to_string(),
            "body" => "body TEXT DEFAULT 'empty'".to_string(),
            "guarded" => "guarded TEXT CONSTRAINT guarded_nn NOT NULL DEFAULT 'seed' \
                          CONSTRAINT guarded_nonempty CHECK (length(guarded) > 0)"
                .to_string(),
            "key" => "key TEXT UNIQUE".to_string(),
            "tail" => "tail TEXT DEFAULT 'tail'".to_string(),
            other => format!("{other} TEXT"),
        })
        .collect::<Vec<_>>();
    format!("CREATE TABLE {table} ({})", columns.join(", "))
}

fn notes() -> (Replica, CreateTable) {
    let mut replica = Replica::new();
    replica.render = render_notes;
    let sql = "CREATE TABLE notes (id INTEGER PRIMARY KEY)";
    let created = CreateTable::new(
        sql,
        table("notes", vec![column("id", TypeDeclaration::integer(), Some(0))]),
    );
    replica.connection.execute(sql, ()).unwrap();
    replica.insert(&created);
    (replica, created)
}

fn rename_notes(replica: &mut Replica) -> AlterTableOperation {
    replica.rename_table(
        "ALTER TABLE notes RENAME TO \"Archived Notes\"",
        "notes",
        "Archived Notes",
    )
}

fn body() -> CreateColumn {
    let mut body = column("body", TypeDeclaration::text(), None);
    body.default = default("'empty'");
    body
}

fn add_checked_body(replica: &mut Replica) -> AlterTableOperation {
    replica.add_column(
        "ALTER TABLE notes ADD COLUMN body TEXT DEFAULT 'empty'
                   CHECK (id > 0 AND length(body) > 0)",
        || AddColumnSpec {
            table: name("notes"),
            column: body(),
            checks: vec![CreateCheckConstraint {
                name: None,
                column: Some(name("body")),
                expression: "id > 0 AND length(body) > 0".to_string(),
                columns: vec![name("id"), name("body")],
            }],
        },
    )
}

fn add_body(replica: &mut Replica) -> AlterTableOperation {
    replica.add_column("ALTER TABLE notes ADD COLUMN body TEXT DEFAULT 'empty'", || AddColumnSpec {
        table: name("notes"),
        column: body(),
        checks: Vec::new(),
    })
}

fn drop_body(replica: &mut Replica) -> AlterTableOperation {
    replica.drop_column("ALTER TABLE notes DROP COLUMN body", "notes", "body")
}

fn key_of(mutation: &Mutation) -> Option<&Key> {
    match mutation {
        Mutation::Put { key, .. } | Mutation::Delete { key } => Some(key),
        Mutation::DeleteRange { range: Range::Prefix(key) } => Some(key),
        Mutation::DeleteRange { range: Range::Full } => None,
    }
}

fn assert_explicit_range_assertions(footprint: &ConflictFootprint, keys: &[Key]) {
    let upto = AdmissionSeq(7);
    let asserted = footprint.plan(IsolationLevel::Snapshot, upto);
    for key in keys {
        assert!(asserted.iter().any(|assertion| {
            assertion.upto == upto && assertion.range == Range::Prefix(key.clone())
        }));
    }
}

#[test]
fn codec_and_homebase_form_contain_only_identity_and_name_bindings() {
    let (mut replica, created) = notes();
    let operation = rename_notes(&mut replica);
    assert_eq!(replica.decode(&operation), operation);

    let lowered = operation.to_homebase(&replica.statements).unwrap();
    assert_eq!(lowered.mutations.len(), 3);
    assert_eq!(lowered.footprint.constraints().len(), 2);
    assert!(matches!(lowered.mutations[0], Mutation::Put { .. }));
    assert!(matches!(lowered.mutations[1], Mutation::Delete { .. }));
    let Mutation::Put { value, .. } = &lowered.mutations[2] else {
        panic!("new name registry entry was not set")
    };
    assert_eq!(value, &created.table_id().as_bytes());
}

#[test]
fn apply_and_rollback_move_only_the_mutable_binding() {
    let (mut replica, created) = notes();
    let definition = created.encode();
    let operation = rename_notes(&mut replica);

    replica.apply(&operation);
    assert!(replica.catalog.by_name("notes").is_none());
    assert_eq!(replica.catalog.by_name("archived notes").unwrap().encode(), definition);
    replica.rollback(&operation);
    assert_eq!(replica.catalog.by_name("notes").unwrap().encode(), definition);
    assert_eq!(replica.scalar::<i64>("SELECT count(*) FROM notes"), 0);
}

#[test]
fn codec_rejects_truncation_and_sql_metadata_mismatch() {
    let (mut replica, created) = notes();
    let operation = rename_notes(&mut replica);
    let encoded = operation.encode();
    let decode = |frame: &[u8]| AlterTableOperation::decode(frame, &replica.statements);
    assert_eq!(decode(&[]), Err(AlterTableCodecError::UnknownVersion));
    assert_eq!(decode(&encoded[..encoded.len() - 1]), Err(AlterTableCodecError::Truncated));

    let mut mismatched = operation;
    let AlterTableDelta::RenameTable { new_name, .. } = &mut mismatched.delta else {
        unreachable!()
    };
    *new_name = name("different");
    assert_eq!(decode(&mismatched.encode()), Err(AlterTableCodecError::InvalidRename));

    let mut crossed = encoded;
    let before = created.encode();
    crossed.push(TAG_BEFORE);
    crossed.extend_from_slice(&(before.len() as u32).to_be_bytes());
    crossed.extend_from_slice(&before);
    assert_eq!(decode(&crossed), Err(AlterTableCodecError::InvalidAction));
}

#[test]
fn column_rename_moves_only_column_name_cells_and_rolls_back() {
    let (mut replica, created) = notes();
    let operation = replica.rename_column(
        "ALTER TABLE notes RENAME COLUMN id TO note_id",
        "notes",
        "id",
        "note_id",
    );
    assert_eq!(replica.decode(&operation), operation);
    let lowered = operation.to_homebase(&replica.statements).unwrap();
    assert_eq!(lowered.mutations.len(), 3);
    assert_eq!(lowered.footprint.constraints().len(), 2);
    assert!(lowered.footprint.writes().is_empty());
    let schema = table_schema_key(created.table_id(), created.schema_revision_id());
    assert!(lowered.mutations.iter().all(|mutation| key_of(mutation) != Some(&schema)));
    let Mutation::Put { value, .. } = &lowered.mutations[2] else {
        panic!("new column name registry entry was not set")
    };
    assert_eq!(value, &created.columns[0].id.as_bytes());

    replica.apply(&operation);
    let renamed = replica.catalog.by_id(created.table_id()).unwrap();
    assert_ne!(renamed.schema_revision_id(), created.schema_revision_id());
    let id = created.columns[0].id;
    assert_eq!(
        replica.catalog.column_name_by_id(created.table_id(), id),
        Some(&name("note_id"))
    );
    replica.connection.execute("INSERT INTO notes (note_id) VALUES (1)", ()).unwrap();

    replica.rollback(&operation);
    assert_eq!(replica.catalog.column_name_by_id(created.table_id(), id), Some(&name("id")));
    assert_eq!(replica.scalar::<i64>("SELECT id FROM notes"), 1);
    assert_eq!(replica.catalog.by_id(created.table_id()), Some(&created));
}

#[test]
fn add_column_evolves_schema_and_write_contract_and_rolls_back() {
    let (mut compatible, compatible_created) = notes();
    let (mut replica, created) = notes();
    replica.connection.execute("INSERT INTO notes VALUES (1)", ()).unwrap();
    let operation = add_checked_body(&mut replica);
    assert_eq!(replica.decode(&operation), operation);
    let lowered = operation.to_homebase(&replica.statements).unwrap();
    let AlterTableDelta::AddColumn { column, after, .. } = &operation.delta else {
        unreachable!()
    };
    assert_explicit_range_assertions(
        &lowered.footprint,
        &[
            column_check_dependency_key(after.table_id(), created.columns[0].id, *column),
            column_check_dependency_key(after.table_id(), *column, *column),
            primary_index_prefix(&created),
        ],
    );
    assert_eq!(lowered.mutations.len(), 6);
    assert_eq!(lowered.footprint.constraints().len(), 5);
    assert_eq!(lowered.footprint.writes().len(), 3);

    let simple = add_body(&mut compatible).to_homebase(&compatible.statements).unwrap();
    assert_eq!(simple.mutations.len(), 3);
    assert!(simple.footprint.writes().is_empty());
    let revision = write_revision_key(compatible_created.table_id());
    assert!(simple.mutations.iter().all(|mutation| key_of(mutation) != Some(&revision)));

    replica.apply(&operation);
    let evolved = replica.catalog.by_id(created.table_id()).unwrap();
    assert_eq!(evolved, after);
    assert_eq!(evolved.columns.len(), 2);
    assert_ne!(evolved.schema_revision_id(), created.schema_revision_id());
    assert_eq!(replica.scalar::<String>("SELECT body FROM notes WHERE id = 1"), "empty");

    replica.rollback(&operation);
    assert_eq!(replica.catalog.by_id(created.table_id()), Some(&created));
    assert_eq!(replica.scalar::<i64>("SELECT count(*) FROM pragma_table_info('notes')"), 1);
}

#[test]
fn drop_column_wire_is_metadata_only_and_sidecar_repairs_rejection() {
    let (mut replica, _) = notes();
    replica.connection.execute("INSERT INTO notes VALUES (1)", ()).unwrap();
    let add = add_body(&mut replica);
    replica.apply(&add);
    replica.connection.execute("UPDATE notes SET body = 'custom' WHERE id = 1", ()).unwrap();
    replica.connection.execute("INSERT INTO notes VALUES (2, NULL)", ()).unwrap();

    let drop = drop_body(&mut replica);
    assert!(!replica.contains(&drop));
    assert_eq!(replica.decode(&drop), drop);
    assert!(!drop.encode().windows(b"custom".len()).any(|window| window == b"custom"));
    let lowered = drop.to_homebase(&replica.statements).unwrap();
    let AlterTableDelta::DropColumn { column, after, .. } = &drop.delta else { unreachable!() };
    assert_explicit_range_assertions(
        &lowered.footprint,
        &[column_dependency_prefix(after.table_id(), *column)],
    );
    assert_eq!(lowered.mutations.len(), 4);
    assert_eq!(lowered.footprint.constraints().len(), 2);
    assert_eq!(lowered.footprint.writes().len(), 1);

    replica.apply_speculative_drop(&drop);
    assert!(replica.contains(&drop));
    assert_eq!(replica.scalar::<i64>("SELECT count(*) FROM pragma_table_info('notes')"), 1);
    replica.rollback(&drop);
    assert!(!replica.contains(&drop));
    assert_eq!(
        replica
            .connection
            .prepare("SELECT id, body FROM notes ORDER BY id")
            .unwrap()
            .query_map((), |row| Ok((row.get::<_, i64>(0)?, row.get::<_, Option<String>>(1)?)))
            .unwrap()
            .collect::<rusqlite::Result<Vec<_>>>()
            .unwrap(),
        [(1, Some("custom".to_string())), (2, None)]
    );
}

#[test]
fn drop_column_wire_size_is_independent_of_destroyed_row_count() {
    let (mut empty, _) = notes();
    let add = add_body(&mut empty);
    empty.apply(&add);
    let empty_drop = drop_body(&mut empty);

    let (mut populated, _) = notes();
    let add = add_body(&mut populated);
    populated.apply(&add);
    for id in 1..=100 {
        populated
            .connection
            .execute("INSERT INTO notes (id, body) VALUES (?1, printf('body-%d', ?1))", [id])
            .unwrap();
    }
    let populated_drop = drop_body(&mut populated);

    assert_eq!(empty_drop.encode().len(), populated_drop.encode().len());
    assert!(!populated.contains(&populated_drop));
}

#[test]
fn admitted_drop_column_materializes_without_creating_local_repair() {
    let (mut replica, _) = notes();
    let add = add_body(&mut replica);
    replica.apply(&add);
    replica.connection.execute("INSERT INTO notes VALUES (1, 'remote')", ()).unwrap();
    let drop = drop_body(&mut replica);

    replica.apply(&drop);

    assert!(!replica.contains(&drop));
    assert_eq!(replica.scalar::<i64>("SELECT count(*) FROM pragma_table_info('notes')"), 1);
}

#[test]
fn middle_not_null_column_rollback_restores_definition_order_and_values() {
    let mut replica = Replica::new();
    replica.render = render_notes;
    let mut guarded = column("guarded", TypeDeclaration::text(), None);
    guarded.not_null = true;
    guarded.not_null_name = Some(name("guarded_nn"));
    guarded.default = default("'seed'");
    let mut tail = column("tail", TypeDeclaration::text(), None);
    tail.default = default("'tail'");
    let mut spec =
        table("notes", vec![column("id", TypeDeclaration::integer(), Some(0)), guarded, tail]);
    spec.checks.push(CreateCheckConstraint {
        name: Some(name("guarded_nonempty")),
        column: Some(name("guarded")),
        expression: "length(guarded) > 0".to_string(),
        columns: vec![name("guarded")],
    });
    let created = replica.create(
        "CREATE TABLE notes (
            id INTEGER PRIMARY KEY,
            guarded TEXT CONSTRAINT guarded_nn NOT NULL DEFAULT 'seed'
                CONSTRAINT guarded_nonempty CHECK (length(guarded) > 0),
            tail TEXT DEFAULT 'tail'
        )",
        spec,
    );
    replica.connection.execute("INSERT INTO notes VALUES (1, 'custom', 'end')", ()).unwrap();
    let drop = replica.drop_column("ALTER TABLE notes DROP COLUMN guarded", "notes", "guarded");

    replica.apply_speculative_drop(&drop);
    assert_eq!(
        replica
            .connection
            .prepare("SELECT name FROM pragma_table_info('notes') ORDER BY cid")
            .unwrap()
            .query_map((), |row| row.get::<_, String>(0))
            .unwrap()
            .collect::<rusqlite::Result<Vec<_>>>()
            .unwrap(),
        ["id", "tail"]
    );
    replica.rollback(&drop);

    let columns = replica
        .connection
        .prepare(
            "SELECT name, \"notnull\", dflt_value FROM pragma_table_info('notes') ORDER BY cid",
        )
        .unwrap()
        .query_map((), |row| {
            Ok((
                row.get::<_, String>(0)?,
                row.get::<_, bool>(1)?,
                row.get::<_, Option<String>>(2)?,
            ))
        })
        .unwrap()
        .collect::<rusqlite::Result<Vec<_>>>()
        .unwrap();
    assert_eq!(
        columns,
        [
            ("id".to_string(), false, None),
            ("guarded".to_string(), true, Some("'seed'".to_string())),
            ("tail".to_string(), false, Some("'tail'".to_string())),
        ]
    );
    assert_eq!(
        replica.scalar::<String>("SELECT guarded || '/' || tail FROM notes WHERE id = 1"),
        "custom/end"
    );
    replica.connection.execute("INSERT INTO notes (id) VALUES (2)", ()).unwrap();
    assert_eq!(replica.scalar::<String>("SELECT guarded FROM notes WHERE id = 2"), "seed");
    assert!(replica.connection.execute("INSERT INTO notes VALUES (3, '', 'bad')", ()).is_err());
    assert_eq!(replica.catalog.by_id(created.table_id()), Some(&created));
}

#[test]
fn table_rebuild_preserves_integer_primary_keys_indexes_and_triggers() {
    let mut replica = Replica::new();
    replica.render = render_notes;
    let mut spec = table(
        "notes",
        vec![
            column("id", TypeDeclaration::integer(), Some(0)),
            column("key", TypeDeclaration::text(), None),
            column("middle", TypeDeclaration::text(), None),
            column("tail", TypeDeclaration::text(), None),
        ],
    );
    spec.unique_constraints.push(CreateUnique { name: None, columns: vec![name("key")] });
    replica.create(
        "CREATE TABLE notes (
            id INTEGER PRIMARY KEY,
            key TEXT UNIQUE,
            middle TEXT,
            tail TEXT
        )",
        spec,
    );
    replica
        .connection
        .execute_batch(
            "CREATE INDEX notes_tail ON notes(tail);
             CREATE TABLE audit (key TEXT);
             CREATE TRIGGER notes_audit AFTER UPDATE OF tail ON notes
             BEGIN INSERT INTO audit VALUES (NEW.key); END;
             INSERT INTO notes(id, key, middle, tail)
             VALUES (77, 'one', 'middle', 'tail')",
        )
        .unwrap();
    let drop = replica.drop_column("ALTER TABLE notes DROP COLUMN middle", "notes", "middle");

    replica.apply_speculative_drop(&drop);
    replica.rollback(&drop);

    assert_eq!(
        replica
            .connection
            .query_row("SELECT id, middle FROM notes WHERE key = 'one'", (), |row| {
                Ok((row.get::<_, i64>(0)?, row.get::<_, String>(1)?))
            })
            .unwrap(),
        (77, "middle".to_string())
    );
    assert_eq!(
        replica.scalar::<i64>(
            "SELECT count(*) FROM sqlite_schema WHERE type = 'index' AND name = 'notes_tail'"
        ),
        1
    );
    replica
        .connection
        .execute("UPDATE notes SET tail = 'changed' WHERE key = 'one'", ())
        .unwrap();
    assert_eq!(replica.scalar::<String>("SELECT key FROM audit"), "one");
}

fn render_pairs(table: &str, columns: &[String]) -> String {
    let columns = columns
        .iter()
        .map(|column| match column.as_str() {
            "sequence" => "sequence INTEGER".to_string(),
            "middle" => "middle BLOB".to_string(),
            other => format!("{other} TEXT"),
        })
        .collect::<Vec<_>>();
    format!(
        "CREATE TABLE {table} ({}, PRIMARY KEY (tenant, sequence)) WITHOUT ROWID",
        columns.join(", ")
    )
}

#[test]
fn without_rowid_middle_column_rollback_preserves_composite_rows() {
    let mut replica = Replica::new();
    replica.render = render_pairs;
    let mut spec = table(
        "pairs",
        vec![
            column("tenant", TypeDeclaration::text(), Some(0)),
            column("sequence", TypeDeclaration::integer(), Some(1)),
            column("middle", TypeDeclaration::blob(), None),
            column("tail", TypeDeclaration::text(), None),
        ],
    );
    spec.storage = TableStorage::WithoutRowid;
    replica.create(
        "CREATE TABLE pairs (
            tenant TEXT,
            sequence INTEGER,
            middle BLOB,
            tail TEXT,
            PRIMARY KEY (tenant, sequence)
        ) WITHOUT ROWID",
        spec,
    );
    replica
        .connection
        .execute("INSERT INTO pairs VALUES ('acme', 7, x'0001ff', 'tail')", ())
        .unwrap();
    let drop = replica.drop_column("ALTER TABLE pairs DROP COLUMN middle", "pairs", "middle");

    replica.apply_speculative_drop(&drop);
    replica.rollback(&drop);

    assert_eq!(
        replica
            .connection
            .query_row(
                "SELECT hex(middle), tail FROM pairs WHERE tenant = 'acme' AND sequence = 7",
                (),
                |row| Ok((row.get::<_, String>(0)?, row.get::<_, String>(1)?))
            )
            .unwrap(),
        ("0001FF".to_string(), "tail".to_string())
    );
}

fn parents() -> CreateTableSpec {
    table("parents", vec![column("id", TypeDeclaration::integer(), Some(0))])
}

fn children(constraint: Option<&str>) -> CreateTableSpec {
    let mut spec = table(
        "children",
        vec![
            column("id", TypeDeclaration::integer(), Some(0)),
            column("parent_id", TypeDeclaration::integer(), None),
        ],
    );
    spec.foreign_keys.push(CreateForeignKey {
        name: constraint.map(name),
        columns: vec![name("parent_id")],
        referenced_table: name("parents"),
        referenced_columns: Some(vec![name("id")]),
        on_delete: ForeignKeyAction::NoAction,
    });
    spec
}

#[test]
fn table_rebuild_keeps_incoming_foreign_keys_valid() {
    let mut replica = Replica::new();
    replica.render = render_notes;
    let mut spec = parents();
    spec.columns.push(column("middle", TypeDeclaration::text(), None));
    spec.columns.push(column("tail", TypeDeclaration::text(), None));
    replica.create(
        "CREATE TABLE parents (
            id INTEGER PRIMARY KEY,
            middle TEXT,
            tail TEXT
        )",
        spec,
    );
    replica.connection.pragma_update(None, "foreign_keys", true).unwrap();
    replica.create(
        "CREATE TABLE children (
            id INTEGER PRIMARY KEY,
            parent_id INTEGER,
            FOREIGN KEY (parent_id) REFERENCES parents(id)
                ON UPDATE NO ACTION ON DELETE NO ACTION
        )",
        children(None),
    );
    replica
        .connection
        .execute_batch(
            "INSERT INTO parents VALUES (1, 'middle', 'tail');
             INSERT INTO children VALUES (7, 1)",
        )
        .unwrap();
    let drop = replica.drop_column("ALTER TABLE parents DROP COLUMN middle", "parents", "middle");

    replica.apply_speculative_drop(&drop);
    replica.rollback(&drop);

    assert_eq!(
        replica
            .connection
            .query_row(
                "SELECT parents.middle, children.parent_id
                 FROM parents JOIN children ON children.parent_id = parents.id",
                (),
                |row| Ok((row.get::<_, String>(0)?, row.get::<_, i64>(1)?))
            )
            .unwrap(),
        ("middle".to_string(), 1)
    );
    assert_eq!(replica.scalar::<i64>("SELECT count(*) FROM pragma_foreign_key_check"), 0);
    assert!(replica
        .connection
        .pragma_query_value(None, "foreign_keys", |row| row.get::<_, bool>(0))
        .unwrap());
}


#[test]
fn failed_speculative_drop_rolls_back_sidecar_schema_and_catalog_together() {
    let (mut replica, _) = notes();
    let add = add_body(&mut replica);
    replica.apply(&add);
    replica.connection.execute("INSERT INTO notes VALUES (1, 'kept')", ()).unwrap();
    let drop = drop_body(&mut replica);

    let before = CatalogSnapshot::new().insert(replica.catalog.by_name("notes").unwrap()).unwrap();
    replica.connection.execute_batch("SAVEPOINT failed_drop").unwrap();
    replica.apply_speculative_drop(&drop);
    replica.connection.execute_batch("ROLLBACK TO failed_drop; RELEASE failed_drop").unwrap();
    replica.catalog = before;

    assert!(!replica.contains(&drop));
    assert_eq!(replica.scalar::<String>("SELECT body FROM notes WHERE id = 1"), "kept");
    assert_eq!(replica.catalog.by_name("notes").unwrap().columns.len(), 2);
    assert!(drop.validate_catalog_before(&replica.catalog).is_ok());
}

#[test]
fn rebuilds_are_planned_only_where_columns_differ() {
    let (replica, created) = notes();
    let held = || vec![HeldColumn { name: "ID".to_string(), hidden: 0 }];
    let id = [0x5a; 16];
    let plan = |held: &[HeldColumn], force| {
        rebuild_table_if_needed(&replica.catalog, &created, held, force, id)
    };
    assert_eq!(plan(&held(), false).unwrap(), None);
    let forced = plan(&held(), true).unwrap().unwrap();
    assert_eq!(forced.temporary, format!("__multilite__rebuild_{}", "5a".repeat(16)));
    assert_eq!(
        forced.copy,
        format!("INSERT INTO \"{}\" (\"id\") SELECT \"id\" FROM \"notes\"", forced.temporary)
    );
    assert_eq!(
        forced.replace,
        format!(
            "DROP TABLE \"notes\"; ALTER TABLE \"{}\" RENAME TO \"notes\"",
            forced.temporary
        )
    );
    assert!(plan(&[], false).unwrap().is_some());
    assert!(matches!(
        plan(&[HeldColumn { name: "id".to_string(), hidden: 2 }], false),
        Err(Error::InvalidDatabase("materialized table contains unsupported hidden columns"))
    ));
    assert!(matches!(
        rebuild_table_if_needed(&CatalogSnapshot::new(), &created, &held(), false, id),
        Err(Error::InvalidDatabase("rebuilt table has no current name binding"))
    ));
    assert!(matches!(
        check_rebuilt(true),
        Err(Error::InvalidDatabase("table rebuild violates a foreign-key relationship"))
    ));
}

fn inventory_spec() -> CreateTableSpec {
    let mut spec = table(
        "inventory",
        vec![
            column("tenant", TypeDeclaration::text(), Some(0)),
            column("sku", TypeDeclaration::integer(), Some(1)),
            column("body", TypeDeclaration::blob(), None),
        ],
    );
    spec.storage = TableStorage::WithoutRowid;
    spec
}

const CREATE_INVENTORY: &str = "CREATE TABLE inventory (tenant TEXT, sku INTEGER, body BLOB, \
                                PRIMARY KEY (tenant, sku)) WITHOUT ROWID";

fn inventory() -> (Replica, DropTableOperation) {
    let mut replica = Replica::new();
    replica.create(CREATE_INVENTORY, inventory_spec());
    replica
        .connection
        .execute("INSERT INTO inventory VALUES ('north', 1, x'0001'), ('south', 2, NULL)", ())
        .unwrap();
    let operation = replica.drop_table("DROP TABLE inventory", "inventory");
    (replica, operation)
}

#[test]
fn codec_and_lowering_are_metadata_only_and_guard_table_identity() {
    let (replica, operation) = inventory();
    let encoded = operation.encode();
    assert_eq!(DropTableOperation::decode(&encoded, &replica.statements).unwrap(), operation);

    let lowered = operation.to_homebase(&replica.statements).unwrap();
    let table = table_prefix(operation.table_id());
    let scope = schema_object_name_scope_key(&operation.source_table);
    assert_explicit_range_assertions(&lowered.footprint, &[table.clone(), scope]);
    assert_eq!(lowered.mutations.len(), 3);
    assert!(matches!(
        &lowered.mutations[2],
        Mutation::DeleteRange { range: Range::Prefix(prefix) } if prefix == &table
    ));
    assert!(!encoded.windows(b"north".len()).any(|bytes| bytes == b"north"));
}

#[test]
fn dropping_a_child_table_retires_its_exact_constraint_reference_marker() {
    let mut replica = Replica::new();
    let parent = replica.create("CREATE TABLE parents (id INTEGER PRIMARY KEY)", parents());
    let child = replica.create(
        "CREATE TABLE children (
            id INTEGER PRIMARY KEY,
            parent_id INTEGER,
            CONSTRAINT fk_parent FOREIGN KEY (parent_id) REFERENCES parents(id)
        )",
        children(Some("fk_parent")),
    );

    let operation = replica.drop_table("DROP TABLE children", "children");
    let lowered = operation.to_homebase(&replica.statements).unwrap();
    let foreign_key = &child.foreign_keys[0];
    let reference = constraint_reference_key(
        parent.table_id(),
        foreign_key.referenced_index.as_bytes(),
        foreign_key.id,
    );

    assert_explicit_range_assertions(&lowered.footprint, std::slice::from_ref(&reference));
    assert!(lowered.footprint.writes().contains(&reference));
    assert!(lowered
        .mutations
        .iter()
        .any(|mutation| matches!(mutation, Mutation::Delete { key } if key == &reference)));

    let sql = "DROP TABLE parents";
    let spec = DropTableSpec { name: name("parents") };
    assert!(matches!(
        DropTableOperation::prepare(&replica.catalog, &[], &replica.statements, sql, &spec),
        Err(Error::UnsupportedSql("DROP TABLE of a referenced parent table is not supported"))
    ));
}

fn entry_of(replica: &Replica, operation: &DropTableOperation) -> CatalogEntry {
    let definition = replica.catalog.by_id(operation.table_id()).unwrap();
    CatalogEntry {
        name: replica.catalog.name_by_id(operation.table_id()).unwrap().clone(),
        definition: definition.clone(),
        bindings: definition
            .columns
            .iter()
            .map(|column| ColumnBinding { column: column.id, name: column.name.clone() })
            .collect(),
    }
}

#[test]
fn local_sidecar_restores_composite_rows_and_is_not_part_of_the_wire_frame() {
    let (mut replica, operation) = inventory();
    let encoded = operation.encode();
    let entry = entry_of(&replica, &operation);
    let capture = operation.capture_local_repair(&replica.catalog, &entry).unwrap();
    assert_eq!(capture.table, "inventory");
    assert_eq!(capture.primary_key, ["tenant", "sku"]);
    assert_eq!(capture.columns, ["tenant", "sku", "body"]);
    assert_eq!(operation.repair_widths(), (2, 3));
    let columns = capture.columns.join(", ");
    replica
        .connection
        .execute_batch(&format!(
            "CREATE TABLE saved AS SELECT {columns} FROM {}",
            quote_identifier(&capture.table)
        ))
        .unwrap();
    assert_eq!(operation.encode(), encoded);

    let drop = operation.apply(&replica.catalog).unwrap();
    assert_eq!(drop, "DROP TABLE \"inventory\"");
    assert!(operation.verify_materialized(Some("table"), &replica.catalog).is_err());
    replica.connection.execute_batch(&drop).unwrap();
    let catalog = std::mem::replace(&mut replica.catalog, CatalogSnapshot::new());
    replica.catalog = catalog.remove_by_id(operation.table_id());
    operation.verify_materialized(None, &replica.catalog).unwrap();
    assert!(operation.apply(&replica.catalog).is_err());

    operation.check_rollback(&replica.catalog, &entry).unwrap();
    let catalog = std::mem::replace(&mut replica.catalog, CatalogSnapshot::new());
    replica.catalog = catalog.bind(entry).unwrap();
    replica.connection.execute(&operation.before.sql, ()).unwrap();
    let restored = operation.restored_names(&replica.catalog).unwrap();
    assert_eq!(restored, capture);
    replica
        .connection
        .execute_batch(&format!(
            "INSERT INTO inventory ({columns}) SELECT {columns} FROM saved; DROP TABLE saved"
        ))
        .unwrap();
    check_violations(false).unwrap();
    assert_eq!(
        replica
            .connection
            .prepare("SELECT tenant, sku, hex(body) FROM inventory ORDER BY tenant")
            .unwrap()
            .query_map((), |row| {
                Ok((row.get::<_, String>(0)?, row.get::<_, i64>(1)?, row.get::<_, String>(2)?))
            })
            .unwrap()
            .collect::<rusqlite::Result<Vec<_>>>()
            .unwrap(),
        [
            ("north".to_string(), 1, "0001".to_string()),
            ("south".to_string(), 2, String::new()),
        ]
    );
    let mut statements = Statements::new();
    statements
        .record(CREATE_INVENTORY.to_string(), ValidatedExecute::CreateTable(inventory_spec()));
    verify_table(
        &replica.catalog,
        operation.table_id(),
        &statements,
        &Some(table_text(&replica, "inventory")),
        &TableText { sql: CREATE_INVENTORY.to_string(), indexes: Vec::new() },
    )
    .unwrap();

    let entry = entry_of(&replica, &operation);
    assert!(matches!(
        operation.check_rollback(&replica.catalog, &entry),
        Err(Error::InvalidDatabase("pending DROP TABLE identity or name is already materialized"))
    ));
    let mut other = entry_of(&replica, &operation);
    other.name = name("elsewhere");
    assert!(matches!(
        operation.check_rollback(&CatalogSnapshot::new(), &other),
        Err(Error::InvalidDatabase("pending DROP TABLE catalog repair contradicts its operation"))
    ));
    assert!(matches!(
        operation.capture_local_repair(&replica.catalog, &other),
        Err(Error::InvalidDatabase("DROP TABLE repair catalog state contradicts its operation"))
    ));
    assert!(matches!(
        check_violations(true),
        Err(Error::InvalidDatabase("DROP TABLE repair violates foreign-key integrity"))
    ));
}

#[test]
fn decoding_rejects_malformed_and_contradictory_provenance() {
    let (mut replica, operation) = inventory();
    let spec = |text: &str| DropTableSpec { name: name(text) };
    replica.statements.record(
        "DROP TABLE another_table".to_string(),
        ValidatedExecute::DropTable(spec("another_table")),
    );
    replica.statements.record(
        "DROP TABLE IF EXISTS inventory".to_string(),
        ValidatedExecute::DropTableIfExists(spec("inventory")),
    );
    let decode = |frame: &[u8]| DropTableOperation::decode(frame, &replica.statements);
    assert_eq!(decode(&[]), Err(DropTableCodecError::UnknownVersion));
    let encoded = operation.encode();
    assert_eq!(decode(&encoded[..encoded.len() - 1]), Err(DropTableCodecError::Truncated));

    let mut contradictory = operation.clone();
    contradictory.sql = "DROP TABLE another_table".to_string();
    assert_eq!(decode(&contradictory.encode()), Err(DropTableCodecError::SqlMismatch));

    let mut conditional = operation.clone();
    conditional.sql = "DROP TABLE IF EXISTS inventory".to_string();
    assert_eq!(decode(&conditional.encode()).unwrap(), conditional);

    let mut unknown = operation;
    unknown.sql = "VACUUM".to_string();
    assert_eq!(decode(&unknown.encode()), Err(DropTableCodecError::InvalidSql));
}

fn noted_bodies() -> Replica {
    let mut replica = Replica::new();
    let spec = table(
        "notes",
        vec![
            column("id", TypeDeclaration::integer(), Some(0)),
            column("body", TypeDeclaration::text(), None),
        ],
    );
    replica.create("CREATE TABLE notes (id INTEGER PRIMARY KEY, body TEXT)", spec);
    replica
}

fn create_view(replica: &mut Replica, sql: &str, view: &str) -> ViewOperation {
    let spec = || CreateViewSpec { name: name(view), dependencies: vec![name("notes")] };
    replica.statements.record(sql.to_string(), ValidatedExecute::CreateView(spec()));
    ViewOperation::prepare_create(&replica.catalog, &replica.statements, sql, &spec()).unwrap()
}

fn kind_of(replica: &Replica, object: &str) -> Option<String> {
    replica
        .connection
        .query_row("SELECT type FROM main.sqlite_schema WHERE name = ?1", [object], |row| {
            row.get(0)
        })
        .optional()
        .unwrap()
}

#[test]
fn create_drop_codec_lowering_apply_and_repair_are_symmetric() {
    let mut replica = noted_bodies();
    let sql = "CREATE VIEW note_bodies AS SELECT id, upper(body) AS body FROM notes";
    let created = create_view(&mut replica, sql, "note_bodies");
    let decode = |operation: &ViewOperation| {
        ViewOperation::decode(&operation.encode(), &replica.statements).unwrap()
    };
    assert_eq!(decode(&created), created);
    let logical = MultiliteOp::View(created.clone());
    assert_eq!(
        MultiliteOp::decode(&logical.encode(), &replica.statements, &Indexes::new()).unwrap(),
        logical
    );
    let lowered = created.to_homebase(&replica.statements).unwrap();
    assert_eq!(lowered.mutations.len(), 5);
    assert_eq!(lowered.footprint.constraints().len(), 7);
    assert_eq!(lowered.footprint.writes().len(), 2);

    let run = |plan: multilite::logical::view::steps::ViewPlan| {
        replica.connection.execute_batch(&plan.execute).unwrap();
        if let Some(probe) = plan.probe {
            replica.connection.prepare(&probe).unwrap();
        }
    };
    let kind = || kind_of(&replica, "note_bodies");
    let apply = |operation: &ViewOperation| {
        let found = kind();
        run(operation
            .apply(&replica.statements, &replica.catalog, found.as_deref())
            .unwrap());
    };
    let rollback = |operation: &ViewOperation| {
        let found = kind();
        run(operation.rollback(&replica.catalog, found.as_deref()).unwrap());
    };
    apply(&created);
    created.verify_materialized(kind().as_deref()).unwrap();
    rollback(&created);
    assert!(created.verify_materialized(kind().as_deref()).is_err());
    apply(&created);
    let dropped = ViewOperation::prepare_drop(
        &replica.catalog,
        &replica.statements,
        Some(sql),
        &DropViewSpec { name: name("note_bodies") },
    )
    .unwrap();
    assert_eq!(decode(&dropped), dropped);
    apply(&dropped);
    assert_eq!(kind(), None);
    rollback(&dropped);
    assert_eq!(kind().as_deref(), Some("view"));
    replica.connection.prepare("SELECT * FROM note_bodies").unwrap();
}

#[test]
fn malformed_frames_and_invalid_views_fail_without_panics() {
    let mut replica = noted_bodies();
    let sql = "CREATE VIEW broken AS SELECT missing FROM notes";
    let operation = create_view(&mut replica, sql, "broken");
    let encoded = operation.encode();
    for length in 0..encoded.len() {
        assert!(ViewOperation::decode(&encoded[..length], &replica.statements).is_err());
    }
    let mut missing_column_contract = operation.clone();
    missing_column_contract.dependencies[0].columns.clear();
    assert_eq!(
        ViewOperation::decode(&missing_column_contract.encode(), &replica.statements),
        Err(ViewCodecError::InvalidDependencies)
    );
    replica.connection.execute(sql, ()).unwrap();
    let probe = operation.validate_created(&replica.catalog, Some("view")).unwrap();
    assert!(replica.connection.prepare(&probe).is_err());
    assert!(operation.validate_created(&replica.catalog, None).is_err());
}

fn user_version(connection: &Connection) -> i32 {
    connection.query_row("PRAGMA main.user_version", (), |row| row.get(0)).unwrap()
}

fn set_user_version(connection: &Connection, version: i32) {
    connection.pragma_update(Some("main"), "user_version", version).unwrap();
}

#[test]
fn codec_lowering_apply_and_rollback_are_exact() {
    let connection = Connection::open_in_memory().unwrap();
    let operation = SetUserVersion::prepare(user_version(&connection), -7).unwrap();
    assert_eq!(SetUserVersion::decode(&operation.encode()).unwrap(), operation);
    let lowered = operation.to_homebase();
    assert_eq!(lowered.mutations.len(), 1);
    assert_eq!(key_of(&lowered.mutations[0]), Some(&user_version::key()));
    assert_eq!(lowered.footprint.writes().len(), 1);
    set_user_version(&connection, operation.apply());
    assert_eq!(user_version(&connection), -7);
    operation.verify_materialized(user_version(&connection)).unwrap();
    set_user_version(&connection, operation.rollback(user_version(&connection)).unwrap());
    assert_eq!(user_version(&connection), 0);
    assert!(operation.verify_materialized(0).is_err());
    assert!(operation.rollback(0).is_err());
    assert_eq!(SetUserVersion::prepare(3, 3), None);
    let logical = MultiliteOp::SetUserVersion(operation);
    assert_eq!(
        MultiliteOp::decode(&logical.encode(), &Statements::new(), &Indexes::new()).unwrap(),
        logical
    );
}

#[test]
fn codec_rejects_noops_truncation_and_trailing_bytes() {
    assert_eq!(SetUserVersion::decode(&[]), Err(UserVersionCodecError::UnknownVersion));
    assert_eq!(SetUserVersion::decode(&[1]), Err(UserVersionCodecError::Truncated));
    assert_eq!(
        SetUserVersion::decode(&[1, 0, 0, 0, 1, 0, 0, 0, 1]),
        Err(UserVersionCodecError::InvalidFrame)
    );
    assert!(SetUserVersion::decode(&[1, 0, 0, 0, 1, 0, 0, 0, 2, 9]).is_err());
}

fn strict_notes() -> CreateTableSpec {
    let mut tenant = column("tenant", TypeDeclaration::text(), None);
    tenant.not_null = true;
    let mut slug = column("slug", TypeDeclaration::text(), None);
    slug.default = default("'draft'");
    let mut spec =
        table("Notes", vec![column("id", TypeDeclaration::integer(), Some(0)), tenant, slug]);
    spec.mode = TableMode::Strict;
    spec.unique_constraints.push(CreateUnique {
        name: Some(name("tenant_slug")),
        columns: vec![name("tenant"), name("slug")],
    });
    spec.checks.push(CreateCheckConstraint {
        name: None,
        column: None,
        expression: "length(slug) > 0".to_string(),
        columns: vec![name("slug")],
    });
    spec
}

const CREATE_STRICT_NOTES: &str = "CREATE TABLE Notes (
    id INTEGER PRIMARY KEY,
    tenant TEXT NOT NULL,
    slug TEXT DEFAULT 'draft',
    CONSTRAINT tenant_slug UNIQUE (tenant, slug),
    CHECK (length(slug) > 0)
) STRICT";

fn table_text(replica: &Replica, table: &str) -> TableText {
    TableText {
        sql: replica
            .connection
            .query_row(
                "SELECT sql FROM main.sqlite_schema WHERE type = 'table' AND name = ?1",
                [table],
                |row| row.get(0),
            )
            .unwrap(),
        indexes: replica
            .connection
            .prepare(
                "SELECT name, sql FROM main.sqlite_schema WHERE type = 'index'
                 AND tbl_name = ?1 COLLATE NOCASE AND sql IS NOT NULL ORDER BY name",
            )
            .unwrap()
            .query_map([table], |row| {
                Ok(IndexText { name: SqlName::new(row.get(0)?), sql: row.get(1)? })
            })
            .unwrap()
            .map(|index| index.unwrap())
            .collect(),
    }
}

fn index(text: &str, order: SortOrder, predicate: Option<&str>) -> CreateIndexSpec {
    CreateIndexSpec {
        unique: false,
        name: name(text),
        table: name("Notes"),
        terms: vec![CreateIndexTerm::Column { name: name("slug"), collation: None, order }],
        predicate: predicate.map(str::to_string),
    }
}

fn verified_notes() -> (Replica, CreateTable) {
    let mut replica = Replica::new();
    let created = replica.create(CREATE_STRICT_NOTES, strict_notes());
    replica
        .statements
        .record(CREATE_STRICT_NOTES.to_string(), ValidatedExecute::CreateTable(strict_notes()));
    (replica, created)
}

fn verify(
    replica: &Replica,
    created: &CreateTable,
    indexes: Vec<IndexText>,
) -> std::result::Result<(), Error> {
    verify_table(
        &replica.catalog,
        created.table_id(),
        &replica.statements,
        &Some(table_text(replica, "Notes")),
        &TableText { sql: CREATE_STRICT_NOTES.to_string(), indexes },
    )
}

#[test]
fn verifier_accepts_catalog_table_and_explicit_index_structure() {
    let (mut replica, created) = verified_notes();
    verify(&replica, &created, Vec::new()).unwrap();

    let sql = "CREATE INDEX NotesSearch ON Notes (slug DESC) WHERE tenant <> ''";
    replica.connection.execute(sql, ()).unwrap();
    let spec = || index("NotesSearch", SortOrder::Descending, Some("tenant <> ''"));
    replica.statements.record(sql.to_string(), ValidatedExecute::CreateIndex(spec()));
    let rendered = "CREATE INDEX \"notessearch\" ON \"Notes\" (slug DESC) WHERE tenant <> ''";
    replica.statements.record(rendered.to_string(), ValidatedExecute::CreateIndex(spec()));
    let expected = || IndexText { name: name("notessearch"), sql: rendered.to_string() };
    verify(&replica, &created, vec![expected()]).unwrap();

    assert!(verify(&replica, &created, Vec::new()).is_err());
    assert!(verify(&replica, &created, vec![expected(), expected()]).is_err());
}

#[test]
fn verifier_rejects_unrepresented_table_and_index_changes() {
    let (mut replica, created) = verified_notes();
    replica
        .connection
        .execute("ALTER TABLE Notes ADD COLUMN foreign_column TEXT", ())
        .unwrap();
    assert!(matches!(
        verify(&replica, &created, Vec::new()),
        Err(Error::InvalidDatabase("canonical SQLite table diverges from the schema catalog"))
    ));
    let mut spec = strict_notes();
    spec.columns.push(column("foreign_column", TypeDeclaration::text(), None));
    let altered = table_text(&replica, "Notes").sql;
    replica.statements.record(altered, ValidatedExecute::CreateTable(spec));
    assert!(matches!(
        verify(&replica, &created, Vec::new()),
        Err(Error::InvalidDatabase("canonical SQLite table diverges from the schema catalog"))
    ));

    let (mut clean, created) = verified_notes();
    let sql = "CREATE INDEX foreign_index ON Notes (slug)";
    clean.connection.execute(sql, ()).unwrap();
    clean.statements.record(
        sql.to_string(),
        ValidatedExecute::CreateIndex(index("foreign_index", SortOrder::Ascending, None)),
    );
    assert!(matches!(
        verify(&clean, &created, Vec::new()),
        Err(Error::InvalidDatabase("canonical SQLite indexes diverge from the schema catalog"))
    ));
    assert!(matches!(
        verify_table(
            &CatalogSnapshot::new(),
            created.table_id(),
            &clean.statements,
            &Some(table_text(&clean, "Notes")),
            &TableText { sql: CREATE_STRICT_NOTES.to_string(), indexes: Vec::new() },
        ),
        Err(Error::InvalidDatabase("canonical SQLite table diverges from the schema catalog"))
    ));
}

#[test]
fn definitions_survive_their_frames_and_resolve_their_parents() {
    let mut replica = Replica::new();
    let parent = replica.create("CREATE TABLE parents (id INTEGER PRIMARY KEY)", parents());
    let child = replica.create(
        "CREATE TABLE children (id INTEGER PRIMARY KEY, parent_id INTEGER REFERENCES parents)",
        children(None),
    );
    assert_eq!(CreateTable::decode(&child.encode()).unwrap(), child);
    assert_eq!(child.foreign_keys[0].referenced_table, parent.table_id());
    assert_eq!(child.foreign_keys[0].referenced_index, parent.primary_index_id());
    let encoded = child.encode();
    for length in 0..encoded.len() {
        assert_ne!(CreateTable::decode(&encoded[..length]).ok().as_ref(), Some(&child));
    }

    let mut orphan = children(None);
    orphan.foreign_keys[0].referenced_table = name("missing");
    assert!(CreateTable::prepare(&replica.catalog, "CREATE TABLE children", orphan).is_err());
    assert_eq!(quote_identifier("a\"b"), "\"a\"\"b\"");
    let unbound = ColumnId::from_bytes([9; 16]);
    assert!(replica.catalog.column_name_by_id(parent.table_id(), unbound).is_none());
}

#[test]
fn recording_an_alteration_leaves_its_statement_out() {
    let (mut replica, _created) = notes();
    let operation = rename_notes(&mut replica);
    let applied = operation.apply(&replica.statements, &replica.catalog).unwrap();
    let recorded = operation.record_catalog(&replica.catalog).unwrap();
    assert!(matches!(applied[0], AlterStep::Execute(_)));
    assert_eq!(applied.len(), recorded.len() + 1);
    replica.connection.execute_batch(&operation.sql).unwrap();
    replica.perform(&operation, recorded);
    assert_eq!(
        replica.catalog.name_by_id(operation.table).unwrap().value(),
        "Archived Notes"
    );
    assert!(matches!(
        operation.record_catalog(&replica.catalog),
        Err(Error::InvalidDatabase(_))
    ));
}

#[test]
fn drops_of_unreadable_views_hand_the_refusal_on() {
    let mut replica = noted_bodies();
    let drop = |replica: &Replica, stored: Option<&str>| {
        ViewOperation::prepare_drop(
            &replica.catalog,
            &replica.statements,
            stored,
            &DropViewSpec { name: name("note_bodies") },
        )
    };
    let refused = "CREATE VIEW note_bodies AS SELECT random() FROM notes";
    let refusal = || Error::UnsupportedSql("view calls a function that is not deterministic");
    replica.statements.refuse(refused.to_string(), refusal());
    assert_eq!(drop(&replica, Some(refused)), Err(refusal()));
    assert_eq!(
        drop(&replica, Some("PRAGMA user_version")),
        Err(Error::UnsupportedSql(UNLISTED))
    );
    let other = "DROP VIEW note_bodies";
    replica.statements.record(
        other.to_string(),
        ValidatedExecute::DropView(DropViewSpec { name: name("note_bodies") }),
    );
    assert_eq!(
        drop(&replica, Some(other)),
        Err(Error::InvalidDatabase("stored view SQL is outside the supported grammar"))
    );
    assert_eq!(
        drop(&replica, None),
        Err(Error::UnsupportedSql("DROP VIEW target is not a synchronized view"))
    );
    let create = |sql: &str| {
        ensure_table_not_referenced(&[sql.to_string()], &replica.statements, &name("notes"))
    };
    assert_eq!(
        create(refused),
        Err(Error::InvalidDatabase("stored view SQL is outside the supported grammar"))
    );
    assert_eq!(
        create(other),
        Err(Error::InvalidDatabase("stored view SQL does not describe a view"))
    );
}

#[test]
fn column_changes_are_refused_when_they_are_compiled() {
    let (mut replica, _) = notes();
    let add = add_body(&mut replica);
    replica.apply(&add);
    let drop = drop_body(&mut replica);
    assert_eq!(
        MultiliteOp::AlterTable(add).to_homebase(&replica.statements),
        Err(Error::CaptureInvariant("compiler omitted a guard required by a mutation"))
    );
    assert_eq!(
        MultiliteOp::AlterTable(drop).to_homebase(&replica.statements),
        Err(Error::CaptureInvariant("compiler omitted a required operation guard"))
    );
}
