use multilite::error::Error;
use multilite::footprint::AdmissionSeq;
use multilite::metastore::{self, plan_get, plan_scan, plan_writes, MetaTable, Op, StoreStatement};
use multilite::repair::capture::{
    capture_plan, check_copied, check_job, check_measure, check_restored, check_restored_row,
    check_retired, restore_statement, restore_values, CaptureBudget, RepairJob, DELETE_JOB,
    DELETE_ROWS, INSERT_JOB, SELECT_JOB, SELECT_ROWS,
};
use multilite::repair::sidecar::{
    self, decode_repair_id, validate_expected, Sidecar, SidecarJob, SidecarRow, PACK_FUNCTION,
    ROWS_TABLE,
};
use multilite::repair::tuple::{decode_tuple, pack_tuple, RepairCodecError};
use multilite::rowid::device::{device_tag, random_suffix, slot_suffix};
use multilite::rowid::lease::{
    allocates, compose, has_internal_prefix, slot_tag, tagged_slot, LeaseCursor, RowidLease,
    SlotSearch, LEASE_SIZE, MAX_SLOT, MAX_SLOT_ATTEMPTS, SLOT_CAPACITY,
};
use multilite::rowid::state::{
    self, check_leased, load_state, validate_device, Allocator, DurableState, StateRow,
    INSERT_SLOT, INSERT_STATE, SELECT_SLOTS, SELECT_STATE, SLOTS_TABLE, STATE_TABLE, UPDATE_STATE,
};
use multilite::runtime::{ExecutionMode, HookState};
use multilite::shape::ColumnInfo;
use multilite::snapshot::{DeviceSeq, LocalGeneration, OplogCursors, SnapshotDescriptor};
use multilite::value::StoredValue;
use rusqlite::functions::FunctionFlags;
use rusqlite::hooks::{AuthAction, AuthContext, Authorization};
use rusqlite::types::{ToSqlOutput, ValueRef};
use rusqlite::{params_from_iter, Connection, OptionalExtension, ToSql};
use sha2::{Digest, Sha256};
use std::sync::atomic::{AtomicUsize, Ordering};
use std::sync::Arc;

type Result<T> = std::result::Result<T, Error>;

struct Bound<'a>(&'a StoredValue);

impl ToSql for Bound<'_> {
    fn to_sql(&self) -> rusqlite::Result<ToSqlOutput<'_>> {
        Ok(ToSqlOutput::Borrowed(match self.0 {
            StoredValue::Null => ValueRef::Null,
            StoredValue::Integer(value) => ValueRef::Integer(*value),
            StoredValue::Real(bits) => ValueRef::Real(f64::from_bits(*bits)),
            StoredValue::Text(bytes) => ValueRef::Text(bytes),
            StoredValue::Blob(bytes) => ValueRef::Blob(bytes),
        }))
    }
}

fn captured(value: ValueRef<'_>) -> StoredValue {
    match value {
        ValueRef::Null => StoredValue::Null,
        ValueRef::Integer(value) => StoredValue::Integer(value),
        ValueRef::Real(value) => StoredValue::Real(value.to_bits()),
        ValueRef::Text(bytes) => StoredValue::Text(bytes.to_vec()),
        ValueRef::Blob(bytes) => StoredValue::Blob(bytes.to_vec()),
    }
}

fn tables(connection: &Connection, prefix: &str) -> Vec<String> {
    connection
        .prepare(
            "SELECT name FROM sqlite_schema WHERE type = 'table'
             AND substr(name, 1, length(?1)) = ?1 COLLATE NOCASE ORDER BY name",
        )
        .unwrap()
        .query_map([prefix], |row| row.get(0))
        .unwrap()
        .map(|name| name.unwrap())
        .collect()
}

fn columns(connection: &Connection, table: &str) -> Vec<ColumnInfo> {
    connection
        .prepare(&format!("PRAGMA table_info({table})"))
        .unwrap()
        .query_map((), |row| {
            Ok(ColumnInfo {
                name: row.get(1)?,
                kind: row.get(2)?,
                not_null: row.get(3)?,
                primary: row.get(5)?,
            })
        })
        .unwrap()
        .map(|column| column.unwrap())
        .collect()
}

fn definition(connection: &Connection, table: &str) -> String {
    connection
        .query_row("SELECT sql FROM sqlite_schema WHERE name = ?1", [table], |row| row.get(0))
        .unwrap()
}

fn repair_id(byte: u8) -> [u8; 16] {
    let mut id = [byte; 16];
    id[6] = (id[6] & 0x0f) | 0x40;
    id[8] = (id[8] & 0x3f) | 0x80;
    id
}

fn repair_connection() -> Connection {
    let connection = Connection::open_in_memory().unwrap();
    connection
        .create_scalar_function(
            PACK_FUNCTION,
            -1,
            FunctionFlags::SQLITE_UTF8 | FunctionFlags::SQLITE_DETERMINISTIC,
            |context| {
                let values = (0..context.len())
                    .map(|index| captured(context.get_raw(index)))
                    .collect::<Vec<_>>();
                Ok(pack_tuple(&values).unwrap())
            },
        )
        .unwrap();
    connection.execute_batch(sidecar::CREATE_TABLES).unwrap();
    connection
}

fn capture_drop_column(
    connection: &Connection,
    id: [u8; 16],
    table: &str,
    key: &[String],
    column: &str,
    budget: CaptureBudget,
) -> Result<()> {
    let plan = capture_plan(id, table, key, column)?;
    let (rows, bytes): (i64, i64) = connection
        .query_row(&plan.measure, (), |row| Ok((row.get(0)?, row.get(1)?)))
        .unwrap();
    let (rows, bytes) = check_measure(rows, bytes, budget)?;
    connection
        .execute(INSERT_JOB, (id.as_slice(), rows as i64, bytes as i64))
        .unwrap();
    check_copied(connection.execute(&plan.copy, [id.as_slice()]).unwrap(), rows)
}

fn restore_drop_column(
    connection: &Connection,
    id: [u8; 16],
    table: &str,
    key: &[String],
    column: &str,
) -> Result<()> {
    let job = connection
        .query_row(SELECT_JOB, [id.as_slice()], |row| {
            Ok(RepairJob { kind: row.get(0)?, row_count: row.get(1)? })
        })
        .optional()
        .unwrap();
    let expected = check_job(job, key)?;
    let update = restore_statement(table, key, column);
    let rows = connection
        .prepare(SELECT_ROWS)
        .unwrap()
        .query_map([id.as_slice()], |row| {
            Ok((row.get::<_, Vec<u8>>(0)?, row.get::<_, Vec<u8>>(1)?))
        })
        .unwrap()
        .collect::<rusqlite::Result<Vec<_>>>()
        .unwrap();
    let mut restored = 0;
    for (primary, value) in rows {
        let values = restore_values(&primary, &value, key.len())?;
        let changed =
            connection.execute(&update, params_from_iter(values.iter().map(Bound))).unwrap();
        check_restored_row(changed)?;
        restored += 1;
    }
    check_restored(restored, expected)
}

fn retire(connection: &Connection, id: [u8; 16]) -> Result<()> {
    connection.execute(DELETE_ROWS, [id.as_slice()]).unwrap();
    check_retired(connection.execute(DELETE_JOB, [id.as_slice()]).unwrap())
}

fn jobs(connection: &Connection) -> Vec<Vec<u8>> {
    connection
        .prepare("SELECT mutation_id FROM __multilite__repair ORDER BY mutation_id")
        .unwrap()
        .query_map((), |row| row.get(0))
        .unwrap()
        .map(|id| id.unwrap())
        .collect()
}

fn read_sidecar(connection: &Connection) -> Sidecar {
    Sidecar {
        tables: tables(connection, "__multilite__repair"),
        job_columns: columns(connection, "__multilite__repair"),
        row_columns: columns(connection, "__multilite__repair_rows"),
        job_sql: definition(connection, "__multilite__repair"),
        row_sql: definition(connection, "__multilite__repair_rows"),
        jobs: connection
            .prepare(
                "SELECT mutation_id, kind, row_count, payload_bytes,
                    (SELECT count(*) FROM __multilite__repair_rows AS r
                     WHERE r.mutation_id = j.mutation_id),
                    (SELECT coalesce(sum(length(primary_key) + length(value)), 0)
                     FROM __multilite__repair_rows AS r WHERE r.mutation_id = j.mutation_id)
                 FROM __multilite__repair AS j ORDER BY mutation_id",
            )
            .unwrap()
            .query_map((), |row| {
                Ok(SidecarJob {
                    id: row.get(0)?,
                    kind: row.get(1)?,
                    rows: row.get(2)?,
                    bytes: row.get(3)?,
                    found_rows: row.get(4)?,
                    found_bytes: row.get(5)?,
                })
            })
            .unwrap()
            .map(|job| job.unwrap())
            .collect(),
        orphaned: connection
            .query_row(
                "SELECT EXISTS(SELECT 1 FROM __multilite__repair_rows
                 WHERE mutation_id NOT IN (SELECT mutation_id FROM __multilite__repair))",
                (),
                |row| row.get(0),
            )
            .unwrap(),
        rows: connection
            .prepare("SELECT mutation_id, primary_key, value FROM __multilite__repair_rows")
            .unwrap()
            .query_map((), |row| {
                Ok(SidecarRow { id: row.get(0)?, primary_key: row.get(1)?, value: row.get(2)? })
            })
            .unwrap()
            .map(|row| row.unwrap())
            .collect(),
    }
}

#[test]
fn captures_and_restores_composite_primary_keys_losslessly() {
    let connection = repair_connection();
    connection
        .execute_batch(
            "CREATE TABLE items (
                tenant TEXT,
                sequence INTEGER,
                value BLOB,
                PRIMARY KEY (tenant, sequence)
             ) WITHOUT ROWID;
             INSERT INTO items VALUES
                ('blob', 1, x'0001'),
                ('integer', 2, -7),
                ('null', 3, NULL),
                ('real', 4, -0.0),
                ('text', 5, 'hello'),
                ('text-bytes', 6, CAST(x'ff00' AS TEXT))",
        )
        .unwrap();
    let key = ["tenant".to_string(), "sequence".to_string()];
    let budget = CaptureBudget::standard();
    capture_drop_column(&connection, repair_id(1), "items", &key, "value", budget).unwrap();
    connection.execute("UPDATE items SET value = x'ff'", ()).unwrap();
    restore_drop_column(&connection, repair_id(1), "items", &key, "value").unwrap();

    let values = connection
        .prepare("SELECT value FROM items ORDER BY tenant")
        .unwrap()
        .query_map((), |row| Ok(captured(row.get_ref(0)?)))
        .unwrap()
        .collect::<rusqlite::Result<Vec<_>>>()
        .unwrap();
    assert_eq!(
        values,
        [
            StoredValue::Blob(vec![0, 1]),
            StoredValue::Integer(-7),
            StoredValue::Null,
            StoredValue::Real((-0.0_f64).to_bits()),
            StoredValue::Text(b"hello".to_vec()),
            StoredValue::Text(vec![0xff, 0]),
        ]
    );
    retire(&connection, repair_id(1)).unwrap();
    validate_expected(&jobs(&connection), &[]).unwrap();
    assert!(matches!(
        retire(&connection, repair_id(1)),
        Err(Error::InvalidDatabase("pending destructive operation has no repair sidecar"))
    ));
}

#[test]
fn empty_tables_still_create_a_valid_job_marker() {
    let connection = repair_connection();
    connection
        .execute_batch("CREATE TABLE items (id INTEGER PRIMARY KEY, value TEXT)")
        .unwrap();
    capture_drop_column(
        &connection,
        repair_id(2),
        "items",
        &["id".to_string()],
        "value",
        CaptureBudget::standard(),
    )
    .unwrap();
    assert!(jobs(&connection).contains(&repair_id(2).to_vec()));
    read_sidecar(&connection).validate().unwrap();
    validate_expected(&jobs(&connection), &[repair_id(2).to_vec()]).unwrap();
    assert!(validate_expected(&jobs(&connection), &[repair_id(3).to_vec()]).is_err());
}

#[test]
fn capture_limits_refuse_atomically_before_creating_a_job() {
    let connection = repair_connection();
    connection
        .execute_batch(
            "CREATE TABLE items (id INTEGER PRIMARY KEY, value BLOB);
             INSERT INTO items VALUES (1, zeroblob(32)), (2, zeroblob(32))",
        )
        .unwrap();
    let key = ["id".to_string()];
    let error = capture_drop_column(
        &connection,
        repair_id(3),
        "items",
        &key,
        "value",
        CaptureBudget { rows: 1, bytes: 1 },
    )
    .unwrap_err();
    assert!(matches!(
        error,
        Error::CaptureLimitExceeded { resource: "DROP COLUMN repair rows", limit: 1 }
    ));
    assert!(!jobs(&connection).contains(&repair_id(3).to_vec()));

    let error = capture_drop_column(
        &connection,
        repair_id(5),
        "items",
        &key,
        "value",
        CaptureBudget { rows: 10, bytes: 1 },
    )
    .unwrap_err();
    assert!(matches!(
        error,
        Error::CaptureLimitExceeded { resource: "DROP COLUMN repair bytes", limit: 1 }
    ));
    assert_eq!(error.text(), "DROP COLUMN repair bytes exceeds 1");
    assert!(!jobs(&connection).contains(&repair_id(5).to_vec()));
}

#[test]
fn tuple_codec_preserves_all_sqlite_storage_classes() {
    let values = [
        StoredValue::Null,
        StoredValue::Integer(i64::MIN),
        StoredValue::Real((-0.0_f64).to_bits()),
        StoredValue::Text(vec![0xff, 0]),
        StoredValue::Blob(vec![0, 1, 2]),
    ];
    let mut frame = vec![1];
    for value in &values {
        let encoded = value.encode();
        frame.push(1);
        frame.extend_from_slice(&(encoded.len() as u32).to_be_bytes());
        frame.extend_from_slice(&encoded);
    }
    assert_eq!(decode_tuple(&frame).unwrap(), values);
    assert_eq!(pack_tuple(&values).unwrap(), frame);
    assert_eq!(captured(ValueRef::Text(&[0xff])), StoredValue::Text(vec![0xff]));
}

#[test]
fn malformed_tuples_and_jobs_are_refused() {
    assert_eq!(decode_tuple(&[2]), Err(RepairCodecError::UnknownVersion));
    assert!(decode_tuple(&[1, 1, 0, 0, 0, 9]).is_err());
    assert!(decode_repair_id(&[0; 16]).is_err());
    assert!(decode_repair_id(&[0; 15]).is_err());
    assert_eq!(decode_repair_id(&repair_id(1)).unwrap(), repair_id(1));

    let key = ["id".to_string()];
    assert!(matches!(
        check_job(None, &key),
        Err(Error::InvalidDatabase("pending DROP COLUMN repair sidecar is missing"))
    ));
    assert!(matches!(
        check_job(Some(RepairJob { kind: 1, row_count: -1 }), &key),
        Err(Error::InvalidDatabase("repair sidecar row count is invalid"))
    ));
    assert!(matches!(
        check_job(Some(RepairJob { kind: 2, row_count: 0 }), &key),
        Err(Error::InvalidDatabase("pending DROP COLUMN repair sidecar has the wrong kind"))
    ));
    assert!(matches!(
        check_job(Some(RepairJob { kind: 1, row_count: 0 }), &[]),
        Err(Error::InvalidDatabase("pending DROP COLUMN repair has no primary key"))
    ));
    assert!(matches!(
        capture_plan(repair_id(1), "items", &[], "value"),
        Err(Error::CaptureInvariant("DROP COLUMN repair requires a declared primary key"))
    ));
    assert!(matches!(
        capture_plan([0; 16], "items", &key, "value"),
        Err(Error::InvalidDatabase("repair sidecar identity is not a UUID v4"))
    ));
    assert!(matches!(
        check_measure(-1, 0, CaptureBudget::standard()),
        Err(Error::CaptureInvariant("DROP COLUMN repair row count is invalid"))
    ));
    assert!(matches!(
        check_measure(0, -1, CaptureBudget::standard()),
        Err(Error::CaptureInvariant("DROP COLUMN repair byte count is invalid"))
    ));
    assert!(check_copied(1, 2).is_err());
    assert!(check_restored(1, 2).is_err());
    assert!(check_restored_row(0).is_err());

    let one = pack_tuple(&[StoredValue::Integer(1)]).unwrap();
    let two = pack_tuple(&[StoredValue::Integer(1), StoredValue::Null]).unwrap();
    assert!(matches!(
        restore_values(&[9], &one, 1),
        Err(Error::InvalidDatabase("DROP COLUMN repair primary key is malformed"))
    ));
    assert!(matches!(
        restore_values(&one, &[9], 1),
        Err(Error::InvalidDatabase("DROP COLUMN repair value is malformed"))
    ));
    assert!(matches!(
        restore_values(&one, &two, 1),
        Err(Error::InvalidDatabase("DROP COLUMN repair value has an invalid shape"))
    ));
    assert!(matches!(
        restore_values(&two, &one, 1),
        Err(Error::InvalidDatabase("DROP COLUMN repair primary key has an invalid shape"))
    ));
}

#[test]
fn validation_rejects_corrupt_rows_and_namespace_lookalikes() {
    let corrupt = repair_connection();
    corrupt
        .execute_batch(
            "CREATE TABLE items (id INTEGER PRIMARY KEY, value TEXT);
             INSERT INTO items VALUES (1, 'one')",
        )
        .unwrap();
    let key = ["id".to_string()];
    let budget = CaptureBudget::standard();
    capture_drop_column(&corrupt, repair_id(4), "items", &key, "value", budget).unwrap();
    read_sidecar(&corrupt).validate().unwrap();
    corrupt
        .execute(
            &format!(
                "UPDATE {ROWS_TABLE} SET value = zeroblob(length(value)) WHERE mutation_id = ?1"
            ),
            [repair_id(4).as_slice()],
        )
        .unwrap();
    assert!(matches!(read_sidecar(&corrupt).validate(), Err(Error::InvalidDatabase(_))));

    let lookalike = repair_connection();
    lookalike.execute_batch("CREATE TABLE __multilite__repair_future (value BLOB)").unwrap();
    assert!(matches!(
        sidecar::is_initialized(&tables(&lookalike, "__multilite__repair")),
        Err(Error::InvalidDatabase("repair sidecar namespace contains unexpected tables"))
    ));
}

fn device(byte: u8) -> [u8; 16] {
    [byte; 16]
}

fn insert_unused_slot(
    connection: &Connection,
    tag: u16,
    mut suffix: impl FnMut() -> Result<u32>,
) -> Result<u64> {
    let mut search = SlotSearch::new(tag);
    loop {
        search.check()?;
        let slot = search.candidate(suffix()?);
        if connection.execute(INSERT_SLOT, [slot as i64]).unwrap() == 1 {
            return Ok(slot);
        }
    }
}

fn initialize(connection: &Connection, device: [u8; 16]) {
    connection.execute_batch(state::CREATE_TABLES).unwrap();
    let tag = device_tag(device).unwrap();
    let slot = insert_unused_slot(connection, tag, random_suffix).unwrap();
    connection
        .execute(INSERT_STATE, (device.as_slice(), slot as i64))
        .unwrap();
}

fn state_row(connection: &Connection) -> Option<StateRow> {
    connection
        .query_row(SELECT_STATE, (), |row| {
            Ok(StateRow { device: row.get(0)?, active_slot: row.get(1)?, leased_through: row.get(2)? })
        })
        .optional()
        .unwrap()
}

fn durable_state(connection: &Connection) -> DurableState {
    load_state(&state_row(connection)).unwrap()
}

fn used_slots(connection: &Connection) -> Vec<i64> {
    connection
        .prepare(SELECT_SLOTS)
        .unwrap()
        .query_map((), |row| row.get(0))
        .unwrap()
        .map(|slot| slot.unwrap())
        .collect()
}

fn lease_with(
    connection: &Connection,
    suffix: impl FnMut() -> Result<u32>,
) -> Result<RowidLease> {
    let state = durable_state(connection);
    let fresh = if state.is_exhausted() {
        Some(insert_unused_slot(connection, device_tag(state.device).unwrap(), suffix)?)
    } else {
        None
    };
    let plan = state.plan_lease(fresh);
    let slot = plan.lease.slot() as i64;
    let end = plan.lease.offsets().1;
    let expected = plan.expected_slot as i64;
    let changed = connection
        .execute(UPDATE_STATE, (slot, end, expected, plan.expected_through))
        .unwrap();
    check_leased(changed)?;
    Ok(plan.lease)
}

fn lease(connection: &Connection) -> RowidLease {
    lease_with(connection, random_suffix).unwrap()
}

fn read_allocator(connection: &Connection) -> Allocator {
    Allocator {
        tables: tables(connection, "__multilite__rowid"),
        state_columns: columns(connection, STATE_TABLE),
        slot_columns: columns(connection, SLOTS_TABLE),
        state_sql: definition(connection, STATE_TABLE),
        slot_sql: definition(connection, SLOTS_TABLE),
        state: state_row(connection),
        slots: used_slots(connection),
    }
}

#[test]
fn leases_are_durable_disjoint_and_in_the_non_adoption_namespace() {
    let connection = Connection::open_in_memory().unwrap();
    initialize(&connection, device(7));

    let first = lease(&connection);
    let second = lease(&connection);
    assert_eq!(first.offsets(), (0, LEASE_SIZE));
    assert_eq!(second.offsets(), (LEASE_SIZE, LEASE_SIZE * 2));
    assert_eq!(first.slot(), second.slot());
    assert!(first.clone().next_rowid().unwrap() >= (1_i64 << 47));
    read_allocator(&connection).validate().unwrap();
    validate_device(&durable_state(&connection), device(7)).unwrap();
}

#[test]
fn restart_burns_an_exposed_lease_instead_of_reusing_it() {
    let path = "file:leases?mode=memory&cache=shared";
    let _open = Connection::open(path).unwrap();
    let first = {
        let connection = Connection::open(path).unwrap();
        initialize(&connection, device(3));
        lease(&connection)
    };
    let connection = Connection::open(path).unwrap();
    let second = lease(&connection);

    assert_eq!(first.slot(), second.slot());
    assert_eq!(first.offsets().1, second.offsets().0);
}

#[test]
fn exhausted_slots_rotate_and_used_slots_are_never_reselected() {
    let connection = Connection::open_in_memory().unwrap();
    initialize(&connection, device(9));
    let state = durable_state(&connection);
    connection
        .execute(&format!("UPDATE {STATE_TABLE} SET leased_through = ?1"), [SLOT_CAPACITY])
        .unwrap();
    let mask = (1_u32 << 27) - 1;
    let old_suffix = (state.active_slot as u32) & mask;
    let new_suffix = old_suffix.wrapping_add(1) & mask;
    let mut candidates = [old_suffix, new_suffix].into_iter();
    let lease = lease_with(&connection, || Ok(candidates.next().unwrap())).unwrap();

    assert_ne!(lease.slot(), state.active_slot);
    assert_eq!(lease.offsets(), (0, LEASE_SIZE));
    assert_eq!(used_slots(&connection).len(), 2);
}

#[test]
fn a_search_among_used_slots_alone_is_given_up() {
    let mut search = SlotSearch::new(5);
    for _ in 0..MAX_SLOT_ATTEMPTS {
        search.check().unwrap();
        assert_eq!(search.candidate(7), tagged_slot(5, 7));
    }
    assert!(matches!(
        search.check(),
        Err(Error::Entropy(message)) if message == "could not allocate an unused rowid slot"
    ));
}

#[test]
fn validation_rejects_device_mismatch_and_corrupt_state() {
    let connection = Connection::open_in_memory().unwrap();
    initialize(&connection, device(1));
    assert!(matches!(
        validate_device(&durable_state(&connection), device(2)),
        Err(Error::InvalidDatabase("rowid allocator belongs to another device"))
    ));

    connection.execute(&format!("DELETE FROM {SLOTS_TABLE}"), ()).unwrap();
    assert!(matches!(
        read_allocator(&connection).validate(),
        Err(Error::InvalidDatabase("rowid allocator slots are malformed"))
    ));
}

#[test]
fn every_malformed_allocator_is_refused_for_its_own_reason() {
    let connection = Connection::open_in_memory().unwrap();
    initialize(&connection, device(1));
    let message = |allocator: Allocator| match allocator.validate() {
        Err(Error::InvalidDatabase(message)) => message,
        _ => panic!("the allocator was accepted"),
    };

    let mut allocator = read_allocator(&connection);
    allocator.tables.clear();
    assert_eq!(message(allocator), "rowid allocator tables are missing");
    let mut allocator = read_allocator(&connection);
    allocator.tables.pop();
    assert_eq!(message(allocator), "rowid allocator namespace contains unexpected tables");
    let mut allocator = read_allocator(&connection);
    allocator.state_columns[1].not_null = false;
    assert_eq!(message(allocator), "rowid allocator state table schema is invalid");
    let mut allocator = read_allocator(&connection);
    allocator.slot_columns[0].kind = "BLOB".to_string();
    assert_eq!(message(allocator), "rowid allocator slot table schema is invalid");
    let mut allocator = read_allocator(&connection);
    allocator.slot_sql = "CREATE TABLE t (a)".to_string();
    assert_eq!(message(allocator), "rowid allocator tables must use WITHOUT ROWID");
    let mut allocator = read_allocator(&connection);
    allocator.state = None;
    assert_eq!(message(allocator), "rowid allocator state row is missing");
    let mut allocator = read_allocator(&connection);
    allocator.state.as_mut().unwrap().device.pop();
    assert_eq!(message(allocator), "rowid allocator device id is malformed");
    let mut allocator = read_allocator(&connection);
    allocator.state.as_mut().unwrap().active_slot = -1;
    assert_eq!(message(allocator), "rowid allocator active slot is malformed");
    let mut allocator = read_allocator(&connection);
    allocator.state.as_mut().unwrap().leased_through = -1;
    assert_eq!(message(allocator), "rowid allocator lease is malformed");
    let mut allocator = read_allocator(&connection);
    allocator.state.as_mut().unwrap().leased_through = SLOT_CAPACITY as i64 + 1;
    assert_eq!(message(allocator), "rowid allocator state is malformed");
    let mut allocator = read_allocator(&connection);
    allocator.state.as_mut().unwrap().device = device(2).to_vec();
    assert_eq!(message(allocator), "rowid allocator state is malformed");
    let mut allocator = read_allocator(&connection);
    allocator.slots.push(-1);
    assert_eq!(message(allocator), "rowid allocator slot is malformed");
    let mut allocator = read_allocator(&connection);
    allocator.slots.push(0);
    assert_eq!(message(allocator), "rowid allocator slots are malformed");

    assert!(matches!(
        check_leased(0),
        Err(Error::InvalidDatabase("rowid allocator state changed while leasing"))
    ));
}

#[test]
fn device_tags_are_stable_nonzero_and_slots_fit_positive_rowids() {
    assert_eq!(device_tag(device(4)), device_tag(device(4)));
    assert_ne!(device_tag(device(4)).unwrap(), 0);
    assert_ne!(device_tag(device(4)), device_tag(device(5)));
    assert_eq!(compose(MAX_SLOT, SLOT_CAPACITY - 1), i64::MAX);
}

#[test]
fn device_tags_are_the_first_bytes_of_a_domain_separated_digest() {
    let mut hash = Sha256::new();
    hash.update(b"multilite:rowid-device-tag:v1\0");
    hash.update(device(4));
    hash.update(0_u32.to_be_bytes());
    let digest = hash.finalize();
    assert_eq!(device_tag(device(4)), Some(u16::from_be_bytes([digest[0], digest[1]])));
}

#[test]
fn slots_hold_their_tag_and_their_random_part() {
    assert_eq!(slot_suffix([0xff; 4]), (1 << 27) - 1);
    assert_eq!(slot_suffix([0, 0, 1, 2]), 258);
    assert_eq!(tagged_slot(3, 258), (3 << 27) + 258);
    assert_eq!(tagged_slot(3, u32::MAX), (4 << 27) - 1);
    assert_eq!(slot_tag(tagged_slot(u16::MAX, 9)), u16::MAX);
    assert_eq!(tagged_slot(u16::MAX, u32::MAX), MAX_SLOT);
    assert!(compose(tagged_slot(1, 0), 0) >= 1 << 47);
    for _ in 0..8 {
        assert!(random_suffix().unwrap() < 1 << 27);
    }
}

#[test]
fn a_cursor_hands_out_its_lease_once() {
    let mut cursor = LeaseCursor::new();
    assert_eq!(cursor.take(), None);
    cursor.refill(RowidLease::new(3, 5, 7));
    assert_eq!(cursor.take(), Some((3 << 20) + 5));
    assert_eq!(cursor.take(), Some((3 << 20) + 6));
    assert_eq!(cursor.take(), None);
}

#[test]
fn only_the_tables_of_a_user_are_allocated() {
    assert!(allocates(b"MAIN", b"notes"));
    assert!(!allocates(b"temp", b"notes"));
    assert!(!allocates(b"main", b"__MultiLite__meta"));
    assert!(has_internal_prefix(b"__multilite__"));
    assert!(!has_internal_prefix(b"__multilite_"));
}

fn open_store() -> Connection {
    let connection = Connection::open_in_memory().unwrap();
    connection.execute_batch(metastore::CREATE_TABLE).unwrap();
    connection
}

fn meta_table(connection: &Connection) -> MetaTable {
    MetaTable {
        tables: tables(connection, metastore::META_TABLE),
        columns: columns(connection, metastore::META_TABLE),
        sql: definition(connection, metastore::META_TABLE),
    }
}

fn run(connection: &Connection, statement: &StoreStatement) -> rusqlite::Result<usize> {
    connection.execute(&statement.sql, params_from_iter(statement.values.iter()))
}

fn apply(connection: &Connection, ops: &[Op]) -> std::result::Result<(), String> {
    connection.execute_batch("SAVEPOINT store").unwrap();
    for statement in plan_writes(ops) {
        if let Err(error) = run(connection, &statement) {
            connection.execute_batch("ROLLBACK TO store; RELEASE store").unwrap();
            return Err(metastore::storage_error(&error.to_string()));
        }
    }
    connection.execute_batch("RELEASE store").unwrap();
    Ok(())
}

fn get(connection: &Connection, key: &[u8]) -> Option<Vec<u8>> {
    let statement = plan_get(key);
    connection
        .query_row(&statement.sql, params_from_iter(statement.values.iter()), |row| row.get(0))
        .optional()
        .unwrap()
}

fn scan(connection: &Connection, start: &[u8], end: Option<&[u8]>) -> Vec<Vec<u8>> {
    let statement = plan_scan(start, end);
    connection
        .prepare(&statement.sql)
        .unwrap()
        .query_map(params_from_iter(statement.values.iter()), |row| row.get(0))
        .unwrap()
        .map(|key| key.unwrap())
        .collect()
}

fn put(key: &[u8], value: &[u8]) -> Op {
    Op::Put { key: key.to_vec(), value: value.to_vec() }
}

fn delete(key: &[u8]) -> Op {
    Op::Delete { key: key.to_vec() }
}

#[test]
fn initialized_store_validates_its_schema_and_reserved_namespace() {
    let connection = open_store();
    assert!(metastore::is_initialized(&tables(&connection, metastore::META_TABLE)).unwrap());
    meta_table(&connection).validate().unwrap();

    connection
        .execute_batch("CREATE TABLE __MULTILITE__meta_future (value BLOB NOT NULL)")
        .unwrap();
    assert!(matches!(
        meta_table(&connection).validate(),
        Err(Error::InvalidDatabase("metadata table namespace contains unexpected tables"))
    ));
}

#[test]
fn every_malformed_store_is_refused_for_its_own_reason() {
    let connection = open_store();
    let mut table = meta_table(&connection);
    table.tables.clear();
    assert!(matches!(
        table.validate(),
        Err(Error::InvalidDatabase("metadata table is missing"))
    ));
    let mut table = meta_table(&connection);
    table.columns[1].not_null = false;
    assert!(matches!(
        table.validate(),
        Err(Error::InvalidDatabase("metadata table schema does not match the ordered store"))
    ));
    let mut table = meta_table(&connection);
    table.sql = "CREATE TABLE t (a)".to_string();
    assert!(matches!(
        table.validate(),
        Err(Error::InvalidDatabase("metadata table must use WITHOUT ROWID"))
    ));
}

#[test]
fn consecutive_mutations_are_grouped_into_bounded_statements() {
    let connection = open_store();
    let inserts = Arc::new(AtomicUsize::new(0));
    let deletes = Arc::new(AtomicUsize::new(0));
    let counted_inserts = Arc::clone(&inserts);
    let counted_deletes = Arc::clone(&deletes);
    connection
        .authorizer(Some(move |context: AuthContext<'_>| {
            match context.action {
                AuthAction::Insert { table_name: metastore::META_TABLE } => {
                    counted_inserts.fetch_add(1, Ordering::Relaxed);
                }
                AuthAction::Delete { table_name: metastore::META_TABLE } => {
                    counted_deletes.fetch_add(1, Ordering::Relaxed);
                }
                _ => {}
            }
            Authorization::Allow
        }));

    let entry_count = metastore::MAX_PUTS_PER_STATEMENT + 1;
    let puts = (0..entry_count).map(|index| put(&index.to_be_bytes(), b"value")).collect::<Vec<_>>();
    apply(&connection, &puts).unwrap();
    assert_eq!(inserts.load(Ordering::Relaxed), 2);

    let removals = (0..entry_count).map(|index| delete(&index.to_be_bytes())).collect::<Vec<_>>();
    apply(&connection, &removals).unwrap();
    assert_eq!(deletes.load(Ordering::Relaxed), 1);
    assert!(scan(&connection, &[], None).is_empty());
    assert!(plan_writes(&puts).iter().all(|statement| statement.values.len() <= 900));
}

#[test]
fn grouped_mutations_preserve_duplicate_key_and_mixed_run_order() {
    let connection = open_store();
    apply(
        &connection,
        &[
            put(b"a", b"first"),
            put(b"a", b"second"),
            delete(b"a"),
            put(b"a", b"last"),
            put(b"b", b"temporary"),
            delete(b"b"),
        ],
    )
    .unwrap();

    assert_eq!(get(&connection, b"a"), Some(b"last".to_vec()));
    assert_eq!(get(&connection, b"b"), None);
}

#[test]
fn sqlite_error_rolls_back_the_entire_write_batch() {
    let connection = open_store();
    connection
        .execute_batch(
            "CREATE TRIGGER reject_bad_metadata
             BEFORE INSERT ON __multilite__meta WHEN NEW.key = x'626164'
             BEGIN SELECT RAISE(ABORT, 'injected'); END",
        )
        .unwrap();

    let error = apply(&connection, &[put(b"good", b"value"), put(b"bad", b"value")]).unwrap_err();
    assert_eq!(error, "SQLite metadata store: injected");
    assert_eq!(get(&connection, b"good"), None);
    assert_eq!(get(&connection, b"bad"), None);
}

#[test]
fn scans_are_half_open_and_ordered() {
    let connection = open_store();
    apply(&connection, &[put(b"c", b"3"), put(b"a", b"1"), put(b"b", b"2")]).unwrap();
    assert_eq!(scan(&connection, b"a", Some(b"c")), [b"a".to_vec(), b"b".to_vec()]);
    assert_eq!(scan(&connection, b"b", None), [b"b".to_vec(), b"c".to_vec()]);
    assert_eq!(
        plan_writes(&[put(b"k", b"v"), delete(b"k"), delete(b"l")]),
        [
            StoreStatement {
                sql: "INSERT INTO __multilite__meta (key, value) VALUES (?, ?) \
                      ON CONFLICT(key) DO UPDATE SET value = excluded.value"
                    .to_string(),
                values: vec![b"k".to_vec(), b"v".to_vec()],
            },
            StoreStatement {
                sql: "DELETE FROM __multilite__meta WHERE key IN (?, ?)".to_string(),
                values: vec![b"k".to_vec(), b"l".to_vec()],
            },
        ]
    );
    assert!(plan_writes(&[]).is_empty());
}

#[test]
fn execution_modes_nest_and_restore_lifo() {
    let mut state = HookState::<()>::new();
    assert_eq!(state.mode(), ExecutionMode::InternalMetadata);

    state.enter(ExecutionMode::Public);
    assert_eq!(state.mode(), ExecutionMode::Public);
    state.enter(ExecutionMode::Repair);
    assert_eq!(state.mode(), ExecutionMode::Repair);
    assert_eq!(state.leave(), Some(ExecutionMode::Repair));
    assert_eq!(state.mode(), ExecutionMode::Public);
    assert_eq!(state.leave(), Some(ExecutionMode::Public));

    assert_eq!(state.mode(), ExecutionMode::InternalMetadata);
    assert_eq!(state.leave(), None);
}

#[test]
fn operations_do_not_nest_and_hand_out_only_their_own_events() {
    let mut state = HookState::<u8>::new();
    state.record(Ok(Some(1)));
    state.begin().unwrap();
    assert!(matches!(
        state.begin(),
        Err(Error::CaptureInvariant("nested runtime operations are not supported"))
    ));
    let checkpoint = state.event_count();
    state.record(Ok(Some(2)));
    state.record(Ok(None));
    state.record(Ok(Some(3)));
    assert!(matches!(state.settle(Ok(7)), Ok(7)));
    assert_eq!(state.commit(checkpoint), [2, 3]);
    assert_eq!(state.event_count(), 1);

    state.begin().unwrap();
    let checkpoint = state.event_count();
    state.record(Ok(Some(4)));
    state.record(Err(Error::CaptureInvariant("refused")));
    state.record(Ok(Some(5)));
    assert!(state.has_failed());
    assert_eq!(state.event_count(), 2);
    assert!(matches!(state.settle(Ok(7)), Err(Error::CaptureInvariant("refused"))));
    state.abandon(checkpoint);
    assert_eq!(state.event_count(), 1);
    assert!(!state.has_failed());
    state.begin().unwrap();
}

#[test]
fn descriptor_separates_local_submit_and_authority_coordinates() {
    let cursors = OplogCursors { head: DeviceSeq(3), neck: DeviceSeq(5), tail: DeviceSeq(8) };
    let descriptor = SnapshotDescriptor {
        local_generation: LocalGeneration(41),
        authority_applied_through: AdmissionSeq(17),
        submit_cursors: cursors,
    };

    assert_eq!(descriptor.local_generation, LocalGeneration(41));
    assert_eq!(descriptor.authority_applied_through, AdmissionSeq(17));
    assert_eq!(descriptor.submit_cursors, cursors);
}
