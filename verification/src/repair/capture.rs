//! How destroyed values are captured, restored, and forgotten.

use super::sidecar::{DROP_COLUMN_KIND, PACK_FUNCTION};
use super::tuple::{decode_tuple, tuple_decoded, tuple_fits, tuple_frame, tuple_roundtrip};
use crate::codec::views;
use crate::each::each;
use crate::error::{refusal, Error, ErrorView, Result};
use crate::identity::{is_random_uuid, random_uuid};
use crate::sqlite::{list_texts, listed, quote_identifier, quoted};
use crate::text::joined;
use crate::value::{StoredValue, ValueView};
use vstd::prelude::*;
use vstd::string::*;

verus! {

/// The most rows that one repair retains.
pub const MAX_DROP_COLUMN_REPAIR_ROWS: usize = 100_000;

/// The most bytes that one repair retains.
pub const MAX_DROP_COLUMN_REPAIR_BYTES: usize = 67_108_864;

/// The jobs' row that a capture adds.
pub const INSERT_JOB: &'static str =
    "INSERT INTO __multilite__repair (mutation_id, kind, row_count, payload_bytes) VALUES (?1, 1, ?2, ?3)";

/// What reads the retained rows of a job.
pub const SELECT_ROWS: &'static str =
    "SELECT primary_key, value FROM __multilite__repair_rows WHERE mutation_id = ?1 ORDER BY primary_key";

/// What reads a job.
pub const SELECT_JOB: &'static str =
    "SELECT kind, row_count FROM __multilite__repair WHERE mutation_id = ?1";

/// What forgets the retained rows of a job.
pub const DELETE_ROWS: &'static str =
    "DELETE FROM __multilite__repair_rows WHERE mutation_id = ?1";

/// What forgets a job.
pub const DELETE_JOB: &'static str = "DELETE FROM __multilite__repair WHERE mutation_id = ?1";

/// The limits of a capture.
#[derive(Clone, Copy, Debug, PartialEq, Eq, Structural)]
pub struct CaptureBudget {
    pub rows: usize,
    pub bytes: usize,
}

impl CaptureBudget {
    /// The limits that a capture has unless others are given.
    pub fn standard() -> (r: CaptureBudget)
        ensures
            r.rows == MAX_DROP_COLUMN_REPAIR_ROWS,
            r.bytes == MAX_DROP_COLUMN_REPAIR_BYTES,
    {
        CaptureBudget { rows: MAX_DROP_COLUMN_REPAIR_ROWS, bytes: MAX_DROP_COLUMN_REPAIR_BYTES }
    }
}

/// A quoted name.
pub open spec fn quoted_name() -> spec_fn(Seq<char>) -> Seq<char> {
    |name: Seq<char>| quoted(name)
}

/// The SQL that packs columns into a tuple.
pub open spec fn packed(columns: Seq<Seq<char>>) -> Seq<char> {
    PACK_FUNCTION@ + "("@ + listed(columns.map_values(quoted_name()), ", "@) + ")"@
}

/// What measures a capture.
pub open spec fn measure_sql(table: Seq<char>, key: Seq<Seq<char>>, column: Seq<char>) -> Seq<
    char,
> {
    "SELECT count(*), coalesce(sum(length("@ + packed(key) + ") + length("@ + packed(
        seq![column],
    ) + ")), 0) FROM "@ + quoted(table)
}

/// What copies the rows of a capture.
pub open spec fn copy_sql(table: Seq<char>, key: Seq<Seq<char>>, column: Seq<char>) -> Seq<char> {
    "INSERT INTO __multilite__repair_rows (mutation_id, primary_key, value) SELECT ?1, "@ + packed(
        key,
    ) + ", "@ + packed(seq![column]) + " FROM "@ + quoted(table)
}

/// A column of the key and the value that it must have.
pub open spec fn key_match() -> spec_fn(Seq<char>) -> Seq<char> {
    |name: Seq<char>| quoted(name) + " IS ?"@
}

/// What restores a value.
pub open spec fn restore_sql(table: Seq<char>, key: Seq<Seq<char>>, column: Seq<char>) -> Seq<
    char,
> {
    "UPDATE "@ + quoted(table) + " SET "@ + quoted(column) + " = ? WHERE "@ + listed(
        key.map_values(key_match()),
        " AND "@,
    )
}

/// The statements of a capture.
#[derive(Debug, PartialEq, Eq)]
pub struct CapturePlan {
    pub measure: String,
    pub copy: String,
}

/// Why a capture is refused before it begins.
pub open spec fn capture_fault(id: Seq<u8>, key: Seq<Seq<char>>) -> Option<ErrorView> {
    if key.len() == 0 {
        Some(
            ErrorView::CaptureInvariant("DROP COLUMN repair requires a declared primary key"@),
        )
    } else if !random_uuid(id) {
        Some(ErrorView::InvalidDatabase("repair sidecar identity is not a UUID v4"@))
    } else {
        None
    }
}

/// A measured capture within its limits, or why it is refused.
pub open spec fn measured_result(rows: int, bytes: int, budget: CaptureBudget) -> std::result::Result<
    (int, int),
    ErrorView,
> {
    if !(0 <= rows <= usize::MAX) {
        Err(ErrorView::CaptureInvariant("DROP COLUMN repair row count is invalid"@))
    } else if !(0 <= bytes <= usize::MAX) {
        Err(ErrorView::CaptureInvariant("DROP COLUMN repair byte count is invalid"@))
    } else if rows > budget.rows {
        Err(
            ErrorView::CaptureLimitExceeded {
                resource: "DROP COLUMN repair rows"@,
                limit: budget.rows,
            },
        )
    } else if bytes > budget.bytes {
        Err(
            ErrorView::CaptureLimitExceeded {
                resource: "DROP COLUMN repair bytes"@,
                limit: budget.bytes,
            },
        )
    } else {
        Ok((rows, bytes))
    }
}

/// The SQL that packs columns into a tuple.
pub fn pack_expression(columns: &[String]) -> (r: String)
    ensures
        r@ == packed(views(columns@)),
{
    let quote = |name: &String| -> (r: String)
        ensures
            r@ == quoted_name()(name@),
        { quote_identifier(name.as_str()) };
    let names = each(columns, quote, Ghost(quoted_name()));
    let mut r = joined(PACK_FUNCTION, "(");
    r.append(list_texts(names.as_slice(), ", ").as_str());
    r.append(")");
    r
}

/// The SQL that packs one column.
fn pack_column(column: &str) -> (r: String)
    ensures
        r@ == packed(seq![column@]),
{
    let mut columns: Vec<String> = Vec::new();
    columns.push(column.to_owned());
    assert(views(columns@) =~= seq![column@]);
    pack_expression(columns.as_slice())
}

/// Plan the capture of a column that is about to be dropped.
pub fn capture_plan(
    mutation_id: [u8; 16],
    table: &str,
    primary_key: &[String],
    column: &str,
) -> (r: Result<CapturePlan>)
    ensures
        match r {
            Ok(plan) => capture_fault(mutation_id@, views(primary_key@)) is None
                && plan.measure@ == measure_sql(table@, views(primary_key@), column@)
                && plan.copy@ == copy_sql(table@, views(primary_key@), column@),
            Err(error) => capture_fault(mutation_id@, views(primary_key@)) == Some(error@),
        },
{
    assert(views(primary_key@).len() == primary_key@.len());
    if primary_key.len() == 0 {
        return Err(Error::CaptureInvariant("DROP COLUMN repair requires a declared primary key"));
    }
    if !is_random_uuid(mutation_id) {
        return Err(Error::InvalidDatabase("repair sidecar identity is not a UUID v4"));
    }
    let key = pack_expression(primary_key);
    let value = pack_column(column);
    let name = quote_identifier(table);
    let mut measure = joined("SELECT count(*), coalesce(sum(length(", key.as_str());
    measure.append(") + length(");
    measure.append(value.as_str());
    measure.append(")), 0) FROM ");
    measure.append(name.as_str());
    let mut copy = joined(
        "INSERT INTO __multilite__repair_rows (mutation_id, primary_key, value) SELECT ?1, ",
        key.as_str(),
    );
    copy.append(", ");
    copy.append(value.as_str());
    copy.append(" FROM ");
    copy.append(name.as_str());
    Ok(CapturePlan { measure, copy })
}

/// A count that SQLite gave, where it is one.
fn count(n: i64) -> (r: Option<usize>)
    ensures
        match r {
            Some(count) => count == n,
            None => !(0 <= n <= usize::MAX),
        },
{
    if n < 0 || n as u64 > usize::MAX as u64 {
        None
    } else {
        Some(n as usize)
    }
}

/// Refuse a measured capture beyond its limits.
pub fn check_measure(row_count: i64, payload_bytes: i64, budget: CaptureBudget) -> (r: Result<
    (usize, usize),
>)
    ensures
        match r {
            Ok((rows, bytes)) => measured_result(row_count as int, payload_bytes as int, budget)
                == Ok::<(int, int), ErrorView>((rows as int, bytes as int)),
            Err(error) => measured_result(row_count as int, payload_bytes as int, budget) == Err::<
                (int, int),
                ErrorView,
            >(error@),
        },
{
    let rows: usize = match count(row_count) {
        None => {
            return Err(Error::CaptureInvariant("DROP COLUMN repair row count is invalid"));
        },
        Some(rows) => rows,
    };
    let bytes: usize = match count(payload_bytes) {
        None => {
            return Err(Error::CaptureInvariant("DROP COLUMN repair byte count is invalid"));
        },
        Some(bytes) => bytes,
    };
    if rows > budget.rows {
        return Err(
            Error::CaptureLimitExceeded {
                resource: "DROP COLUMN repair rows",
                limit: budget.rows,
            },
        );
    }
    if bytes > budget.bytes {
        return Err(
            Error::CaptureLimitExceeded {
                resource: "DROP COLUMN repair bytes",
                limit: budget.bytes,
            },
        );
    }
    Ok((rows, bytes))
}

/// Refuse a capture that copied another number of rows than it measured.
pub fn check_copied(inserted: usize, row_count: usize) -> (r: Result<()>)
    ensures
        refusal(r) == (if inserted == row_count {
            None
        } else {
            Some(ErrorView::CaptureInvariant("DROP COLUMN repair changed during capture"@))
        }),
{
    if inserted != row_count {
        return Err(Error::CaptureInvariant("DROP COLUMN repair changed during capture"));
    }
    Ok(())
}

/// A job as it is stored: its kind and how many rows it retains.
#[derive(Clone, Copy, Debug, PartialEq, Eq, Structural)]
pub struct RepairJob {
    pub kind: i64,
    pub row_count: i64,
}

/// How many rows a job restores, or why it cannot.
pub open spec fn job_result(job: Option<RepairJob>, key: Seq<Seq<char>>) -> std::result::Result<
    int,
    ErrorView,
> {
    match job {
        None => Err(
            ErrorView::InvalidDatabase("pending DROP COLUMN repair sidecar is missing"@),
        ),
        Some(job) => if !(0 <= job.row_count <= usize::MAX) {
            Err(ErrorView::InvalidDatabase("repair sidecar row count is invalid"@))
        } else if job.kind != DROP_COLUMN_KIND {
            Err(
                ErrorView::InvalidDatabase("pending DROP COLUMN repair sidecar has the wrong kind"@),
            )
        } else if key.len() == 0 {
            Err(ErrorView::InvalidDatabase("pending DROP COLUMN repair has no primary key"@))
        } else {
            Ok(job.row_count as int)
        },
    }
}

/// How many rows a job restores.
pub fn check_job(job: Option<RepairJob>, primary_key: &[String]) -> (r: Result<usize>)
    ensures
        match r {
            Ok(rows) => job_result(job, views(primary_key@)) == Ok::<int, ErrorView>(rows as int),
            Err(error) => job_result(job, views(primary_key@)) == Err::<int, ErrorView>(error@),
        },
{
    assert(views(primary_key@).len() == primary_key@.len());
    let job = match job {
        None => {
            return Err(Error::InvalidDatabase("pending DROP COLUMN repair sidecar is missing"));
        },
        Some(job) => job,
    };
    let rows: usize = match count(job.row_count) {
        None => {
            return Err(Error::InvalidDatabase("repair sidecar row count is invalid"));
        },
        Some(rows) => rows,
    };
    if job.kind != DROP_COLUMN_KIND {
        return Err(
            Error::InvalidDatabase("pending DROP COLUMN repair sidecar has the wrong kind"),
        );
    }
    if primary_key.len() == 0 {
        return Err(Error::InvalidDatabase("pending DROP COLUMN repair has no primary key"));
    }
    Ok(rows)
}

/// What restores a value.
pub fn restore_statement(table: &str, primary_key: &[String], column: &str) -> (r: String)
    ensures
        r@ == restore_sql(table@, views(primary_key@), column@),
{
    let condition = |name: &String| -> (r: String)
        ensures
            r@ == key_match()(name@),
        { joined(quote_identifier(name.as_str()).as_str(), " IS ?") };
    let conditions = each(primary_key, condition, Ghost(key_match()));
    let mut r = joined("UPDATE ", quote_identifier(table).as_str());
    r.append(" SET ");
    r.append(quote_identifier(column).as_str());
    r.append(" = ? WHERE ");
    r.append(list_texts(conditions.as_slice(), " AND ").as_str());
    r
}

/// The values that one restoration binds: the value, then the key.
pub open spec fn restored_values(primary: Seq<u8>, value: Seq<u8>, width: nat) -> std::result::Result<
    Seq<ValueView>,
    ErrorView,
> {
    match (tuple_decoded(primary), tuple_decoded(value)) {
        (Err(_), _) => Err(
            ErrorView::InvalidDatabase("DROP COLUMN repair primary key is malformed"@),
        ),
        (_, Err(_)) => Err(ErrorView::InvalidDatabase("DROP COLUMN repair value is malformed"@)),
        (Ok(key), Ok(value)) => if value.len() != 1 {
            Err(ErrorView::InvalidDatabase("DROP COLUMN repair value has an invalid shape"@))
        } else if key.len() != width {
            Err(
                ErrorView::InvalidDatabase("DROP COLUMN repair primary key has an invalid shape"@),
            )
        } else {
            Ok(value + key)
        },
    }
}

/// The values that one restoration binds.
pub fn restore_values(primary: &[u8], value: &[u8], width: usize) -> (r: Result<Vec<StoredValue>>)
    ensures
        crate::error::list_verdict(r) == restored_values(primary@, value@, width as nat),
{
    let key = match decode_tuple(primary) {
        Err(_) => {
            return Err(Error::InvalidDatabase("DROP COLUMN repair primary key is malformed"));
        },
        Ok(key) => key,
    };
    let value = match decode_tuple(value) {
        Err(_) => {
            return Err(Error::InvalidDatabase("DROP COLUMN repair value is malformed"));
        },
        Ok(value) => value,
    };
    let ghost a = views(value@);
    let ghost b = views(key@);
    assert(a.len() == value@.len() && b.len() == key@.len());
    if value.len() != 1 {
        return Err(Error::InvalidDatabase("DROP COLUMN repair value has an invalid shape"));
    }
    if key.len() != width {
        return Err(Error::InvalidDatabase("DROP COLUMN repair primary key has an invalid shape"));
    }
    let mut values = value;
    let mut key = key;
    values.append(&mut key);
    assert(views(values@) =~= a + b);
    Ok(values)
}

/// Refuse a restoration that did not change exactly its row.
pub fn check_restored_row(changed: usize) -> (r: Result<()>)
    ensures
        refusal(r) == (if changed == 1 {
            None
        } else {
            Some(
                ErrorView::InvalidDatabase(
                    "pending DROP COLUMN row no longer matches SQLite state"@,
                ),
            )
        }),
{
    if changed != 1 {
        return Err(
            Error::InvalidDatabase("pending DROP COLUMN row no longer matches SQLite state"),
        );
    }
    Ok(())
}

/// Refuse a restoration of another number of rows than the job retains.
pub fn check_restored(restored: usize, row_count: usize) -> (r: Result<()>)
    ensures
        refusal(r) == (if restored == row_count {
            None
        } else {
            Some(
                ErrorView::InvalidDatabase(
                    "DROP COLUMN repair row count changed after validation"@,
                ),
            )
        }),
{
    if restored != row_count {
        return Err(
            Error::InvalidDatabase("DROP COLUMN repair row count changed after validation"),
        );
    }
    Ok(())
}

/// Refuse to retire a job that was not there.
pub fn check_retired(deleted: usize) -> (r: Result<()>)
    ensures
        refusal(r) == (if deleted == 1 {
            None
        } else {
            Some(
                ErrorView::InvalidDatabase("pending destructive operation has no repair sidecar"@),
            )
        }),
{
    if deleted != 1 {
        return Err(Error::InvalidDatabase("pending destructive operation has no repair sidecar"));
    }
    Ok(())
}

/// A captured value is restored under its captured key, whatever their storage
/// classes are.
pub proof fn captured_values_are_restored(key: Seq<ValueView>, value: ValueView)
    requires
        tuple_fits(key),
        tuple_fits(seq![value]),
    ensures
        restored_values(tuple_frame(key), tuple_frame(seq![value]), key.len()) == Ok::<
            Seq<ValueView>,
            ErrorView,
        >(seq![value] + key),
{
    tuple_roundtrip(key);
    tuple_roundtrip(seq![value]);
}

} // verus!
