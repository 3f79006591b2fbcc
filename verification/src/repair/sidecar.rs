//! The tables that hold destroyed values, and what must hold of them.

use super::tuple::{decode_tuple, tuple_decoded};
use crate::codec::views;
use crate::each::{any, check_each, first_fault};
use crate::error::{refusal, Error, ErrorView, Result};
use crate::identity::{random_uuid, uuid_bytes, UuidError};
use crate::name::same_text;
use crate::shape::{column_is, described, is_without_rowid, without_rowid, ColumnInfo, ColumnInfoView};
use vstd::prelude::*;
use vstd::string::*;

verus! {

/// The table of repair jobs.
pub const JOBS_TABLE: &'static str = "__multilite__repair";

/// The table of the rows that jobs retain.
pub const ROWS_TABLE: &'static str = "__multilite__repair_rows";

/// The SQL function that packs values into a tuple.
pub const PACK_FUNCTION: &'static str = "__multilite__repair_pack";

/// The kind of a job that retains the values of a dropped column.
pub const DROP_COLUMN_KIND: i64 = 1;

/// The statements that create the tables.
pub const CREATE_TABLES: &'static str =
    "CREATE TABLE __multilite__repair (mutation_id BLOB PRIMARY KEY NOT NULL CHECK(length(mutation_id) = 16), kind INTEGER NOT NULL CHECK(kind = 1), row_count INTEGER NOT NULL CHECK(row_count >= 0), payload_bytes INTEGER NOT NULL CHECK(payload_bytes >= 0)) WITHOUT ROWID; CREATE TABLE __multilite__repair_rows (mutation_id BLOB NOT NULL CHECK(length(mutation_id) = 16), primary_key BLOB NOT NULL, value BLOB NOT NULL, PRIMARY KEY (mutation_id, primary_key)) WITHOUT ROWID";

/// A job with what it claims to retain and what is there.
#[derive(Debug, PartialEq, Eq)]
pub struct SidecarJob {
    pub id: Vec<u8>,
    pub kind: i64,
    pub rows: i64,
    pub bytes: i64,
    pub found_rows: i64,
    pub found_bytes: i64,
}

/// A job as a mathematical value.
pub struct SidecarJobView {
    pub id: Seq<u8>,
    pub kind: i64,
    pub rows: i64,
    pub bytes: i64,
    pub found_rows: i64,
    pub found_bytes: i64,
}

impl View for SidecarJob {
    type V = SidecarJobView;

    open spec fn view(&self) -> SidecarJobView {
        SidecarJobView {
            id: self.id@,
            kind: self.kind,
            rows: self.rows,
            bytes: self.bytes,
            found_rows: self.found_rows,
            found_bytes: self.found_bytes,
        }
    }
}

/// A retained row: its job, its primary key, and its destroyed value.
#[derive(Debug, PartialEq, Eq)]
pub struct SidecarRow {
    pub id: Vec<u8>,
    pub primary_key: Vec<u8>,
    pub value: Vec<u8>,
}

/// A retained row as a mathematical value.
pub struct SidecarRowView {
    pub id: Seq<u8>,
    pub primary_key: Seq<u8>,
    pub value: Seq<u8>,
}

impl View for SidecarRow {
    type V = SidecarRowView;

    open spec fn view(&self) -> SidecarRowView {
        SidecarRowView { id: self.id@, primary_key: self.primary_key@, value: self.value@ }
    }
}

/// Everything that a database holds of the sidecars. The tables are those whose
/// names begin with the name of the jobs' table, in order.
#[derive(Debug, PartialEq, Eq)]
pub struct Sidecar {
    pub tables: Vec<String>,
    pub job_columns: Vec<ColumnInfo>,
    pub row_columns: Vec<ColumnInfo>,
    pub job_sql: String,
    pub row_sql: String,
    pub jobs: Vec<SidecarJob>,
    pub orphaned: bool,
    pub rows: Vec<SidecarRow>,
}

/// Whether the tables are there: both or none.
pub open spec fn namespace(tables: Seq<Seq<char>>) -> std::result::Result<bool, ErrorView> {
    if tables.len() == 0 {
        Ok(false)
    } else if tables == seq![JOBS_TABLE@, ROWS_TABLE@] {
        Ok(true)
    } else {
        Err(
            ErrorView::InvalidDatabase("repair sidecar namespace contains unexpected tables"@),
        )
    }
}

/// The columns of the jobs' table.
pub open spec fn job_shape() -> Seq<ColumnInfoView> {
    seq![
        described("mutation_id"@, "BLOB"@, 1),
        described("kind"@, "INTEGER"@, 0),
        described("row_count"@, "INTEGER"@, 0),
        described("payload_bytes"@, "INTEGER"@, 0),
    ]
}

/// The columns of the rows' table.
pub open spec fn row_shape() -> Seq<ColumnInfoView> {
    seq![
        described("mutation_id"@, "BLOB"@, 1),
        described("primary_key"@, "BLOB"@, 2),
        described("value"@, "BLOB"@, 0),
    ]
}

/// Why bytes are no identity of a job.
pub open spec fn id_fault(id: Seq<u8>) -> Option<ErrorView> {
    if id.len() != 16 {
        Some(ErrorView::InvalidDatabase("repair sidecar identity is malformed"@))
    } else if !random_uuid(id) {
        Some(ErrorView::InvalidDatabase("repair sidecar identity is not a UUID v4"@))
    } else {
        None
    }
}

/// Why a job is refused.
pub open spec fn job_fault() -> spec_fn(SidecarJobView) -> Option<ErrorView> {
    |job: SidecarJobView|
        if id_fault(job.id) is Some {
            id_fault(job.id)
        } else if job.kind != DROP_COLUMN_KIND || job.rows != job.found_rows || job.bytes
            != job.found_bytes {
            Some(
                ErrorView::InvalidDatabase("repair sidecar job does not match its retained rows"@),
            )
        } else {
            None
        }
}

/// Why a retained row is refused.
pub open spec fn row_fault() -> spec_fn(SidecarRowView) -> Option<ErrorView> {
    |row: SidecarRowView|
        if id_fault(row.id) is Some {
            id_fault(row.id)
        } else {
            match (tuple_decoded(row.primary_key), tuple_decoded(row.value)) {
                (Ok(primary), Ok(value)) => if primary.len() == 0 || value.len() != 1 {
                    Some(
                        ErrorView::InvalidDatabase(
                            "repair sidecar contains an invalid retained row shape"@,
                        ),
                    )
                } else {
                    None
                },
                _ => Some(
                    ErrorView::InvalidDatabase(
                        "repair sidecar contains a malformed retained value"@,
                    ),
                ),
            }
        }
}

/// Why the sidecars of a database are refused.
pub open spec fn sidecar_fault(sidecar: Sidecar) -> Option<ErrorView> {
    match namespace(views(sidecar.tables@)) {
        Err(error) => Some(error),
        Ok(false) => Some(ErrorView::InvalidDatabase("repair sidecar tables are missing"@)),
        Ok(true) => if views(sidecar.job_columns@) != job_shape() || views(sidecar.row_columns@)
            != row_shape() {
            Some(ErrorView::InvalidDatabase("repair sidecar table schema is invalid"@))
        } else if !without_rowid(sidecar.job_sql@) || !without_rowid(sidecar.row_sql@) {
            Some(ErrorView::InvalidDatabase("repair sidecar tables must use WITHOUT ROWID"@))
        } else if first_fault(views(sidecar.jobs@), job_fault()) is Some {
            first_fault(views(sidecar.jobs@), job_fault())
        } else if sidecar.orphaned {
            Some(ErrorView::InvalidDatabase("repair sidecar contains rows without a job"@))
        } else {
            first_fault(views(sidecar.rows@), row_fault())
        },
    }
}

/// Whether the tables are there.
pub fn is_initialized(tables: &[String]) -> (r: Result<bool>)
    ensures
        match r {
            Ok(found) => namespace(views(tables@)) == Ok::<bool, ErrorView>(found),
            Err(error) => namespace(views(tables@)) == Err::<bool, ErrorView>(error@),
        },
{
    let ghost all = views(tables@);
    assert(all.len() == tables@.len());
    if tables.len() == 0 {
        return Ok(false);
    }
    if tables.len() == 2 {
        assert(all[0] == tables@[0]@ && all[1] == tables@[1]@);
        if same_text(tables[0].as_str(), JOBS_TABLE) && same_text(tables[1].as_str(), ROWS_TABLE) {
            assert(all =~= seq![JOBS_TABLE@, ROWS_TABLE@]);
            return Ok(true);
        }
    }
    Err(Error::InvalidDatabase("repair sidecar namespace contains unexpected tables"))
}

/// Whether columns are those of the jobs' table.
fn has_job_shape(columns: &[ColumnInfo]) -> (r: bool)
    ensures
        r == (views(columns@) == job_shape()),
{
    let ghost all = views(columns@);
    assert(all.len() == columns@.len());
    if columns.len() != 4 {
        return false;
    }
    assert(all[0] == columns@[0]@ && all[1] == columns@[1]@);
    assert(all[2] == columns@[2]@ && all[3] == columns@[3]@);
    let r = column_is(&columns[0], "mutation_id", "BLOB", 1) && column_is(
        &columns[1],
        "kind",
        "INTEGER",
        0,
    ) && column_is(&columns[2], "row_count", "INTEGER", 0) && column_is(
        &columns[3],
        "payload_bytes",
        "INTEGER",
        0,
    );
    proof {
        if r {
            assert(all =~= job_shape());
        } else if all == job_shape() {
            assert(all[0] == job_shape()[0] && all[1] == job_shape()[1]);
            assert(all[2] == job_shape()[2] && all[3] == job_shape()[3]);
        }
    }
    r
}

/// Whether columns are those of the rows' table.
fn has_row_shape(columns: &[ColumnInfo]) -> (r: bool)
    ensures
        r == (views(columns@) == row_shape()),
{
    let ghost all = views(columns@);
    assert(all.len() == columns@.len());
    if columns.len() != 3 {
        return false;
    }
    assert(all[0] == columns@[0]@ && all[1] == columns@[1]@ && all[2] == columns@[2]@);
    let r = column_is(&columns[0], "mutation_id", "BLOB", 1) && column_is(
        &columns[1],
        "primary_key",
        "BLOB",
        2,
    ) && column_is(&columns[2], "value", "BLOB", 0);
    proof {
        if r {
            assert(all =~= row_shape());
        } else if all == row_shape() {
            assert(all[0] == row_shape()[0] && all[1] == row_shape()[1]);
            assert(all[2] == row_shape()[2]);
        }
    }
    r
}

/// Read the identity of a job.
pub fn decode_repair_id(bytes: &[u8]) -> (r: Result<[u8; 16]>)
    ensures
        match r {
            Ok(id) => id@ == bytes@ && id_fault(bytes@) is None,
            Err(error) => id_fault(bytes@) == Some(error@),
        },
{
    match uuid_bytes(bytes) {
        Ok(id) => Ok(id),
        Err(UuidError::Length) => Err(
            Error::InvalidDatabase("repair sidecar identity is malformed"),
        ),
        Err(UuidError::Kind) => Err(
            Error::InvalidDatabase("repair sidecar identity is not a UUID v4"),
        ),
    }
}

/// Refuse a job that does not match what it retains.
fn check_job(job: &SidecarJob) -> (r: Result<()>)
    ensures
        refusal(r) == job_fault()(job@),
{
    if let Err(error) = decode_repair_id(job.id.as_slice()) {
        return Err(error);
    }
    if job.kind != DROP_COLUMN_KIND || job.rows != job.found_rows || job.bytes != job.found_bytes {
        return Err(
            Error::InvalidDatabase("repair sidecar job does not match its retained rows"),
        );
    }
    Ok(())
}

/// Refuse a retained row that cannot be restored.
fn check_row(row: &SidecarRow) -> (r: Result<()>)
    ensures
        refusal(r) == row_fault()(row@),
{
    if let Err(error) = decode_repair_id(row.id.as_slice()) {
        return Err(error);
    }
    let primary = decode_tuple(row.primary_key.as_slice());
    let value = decode_tuple(row.value.as_slice());
    match (primary, value) {
        (Ok(primary), Ok(value)) => {
            assert(views(primary@).len() == primary@.len() && views(value@).len() == value@.len());
            if primary.len() == 0 || value.len() != 1 {
                Err(
                    Error::InvalidDatabase("repair sidecar contains an invalid retained row shape"),
                )
            } else {
                Ok(())
            }
        },
        _ => Err(Error::InvalidDatabase("repair sidecar contains a malformed retained value")),
    }
}

impl Sidecar {
    /// Refuse sidecars that cannot repair what they are there for.
    pub fn validate(&self) -> (r: Result<()>)
        ensures
            refusal(r) == sidecar_fault(*self),
    {
        match is_initialized(self.tables.as_slice()) {
            Err(error) => {
                return Err(error);
            },
            Ok(found) => if !found {
                return Err(Error::InvalidDatabase("repair sidecar tables are missing"));
            },
        }
        if !has_job_shape(self.job_columns.as_slice()) || !has_row_shape(
            self.row_columns.as_slice(),
        ) {
            return Err(Error::InvalidDatabase("repair sidecar table schema is invalid"));
        }
        if !is_without_rowid(self.job_sql.as_str()) || !is_without_rowid(self.row_sql.as_str()) {
            return Err(Error::InvalidDatabase("repair sidecar tables must use WITHOUT ROWID"));
        }
        let job = |job: &SidecarJob| -> (r: Result<()>)
            ensures
                refusal(r) == job_fault()(job@),
            { check_job(job) };
        if let Err(error) = check_each(self.jobs.as_slice(), job, Ghost(job_fault())) {
            return Err(error);
        }
        if self.orphaned {
            return Err(Error::InvalidDatabase("repair sidecar contains rows without a job"));
        }
        let row = |row: &SidecarRow| -> (r: Result<()>)
            ensures
                refusal(r) == row_fault()(row@),
            { check_row(row) };
        check_each(self.rows.as_slice(), row, Ghost(row_fault()))
    }
}

/// Why the jobs of a database are not those of its pending operations. The order
/// does not matter, and neither does how often an operation is named.
pub open spec fn expected_fault(actual: Seq<Seq<u8>>, expected: Seq<Seq<u8>>) -> Option<ErrorView> {
    let ids = |id: Seq<u8>| id_fault(id);
    if first_fault(actual, ids) is Some {
        first_fault(actual, ids)
    } else if actual.to_set() != expected.to_set() {
        Some(
            ErrorView::InvalidDatabase(
                "repair sidecars do not match pending destructive operations"@,
            ),
        )
    } else {
        None
    }
}

/// Whether every identity of a list is in another.
fn all_listed(ids: &[Vec<u8>], list: &[Vec<u8>]) -> (r: bool)
    ensures
        r == forall|i: int|
            0 <= i < ids@.len() ==> views(list@).contains(#[trigger] ids@[i]@),
{
    let mut i: usize = 0;
    while i < ids.len()
        invariant
            i <= ids@.len(),
            forall|j: int| 0 <= j < i ==> views(list@).contains(#[trigger] ids@[j]@),
        decreases ids.len() - i,
    {
        let id = &ids[i];
        let equal = |other: &Vec<u8>| -> (r: bool)
            ensures
                r == (other@ == id@),
            { crate::bytes::same_bytes(other.as_slice(), id.as_slice()) };
        let found = any(list, equal, Ghost(|other: Seq<u8>| other == id@));
        proof {
            let all = views(list@);
            if all.contains(id@) {
                let k = all.index_of(id@);
                assert(all[k] == id@);
            }
        }
        if !found {
            return false;
        }
        i += 1;
    }
    true
}

/// Refuse jobs that are not those of the pending operations.
pub fn validate_expected(actual: &[Vec<u8>], expected: &[Vec<u8>]) -> (r: Result<()>)
    ensures
        refusal(r) == expected_fault(views(actual@), views(expected@)),
{
    let check = |id: &Vec<u8>| -> (r: Result<()>)
        ensures
            refusal(r) == id_fault(id@),
        {
            match decode_repair_id(id.as_slice()) {
                Ok(_) => Ok(()),
                Err(error) => Err(error),
            }
        };
    if let Err(error) = check_each(actual, check, Ghost(|id: Seq<u8>| id_fault(id))) {
        return Err(error);
    }
    let same = all_listed(actual, expected) && all_listed(expected, actual);
    proof {
        let a = views(actual@);
        let b = views(expected@);
        if same {
            assert forall|id: Seq<u8>| a.to_set().contains(id) == b.to_set().contains(id) by {
                if a.contains(id) {
                    let k = a.index_of(id);
                    assert(actual@[k]@ == id);
                }
                if b.contains(id) {
                    let k = b.index_of(id);
                    assert(expected@[k]@ == id);
                }
            }
            assert(a.to_set() =~= b.to_set());
        } else if a.to_set() == b.to_set() {
            assert forall|i: int| 0 <= i < actual@.len() implies b.contains(
                #[trigger] actual@[i]@,
            ) by {
                assert(a[i] == actual@[i]@);
                assert(a.to_set().contains(a[i]));
            }
            assert forall|i: int| 0 <= i < expected@.len() implies a.contains(
                #[trigger] expected@[i]@,
            ) by {
                assert(b[i] == expected@[i]@);
                assert(b.to_set().contains(b[i]));
            }
        }
    }
    if !same {
        return Err(
            Error::InvalidDatabase("repair sidecars do not match pending destructive operations"),
        );
    }
    Ok(())
}

} // verus!
