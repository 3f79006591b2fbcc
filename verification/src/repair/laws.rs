//! Laws on repair sidecars: what an accepted one holds.

use super::capture::{
    capture_fault, job_result, measured_result, restored_values, CaptureBudget, RepairJob,
};
use super::sidecar::{
    expected_fault, id_fault, job_fault, row_fault, sidecar_fault, Sidecar, DROP_COLUMN_KIND,
    JOBS_TABLE, ROWS_TABLE,
};
use super::tuple::tuple_decoded;
use crate::codec::views;
use crate::each::first_fault;
use crate::error::ErrorView;
use crate::identity::random_uuid;
use crate::shape::without_rowid;
use vstd::prelude::*;

verus! {

/// Items have no fault exactly where none of them has one.
pub proof fn faultless_lists_have_faultless_items<V>(
    items: Seq<V>,
    fault: spec_fn(V) -> Option<ErrorView>,
)
    ensures
        first_fault(items, fault) is None <==> forall|i: int|
            0 <= i < items.len() ==> fault(#[trigger] items[i]) is None,
    decreases items.len(),
{
    if items.len() > 0 {
        let rest = items.drop_first();
        faultless_lists_have_faultless_items(rest, fault);
        if first_fault(items, fault) is None {
            assert forall|i: int| 0 <= i < items.len() implies fault(#[trigger] items[i]) is None by {
                if i > 0 {
                    assert(rest[i - 1] == items[i]);
                }
            }
        }
        if forall|i: int| 0 <= i < items.len() ==> fault(#[trigger] items[i]) is None {
            assert(fault(items[0]) is None);
            assert forall|i: int| 0 <= i < rest.len() implies fault(#[trigger] rest[i]) is None by {
                assert(rest[i] == items[i + 1]);
            }
        }
    }
}

/// An accepted sidecar has both tables and no other, both without rowids; every
/// job has a random identity and just the rows and bytes that it counts; no row
/// is without a job; and every row has a random identity, a key that is not
/// empty, and one value.
pub proof fn accepted_sidecars_are_whole(sidecar: Sidecar)
    requires
        sidecar_fault(sidecar) is None,
    ensures
        views(sidecar.tables@) == seq![JOBS_TABLE@, ROWS_TABLE@],
        without_rowid(sidecar.job_sql@),
        without_rowid(sidecar.row_sql@),
        !sidecar.orphaned,
        forall|j: int|
            0 <= j < sidecar.jobs@.len() ==> {
                let job = #[trigger] views(sidecar.jobs@)[j];
                &&& random_uuid(job.id)
                &&& job.kind == DROP_COLUMN_KIND
                &&& job.rows == job.found_rows
                &&& job.bytes == job.found_bytes
            },
        forall|r: int|
            0 <= r < sidecar.rows@.len() ==> {
                let row = #[trigger] views(sidecar.rows@)[r];
                &&& random_uuid(row.id)
                &&& tuple_decoded(row.primary_key) matches Ok(key) && key.len() > 0
                &&& tuple_decoded(row.value) matches Ok(value) && value.len() == 1
            },
{
    let jobs = views(sidecar.jobs@);
    let rows = views(sidecar.rows@);
    faultless_lists_have_faultless_items(jobs, job_fault());
    faultless_lists_have_faultless_items(rows, row_fault());
    assert forall|j: int| 0 <= j < jobs.len() implies {
        let job = #[trigger] jobs[j];
        &&& random_uuid(job.id)
        &&& job.kind == DROP_COLUMN_KIND
        &&& job.rows == job.found_rows
        &&& job.bytes == job.found_bytes
    } by {
        assert(job_fault()(jobs[j]) is None);
    }
    assert forall|r: int| 0 <= r < rows.len() implies {
        let row = #[trigger] rows[r];
        &&& random_uuid(row.id)
        &&& tuple_decoded(row.primary_key) matches Ok(key) && key.len() > 0
        &&& tuple_decoded(row.value) matches Ok(value) && value.len() == 1
    } by {
        assert(row_fault()(rows[r]) is None);
    }
}

/// The sidecars that a database holds are accepted exactly where each has a
/// random identity and is that of a pending operation, and every pending
/// operation that needs one has one.
pub proof fn sidecars_match_pending_operations(actual: Seq<Seq<u8>>, expected: Seq<Seq<u8>>)
    ensures
        expected_fault(actual, expected) is None <==> {
            &&& forall|i: int| 0 <= i < actual.len() ==> random_uuid(#[trigger] actual[i])
            &&& forall|i: int| 0 <= i < actual.len() ==> expected.contains(#[trigger] actual[i])
            &&& forall|i: int| 0 <= i < expected.len() ==> actual.contains(#[trigger] expected[i])
        },
{
    let ids = |id: Seq<u8>| id_fault(id);
    faultless_lists_have_faultless_items(actual, ids);
    if expected_fault(actual, expected) is None {
        assert forall|i: int| 0 <= i < actual.len() implies random_uuid(#[trigger] actual[i])
            && expected.contains(actual[i]) by {
            assert(ids(actual[i]) is None);
            assert(actual.contains(actual[i]));
            assert(actual.to_set().contains(actual[i]));
        }
        assert forall|i: int| 0 <= i < expected.len() implies actual.contains(
            #[trigger] expected[i],
        ) by {
            assert(expected.contains(expected[i]));
            assert(expected.to_set().contains(expected[i]));
        }
    }
    if (forall|i: int| 0 <= i < actual.len() ==> random_uuid(#[trigger] actual[i])) && (forall|
        i: int,
    |
        0 <= i < actual.len() ==> expected.contains(#[trigger] actual[i])) && (forall|i: int|
        0 <= i < expected.len() ==> actual.contains(#[trigger] expected[i])) {
        assert forall|i: int| 0 <= i < actual.len() implies ids(#[trigger] actual[i]) is None by {
            assert(random_uuid(actual[i]));
        }
        assert(actual.to_set() =~= expected.to_set());
    }
}

/// A capture is accepted exactly where its counts are no less than nothing and
/// no more than the budget, and is then what was measured; it is begun only for
/// a table with a primary key, under a random identity.
pub proof fn captures_stay_within_their_budget(
    id: Seq<u8>,
    key: Seq<Seq<char>>,
    rows: int,
    bytes: int,
    budget: CaptureBudget,
)
    ensures
        capture_fault(id, key) is None <==> key.len() > 0 && random_uuid(id),
        measured_result(rows, bytes, budget) is Ok <==> 0 <= rows <= budget.rows && 0 <= bytes
            <= budget.bytes,
        measured_result(rows, bytes, budget) matches Ok(counts) ==> counts == (rows, bytes),
{
}

/// A job restores as many rows as it counts, and only where it is the drop of a
/// column of a table with a primary key.
pub proof fn jobs_restore_what_they_count(job: Option<RepairJob>, key: Seq<Seq<char>>)
    ensures
        job_result(job, key) is Ok <==> job is Some && job->Some_0.kind == DROP_COLUMN_KIND && 0
            <= job->Some_0.row_count <= usize::MAX && key.len() > 0,
        job_result(job, key) matches Ok(rows) ==> rows == job->Some_0.row_count,
{
}

/// A value is restored only from one value and a key as wide as the table's, and
/// is bound before the key.
pub proof fn restored_values_fit_the_key(primary: Seq<u8>, value: Seq<u8>, width: nat)
    ensures
        restored_values(primary, value, width) matches Ok(bound) ==> {
            &&& bound.len() == width + 1
            &&& tuple_decoded(primary) matches Ok(key) && key.len() == width && forall|i: int|
                0 <= i < width ==> bound[i + 1] == #[trigger] key[i]
            &&& tuple_decoded(value) matches Ok(values) && values.len() == 1 && bound[0]
                == values[0]
        },
{
}

} // verus!
