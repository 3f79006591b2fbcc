//! What the CHECKs that came with a column read.

use super::definition::{CheckDefinition, CheckView, ColumnView, CreateTable, TableView};
use super::evolve::has_id;
use super::table::{column_by_id, find_column};
use crate::codec::views;
use crate::each::any;
use crate::identity::ColumnId;
use crate::name::SqlName;
use vstd::prelude::*;

verus! {

/// The columns that the CHECKs of one owner read, in the order they are read.
pub open spec fn owned_reads(checks: Seq<CheckView>, owner: Seq<u8>) -> Seq<Seq<u8>>
    decreases checks.len(),
{
    if checks.len() == 0 {
        Seq::empty()
    } else {
        owned_reads(checks.drop_last(), owner) + (if checks.last().owner == Some(owner) {
            checks.last().columns
        } else {
            Seq::empty()
        })
    }
}

/// Items in the order in which they first occur, each once.
pub open spec fn distinct(items: Seq<Seq<u8>>) -> Seq<Seq<u8>>
    decreases items.len(),
{
    if items.len() == 0 {
        Seq::empty()
    } else {
        let before = distinct(items.drop_last());
        if before.contains(items.last()) {
            before
        } else {
            before.push(items.last())
        }
    }
}

/// The columns that the CHECKs of a column read, each once.
pub open spec fn check_dependencies(table: TableView, column: Seq<u8>) -> Seq<Seq<u8>> {
    distinct(owned_reads(table.checks, column))
}

/// The names of the other columns among those that a column's CHECKs read.
pub open spec fn other_names(
    columns: Seq<ColumnView>,
    reads: Seq<Seq<u8>>,
    column: Seq<u8>,
) -> Seq<Seq<char>>
    decreases reads.len(),
{
    if reads.len() == 0 {
        Seq::empty()
    } else {
        let before = other_names(columns, reads.drop_last(), column);
        match column_by_id(columns, reads.last()) {
            Some(found) => if reads.last() == column {
                before
            } else {
                before.push(found.name)
            },
            None => before,
        }
    }
}

/// The names that an added column depends on.
pub open spec fn dependency_names(table: TableView, column: Seq<u8>) -> Seq<Seq<char>> {
    other_names(table.columns, check_dependencies(table, column), column)
}

/// Whether a column added to a table restricts what may be written: it refuses
/// NULL or brought a CHECK.
pub open spec fn restricts_writes(table: TableView, column: Seq<u8>) -> bool {
    ||| column_by_id(table.columns, column) matches Some(found) && found.not_null
    ||| exists|i: int|
        0 <= i < table.checks.len() && (#[trigger] table.checks[i]).owner == Some(column)
}

/// Nothing occurs twice among distinct items, and nothing is lost.
pub proof fn lemma_distinct(items: Seq<Seq<u8>>)
    ensures
        distinct(items).no_duplicates(),
        forall|x: Seq<u8>| distinct(items).contains(x) <==> items.contains(x),
    decreases items.len(),
{
    if items.len() > 0 {
        lemma_distinct(items.drop_last());
        let before = distinct(items.drop_last());
        let last = items.last();
        assert forall|x: Seq<u8>| distinct(items).contains(x) <==> items.contains(x) by {
            if items.contains(x) {
                let k = choose|k: int| 0 <= k < items.len() && items[k] == x;
                if k < items.len() - 1 {
                    assert(items.drop_last()[k] == x);
                    assert(items.drop_last().contains(x));
                    assert(before.contains(x));
                    let m = choose|m: int| 0 <= m < before.len() && before[m] == x;
                    assert(distinct(items)[m] == x);
                } else if !before.contains(last) {
                    assert(before.push(last)[before.len() as int] == last);
                }
            }
            if distinct(items).contains(x) {
                if before.contains(x) {
                    assert(items.drop_last().contains(x));
                    let k = choose|k: int|
                        0 <= k < items.drop_last().len() && items.drop_last()[k] == x;
                    assert(items[k] == x);
                } else {
                    assert(x == last);
                    assert(items[items.len() - 1] == x);
                }
            }
        }
    }
}

impl CreateTable {
    /// The columns that the CHECKs of a column read, each once.
    pub fn column_check_dependencies(&self, column: ColumnId) -> (r: Vec<ColumnId>)
        ensures
            views(r@) == check_dependencies(self@, column@),
    {
        let ghost checks = self@.checks;
        assert(checks == views(self.checks@));
        let mut r: Vec<ColumnId> = Vec::new();
        let ghost mut reads: Seq<Seq<u8>> = Seq::empty();
        let mut i: usize = 0;
        proof {
            assert(checks.subrange(0, 0) =~= Seq::<CheckView>::empty());
            assert(views(r@) =~= Seq::<Seq<u8>>::empty());
        }
        while i < self.checks.len()
            invariant
                i <= self.checks@.len(),
                checks == views(self.checks@),
                reads == owned_reads(checks.subrange(0, i as int), column@),
                views(r@) == distinct(reads),
            decreases self.checks.len() - i,
        {
            let check = &self.checks[i];
            let owned = match &check.owner {
                Some(owner) => owner.same(&column),
                None => false,
            };
            let ghost before = checks.subrange(0, i as int);
            let ghost next = checks.subrange(0, i as int + 1);
            proof {
                assert(next.drop_last() =~= before);
                assert(next.last() == check@);
            }
            let ghost start = reads;
            if owned {
                let ghost columns = views(check.columns@);
                let mut j: usize = 0;
                assert(start + columns.subrange(0, 0) =~= start);
                while j < check.columns.len()
                    invariant
                        j <= check.columns@.len(),
                        columns == views(check.columns@),
                        reads == start + columns.subrange(0, j as int),
                        views(r@) == distinct(reads),
                    decreases check.columns.len() - j,
                {
                    let ghost more = start + columns.subrange(0, j as int + 1);
                    assert(more.drop_last() =~= reads);
                    assert(more.last() == check.columns@[j as int]@);
                    if !has_id(r.as_slice(), check.columns[j]) {
                        let ghost had = views(r@);
                        r.push(check.columns[j]);
                        assert(views(r@) =~= had.push(check.columns@[j as int]@));
                    }
                    proof {
                        reads = more;
                    }
                    j += 1;
                }
                assert(columns.subrange(0, j as int) =~= columns);
            } else {
                assert(start + Seq::<Seq<u8>>::empty() =~= start);
            }
            i += 1;
        }
        assert(checks.subrange(0, i as int) =~= checks);
        r
    }

    /// The names of the other columns that an added column's CHECKs read.
    pub fn added_column_dependencies(&self, column: ColumnId) -> (r: Vec<SqlName>)
        ensures
            views(r@) == dependency_names(self@, column@),
    {
        let reads = self.column_check_dependencies(column);
        let ghost all = views(reads@);
        let ghost columns = self@.columns;
        assert(columns == views(self.columns@));
        let mut r: Vec<SqlName> = Vec::new();
        let mut i: usize = 0;
        proof {
            assert(all.subrange(0, 0) =~= Seq::<Seq<u8>>::empty());
            assert(views(r@) =~= Seq::<Seq<char>>::empty());
        }
        while i < reads.len()
            invariant
                i <= reads@.len(),
                all == views(reads@),
                columns == views(self.columns@),
                views(r@) == other_names(columns, all.subrange(0, i as int), column@),
            decreases reads.len() - i,
        {
            let ghost next = all.subrange(0, i as int + 1);
            assert(next.drop_last() =~= all.subrange(0, i as int));
            assert(next.last() == reads@[i as int]@);
            if let Some(k) = find_column(self.columns.as_slice(), reads[i]) {
                if !reads[i].same(&column) {
                    let ghost had = views(r@);
                    let name = self.columns[k].name.clone();
                    r.push(name);
                    assert(views(r@) =~= had.push(name@));
                }
            }
            i += 1;
        }
        assert(all.subrange(0, i as int) =~= all);
        r
    }

    /// Whether an added column restricts what may be written.
    pub fn added_column_changes_write_contract(&self, column: ColumnId) -> (r: bool)
        ensures
            r == restricts_writes(self@, column@),
    {
        assert(self@.columns == views(self.columns@));
        assert(self@.checks == views(self.checks@));
        if let Some(i) = find_column(self.columns.as_slice(), column) {
            if self.columns[i].not_null {
                return true;
            }
        }
        let owned = |check: &CheckDefinition| -> (r: bool)
            ensures
                r == (check@.owner == Some(column@)),
            {
                match &check.owner {
                    Some(owner) => owner.same(&column),
                    None => false,
                }
            };
        let ghost test = |check: CheckView| check.owner == Some(column@);
        any(self.checks.as_slice(), owned, Ghost(test))
    }
}

/// Whether a CHECK that came with a column reads a column.
pub open spec fn reads_column(table: TableView, owner: Seq<u8>, column: Seq<u8>) -> bool {
    exists|i: int|
        0 <= i < table.checks.len() && (#[trigger] table.checks[i]).owner == Some(owner)
            && table.checks[i].columns.contains(column)
}

/// What the CHECKs of one owner read is what some CHECK of theirs reads.
proof fn lemma_owned_reads(checks: Seq<CheckView>, owner: Seq<u8>, column: Seq<u8>)
    ensures
        owned_reads(checks, owner).contains(column) <==> exists|i: int|
            0 <= i < checks.len() && (#[trigger] checks[i]).owner == Some(owner)
                && checks[i].columns.contains(column),
    decreases checks.len(),
{
    if checks.len() > 0 {
        let init = checks.drop_last();
        let last = checks.last();
        let before = owned_reads(init, owner);
        let added = if last.owner == Some(owner) {
            last.columns
        } else {
            Seq::empty()
        };
        let all = before + added;
        lemma_owned_reads(init, owner, column);
        assert(checks[checks.len() - 1] == last);
        if all.contains(column) {
            let k = choose|k: int| 0 <= k < all.len() && all[k] == column;
            if k < before.len() {
                assert(before[k] == column);
                let i = choose|i: int|
                    0 <= i < init.len() && (#[trigger] init[i]).owner == Some(owner)
                        && init[i].columns.contains(column);
                assert(checks[i] == init[i]);
            } else {
                assert(added[k - before.len()] == column);
                assert(checks[checks.len() - 1].columns.contains(column));
            }
        }
        if exists|i: int|
            0 <= i < checks.len() && (#[trigger] checks[i]).owner == Some(owner)
                && checks[i].columns.contains(column) {
            let i = choose|i: int|
                0 <= i < checks.len() && (#[trigger] checks[i]).owner == Some(owner)
                    && checks[i].columns.contains(column);
            if i < init.len() {
                assert(init[i] == checks[i]);
                let k = choose|k: int| 0 <= k < before.len() && before[k] == column;
                assert(all[k] == column);
            } else {
                let k = choose|k: int| 0 <= k < added.len() && added[k] == column;
                assert(all[before.len() + k] == column);
            }
        }
    }
}

/// A column depends on exactly the columns that a CHECK which came with it
/// reads, each of them once.
pub proof fn columns_depend_on_what_their_checks_read(
    table: TableView,
    owner: Seq<u8>,
    column: Seq<u8>,
)
    ensures
        check_dependencies(table, owner).contains(column) <==> reads_column(table, owner, column),
        check_dependencies(table, owner).no_duplicates(),
{
    lemma_distinct(owned_reads(table.checks, owner));
    lemma_owned_reads(table.checks, owner, column);
}

/// The names of other columns are those that the reads find.
proof fn lemma_other_names(columns: Seq<ColumnView>, reads: Seq<Seq<u8>>, column: Seq<u8>, k: int)
    requires
        0 <= k < reads.len(),
        reads[k] != column,
        column_by_id(columns, reads[k]) is Some,
    ensures
        other_names(columns, reads, column).contains(
            column_by_id(columns, reads[k])->Some_0.name,
        ),
    decreases reads.len(),
{
    let init = reads.drop_last();
    let before = other_names(columns, init, column);
    let all = other_names(columns, reads, column);
    let name = column_by_id(columns, reads[k])->Some_0.name;
    if k < init.len() {
        assert(init[k] == reads[k]);
        lemma_other_names(columns, init, column, k);
        let m = choose|m: int| 0 <= m < before.len() && before[m] == name;
        assert(all[m] == name);
    } else {
        assert(all[before.len() as int] == name);
    }
}

/// An added column depends on the name of every other column of the table that
/// a CHECK which came with it reads.
pub proof fn added_columns_depend_on_the_names_they_read(
    table: TableView,
    owner: Seq<u8>,
    read: Seq<u8>,
)
    requires
        reads_column(table, owner, read),
        read != owner,
        column_by_id(table.columns, read) is Some,
    ensures
        dependency_names(table, owner).contains(column_by_id(table.columns, read)->Some_0.name),
{
    columns_depend_on_what_their_checks_read(table, owner, read);
    let reads = check_dependencies(table, owner);
    let k = choose|k: int| 0 <= k < reads.len() && reads[k] == read;
    lemma_other_names(table.columns, reads, owner, k);
}

} // verus!
