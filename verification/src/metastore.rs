//! An ordered byte map in one SQLite table.

use crate::bytes::copy_bytes;
use crate::codec::views;
use crate::error::{refusal, Error, ErrorView, Result};
use crate::name::same_text;
use crate::shape::{
    column_is, described, is_without_rowid, without_rowid, ColumnInfo, ColumnInfoView,
};
use crate::sqlite::{list_texts, listed};
use crate::text::joined;
use vstd::prelude::*;
use vstd::string::*;

verus! {

/// The table that holds the map, and what the names of its tables begin with.
pub const META_TABLE: &'static str = "__multilite__meta";

/// The statement that creates the table.
pub const CREATE_TABLE: &'static str =
    "CREATE TABLE IF NOT EXISTS __multilite__meta (key BLOB PRIMARY KEY NOT NULL, value BLOB NOT NULL) WITHOUT ROWID";

/// How many values one statement binds at most.
pub const MAX_BIND_PARAMETERS: usize = 900;

/// How many entries one statement puts at most.
pub const MAX_PUTS_PER_STATEMENT: usize = 450;

/// One write to the map.
#[derive(Debug, PartialEq, Eq)]
pub enum Op {
    Put { key: Vec<u8>, value: Vec<u8> },
    Delete { key: Vec<u8> },
}

/// A write as a mathematical value.
pub enum OpView {
    Put { key: Seq<u8>, value: Seq<u8> },
    Delete { key: Seq<u8> },
}

impl View for Op {
    type V = OpView;

    open spec fn view(&self) -> OpView {
        match self {
            Op::Put { key, value } => OpView::Put { key: key@, value: value@ },
            Op::Delete { key } => OpView::Delete { key: key@ },
        }
    }
}

/// One statement and the values it binds.
#[derive(Debug, PartialEq, Eq)]
pub struct StoreStatement {
    pub sql: String,
    pub values: Vec<Vec<u8>>,
}

/// A statement as a mathematical value.
#[verifier::ext_equal]
pub struct StoreView {
    pub sql: Seq<char>,
    pub values: Seq<Seq<u8>>,
}

impl View for StoreStatement {
    type V = StoreView;

    open spec fn view(&self) -> StoreView {
        StoreView { sql: self.sql@, values: views(self.values@) }
    }
}

/// How many writes of one kind stand at the front, up to a limit.
pub open spec fn run(ops: Seq<OpView>, puts: bool, limit: nat) -> nat
    decreases limit,
{
    if ops.len() == 0 || limit == 0 || (ops[0] is Put) != puts {
        0
    } else {
        1 + run(ops.skip(1), puts, (limit - 1) as nat)
    }
}

/// How many writes of a kind one statement takes at most.
pub open spec fn group_limit(puts: bool) -> nat {
    if puts {
        MAX_PUTS_PER_STATEMENT as nat
    } else {
        MAX_BIND_PARAMETERS as nat
    }
}

/// How many writes the first statement takes.
pub open spec fn first_group(ops: Seq<OpView>) -> nat {
    run(ops, ops[0] is Put, group_limit(ops[0] is Put))
}

/// Writes in groups of one kind, as many in each as a statement takes.
pub open spec fn grouped(ops: Seq<OpView>) -> Seq<Seq<OpView>>
    decreases ops.len(),
{
    if ops.len() == 0 {
        Seq::empty()
    } else {
        let n = first_group(ops);
        if 0 < n <= ops.len() {
            seq![ops.take(n as int)] + grouped(ops.skip(n as int))
        } else {
            Seq::empty()
        }
    }
}

/// The values that a write binds.
pub open spec fn op_values(op: OpView) -> Seq<Seq<u8>> {
    match op {
        OpView::Put { key, value } => seq![key, value],
        OpView::Delete { key } => seq![key],
    }
}

/// The values that a group binds.
pub open spec fn group_values(group: Seq<OpView>) -> Seq<Seq<u8>>
    decreases group.len(),
{
    if group.len() == 0 {
        Seq::empty()
    } else {
        group_values(group.drop_last()) + op_values(group.last())
    }
}

/// Some copies of a text, with commas between them.
pub open spec fn repeated(text: Seq<char>, n: nat) -> Seq<char> {
    listed(Seq::new(n, |i: int| text), ", "@)
}

/// The statement of a group.
pub open spec fn group_statement(group: Seq<OpView>) -> StoreView {
    StoreView {
        sql: if group[0] is Put {
            "INSERT INTO __multilite__meta (key, value) VALUES "@ + repeated(
                "(?, ?)"@,
                group.len(),
            ) + " ON CONFLICT(key) DO UPDATE SET value = excluded.value"@
        } else {
            "DELETE FROM __multilite__meta WHERE key IN ("@ + repeated("?"@, group.len()) + ")"@
        },
        values: group_values(group),
    }
}

/// The statements that apply writes.
pub open spec fn planned(ops: Seq<OpView>) -> Seq<StoreView> {
    grouped(ops).map_values(|group: Seq<OpView>| group_statement(group))
}

/// A group is no longer than what is left, nor than its limit.
proof fn lemma_run(ops: Seq<OpView>, puts: bool, limit: nat)
    ensures
        run(ops, puts, limit) <= ops.len(),
        run(ops, puts, limit) <= limit,
        forall|i: int| 0 <= i < run(ops, puts, limit) ==> (#[trigger] ops[i] is Put) == puts,
    decreases limit,
{
    if !(ops.len() == 0 || limit == 0 || (ops[0] is Put) != puts) {
        let rest = ops.skip(1);
        lemma_run(rest, puts, (limit - 1) as nat);
        assert forall|i: int| 0 <= i < run(ops, puts, limit) implies (#[trigger] ops[i] is Put)
            == puts by {
            if i > 0 {
                assert(rest[i - 1] == ops[i]);
            }
        }
    }
}

/// The first group of some writes is not empty.
proof fn lemma_first_group(ops: Seq<OpView>)
    requires
        ops.len() > 0,
    ensures
        0 < first_group(ops) <= ops.len(),
        first_group(ops) <= group_limit(ops[0] is Put),
        forall|i: int| 0 <= i < first_group(ops) ==> (#[trigger] ops[i] is Put) == (ops[0] is Put),
{
    lemma_run(ops, ops[0] is Put, group_limit(ops[0] is Put));
}

/// One statement for a text with copies of another.
fn statement(head: &str, texts: &[String], tail: &str) -> (r: String)
    ensures
        r@ == head@ + listed(views(texts@), ", "@) + tail@,
{
    let mut r = joined(head, list_texts(texts, ", ").as_str());
    r.append(tail);
    r
}

/// The statement of a group.
fn plan_group(group: &[Op]) -> (r: StoreStatement)
    requires
        group@.len() > 0,
        forall|i: int| 0 <= i < group@.len() ==> (#[trigger] group@[i] is Put) == (group@[0] is Put),
    ensures
        r@ == group_statement(views(group@)),
{
    let ghost all = views(group@);
    let puts = match &group[0] {
        Op::Put { .. } => true,
        Op::Delete { .. } => false,
    };
    let mark: &str = if puts {
        "(?, ?)"
    } else {
        "?"
    };
    let mut texts: Vec<String> = Vec::new();
    let mut values: Vec<Vec<u8>> = Vec::new();
    let mut i: usize = 0;
    assert(all.take(0) =~= Seq::<OpView>::empty());
    assert(views(values@) =~= group_values(all.take(0)));
    while i < group.len()
        invariant
            i <= group@.len(),
            all == views(group@),
            texts@.len() == i,
            forall|j: int| 0 <= j < i ==> #[trigger] texts@[j]@ == mark@,
            views(values@) == group_values(all.take(i as int)),
        decreases group.len() - i,
    {
        texts.push(mark.to_owned());
        let ghost next = all.take(i as int + 1);
        assert(next.drop_last() =~= all.take(i as int));
        assert(next.last() == group@[i as int]@);
        let ghost before = views(values@);
        match &group[i] {
            Op::Put { key, value } => {
                values.push(copy_bytes(key.as_slice()));
                values.push(copy_bytes(value.as_slice()));
                assert(views(values@) =~= before + seq![key@, value@]);
            },
            Op::Delete { key } => {
                values.push(copy_bytes(key.as_slice()));
                assert(views(values@) =~= before + seq![key@]);
            },
        }
        i += 1;
    }
    assert(all.take(i as int) =~= all);
    let ghost marks = Seq::new(all.len(), |j: int| mark@);
    assert(views(texts@) =~= marks);
    assert(all[0] == group@[0]@);
    let sql = if puts {
        assert(marks =~= Seq::new(all.len(), |j: int| "(?, ?)"@));
        statement(
            "INSERT INTO __multilite__meta (key, value) VALUES ",
            texts.as_slice(),
            " ON CONFLICT(key) DO UPDATE SET value = excluded.value",
        )
    } else {
        assert(marks =~= Seq::new(all.len(), |j: int| "?"@));
        statement("DELETE FROM __multilite__meta WHERE key IN (", texts.as_slice(), ")")
    };
    StoreStatement { sql, values }
}

/// The length of the first group from a place on.
fn group_length(ops: &[Op], start: usize) -> (r: usize)
    requires
        start < ops@.len(),
    ensures
        r == first_group(views(ops@).skip(start as int)),
        0 < r <= ops@.len() - start,
{
    let count: usize = ops.len();
    let ghost all = views(ops@).skip(start as int);
    assert(all[0] == ops@[start as int]@);
    let puts = match &ops[start] {
        Op::Put { .. } => true,
        Op::Delete { .. } => false,
    };
    let limit: usize = if puts {
        MAX_PUTS_PER_STATEMENT
    } else {
        MAX_BIND_PARAMETERS
    };
    proof {
        lemma_first_group(all);
    }
    let mut n: usize = 0;
    assert(all.skip(0) =~= all);
    loop
        invariant
            start < count,
            count == ops@.len(),
            all == views(ops@).skip(start as int),
            limit == group_limit(puts),
            n <= limit,
            n <= count - start,
            run(all, puts, limit as nat) == n + run(all.skip(n as int), puts, (limit - n) as nat),
            puts == (all[0] is Put),
            run(all, puts, limit as nat) > 0,
        decreases limit - n,
    {
        let ghost rest = all.skip(n as int);
        if n == limit || n == count - start {
            return n;
        }
        assert(rest[0] == ops@[start + n]@);
        let same = match &ops[start + n] {
            Op::Put { .. } => puts,
            Op::Delete { .. } => !puts,
        };
        if !same {
            return n;
        }
        assert(rest.skip(1) =~= all.skip(n as int + 1));
        n += 1;
    }
}

/// The statements that apply writes, in order.
pub fn plan_writes(ops: &[Op]) -> (r: Vec<StoreStatement>)
    ensures
        views(r@) == planned(views(ops@)),
{
    let ghost all = views(ops@);
    let mut done: Vec<StoreStatement> = Vec::new();
    let mut i: usize = 0;
    assert(all.skip(0) =~= all);
    assert(views(done@) + planned(all) =~= planned(all));
    while i < ops.len()
        invariant
            i <= ops@.len(),
            all == views(ops@),
            views(done@) + planned(all.skip(i as int)) == planned(all),
        decreases ops.len() - i,
    {
        let ghost rest = all.skip(i as int);
        let n: usize = group_length(ops, i);
        proof {
            lemma_first_group(rest);
        }
        let group = vstd::slice::slice_subrange(ops, i, i + n);
        assert(views(group@) =~= rest.take(n as int));
        assert forall|j: int| 0 <= j < group@.len() implies (#[trigger] group@[j] is Put) == (
        group@[0] is Put) by {
            assert(group@[j]@ == rest[j]);
            assert(group@[0]@ == rest[0]);
        }
        let ghost before = views(done@);
        done.push(plan_group(group));
        proof {
            let head = group_statement(rest.take(n as int));
            assert(rest.skip(n as int) =~= all.skip(i + n));
            assert(planned(rest) =~= seq![head] + planned(all.skip(i + n)));
            assert(views(done@) =~= before.push(head));
            assert(before.push(head) + planned(all.skip(i + n)) =~= before + (seq![head] + planned(
                all.skip(i + n),
            )));
        }
        i += n;
    }
    assert(all.skip(i as int) =~= Seq::<OpView>::empty());
    assert(views(done@) + planned(all.skip(i as int)) =~= views(done@));
    done
}

/// The statement that reads the value of a key.
pub fn plan_get(key: &[u8]) -> (r: StoreStatement)
    ensures
        r@ == (StoreView {
            sql: "SELECT value FROM __multilite__meta WHERE key = ?1"@,
            values: seq![key@],
        }),
{
    let mut values: Vec<Vec<u8>> = Vec::new();
    values.push(copy_bytes(key));
    assert(views(values@) =~= seq![key@]);
    StoreStatement {
        sql: "SELECT value FROM __multilite__meta WHERE key = ?1".to_owned(),
        values,
    }
}

/// The statement that reads the entries from a key on, in order of their keys.
pub open spec fn scanned(start: Seq<u8>, end: Option<Seq<u8>>) -> StoreView {
    match end {
        Some(end) => StoreView {
            sql: "SELECT key, value FROM __multilite__meta WHERE key >= ?1 AND key < ?2 ORDER BY key"@,
            values: seq![start, end],
        },
        None => StoreView {
            sql: "SELECT key, value FROM __multilite__meta WHERE key >= ?1 ORDER BY key"@,
            values: seq![start],
        },
    }
}

/// The statement that reads the entries from a key on, up to another.
pub fn plan_scan(start: &[u8], end: Option<&[u8]>) -> (r: StoreStatement)
    ensures
        r@ == scanned(
            start@,
            match end {
                Some(end) => Some(end@),
                None => None,
            },
        ),
{
    let mut values: Vec<Vec<u8>> = Vec::new();
    values.push(copy_bytes(start));
    match end {
        Some(end) => {
            values.push(copy_bytes(end));
            assert(views(values@) =~= seq![start@, end@]);
            StoreStatement {
                sql: "SELECT key, value FROM __multilite__meta WHERE key >= ?1 AND key < ?2 ORDER BY key".to_owned(),
                values,
            }
        },
        None => {
            assert(views(values@) =~= seq![start@]);
            StoreStatement {
                sql: "SELECT key, value FROM __multilite__meta WHERE key >= ?1 ORDER BY key".to_owned(),
                values,
            }
        },
    }
}

/// The message of a failure of SQLite.
pub fn storage_error(text: &str) -> (r: String)
    ensures
        r@ == "SQLite metadata store: "@ + text@,
{
    joined("SQLite metadata store: ", text)
}

/// Whether the table is there. Nothing else may stand in its namespace.
pub open spec fn namespace(tables: Seq<Seq<char>>) -> std::result::Result<bool, ErrorView> {
    if tables.len() == 0 {
        Ok(false)
    } else if tables == seq![META_TABLE@] {
        Ok(true)
    } else {
        Err(ErrorView::InvalidDatabase("metadata table namespace contains unexpected tables"@))
    }
}

/// The columns of the table.
pub open spec fn meta_shape() -> Seq<ColumnInfoView> {
    seq![described("key"@, "BLOB"@, 1), described("value"@, "BLOB"@, 0)]
}

/// Everything that SQLite says of the table. The tables are those whose names
/// begin with the table's own, in order.
#[derive(Debug, PartialEq, Eq)]
pub struct MetaTable {
    pub tables: Vec<String>,
    pub columns: Vec<ColumnInfo>,
    pub sql: String,
}

/// Why the table is refused.
pub open spec fn meta_fault(table: MetaTable) -> Option<ErrorView> {
    match namespace(views(table.tables@)) {
        Err(error) => Some(error),
        Ok(false) => Some(ErrorView::InvalidDatabase("metadata table is missing"@)),
        Ok(true) => if views(table.columns@) != meta_shape() {
            Some(
                ErrorView::InvalidDatabase(
                    "metadata table schema does not match the ordered store"@,
                ),
            )
        } else if !without_rowid(table.sql@) {
            Some(ErrorView::InvalidDatabase("metadata table must use WITHOUT ROWID"@))
        } else {
            None
        },
    }
}

/// Whether the table is there.
pub fn is_initialized(tables: &[String]) -> (r: Result<bool>)
    ensures
        match r {
            Ok(found) => namespace(views(tables@)) == Ok::<bool, ErrorView>(found),
            Err(error) => namespace(views(tables@)) == Err::<bool, ErrorView>(error@),
        },
{
    let ghost all = views(tables@);
    assert(all.len() == tables@.len());
    if tables.len() == 0 {
        return Ok(false);
    }
    if tables.len() == 1 {
        assert(all[0] == tables@[0]@);
        if same_text(tables[0].as_str(), META_TABLE) {
            assert(all =~= seq![META_TABLE@]);
            return Ok(true);
        }
    }
    Err(Error::InvalidDatabase("metadata table namespace contains unexpected tables"))
}

/// Whether columns are those of the table.
fn has_meta_shape(columns: &[ColumnInfo]) -> (r: bool)
    ensures
        r == (views(columns@) == meta_shape()),
{
    let ghost all = views(columns@);
    assert(all.len() == columns@.len());
    if columns.len() != 2 {
        return false;
    }
    assert(all[0] == columns@[0]@ && all[1] == columns@[1]@);
    let r = column_is(&columns[0], "key", "BLOB", 1) && column_is(&columns[1], "value", "BLOB", 0);
    proof {
        if r {
            assert(all =~= meta_shape());
        } else if all == meta_shape() {
            assert(all[0] == meta_shape()[0] && all[1] == meta_shape()[1]);
        }
    }
    r
}

impl MetaTable {
    /// Refuse a table that cannot hold the map.
    pub fn validate(&self) -> (r: Result<()>)
        ensures
            refusal(r) == meta_fault(*self),
    {
        match is_initialized(self.tables.as_slice()) {
            Err(error) => {
                return Err(error);
            },
            Ok(found) => if !found {
                return Err(Error::InvalidDatabase("metadata table is missing"));
            },
        }
        if !has_meta_shape(self.columns.as_slice()) {
            return Err(
                Error::InvalidDatabase("metadata table schema does not match the ordered store"),
            );
        }
        if !is_without_rowid(self.sql.as_str()) {
            return Err(Error::InvalidDatabase("metadata table must use WITHOUT ROWID"));
        }
        Ok(())
    }
}

/// The map after one write.
pub open spec fn written(store: Map<Seq<u8>, Seq<u8>>, op: OpView) -> Map<Seq<u8>, Seq<u8>> {
    match op {
        OpView::Put { key, value } => store.insert(key, value),
        OpView::Delete { key } => store.remove(key),
    }
}

/// The map after writes, one by one.
pub open spec fn written_all(store: Map<Seq<u8>, Seq<u8>>, ops: Seq<OpView>) -> Map<
    Seq<u8>,
    Seq<u8>,
> {
    ops.fold_left(store, |store: Map<Seq<u8>, Seq<u8>>, op: OpView| written(store, op))
}

/// The map after groups of writes.
pub open spec fn written_groups(
    store: Map<Seq<u8>, Seq<u8>>,
    groups: Seq<Seq<OpView>>,
) -> Map<Seq<u8>, Seq<u8>>
    decreases groups.len(),
{
    if groups.len() == 0 {
        store
    } else {
        written_groups(written_all(store, groups[0]), groups.skip(1))
    }
}

/// Every group has writes of one kind, at least one and no more than its
/// statement takes, so that no statement binds too many values.
pub proof fn groups_are_bounded(ops: Seq<OpView>, i: int)
    requires
        0 <= i < grouped(ops).len(),
    ensures
        ({
            let group = grouped(ops)[i];
            &&& 0 < group.len() <= group_limit(group[0] is Put)
            &&& forall|j: int|
                0 <= j < group.len() ==> (#[trigger] group[j] is Put) == (group[0] is Put)
            &&& group_values(group).len() <= MAX_BIND_PARAMETERS
        }),
    decreases ops.len(),
{
    lemma_first_group(ops);
    let n = first_group(ops) as int;
    if i == 0 {
        let group = ops.take(n);
        assert(grouped(ops)[0] == group);
        assert forall|j: int| 0 <= j < group.len() implies (#[trigger] group[j] is Put) == (
        group[0] is Put) by {
            assert(group[j] == ops[j]);
        }
        lemma_values(group);
    } else {
        groups_are_bounded(ops.skip(n), i - 1);
        assert(grouped(ops)[i] == grouped(ops.skip(n))[i - 1]);
    }
}

/// How many values a group of one kind binds.
proof fn lemma_values(group: Seq<OpView>)
    requires
        group.len() > 0,
        forall|j: int| 0 <= j < group.len() ==> (#[trigger] group[j] is Put) == (group[0] is Put),
    ensures
        group_values(group).len() == if group[0] is Put {
            2 * group.len()
        } else {
            group.len()
        },
    decreases group.len(),
{
    if group.len() == 1 {
        assert(group.drop_last() =~= Seq::<OpView>::empty());
        assert(group_values(group.drop_last()).len() == 0);
    } else {
        lemma_values(group.drop_last());
    }
}

/// The groups, one behind the other, are the writes.
pub proof fn groups_hold_every_write_in_order(ops: Seq<OpView>)
    ensures
        grouped(ops).flatten() == ops,
    decreases ops.len(),
{
    if ops.len() == 0 {
        assert(grouped(ops).flatten() =~= ops);
    } else {
        lemma_first_group(ops);
        let n = first_group(ops) as int;
        let rest = ops.skip(n);
        groups_hold_every_write_in_order(rest);
        assert(grouped(ops).first() == ops.take(n));
        assert(grouped(ops).drop_first() =~= grouped(rest));
        assert(ops.take(n) + rest =~= ops);
    }
}

/// Writing group by group leaves the map that writing one by one leaves, also
/// where keys repeat and kinds alternate.
pub proof fn grouping_keeps_the_outcome(store: Map<Seq<u8>, Seq<u8>>, ops: Seq<OpView>)
    ensures
        written_groups(store, grouped(ops)) == written_all(store, ops),
    decreases ops.len(),
{
    let step = |store: Map<Seq<u8>, Seq<u8>>, op: OpView| written(store, op);
    if ops.len() == 0 {
    } else {
        lemma_first_group(ops);
        let n = first_group(ops) as int;
        let rest = ops.skip(n);
        let after = written_all(store, ops.take(n));
        grouping_keeps_the_outcome(after, rest);
        assert(grouped(ops).skip(1) =~= grouped(rest));
        assert(grouped(ops)[0] == ops.take(n));
        ops.lemma_fold_left_split(store, step, n);
        assert(ops.subrange(0, n) =~= ops.take(n));
        assert(ops.subrange(n, ops.len() as int) =~= rest);
    }
}

/// The statement of a group binds every write of it in order: of a put the key
/// and behind it the value, of a deletion the key.
pub proof fn groups_bind_their_writes(group: Seq<OpView>, i: int)
    requires
        forall|j: int|
            0 <= j < group.len() ==> (#[trigger] group[j] is Put) == (group[0] is Put),
        0 <= i < group.len(),
    ensures
        group[0] is Put ==> group_statement(group).values.len() == 2 * group.len()
            && group_statement(group).values[2 * i] == group[i]->Put_key
            && group_statement(group).values[2 * i + 1] == group[i]->Put_value,
        group[0] is Delete ==> group_statement(group).values.len() == group.len()
            && group_statement(group).values[i] == group[i]->Delete_key,
    decreases group.len(),
{
    let init = group.drop_last();
    let last = group.last();
    assert(group[group.len() - 1] == last);
    lemma_group_width(init, group[0] is Put);
    if i < init.len() {
        assert forall|j: int| 0 <= j < init.len() implies (#[trigger] init[j] is Put) == (init[0]
            is Put) by {
            assert(group[j] == init[j]);
        }
        groups_bind_their_writes(init, i);
        assert(init[i] == group[i]);
        assert(init[0] == group[0]);
    }
}

/// How many values a group of one kind binds.
proof fn lemma_group_width(group: Seq<OpView>, puts: bool)
    requires
        forall|j: int| 0 <= j < group.len() ==> (#[trigger] group[j] is Put) == puts,
    ensures
        group_values(group).len() == group.len() * (if puts {
            2int
        } else {
            1
        }),
    decreases group.len(),
{
    if group.len() > 0 {
        let init = group.drop_last();
        assert(group[group.len() - 1] == group.last());
        assert forall|j: int| 0 <= j < init.len() implies (#[trigger] init[j] is Put) == puts by {
            assert(group[j] == init[j]);
        }
        lemma_group_width(init, puts);
    }
}

/// A scan binds where it starts and, where it has an end, where it ends.
pub proof fn scans_bind_their_bounds(start: Seq<u8>, end: Option<Seq<u8>>, other: Option<Seq<u8>>)
    ensures
        scanned(start, end).values[0] == start,
        scanned(start, end).values.len() == (if end is Some {
            2int
        } else {
            1
        }),
        end matches Some(end) ==> scanned(start, Some(end)).values[1] == end,
        scanned(start, end) == scanned(start, other) <==> end == other,
{
    assert(scanned(start, end).values.len() == (if end is Some {
        2int
    } else {
        1
    }));
    if let (Some(a), Some(b)) = (end, other) {
        assert(scanned(start, end).values[1] == a);
        assert(scanned(start, other).values[1] == b);
    }
}

/// An accepted table is alone in its namespace, has a key and a value of bytes
/// that are never NULL, the key being its primary key, and no rowids.
pub proof fn accepted_stores_are_ordered_maps(table: MetaTable)
    requires
        meta_fault(table) is None,
    ensures
        views(table.tables@).len() == 1,
        views(table.tables@)[0] == META_TABLE@,
        table.columns@.len() == 2,
        forall|i: int|
            0 <= i < 2 ==> (#[trigger] views(table.columns@)[i]).not_null && views(
                table.columns@,
            )[i].kind == "BLOB"@,
        views(table.columns@)[0].name == "key"@,
        views(table.columns@)[0].primary == 1,
        views(table.columns@)[1].name == "value"@,
        views(table.columns@)[1].primary == 0,
        without_rowid(table.sql@),
{
    assert(views(table.columns@).len() == table.columns@.len());
}

} // verus!
