//! What holds of the net effect of a statement.

use super::capture::CapturedChangeView;
use super::cells::{DeltaView, RowView};
use super::changes::tables_ascending;
use super::error::RowCodecError;
use super::fold::{
    change_folded, change_images, changing, fold_changed, fold_deleted, fold_inserted, fold_start,
    fold_step, fold_updated, image_read, located, net_tables, opened, revives, table_rank, within,
    FoldView,
};
use super::keys::row_key_of;
use super::rules::RulesView;
use crate::attempt::try_fold;
use crate::catalog::CatalogEntryView;
use crate::each::lemma_filter_push;
use crate::key::{bytes_less, lemma_bytes_total, lemma_bytes_transitive, Path};
use vstd::prelude::*;

verus! {

/// Whether tables stand in ascending order of their identities.
pub open spec fn folds_ascending(folds: Seq<FoldView>) -> bool {
    forall|i: int, j: int|
        0 <= i < j < folds.len() ==> bytes_less(
            (#[trigger] folds[i]).rules.table,
            (#[trigger] folds[j]).rules.table,
        )
}

/// Whether the live rows of a table are found by their keys, each key once.
pub open spec fn keyed(fold: FoldView) -> bool {
    &&& within(fold)
    &&& forall|i: int|
        0 <= i < fold.rows.len() && (#[trigger] fold.rows[i]).after is Some ==> row_key_of(
            fold.rules,
            fold.rows[i].after->Some_0,
        ) is Ok && fold.current.dom().contains(
            row_key_of(fold.rules, fold.rows[i].after->Some_0)->Ok_0,
        ) && fold.current[row_key_of(fold.rules, fold.rows[i].after->Some_0)->Ok_0] == i
    &&& forall|key: Path| #[trigger]
        fold.current.dom().contains(key) ==> fold.rows[fold.current[key] as int].after is Some
            && row_key_of(fold.rules, fold.rows[fold.current[key] as int].after->Some_0) == Ok::<
            Path,
            RowCodecError,
        >(key)
}

/// Whether the live rows of every table are found by their keys.
pub open spec fn all_keyed(folds: Seq<FoldView>) -> bool {
    forall|i: int| 0 <= i < folds.len() ==> keyed(#[trigger] folds[i])
}

/// The place of a table parts those below it from the others.
pub(crate) proof fn lemma_rank(folds: Seq<FoldView>, table: Seq<u8>)
    ensures
        table_rank(folds, table) <= folds.len(),
        forall|i: int|
            0 <= i < table_rank(folds, table) ==> bytes_less(
                (#[trigger] folds[i]).rules.table,
                table,
            ),
        table_rank(folds, table) < folds.len() ==> !bytes_less(
            folds[table_rank(folds, table) as int].rules.table,
            table,
        ),
    decreases folds.len(),
{
    if folds.len() > 0 && bytes_less(folds[0].rules.table, table) {
        let rest = folds.drop_first();
        lemma_rank(rest, table);
        assert forall|i: int| 0 <= i < table_rank(folds, table) implies bytes_less(
            (#[trigger] folds[i]).rules.table,
            table,
        ) by {
            if i > 0 {
                assert(rest[i - 1] == folds[i]);
            }
        }
        if table_rank(folds, table) < folds.len() {
            assert(rest[table_rank(rest, table) as int] == folds[table_rank(
                folds,
                table,
            ) as int]);
        }
    }
}

/// A table that is brought among others keeps their order.
proof fn lemma_opened(folds: Seq<FoldView>, rules: RulesView)
    requires
        folds_ascending(folds),
        all_keyed(folds),
        opened(folds, rules) is Ok,
    ensures
        folds_ascending(opened(folds, rules)->Ok_0.0),
        all_keyed(opened(folds, rules)->Ok_0.0),
        0 <= opened(folds, rules)->Ok_0.1 < opened(folds, rules)->Ok_0.0.len(),
        opened(folds, rules)->Ok_0.0[opened(folds, rules)->Ok_0.1].rules == rules,
{
    reveal(opened);
    lemma_rank(folds, rules.table);
    let at = table_rank(folds, rules.table) as int;
    if !(at < folds.len() && folds[at].rules.table == rules.table) {
        let more = folds.insert(at, fold_start(rules));
        assert forall|i: int, j: int| 0 <= i < j < more.len() implies bytes_less(
            (#[trigger] more[i]).rules.table,
            (#[trigger] more[j]).rules.table,
        ) by {
            if j < at {
                assert(more[i] == folds[i] && more[j] == folds[j]);
            } else if j == at {
                assert(more[i] == folds[i]);
            } else if i < at {
                assert(more[i] == folds[i] && more[j] == folds[j - 1]);
            } else if i == at {
                assert(more[j] == folds[j - 1]);
                lemma_bytes_total(folds[at].rules.table, rules.table);
                assert(bytes_less(rules.table, folds[at].rules.table));
                if j - 1 > at {
                    assert(bytes_less(folds[at].rules.table, folds[j - 1].rules.table));
                    lemma_bytes_transitive(
                        rules.table,
                        folds[at].rules.table,
                        folds[j - 1].rules.table,
                    );
                }
            } else {
                assert(more[i] == folds[i - 1] && more[j] == folds[j - 1]);
            }
        }
        assert forall|i: int| 0 <= i < more.len() implies keyed(#[trigger] more[i]) by {
            if i < at {
                assert(more[i] == folds[i]);
            } else if i > at {
                assert(more[i] == folds[i - 1]);
            }
        }
    }
}

/// Inserting a row keeps the live rows found by their keys.
proof fn lemma_inserted(fold: FoldView, key: Path, row: RowView)
    requires
        keyed(fold),
        row_key_of(fold.rules, row) == Ok::<Path, RowCodecError>(key),
        fold_inserted(fold, key, row) is Ok,
        fold.rows.len() < usize::MAX,
    ensures
        keyed(fold_inserted(fold, key, row)->Ok_0),
        fold_inserted(fold, key, row)->Ok_0.rules == fold.rules,
{
    reveal(fold_inserted);
    let next = fold_inserted(fold, key, row)->Ok_0;
    let at = next.current[key] as int;
    assert forall|k: Path| next.current.dom().contains(k) implies #[trigger] next.current[k]
        < next.rows.len() by {
        if k != key {
            assert(fold.current[k] < fold.rows.len());
        }
    }
    assert forall|k: Path| next.retired.dom().contains(k) implies #[trigger] next.retired[k]
        < next.rows.len() by {
        assert(fold.retired[k] < fold.rows.len());
    }
    assert forall|i: int|
        0 <= i < next.rows.len() && (#[trigger] next.rows[i]).after is Some implies row_key_of(
        next.rules,
        next.rows[i].after->Some_0,
    ) is Ok && next.current.dom().contains(
        row_key_of(next.rules, next.rows[i].after->Some_0)->Ok_0,
    ) && next.current[row_key_of(next.rules, next.rows[i].after->Some_0)->Ok_0] == i by {
        if i != at {
            assert(next.rows[i] == fold.rows[i]);
        }
    }
    assert forall|k: Path| #[trigger] next.current.dom().contains(k) implies next.rows[next.current[k] as int].after is Some
        && row_key_of(next.rules, next.rows[next.current[k] as int].after->Some_0) == Ok::<
        Path,
        RowCodecError,
    >(k) by {
        if k != key {
            assert(fold.current.dom().contains(k));
            assert(fold.rows[fold.current[k] as int].after is Some);
        }
    }
}

/// Deleting a row keeps the live rows found by their keys.
proof fn lemma_deleted(fold: FoldView, key: Path, row: RowView)
    requires
        keyed(fold),
        fold_deleted(fold, key, row) is Ok,
        fold.rows.len() < usize::MAX,
    ensures
        keyed(fold_deleted(fold, key, row)->Ok_0),
        fold_deleted(fold, key, row)->Ok_0.rules == fold.rules,
{
    reveal(fold_deleted);
    let next = fold_deleted(fold, key, row)->Ok_0;
    let (rows, at) = located(fold, key, row);
    if fold.current.dom().contains(key) {
        assert(fold.current[key] < fold.rows.len());
    }
    assert forall|k: Path| next.current.dom().contains(k) implies #[trigger] next.current[k]
        < next.rows.len() by {
        assert(fold.current[k] < fold.rows.len());
    }
    assert forall|k: Path| next.retired.dom().contains(k) implies #[trigger] next.retired[k]
        < next.rows.len() by {
        if k != key {
            assert(fold.retired[k] < fold.rows.len());
        }
    }
    assert forall|i: int|
        0 <= i < next.rows.len() && (#[trigger] next.rows[i]).after is Some implies row_key_of(
        next.rules,
        next.rows[i].after->Some_0,
    ) is Ok && next.current.dom().contains(
        row_key_of(next.rules, next.rows[i].after->Some_0)->Ok_0,
    ) && next.current[row_key_of(next.rules, next.rows[i].after->Some_0)->Ok_0] == i by {
        assert(i != at);
        assert(next.rows[i] == fold.rows[i]);
    }
    assert forall|k: Path| #[trigger] next.current.dom().contains(k) implies next.rows[next.current[k] as int].after is Some
        && row_key_of(next.rules, next.rows[next.current[k] as int].after->Some_0) == Ok::<
        Path,
        RowCodecError,
    >(k) by {
        assert(fold.current.dom().contains(k));
        let i = fold.current[k] as int;
        assert(i < fold.rows.len());
        if i == at {
            assert(row_key_of(fold.rules, fold.rows[i].after->Some_0)->Ok_0 == key);
        }
        assert(next.rows[i] == fold.rows[i]);
    }
}

/// Updating a row keeps the live rows found by their keys.
proof fn lemma_updated(fold: FoldView, key: Path, row: RowView, after_key: Path, after: RowView)
    requires
        keyed(fold),
        row_key_of(fold.rules, after) == Ok::<Path, RowCodecError>(after_key),
        fold_updated(fold, key, row, after_key, after) is Ok,
        fold.rows.len() < usize::MAX,
    ensures
        keyed(fold_updated(fold, key, row, after_key, after)->Ok_0),
        fold_updated(fold, key, row, after_key, after)->Ok_0.rules == fold.rules,
{
    reveal(fold_updated);
    let next = fold_updated(fold, key, row, after_key, after)->Ok_0;
    let (rows, at) = located(fold, key, row);
    if fold.current.dom().contains(key) {
        assert(fold.current[key] < fold.rows.len());
    }
    assert forall|k: Path| next.current.dom().contains(k) implies #[trigger] next.current[k]
        < next.rows.len() by {
        if k != after_key {
            assert(fold.current[k] < fold.rows.len());
        }
    }
    assert forall|k: Path| next.retired.dom().contains(k) implies #[trigger] next.retired[k]
        < next.rows.len() by {
        if k != key {
            assert(fold.retired[k] < fold.rows.len());
        }
    }
    assert forall|i: int|
        0 <= i < next.rows.len() && (#[trigger] next.rows[i]).after is Some implies row_key_of(
        next.rules,
        next.rows[i].after->Some_0,
    ) is Ok && next.current.dom().contains(
        row_key_of(next.rules, next.rows[i].after->Some_0)->Ok_0,
    ) && next.current[row_key_of(next.rules, next.rows[i].after->Some_0)->Ok_0] == i by {
        if i != at {
            assert(next.rows[i] == fold.rows[i]);
            let own = row_key_of(fold.rules, fold.rows[i].after->Some_0)->Ok_0;
            assert(fold.current[own] == i);
            if own == after_key && own != key {
                assert(fold.current.remove(key).dom().contains(after_key));
            }
        }
    }
    assert forall|k: Path| #[trigger] next.current.dom().contains(k) implies next.rows[next.current[k] as int].after is Some
        && row_key_of(next.rules, next.rows[next.current[k] as int].after->Some_0) == Ok::<
        Path,
        RowCodecError,
    >(k) by {
        if k != after_key {
            assert(fold.current.dom().contains(k));
            let i = fold.current[k] as int;
            assert(i < fold.rows.len());
            if i == at {
                assert(row_key_of(fold.rules, fold.rows[i].after->Some_0)->Ok_0 == key);
            }
            assert(next.rows[i] == fold.rows[i]);
        }
    }
}

/// The key of an image is that of its row.
proof fn lemma_images(tables: Seq<CatalogEntryView>, change: CapturedChangeView)
    requires
        change_images(tables, change) is Ok,
    ensures
        ({
            let (image, after) = change_images(tables, change)->Ok_0;
            &&& row_key_of(image.rules, image.row) == Ok::<Path, RowCodecError>(image.key)
            &&& row_key_of(after.rules, after.row) == Ok::<Path, RowCodecError>(after.key)
            &&& after.rules == image.rules
        }),
{
    reveal(change_images);
    reveal(image_read);
}

/// The deltas of all tables.
pub open spec fn deltas_within(folds: Seq<FoldView>, count: nat) -> bool {
    forall|i: int| 0 <= i < folds.len() ==> (#[trigger] folds[i]).rows.len() <= count
}

/// A change adds at most one delta to its table.
proof fn lemma_change(tables: Seq<CatalogEntryView>, folds: Seq<FoldView>, change: CapturedChangeView, count: nat)
    requires
        folds_ascending(folds),
        all_keyed(folds),
        deltas_within(folds, count),
        count < usize::MAX,
        change_folded(tables, folds, change) is Ok,
    ensures
        folds_ascending(change_folded(tables, folds, change)->Ok_0),
        all_keyed(change_folded(tables, folds, change)->Ok_0),
        deltas_within(change_folded(tables, folds, change)->Ok_0, count + 1),
{
    reveal(change_folded);
    reveal(fold_inserted);
    reveal(fold_deleted);
    reveal(fold_updated);
    let (image, after) = change_images(tables, change)->Ok_0;
    lemma_images(tables, change);
    lemma_opened(folds, image.rules);
    let (open, at) = opened(folds, image.rules)->Ok_0;
    let fold = open[at];
    assert(deltas_within(open, count)) by {
        reveal(opened);
        assert forall|i: int| 0 <= i < open.len() implies (#[trigger] open[i]).rows.len()
            <= count by {
            let r = table_rank(folds, image.rules.table) as int;
            lemma_rank(folds, image.rules.table);
            if open != folds {
                if i < r {
                    assert(open[i] == folds[i]);
                } else if i > r {
                    assert(open[i] == folds[i - 1]);
                }
            }
        }
    }
    assert(keyed(fold));
    assert(fold.rows.len() <= count);
    match change {
        CapturedChangeView::Insert(_) => {
            lemma_inserted(fold, image.key, image.row);
        },
        CapturedChangeView::Delete(_) => {
            lemma_deleted(fold, image.key, image.row);
        },
        CapturedChangeView::Update { .. } => {
            lemma_updated(fold, image.key, image.row, after.key, after.row);
        },
    }
    let next = open.update(at, fold_changed(fold, change, image, after)->Ok_0);
    assert forall|i: int, j: int| 0 <= i < j < next.len() implies bytes_less(
        (#[trigger] next[i]).rules.table,
        (#[trigger] next[j]).rules.table,
    ) by {
        assert(next[i].rules == open[i].rules && next[j].rules == open[j].rules);
    }
    assert forall|i: int| 0 <= i < next.len() implies keyed(#[trigger] next[i]) by {
        if i != at {
            assert(next[i] == open[i]);
        }
    }
    assert forall|i: int| 0 <= i < next.len() implies (#[trigger] next[i]).rows.len() <= count
        + 1 by {
        if i != at {
            assert(next[i] == open[i]);
        }
    }
}

/// Whatever changes a statement makes, its tables stand in order, and each of
/// them holds one delta for each key that is live.
pub proof fn folding_keeps_one_delta_for_each_live_key(
    tables: Seq<CatalogEntryView>,
    events: Seq<CapturedChangeView>,
)
    requires
        try_fold(Seq::<FoldView>::empty(), events, fold_step(tables)) is Ok,
        events.len() <= usize::MAX,
    ensures
        folds_ascending(try_fold(Seq::<FoldView>::empty(), events, fold_step(tables))->Ok_0),
        all_keyed(try_fold(Seq::<FoldView>::empty(), events, fold_step(tables))->Ok_0),
        deltas_within(
            try_fold(Seq::<FoldView>::empty(), events, fold_step(tables))->Ok_0,
            events.len(),
        ),
    decreases events.len(),
{
    if events.len() > 0 {
        let before = events.drop_last();
        folding_keeps_one_delta_for_each_live_key(tables, before);
        lemma_change(
            tables,
            try_fold(Seq::<FoldView>::empty(), before, fold_step(tables))->Ok_0,
            events.last(),
            before.len(),
        );
    }
}

/// Whether rules are those of one of the tables.
spec fn has_rules(folds: Seq<FoldView>, rules: RulesView) -> bool {
    exists|j: int| 0 <= j < folds.len() && (#[trigger] folds[j]).rules == rules
}

/// The net changes of a table are those of one of the tables, in their order.
proof fn lemma_net_tables(folds: Seq<FoldView>)
    requires
        folds_ascending(folds),
    ensures
        tables_ascending(net_tables(folds)),
        forall|i: int|
            0 <= i < net_tables(folds).len() ==> has_rules(
                folds,
                (#[trigger] net_tables(folds)[i]).rules,
            ),
    decreases folds.len(),
{
    if folds.len() > 0 {
        let rest = folds.drop_last();
        assert forall|i: int, j: int| 0 <= i < j < rest.len() implies bytes_less(
            (#[trigger] rest[i]).rules.table,
            (#[trigger] rest[j]).rules.table,
        ) by {
            assert(rest[i] == folds[i] && rest[j] == folds[j]);
        }
        lemma_net_tables(rest);
        let before = net_tables(rest);
        let all = net_tables(folds);
        let end = folds.len() - 1;
        assert forall|i: int| 0 <= i < all.len() implies has_rules(
            folds,
            (#[trigger] all[i]).rules,
        ) by {
            if i < before.len() {
                assert(all[i] == before[i]);
                let j = choose|j: int|
                    0 <= j < rest.len() && (#[trigger] rest[j]).rules == before[i].rules;
                assert(folds[j] == rest[j]);
            } else {
                assert(folds[end].rules == all[i].rules);
            }
        }
        assert forall|i: int, j: int| 0 <= i < j < all.len() implies bytes_less(
            (#[trigger] all[i]).rules.table,
            (#[trigger] all[j]).rules.table,
        ) by {
            assert(all[i] == before[i]);
            if j < before.len() {
                assert(all[j] == before[j]);
            } else {
                let k = choose|k: int|
                    0 <= k < rest.len() && (#[trigger] rest[k]).rules == before[i].rules;
                assert(folds[k] == rest[k]);
                assert(bytes_less(folds[k].rules.table, folds[end].rules.table));
            }
        }
    }
}

/// The tables of a statement's net effect stand in ascending order.
pub proof fn net_tables_ascend(tables: Seq<CatalogEntryView>, events: Seq<CapturedChangeView>)
    requires
        try_fold(Seq::<FoldView>::empty(), events, fold_step(tables)) is Ok,
        events.len() <= usize::MAX,
    ensures
        tables_ascending(
            net_tables(try_fold(Seq::<FoldView>::empty(), events, fold_step(tables))->Ok_0),
        ),
{
    folding_keeps_one_delta_for_each_live_key(tables, events);
    lemma_net_tables(try_fold(Seq::<FoldView>::empty(), events, fold_step(tables))->Ok_0);
}

/// A row that a statement inserts under a new key and then deletes leaves no
/// net change.
pub proof fn deleting_an_inserted_row_leaves_nothing(fold: FoldView, key: Path, row: RowView)
    requires
        within(fold),
        fold.rows.len() < usize::MAX,
        !revives(fold, key),
        fold_inserted(fold, key, row) is Ok,
    ensures
        ({
            let next = fold_inserted(fold, key, row)->Ok_0;
            &&& fold_deleted(next, key, row) is Ok
            &&& fold_deleted(next, key, row)->Ok_0.rows.filter(changing()) == fold.rows.filter(
                changing(),
            )
        }),
{
    reveal(fold_inserted);
    reveal(fold_deleted);
    let next = fold_inserted(fold, key, row)->Ok_0;
    let last = fold_deleted(next, key, row)->Ok_0;
    let empty = DeltaView { before: None, after: None };
    assert(last.rows =~= fold.rows.push(empty));
    lemma_filter_push(fold.rows, empty, changing());
}

/// A row that a statement deletes and then inserts again as it was leaves no net
/// change.
pub proof fn restoring_a_deleted_row_leaves_nothing(fold: FoldView, key: Path, row: RowView)
    requires
        within(fold),
        fold.rows.len() < usize::MAX,
        fold_deleted(fold, key, row) is Ok,
    ensures
        ({
            let next = fold_deleted(fold, key, row)->Ok_0;
            &&& fold_inserted(next, key, row) is Ok
            &&& fold_inserted(next, key, row)->Ok_0.rows.filter(changing()) == fold.rows.filter(
                changing(),
            )
        }),
{
    reveal(fold_inserted);
    reveal(fold_deleted);
    let next = fold_deleted(fold, key, row)->Ok_0;
    let last = fold_inserted(next, key, row)->Ok_0;
    let same = DeltaView { before: Some(row), after: Some(row) };
    if fold.current.dom().contains(key) {
        assert(fold.current[key] < fold.rows.len());
        assert(last.rows =~= fold.rows);
    } else {
        assert(last.rows =~= fold.rows.push(same));
        lemma_filter_push(fold.rows, same, changing());
    }
}

/// A row that a statement updates and then updates back leaves no net change.
pub proof fn updating_a_row_back_leaves_nothing(
    fold: FoldView,
    key: Path,
    row: RowView,
    after_key: Path,
    after: RowView,
)
    requires
        within(fold),
        fold.rows.len() < usize::MAX,
        fold_updated(fold, key, row, after_key, after) is Ok,
    ensures
        ({
            let next = fold_updated(fold, key, row, after_key, after)->Ok_0;
            &&& fold_updated(next, after_key, after, key, row) is Ok
            &&& fold_updated(next, after_key, after, key, row)->Ok_0.rows.filter(changing())
                == fold.rows.filter(changing())
        }),
{
    reveal(fold_updated);
    let next = fold_updated(fold, key, row, after_key, after)->Ok_0;
    let last = fold_updated(next, after_key, after, key, row)->Ok_0;
    let same = DeltaView { before: Some(row), after: Some(row) };
    if fold.current.dom().contains(key) {
        assert(fold.current[key] < fold.rows.len());
        assert(last.rows =~= fold.rows);
    } else {
        assert(last.rows =~= fold.rows.push(same));
        lemma_filter_push(fold.rows, same, changing());
    }
}

} // verus!
