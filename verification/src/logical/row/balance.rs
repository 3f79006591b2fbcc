//! The net effect of a statement against the changes that it made one by one.

use super::apply::{arranged, turned};
use super::capture::CapturedChangeView;
use super::cells::{DeltaView, RowView};
use super::changes::{afters, befores};
use super::fold::{
    change_folded, change_images, changing, fold_changed, fold_deleted, fold_inserted, fold_step,
    fold_updated, located, net_tables, opened, revives, table_rank, with_after, within,
    FoldView,
};
use super::folding::{
    all_keyed, deltas_within, folding_keeps_one_delta_for_each_live_key, folds_ascending, keyed,
    lemma_rank,
};
use super::replay::{carried, changes_replace_their_images, images_aligned};
use crate::attempt::try_fold;
use crate::catalog::CatalogEntryView;
use crate::each::lemma_filter_push;
use crate::key::{bytes_less, lemma_bytes_irreflexive, Path};
use vstd::multiset::Multiset;
use vstd::prelude::*;

verus! {

/// The rows that the changes of a statement add to a table.
pub open spec fn rows_added(
    tables: Seq<CatalogEntryView>,
    events: Seq<CapturedChangeView>,
    table: Seq<u8>,
) -> Multiset<RowView>
    decreases events.len(),
{
    if events.len() == 0 {
        Multiset::empty()
    } else {
        rows_added(tables, events.drop_last(), table).add(
            change_adds(tables, events.last(), table),
        )
    }
}

/// The rows that one change adds to a table.
pub open spec fn change_adds(
    tables: Seq<CatalogEntryView>,
    change: CapturedChangeView,
    table: Seq<u8>,
) -> Multiset<RowView> {
    match change_images(tables, change) {
        Ok((image, after)) => if image.rules.table != table || change is Delete {
            Multiset::empty()
        } else {
            Multiset::singleton(after.row)
        },
        Err(_) => Multiset::empty(),
    }
}

/// The rows that the changes of a statement take from a table.
pub open spec fn rows_removed(
    tables: Seq<CatalogEntryView>,
    events: Seq<CapturedChangeView>,
    table: Seq<u8>,
) -> Multiset<RowView>
    decreases events.len(),
{
    if events.len() == 0 {
        Multiset::empty()
    } else {
        rows_removed(tables, events.drop_last(), table).add(
            change_removes(tables, events.last(), table),
        )
    }
}

/// The rows that one change takes from a table.
pub open spec fn change_removes(
    tables: Seq<CatalogEntryView>,
    change: CapturedChangeView,
    table: Seq<u8>,
) -> Multiset<RowView> {
    match change_images(tables, change) {
        Ok((image, _)) => if image.rules.table != table || change is Insert {
            Multiset::empty()
        } else {
            Multiset::singleton(image.row)
        },
        Err(_) => Multiset::empty(),
    }
}

/// Whether net changes add to what they take as much as the given rows add to
/// the given rows.
pub open spec fn balanced(
    rows: Seq<DeltaView>,
    removed: Multiset<RowView>,
    added: Multiset<RowView>,
) -> bool {
    afters(rows).to_multiset().add(removed) == befores(rows).to_multiset().add(added)
}

/// Whether net changes become others by taking and adding the given rows.
spec fn shifted(
    rows: Seq<DeltaView>,
    next: Seq<DeltaView>,
    removed: Multiset<RowView>,
    added: Multiset<RowView>,
) -> bool {
    afters(next).to_multiset().add(befores(rows).to_multiset()).add(removed) == befores(
        next,
    ).to_multiset().add(afters(rows).to_multiset()).add(added)
}

/// The row of an image, if there is one.
spec fn one(row: Option<RowView>) -> Multiset<RowView> {
    match row {
        Some(row) => Multiset::singleton(row),
        None => Multiset::empty(),
    }
}

/// Balanced changes stay balanced as they shift.
proof fn lemma_shift(
    rows: Seq<DeltaView>,
    next: Seq<DeltaView>,
    removed: Multiset<RowView>,
    added: Multiset<RowView>,
    less: Multiset<RowView>,
    more: Multiset<RowView>,
)
    requires
        balanced(rows, removed, added),
        shifted(rows, next, less, more),
    ensures
        balanced(next, removed.add(less), added.add(more)),
{
    let a = afters(rows).to_multiset();
    let b = befores(rows).to_multiset();
    let c = afters(next).to_multiset();
    let d = befores(next).to_multiset();
    assert forall|x: RowView| #[trigger] c.add(removed.add(less)).count(x) == d.add(
        added.add(more),
    ).count(x) by {
        assert(a.add(removed).count(x) == b.add(added).count(x));
        assert(c.add(b).add(less).count(x) == d.add(a).add(more).count(x));
    }
    assert(c.add(removed.add(less)) =~= d.add(added.add(more)));
}

/// Another after-image at one position takes the old one's place.
proof fn lemma_with_after(rows: Seq<DeltaView>, at: int, after: Option<RowView>)
    requires
        0 <= at < rows.len(),
    ensures
        befores(with_after(rows, at, after)) == befores(rows),
        afters(with_after(rows, at, after)).to_multiset().add(one(rows[at].after)) == afters(
            rows,
        ).to_multiset().add(one(after)),
    decreases rows.len(),
{
    broadcast use vstd::seq_lib::group_to_multiset_ensures;

    let next = with_after(rows, at, after);
    let first = rows.drop_last();
    let a = afters(first).to_multiset();
    if at == rows.len() - 1 {
        assert(next.drop_last() =~= first);
        assert(afters(rows).to_multiset() =~= a.add(one(rows.last().after)));
        assert(afters(next).to_multiset() =~= a.add(one(after)));
    } else {
        lemma_with_after(first, at, after);
        assert(next.drop_last() =~= with_after(first, at, after));
        let b = afters(with_after(first, at, after)).to_multiset();
        let last = one(rows.last().after);
        assert(next.last() == rows.last());
        assert(afters(rows).to_multiset() =~= a.add(last));
        assert(afters(next).to_multiset() =~= b.add(last));
        assert(b.add(one(rows[at].after)) == a.add(one(after)));
        assert(b.add(last).add(one(rows[at].after)) =~= b.add(one(rows[at].after)).add(last));
        assert(a.add(one(after)).add(last) =~= a.add(last).add(one(after)));
    }
}

/// The images of one more change.
proof fn lemma_pushed(rows: Seq<DeltaView>, delta: DeltaView)
    ensures
        befores(rows.push(delta)).to_multiset() == befores(rows).to_multiset().add(
            one(delta.before),
        ),
        afters(rows.push(delta)).to_multiset() == afters(rows).to_multiset().add(one(delta.after)),
{
    broadcast use vstd::seq_lib::group_to_multiset_ensures;

    assert(rows.push(delta).drop_last() =~= rows);
    assert(befores(rows.push(delta)).to_multiset() =~= befores(rows).to_multiset().add(
        one(delta.before),
    ));
    assert(afters(rows.push(delta)).to_multiset() =~= afters(rows).to_multiset().add(
        one(delta.after),
    ));
}

/// Inserting a row adds it.
proof fn lemma_insert_shifts(fold: FoldView, key: Path, row: RowView)
    requires
        within(fold),
        fold.rows.len() < usize::MAX,
        fold_inserted(fold, key, row) is Ok,
    ensures
        shifted(
            fold.rows,
            fold_inserted(fold, key, row)->Ok_0.rows,
            Multiset::empty(),
            Multiset::singleton(row),
        ),
{
    reveal(fold_inserted);
    let next = fold_inserted(fold, key, row)->Ok_0.rows;
    let empty = DeltaView { before: None, after: None };
    let a = afters(fold.rows).to_multiset();
    let b = befores(fold.rows).to_multiset();
    let more = Multiset::singleton(row);
    let none = Multiset::<RowView>::empty();
    if revives(fold, key) {
        assert(fold.retired[key] < fold.rows.len());
        lemma_with_after(fold.rows, fold.retired[key] as int, Some(row));
        assert(afters(next).to_multiset().add(none) =~= afters(next).to_multiset());
    } else {
        let rows = fold.rows.push(empty);
        lemma_pushed(fold.rows, empty);
        lemma_with_after(rows, fold.rows.len() as int, Some(row));
        assert(a.add(none) =~= a);
        assert(b.add(none) =~= b);
        assert(afters(next).to_multiset().add(none) =~= afters(next).to_multiset());
    }
    assert(a.add(more).add(b).add(none) =~= b.add(a).add(more));
}

/// A row that is about to change is live as it is, or new with its before-image.
proof fn lemma_located(fold: FoldView, key: Path, row: RowView, after: Option<RowView>)
    requires
        within(fold),
        fold.rows.len() < usize::MAX,
        fold.current.dom().contains(key) ==> fold.rows[fold.current[key] as int].after == Some(
            row,
        ),
    ensures
        shifted(
            fold.rows,
            with_after(located(fold, key, row).0, located(fold, key, row).1, after),
            Multiset::singleton(row),
            one(after),
        ),
{
    let (rows, at) = located(fold, key, row);
    let next = with_after(rows, at, after);
    let a = afters(fold.rows).to_multiset();
    let b = befores(fold.rows).to_multiset();
    let c = afters(next).to_multiset();
    let less = Multiset::singleton(row);
    let more = one(after);
    let none = Multiset::<RowView>::empty();
    if fold.current.dom().contains(key) {
        assert(fold.current[key] < fold.rows.len());
        lemma_with_after(rows, at, after);
        assert(c.add(less) == a.add(more));
        assert(c.add(b).add(less) =~= c.add(less).add(b));
        assert(b.add(a).add(more) =~= a.add(more).add(b));
    } else {
        let fresh = DeltaView { before: Some(row), after: None };
        lemma_pushed(fold.rows, fresh);
        lemma_with_after(rows, at, after);
        assert(c.add(none) =~= c);
        assert(a.add(none) =~= a);
        assert(c == a.add(more));
        assert(befores(next).to_multiset() == b.add(less));
        assert(a.add(more).add(b).add(less) =~= b.add(less).add(a).add(more));
    }
}

/// What one change does to its table is what it adds and takes.
proof fn lemma_change_shifts(
    tables: Seq<CatalogEntryView>,
    fold: FoldView,
    change: CapturedChangeView,
)
    requires
        within(fold),
        fold.rows.len() < usize::MAX,
        change_images(tables, change) is Ok,
        ({
            let (image, after) = change_images(tables, change)->Ok_0;
            image.rules == fold.rules && fold_changed(fold, change, image, after) is Ok
        }),
    ensures
        ({
            let (image, after) = change_images(tables, change)->Ok_0;
            shifted(
                fold.rows,
                fold_changed(fold, change, image, after)->Ok_0.rows,
                change_removes(tables, change, fold.rules.table),
                change_adds(tables, change, fold.rules.table),
            )
        }),
{
    reveal(change_images);
    let (image, after) = change_images(tables, change)->Ok_0;
    match change {
        CapturedChangeView::Insert(_) => {
            lemma_insert_shifts(fold, image.key, image.row);
        },
        CapturedChangeView::Delete(_) => {
            reveal(fold_deleted);
            lemma_located(fold, image.key, image.row, None);
        },
        CapturedChangeView::Update { .. } => {
            reveal(fold_updated);
            lemma_located(fold, image.key, image.row, Some(after.row));
        },
    }
}

/// Whether a table is among those that a statement changed.
pub open spec fn touched(folds: Seq<FoldView>, table: Seq<u8>) -> bool {
    exists|i: int| 0 <= i < folds.len() && (#[trigger] folds[i]).rules.table == table
}

/// Whether every table's net changes balance what the statement did to it.
pub open spec fn all_balanced(
    tables: Seq<CatalogEntryView>,
    folds: Seq<FoldView>,
    events: Seq<CapturedChangeView>,
) -> bool {
    &&& forall|i: int|
        0 <= i < folds.len() ==> balanced(
            (#[trigger] folds[i]).rows,
            rows_removed(tables, events, folds[i].rules.table),
            rows_added(tables, events, folds[i].rules.table),
        )
    &&& forall|table: Seq<u8>|
        !(#[trigger] touched(folds, table)) ==> rows_removed(tables, events, table)
            == Multiset::<RowView>::empty() && rows_added(tables, events, table) == Multiset::<
            RowView,
        >::empty()
}

/// One more change keeps the net changes balanced.
proof fn lemma_event(
    tables: Seq<CatalogEntryView>,
    folds: Seq<FoldView>,
    events: Seq<CapturedChangeView>,
)
    requires
        events.len() > 0,
        events.len() <= usize::MAX,
        folds_ascending(folds),
        all_keyed(folds),
        deltas_within(folds, events.drop_last().len()),
        all_balanced(tables, folds, events.drop_last()),
        change_folded(tables, folds, events.last()) is Ok,
    ensures
        all_balanced(tables, change_folded(tables, folds, events.last())->Ok_0, events),
{
    reveal(change_folded);
    reveal(opened);
    let change = events.last();
    let past = events.drop_last();
    let (image, after) = change_images(tables, change)->Ok_0;
    let rules = image.rules;
    let rank = table_rank(folds, rules.table) as int;
    lemma_rank(folds, rules.table);
    let (open, at) = opened(folds, rules)->Ok_0;
    let none = Multiset::<RowView>::empty();
    let isolated = !(rank < folds.len() && folds[rank].rules.table == rules.table);
    if isolated {
        assert(!touched(folds, rules.table)) by {
            if touched(folds, rules.table) {
                let i = choose|i: int|
                    0 <= i < folds.len() && (#[trigger] folds[i]).rules.table == rules.table;
                lemma_bytes_irreflexive(rules.table);
                assert(i >= rank);
                assert(i > rank);
                assert(bytes_less(folds[rank].rules.table, folds[i].rules.table));
            }
        }
        assert(afters(Seq::<DeltaView>::empty()).to_multiset().add(none) =~= befores(
            Seq::<DeltaView>::empty(),
        ).to_multiset().add(none));
    }
    assert(within(open[at])) by {
        if !isolated {
            assert(keyed(folds[at]));
        }
    }
    assert(open[at].rules == rules);
    assert(open[at].rows.len() < usize::MAX) by {
        if !isolated {
            assert(folds[at].rows.len() <= past.len());
        }
    }
    assert(balanced(
        open[at].rows,
        rows_removed(tables, past, rules.table),
        rows_added(tables, past, rules.table),
    ));
    lemma_change_shifts(tables, open[at], change);
    let changed = fold_changed(open[at], change, image, after)->Ok_0;
    lemma_shift(
        open[at].rows,
        changed.rows,
        rows_removed(tables, past, rules.table),
        rows_added(tables, past, rules.table),
        change_removes(tables, change, rules.table),
        change_adds(tables, change, rules.table),
    );
    assert(changed.rules == rules) by {
        reveal(fold_inserted);
        reveal(fold_deleted);
        reveal(fold_updated);
    }
    let next = open.update(at, changed);
    assert forall|i: int| 0 <= i < next.len() implies balanced(
        (#[trigger] next[i]).rows,
        rows_removed(tables, events, next[i].rules.table),
        rows_added(tables, events, next[i].rules.table),
    ) by {
        if i != at {
            let j = if isolated && i > at {
                i - 1
            } else {
                i
            };
            assert(next[i] == folds[j]);
            assert(folds[j].rules.table != rules.table) by {
                if isolated {
                    assert(!touched(folds, rules.table));
                } else {
                    lemma_bytes_irreflexive(rules.table);
                    assert(bytes_less(folds[j].rules.table, folds[at].rules.table) || bytes_less(
                        folds[at].rules.table,
                        folds[j].rules.table,
                    ));
                }
            }
            let t = folds[j].rules.table;
            assert(rows_removed(tables, past, t).add(none) =~= rows_removed(tables, past, t));
            assert(rows_added(tables, past, t).add(none) =~= rows_added(tables, past, t));
        }
    }
    assert forall|table: Seq<u8>| !(#[trigger] touched(next, table)) implies rows_removed(
        tables,
        events,
        table,
    ) == none && rows_added(tables, events, table) == none by {
        assert(table != rules.table) by {
            if table == rules.table {
                assert(next[at].rules.table == table);
            }
        }
        assert(!touched(folds, table)) by {
            if touched(folds, table) {
                let i = choose|i: int|
                    0 <= i < folds.len() && (#[trigger] folds[i]).rules.table == table;
                let j = if isolated && i >= at {
                    i + 1
                } else {
                    i
                };
                assert(next[j] == folds[i] || j == at);
                assert(next[j].rules.table == table);
            }
        }
        assert(none.add(none) =~= none);
    }
}

/// What a statement leaves of its tables balances what it did to them.
proof fn lemma_folded(tables: Seq<CatalogEntryView>, events: Seq<CapturedChangeView>)
    requires
        try_fold(Seq::<FoldView>::empty(), events, fold_step(tables)) is Ok,
        events.len() <= usize::MAX,
    ensures
        all_balanced(
            tables,
            try_fold(Seq::<FoldView>::empty(), events, fold_step(tables))->Ok_0,
            events,
        ),
    decreases events.len(),
{
    if events.len() > 0 {
        let past = events.drop_last();
        lemma_folded(tables, past);
        folding_keeps_one_delta_for_each_live_key(tables, past);
        lemma_event(
            tables,
            try_fold(Seq::<FoldView>::empty(), past, fold_step(tables))->Ok_0,
            events,
        );
    }
}

/// Leaving out what does not change keeps changes balanced.
proof fn lemma_changing_balanced(
    rows: Seq<DeltaView>,
    removed: Multiset<RowView>,
    added: Multiset<RowView>,
)
    requires
        balanced(rows, removed, added),
    ensures
        balanced(rows.filter(changing()), removed, added),
{
    lemma_filtered(rows);
    let a = afters(rows).to_multiset();
    let b = befores(rows).to_multiset();
    let c = afters(rows.filter(changing())).to_multiset();
    let d = befores(rows.filter(changing())).to_multiset();
    assert forall|x: RowView| #[trigger] c.add(removed).count(x) == d.add(added).count(x) by {
        assert(a.add(removed).count(x) == b.add(added).count(x));
        assert(c.add(b).count(x) == d.add(a).count(x));
    }
    assert(c.add(removed) =~= d.add(added));
}

/// What does not change is before the changes as often as after them.
proof fn lemma_filtered(rows: Seq<DeltaView>)
    ensures
        afters(rows.filter(changing())).to_multiset().add(befores(rows).to_multiset()) == befores(
            rows.filter(changing()),
        ).to_multiset().add(afters(rows).to_multiset()),
    decreases rows.len(),
{
    let left = rows.filter(changing());
    if rows.len() == 0 {
        reveal(Seq::filter);
        assert(left =~= rows);
        assert(afters(left).to_multiset().add(befores(rows).to_multiset()) =~= befores(
            left,
        ).to_multiset().add(afters(rows).to_multiset()));
    } else {
        let first = rows.drop_last();
        let delta = rows.last();
        lemma_filtered(first);
        lemma_filter_push(first, delta, changing());
        assert(first.push(delta) =~= rows);
        lemma_pushed(first, delta);
        let before = first.filter(changing());
        lemma_pushed(before, delta);
        let a = afters(first).to_multiset();
        let b = befores(first).to_multiset();
        let c = afters(before).to_multiset();
        let d = befores(before).to_multiset();
        let less = one(delta.before);
        let more = one(delta.after);
        assert(c.add(b) == d.add(a));
        if changing()(delta) {
            assert(c.add(more).add(b.add(less)) =~= c.add(b).add(more).add(less));
            assert(d.add(less).add(a.add(more)) =~= d.add(a).add(more).add(less));
        } else {
            assert(c.add(b.add(less)) =~= c.add(b).add(less));
            assert(d.add(a.add(more)) =~= d.add(a).add(less));
        }
    }
}

/// The net changes of a table are what its own changes leave.
proof fn lemma_net_balanced(
    tables: Seq<CatalogEntryView>,
    folds: Seq<FoldView>,
    events: Seq<CapturedChangeView>,
)
    requires
        forall|i: int|
            0 <= i < folds.len() ==> balanced(
                (#[trigger] folds[i]).rows,
                rows_removed(tables, events, folds[i].rules.table),
                rows_added(tables, events, folds[i].rules.table),
            ),
    ensures
        forall|i: int|
            0 <= i < net_tables(folds).len() ==> balanced(
                (#[trigger] net_tables(folds)[i]).rows,
                rows_removed(tables, events, net_tables(folds)[i].rules.table),
                rows_added(tables, events, net_tables(folds)[i].rules.table),
            ),
    decreases folds.len(),
{
    if folds.len() > 0 {
        let rest = folds.drop_last();
        assert forall|i: int| 0 <= i < rest.len() implies balanced(
            (#[trigger] rest[i]).rows,
            rows_removed(tables, events, rest[i].rules.table),
            rows_added(tables, events, rest[i].rules.table),
        ) by {
            assert(rest[i] == folds[i]);
        }
        lemma_net_balanced(tables, rest, events);
        let last = folds[folds.len() - 1];
        lemma_changing_balanced(
            last.rows,
            rows_removed(tables, events, last.rules.table),
            rows_added(tables, events, last.rules.table),
        );
        let before = net_tables(rest);
        let all = net_tables(folds);
        assert forall|i: int| 0 <= i < all.len() implies balanced(
            (#[trigger] all[i]).rows,
            rows_removed(tables, events, all[i].rules.table),
            rows_added(tables, events, all[i].rules.table),
        ) by {
            if i < before.len() {
                assert(all[i] == before[i]);
            }
        }
    }
}

/// The net changes of a statement's tables add to what they take exactly as much
/// as all changes of the statement, one by one, add to what those take.
pub proof fn net_changes_balance_the_statement(
    tables: Seq<CatalogEntryView>,
    events: Seq<CapturedChangeView>,
)
    requires
        try_fold(Seq::<FoldView>::empty(), events, fold_step(tables)) is Ok,
        events.len() <= usize::MAX,
    ensures
        ({
            let net = net_tables(
                try_fold(Seq::<FoldView>::empty(), events, fold_step(tables))->Ok_0,
            );
            forall|i: int|
                0 <= i < net.len() ==> balanced(
                    (#[trigger] net[i]).rows,
                    rows_removed(tables, events, net[i].rules.table),
                    rows_added(tables, events, net[i].rules.table),
                )
        }),
{
    lemma_folded(tables, events);
    lemma_net_balanced(
        tables,
        try_fold(Seq::<FoldView>::empty(), events, fold_step(tables))->Ok_0,
        events,
    );
}

/// Carrying the net changes of a table out on the rows that it had before the
/// statement leaves what the statement's own changes leave: the rows, less those
/// taken, and those added.
pub proof fn carrying_out_net_changes_repeats_the_statement(
    tables: Seq<CatalogEntryView>,
    events: Seq<CapturedChangeView>,
    i: int,
    other: Multiset<RowView>,
)
    requires
        try_fold(Seq::<FoldView>::empty(), events, fold_step(tables)) is Ok,
        events.len() <= usize::MAX,
        ({
            let net = net_tables(
                try_fold(Seq::<FoldView>::empty(), events, fold_step(tables))->Ok_0,
            );
            &&& 0 <= i < net.len()
            &&& images_aligned(net[i].rows)
            &&& arranged(net[i], false, befores(net[i].rows)) is Ok
        }),
    ensures
        ({
            let changes = net_tables(
                try_fold(Seq::<FoldView>::empty(), events, fold_step(tables))->Ok_0,
            )[i];
            let table = changes.rules.table;
            let rows = other.add(befores(changes.rows).to_multiset());
            carried(rows, arranged(changes, false, befores(changes.rows))->Ok_0).add(
                rows_removed(tables, events, table),
            ) == rows.add(rows_added(tables, events, table))
        }),
{
    net_changes_balance_the_statement(tables, events);
    let changes = net_tables(try_fold(Seq::<FoldView>::empty(), events, fold_step(tables))->Ok_0)[i];
    assert(changes.rows.map_values(turned(false)) =~= changes.rows);
    changes_replace_their_images(changes, false, other);
    let a = afters(changes.rows).to_multiset();
    let b = befores(changes.rows).to_multiset();
    let removed = rows_removed(tables, events, changes.rules.table);
    let added = rows_added(tables, events, changes.rules.table);
    assert(a.add(removed) == b.add(added));
    assert(other.add(a).add(removed) =~= other.add(a.add(removed)));
    assert(other.add(b).add(added) =~= other.add(b.add(added)));
}

} // verus!
