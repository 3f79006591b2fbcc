//! Changes that follow one another against the one change that they amount to.

use super::capture::{CapturedChangeView, CapturedRowView};
use super::cells::DeltaView;
use super::changes::{RowChangesView, TableChangesView};
use super::fold::{
    change_folded, change_images, changes_folded, changing, fold_changed, fold_deleted,
    fold_inserted, fold_start, fold_step, fold_updated, image_read, net_tables, opened, settled,
    table_rank, FoldView, ImageView,
};
use super::rules::RulesView;
use crate::attempt::try_fold;
use crate::catalog::CatalogEntryView;
use crate::each::lemma_filter_push;
use crate::error::ErrorView;
use crate::key::lemma_bytes_irreflexive;
use vstd::prelude::*;

verus! {

/// Whether a captured image is that of a row of a known table.
pub open spec fn readable(tables: Seq<CatalogEntryView>, row: CapturedRowView) -> bool {
    image_read(tables, row, Seq::empty(), None) is Ok
}

/// What a readable image stands for.
pub open spec fn read(tables: Seq<CatalogEntryView>, row: CapturedRowView) -> ImageView {
    image_read(tables, row, Seq::empty(), None)->Ok_0
}

/// What a readable image stands for rests on the image alone.
proof fn lemma_read(
    tables: Seq<CatalogEntryView>,
    row: CapturedRowView,
    other: CapturedRowView,
    missing: Seq<char>,
)
    requires
        readable(tables, row),
        readable(tables, other),
        other.table == row.table,
    ensures
        image_read(tables, row, missing, None) == Ok::<ImageView, ErrorView>(read(tables, row)),
        image_read(tables, row, missing, Some(read(tables, other).rules)) == Ok::<
            ImageView,
            ErrorView,
        >(read(tables, row)),
        read(tables, other).rules == read(tables, row).rules,
{
    reveal(image_read);
}

/// The images of a change to one table.
proof fn lemma_change_images(
    tables: Seq<CatalogEntryView>,
    change: CapturedChangeView,
    before: CapturedRowView,
    after: CapturedRowView,
)
    requires
        readable(tables, before),
        readable(tables, after),
        before.table == after.table,
        match change {
            CapturedChangeView::Insert(row) => row == after && before == after,
            CapturedChangeView::Delete(row) => row == before && before == after,
            CapturedChangeView::Update { before: first, after: then } => first == before && then
                == after,
        },
    ensures
        change_images(tables, change) == Ok::<(ImageView, ImageView), ErrorView>(
            (read(tables, before), read(tables, after)),
        ),
{
    reveal(change_images);
    match change {
        CapturedChangeView::Insert(_) => {
            lemma_read(
                tables,
                after,
                after,
                "INSERT target has no synchronized schema identity"@,
            );
        },
        CapturedChangeView::Delete(_) => {
            lemma_read(
                tables,
                before,
                before,
                "DELETE target has no synchronized schema identity"@,
            );
        },
        CapturedChangeView::Update { .. } => {
            let missing = "UPDATE target has no synchronized schema identity"@;
            lemma_read(tables, before, before, missing);
            lemma_read(tables, after, before, missing);
        },
    }
}

/// A change that is the only one of a statement folds into its table alone.
proof fn lemma_first(
    tables: Seq<CatalogEntryView>,
    change: CapturedChangeView,
    image: ImageView,
    after: ImageView,
)
    requires
        change_images(tables, change) == Ok::<(ImageView, ImageView), ErrorView>((image, after)),
        fold_changed(fold_start(image.rules), change, image, after) is Ok,
    ensures
        try_fold(Seq::<FoldView>::empty(), seq![change], fold_step(tables)) == Ok::<
            Seq<FoldView>,
            ErrorView,
        >(seq![fold_changed(fold_start(image.rules), change, image, after)->Ok_0]),
{
    reveal(change_folded);
    reveal(opened);
    let none = Seq::<FoldView>::empty();
    let step = fold_step(tables);
    assert(seq![change].drop_last() =~= Seq::<CapturedChangeView>::empty());
    assert(try_fold(none, Seq::<CapturedChangeView>::empty(), step) == Ok::<
        Seq<FoldView>,
        ErrorView,
    >(none));
    let fold = fold_changed(fold_start(image.rules), change, image, after)->Ok_0;
    assert(none.insert(0, fold_start(image.rules)) =~= seq![fold_start(image.rules)]);
    assert(seq![fold_start(image.rules)].update(0, fold) =~= seq![fold]);
    assert(step(none, change) == Ok::<Seq<FoldView>, ErrorView>(seq![fold]));
}

/// A change that follows another of the same table folds into the same table.
proof fn lemma_second(
    tables: Seq<CatalogEntryView>,
    first: CapturedChangeView,
    then: CapturedChangeView,
    fold: FoldView,
    image: ImageView,
    after: ImageView,
)
    requires
        try_fold(Seq::<FoldView>::empty(), seq![first], fold_step(tables)) == Ok::<
            Seq<FoldView>,
            ErrorView,
        >(seq![fold]),
        change_images(tables, then) == Ok::<(ImageView, ImageView), ErrorView>((image, after)),
        image.rules == fold.rules,
        fold_changed(fold, then, image, after) is Ok,
    ensures
        try_fold(Seq::<FoldView>::empty(), seq![first, then], fold_step(tables)) == Ok::<
            Seq<FoldView>,
            ErrorView,
        >(seq![fold_changed(fold, then, image, after)->Ok_0]),
{
    reveal(change_folded);
    reveal(opened);
    let step = fold_step(tables);
    assert(seq![first, then].drop_last() =~= seq![first]);
    assert(seq![first, then].last() == then);
    lemma_bytes_irreflexive(fold.rules.table);
    assert(table_rank(seq![fold], image.rules.table) == 0);
    let next = fold_changed(fold, then, image, after)->Ok_0;
    assert(seq![fold].update(0, next) =~= seq![next]);
    assert(step(seq![fold], then) == Ok::<Seq<FoldView>, ErrorView>(seq![next]));
}

/// What is left of one table with the given deltas.
spec fn settled_alone(rules: RulesView, rows: Seq<DeltaView>) -> std::result::Result<
    Option<RowChangesView>,
    ErrorView,
> {
    let kept = rows.filter(changing());
    settled(
        if kept.len() == 0 {
            Seq::empty()
        } else {
            seq![TableChangesView { rules, rows: kept }]
        },
    )
}

/// The net effect on one table rests on its deltas alone.
proof fn lemma_alone(fold: FoldView)
    ensures
        settled(net_tables(seq![fold])) == settled_alone(fold.rules, fold.rows),
{
    let kept = fold.rows.filter(changing());
    let none = Seq::<TableChangesView>::empty();
    assert(seq![fold].drop_last() =~= Seq::<FoldView>::empty());
    assert(net_tables(Seq::<FoldView>::empty()) =~= none);
    let table = TableChangesView { rules: fold.rules, rows: kept };
    assert(none.push(table) =~= seq![table]);
}

/// The net effect of one change.
proof fn lemma_one(
    tables: Seq<CatalogEntryView>,
    change: CapturedChangeView,
    before: CapturedRowView,
    after: CapturedRowView,
    delta: DeltaView,
)
    requires
        readable(tables, before),
        readable(tables, after),
        before.table == after.table,
        match change {
            CapturedChangeView::Insert(row) => row == after && before == after && delta
                == (DeltaView { before: None, after: Some(read(tables, after).row) }),
            CapturedChangeView::Delete(row) => row == before && before == after && delta
                == (DeltaView { before: Some(read(tables, before).row), after: None }),
            CapturedChangeView::Update { before: first, after: then } => first == before && then
                == after && delta == (DeltaView {
                before: Some(read(tables, before).row),
                after: Some(read(tables, after).row),
            }),
        },
    ensures
        ({
            let image = read(tables, before);
            let done = fold_changed(
                fold_start(image.rules),
                change,
                image,
                read(tables, after),
            );
            &&& change_images(tables, change) == Ok::<(ImageView, ImageView), ErrorView>(
                (image, read(tables, after)),
            )
            &&& done is Ok
            &&& done->Ok_0.rules == image.rules
            &&& done->Ok_0.rows == seq![delta]
            &&& try_fold(Seq::<FoldView>::empty(), seq![change], fold_step(tables)) == Ok::<
                Seq<FoldView>,
                ErrorView,
            >(seq![done->Ok_0])
            &&& changes_folded(tables, seq![change]) == settled_alone(image.rules, seq![delta])
        }),
{
    reveal(fold_inserted);
    reveal(fold_deleted);
    reveal(fold_updated);
    lemma_change_images(tables, change, before, after);
    lemma_read(tables, after, before, Seq::empty());
    let image = read(tables, before);
    let done = fold_changed(fold_start(image.rules), change, image, read(tables, after));
    assert(done->Ok_0.rows =~= seq![delta]);
    lemma_first(tables, change, image, read(tables, after));
    lemma_alone(done->Ok_0);
}

/// A row that is updated twice is updated once, from its first image to its last.
pub proof fn updates_compose(
    tables: Seq<CatalogEntryView>,
    a: CapturedRowView,
    b: CapturedRowView,
    c: CapturedRowView,
)
    requires
        readable(tables, a),
        readable(tables, b),
        readable(tables, c),
        a.table == b.table,
        b.table == c.table,
    ensures
        changes_folded(
            tables,
            seq![
                CapturedChangeView::Update { before: a, after: b },
                CapturedChangeView::Update { before: b, after: c },
            ],
        ) == changes_folded(tables, seq![CapturedChangeView::Update { before: a, after: c }]),
{
    reveal(fold_updated);
    let first = CapturedChangeView::Update { before: a, after: b };
    let then = CapturedChangeView::Update { before: b, after: c };
    let one = CapturedChangeView::Update { before: a, after: c };
    let (x, y, z) = (read(tables, a), read(tables, b), read(tables, c));
    let delta = DeltaView { before: Some(x.row), after: Some(z.row) };
    lemma_read(tables, b, a, Seq::empty());
    lemma_one(tables, first, a, b, DeltaView { before: Some(x.row), after: Some(y.row) });
    lemma_one(tables, one, a, c, delta);
    lemma_change_images(tables, then, b, c);
    let held = fold_changed(fold_start(x.rules), first, x, y)->Ok_0;
    let done = fold_changed(held, then, y, z);
    assert(held.current.dom().contains(y.key) && held.current[y.key] == 0);
    assert(done->Ok_0.rows =~= seq![delta]);
    lemma_second(tables, first, then, held, y, z);
    lemma_alone(done->Ok_0);
}

/// A row that is inserted and then updated is inserted as it was updated.
pub proof fn updated_insertions_are_insertions(
    tables: Seq<CatalogEntryView>,
    a: CapturedRowView,
    b: CapturedRowView,
)
    requires
        readable(tables, a),
        readable(tables, b),
        a.table == b.table,
    ensures
        changes_folded(
            tables,
            seq![
                CapturedChangeView::Insert(a),
                CapturedChangeView::Update { before: a, after: b },
            ],
        ) == changes_folded(tables, seq![CapturedChangeView::Insert(b)]),
{
    reveal(fold_inserted);
    reveal(fold_updated);
    let first = CapturedChangeView::Insert(a);
    let then = CapturedChangeView::Update { before: a, after: b };
    let (x, y) = (read(tables, a), read(tables, b));
    let delta = DeltaView { before: None, after: Some(y.row) };
    lemma_read(tables, b, a, Seq::empty());
    lemma_one(tables, first, a, a, DeltaView { before: None, after: Some(x.row) });
    lemma_one(tables, CapturedChangeView::Insert(b), b, b, delta);
    lemma_change_images(tables, then, a, b);
    let held = fold_changed(fold_start(x.rules), first, x, x)->Ok_0;
    let done = fold_changed(held, then, x, y);
    assert(held.current.dom().contains(x.key) && held.current[x.key] == 0);
    assert(done->Ok_0.rows =~= seq![delta]);
    lemma_second(tables, first, then, held, x, y);
    lemma_alone(done->Ok_0);
}

/// A row that is deleted before another is inserted under its key is updated to
/// the other.
pub proof fn replaced_rows_are_updated(
    tables: Seq<CatalogEntryView>,
    a: CapturedRowView,
    b: CapturedRowView,
)
    requires
        readable(tables, a),
        readable(tables, b),
        a.table == b.table,
        read(tables, a).key == read(tables, b).key,
    ensures
        changes_folded(
            tables,
            seq![CapturedChangeView::Delete(a), CapturedChangeView::Insert(b)],
        ) == changes_folded(tables, seq![CapturedChangeView::Update { before: a, after: b }]),
{
    reveal(fold_inserted);
    reveal(fold_deleted);
    let first = CapturedChangeView::Delete(a);
    let then = CapturedChangeView::Insert(b);
    let (x, y) = (read(tables, a), read(tables, b));
    let delta = DeltaView { before: Some(x.row), after: Some(y.row) };
    lemma_read(tables, b, a, Seq::empty());
    lemma_one(tables, first, a, a, DeltaView { before: Some(x.row), after: None });
    lemma_one(tables, CapturedChangeView::Update { before: a, after: b }, a, b, delta);
    lemma_change_images(tables, then, b, b);
    let held = fold_changed(fold_start(x.rules), first, x, x)->Ok_0;
    let done = fold_changed(held, then, y, y);
    assert(held.retired.dom().contains(y.key) && held.retired[y.key] == 0);
    assert(done->Ok_0.rows =~= seq![delta]);
    lemma_second(tables, first, then, held, y, y);
    lemma_alone(done->Ok_0);
}

/// A row that is updated to itself is not changed.
pub proof fn updates_to_the_same_row_leave_nothing(
    tables: Seq<CatalogEntryView>,
    a: CapturedRowView,
)
    requires
        readable(tables, a),
    ensures
        changes_folded(tables, seq![CapturedChangeView::Update { before: a, after: a }]) == Ok::<
            Option<RowChangesView>,
            ErrorView,
        >(None),
{
    reveal(settled);
    let x = read(tables, a);
    let delta = DeltaView { before: Some(x.row), after: Some(x.row) };
    lemma_one(tables, CapturedChangeView::Update { before: a, after: a }, a, a, delta);
    let none = Seq::<DeltaView>::empty();
    lemma_filter_push(none, delta, changing());
    assert(none.push(delta) =~= seq![delta]);
    assert(none.filter(changing()) =~= none) by {
        reveal(Seq::filter);
    }
}

} // verus!
