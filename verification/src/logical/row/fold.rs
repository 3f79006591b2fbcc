//! The net effect of the row changes that one statement makes.

use super::accept::captured_row;
use super::capture::{CapturedChange, CapturedChangeView, CapturedRow, CapturedRowView};
use super::cells::{same_optional_row, DeltaView, Row, RowDelta, RowView};
use super::changes::{
    budget_result, canonical_fault, validate_tables, RowChanges, RowChangesView, TableChanges,
    TableChangesView,
};
use super::derive::rules_of;
use super::error::row_error_text;
use super::keys::row_key_of;
use super::position::KeyIndex;
use super::rules::{RowRules, RulesView};
use crate::attempt::{lemma_try_fold_start, lemma_try_fold_step, lemma_try_fold_stop, try_fold};
use crate::catalog::{table_named, CatalogEntryView, CatalogSnapshot};
use crate::codec::views;
use crate::each::retain;
use crate::error::{verdict, Error, ErrorView, Result};
use crate::key::{bytes_before, bytes_less, Key, Path};
use vstd::prelude::*;

verus! {

/// The changes of one table while a statement runs: a delta for each row, where
/// the live rows are, and where rows were before they went.
pub struct FoldView {
    pub rules: RulesView,
    pub rows: Seq<DeltaView>,
    pub current: Map<Path, usize>,
    pub retired: Map<Path, usize>,
}

/// A table without changes.
pub open spec fn fold_start(rules: RulesView) -> FoldView {
    FoldView { rules, rows: Seq::empty(), current: Map::empty(), retired: Map::empty() }
}

/// Whether every position is that of a delta.
pub open spec fn within(fold: FoldView) -> bool {
    &&& forall|key: Path|
        fold.current.dom().contains(key) ==> #[trigger] fold.current[key] < fold.rows.len()
    &&& forall|key: Path|
        fold.retired.dom().contains(key) ==> #[trigger] fold.retired[key] < fold.rows.len()
}

/// Deltas with another after-image at one position.
pub open spec fn with_after(rows: Seq<DeltaView>, at: int, after: Option<RowView>) -> Seq<
    DeltaView,
> {
    rows.update(at, DeltaView { before: rows[at].before, after })
}

/// Whether the row that went from a key may come back to its delta.
pub open spec fn revives(fold: FoldView, key: Path) -> bool {
    fold.retired.dom().contains(key) && fold.rows[fold.retired[key] as int].after is None
}

/// The changes after a row is inserted.
#[verifier::opaque]
pub open spec fn fold_inserted(fold: FoldView, key: Path, row: RowView) -> std::result::Result<
    FoldView,
    ErrorView,
> {
    if fold.current.dom().contains(key) {
        Err(
            ErrorView::CaptureInvariant(
                "SQLite inserted a row key already live in the statement delta"@,
            ),
        )
    } else {
        let at = if revives(fold, key) {
            fold.retired[key] as int
        } else {
            fold.rows.len() as int
        };
        let rows = if revives(fold, key) {
            fold.rows
        } else {
            fold.rows.push(DeltaView { before: None, after: None })
        };
        Ok(
            FoldView {
                rules: fold.rules,
                rows: with_after(rows, at, Some(row)),
                current: fold.current.insert(key, at as usize),
                retired: fold.retired.remove(key),
            },
        )
    }
}

/// The deltas and the position of a row that is about to change: a live row's
/// own, or a new one with its before-image.
pub open spec fn located(fold: FoldView, key: Path, row: RowView) -> (Seq<DeltaView>, int) {
    if fold.current.dom().contains(key) {
        (fold.rows, fold.current[key] as int)
    } else {
        (
            fold.rows.push(DeltaView { before: Some(row), after: None }),
            fold.rows.len() as int,
        )
    }
}

/// Whether a row that is about to change differs from what the statement made of
/// it.
pub open spec fn contradicts(fold: FoldView, key: Path, row: RowView) -> bool {
    fold.current.dom().contains(key) && fold.rows[fold.current[key] as int].after != Some(row)
}

/// The changes after a row is deleted.
#[verifier::opaque]
pub open spec fn fold_deleted(fold: FoldView, key: Path, row: RowView) -> std::result::Result<
    FoldView,
    ErrorView,
> {
    if contradicts(fold, key, row) {
        Err(
            ErrorView::CaptureInvariant(
                "SQLite delete before-image contradicts the statement delta"@,
            ),
        )
    } else {
        let (rows, at) = located(fold, key, row);
        Ok(
            FoldView {
                rules: fold.rules,
                rows: with_after(rows, at, None),
                current: fold.current.remove(key),
                retired: fold.retired.insert(key, at as usize),
            },
        )
    }
}

/// The changes after a row is updated.
#[verifier::opaque]
pub open spec fn fold_updated(
    fold: FoldView,
    before_key: Path,
    before: RowView,
    after_key: Path,
    after: RowView,
) -> std::result::Result<FoldView, ErrorView> {
    let (rows, at) = located(fold, before_key, before);
    let current = fold.current.remove(before_key);
    if contradicts(fold, before_key, before) {
        Err(
            ErrorView::CaptureInvariant(
                "SQLite update before-image contradicts the statement delta"@,
            ),
        )
    } else if current.dom().contains(after_key) && current[after_key] != at {
        Err(ErrorView::CaptureInvariant("SQLite update produced a duplicate live row key"@))
    } else {
        Ok(
            FoldView {
                rules: fold.rules,
                rows: with_after(rows, at, Some(after)),
                current: current.insert(after_key, at as usize),
                retired: if before_key != after_key {
                    fold.retired.insert(before_key, at as usize)
                } else {
                    fold.retired.remove(before_key)
                },
            },
        )
    }
}

/// A captured image with the rules of its table and its key.
pub struct ImageView {
    pub rules: RulesView,
    pub row: RowView,
    pub key: Path,
}

/// What a captured image stands for.
#[verifier::opaque]
pub open spec fn image_read(
    tables: Seq<CatalogEntryView>,
    captured: CapturedRowView,
    missing: Seq<char>,
    expected: Option<RulesView>,
) -> std::result::Result<ImageView, ErrorView> {
    match table_named(tables, captured.table) {
        None => Err(ErrorView::UnsupportedSql(missing)),
        Some(table) => {
            let rules = match expected {
                Some(rules) => if rules.table != table.table {
                    Err(
                        ErrorView::CaptureInvariant(
                            "one row statement changed more than one synchronized table"@,
                        ),
                    )
                } else {
                    Ok(rules)
                },
                None => rules_of(tables, table),
            };
            match rules {
                Err(error) => Err(error),
                Ok(rules) => match captured_row(rules, table, captured) {
                    Err(error) => Err(error),
                    Ok(row) => match row_key_of(rules, row) {
                        Err(error) => Err(ErrorView::InvalidMultiliteOp(row_error_text(error))),
                        Ok(key) => Ok(ImageView { rules, row, key }),
                    },
                },
            }
        },
    }
}

/// How many leading tables are below the given one.
pub open spec fn table_rank(folds: Seq<FoldView>, table: Seq<u8>) -> nat
    decreases folds.len(),
{
    if folds.len() == 0 || !bytes_less(folds[0].rules.table, table) {
        0
    } else {
        1 + table_rank(folds.drop_first(), table)
    }
}

/// The tables with the given one among them, in order, and its place.
#[verifier::opaque]
pub open spec fn opened(folds: Seq<FoldView>, rules: RulesView) -> std::result::Result<
    (Seq<FoldView>, int),
    ErrorView,
> {
    let at = table_rank(folds, rules.table) as int;
    if at < folds.len() && folds[at].rules.table == rules.table {
        if folds[at].rules != rules {
            Err(
                ErrorView::CaptureInvariant(
                    "one row statement used inconsistent rules for one synchronized table"@,
                ),
            )
        } else {
            Ok((folds, at))
        }
    } else {
        Ok((folds.insert(at, fold_start(rules)), at))
    }
}

/// What one change makes of its table.
pub open spec fn fold_changed(
    fold: FoldView,
    change: CapturedChangeView,
    image: ImageView,
    after: ImageView,
) -> std::result::Result<FoldView, ErrorView> {
    match change {
        CapturedChangeView::Insert(_) => fold_inserted(fold, image.key, image.row),
        CapturedChangeView::Delete(_) => fold_deleted(fold, image.key, image.row),
        CapturedChangeView::Update { .. } => fold_updated(
            fold,
            image.key,
            image.row,
            after.key,
            after.row,
        ),
    }
}

/// The images of one change: the same one twice where there is one.
#[verifier::opaque]
pub open spec fn change_images(tables: Seq<CatalogEntryView>, change: CapturedChangeView) -> std::result::Result<
    (ImageView, ImageView),
    ErrorView,
> {
    match change {
        CapturedChangeView::Insert(row) => match image_read(
            tables,
            row,
            "INSERT target has no synchronized schema identity"@,
            None,
        ) {
            Err(error) => Err(error),
            Ok(image) => Ok((image, image)),
        },
        CapturedChangeView::Delete(row) => match image_read(
            tables,
            row,
            "DELETE target has no synchronized schema identity"@,
            None,
        ) {
            Err(error) => Err(error),
            Ok(image) => Ok((image, image)),
        },
        CapturedChangeView::Update { before, after } => {
            let missing = "UPDATE target has no synchronized schema identity"@;
            match image_read(tables, before, missing, None) {
                Err(error) => Err(error),
                Ok(image) => match image_read(tables, after, missing, Some(image.rules)) {
                    Err(error) => Err(error),
                    Ok(later) => Ok((image, later)),
                },
            }
        },
    }
}

/// What one change makes of the tables of a statement.
#[verifier::opaque]
pub open spec fn change_folded(
    tables: Seq<CatalogEntryView>,
    folds: Seq<FoldView>,
    change: CapturedChangeView,
) -> std::result::Result<Seq<FoldView>, ErrorView> {
    match change_images(tables, change) {
        Err(error) => Err(error),
        Ok((image, after)) => match opened(folds, image.rules) {
            Err(error) => Err(error),
            Ok((folds, at)) => match fold_changed(folds[at], change, image, after) {
                Err(error) => Err(error),
                Ok(fold) => Ok(folds.update(at, fold)),
            },
        },
    }
}

/// The step that each change takes.
pub open spec fn fold_step(tables: Seq<CatalogEntryView>) -> spec_fn(
    Seq<FoldView>,
    CapturedChangeView,
) -> std::result::Result<Seq<FoldView>, ErrorView> {
    |folds: Seq<FoldView>, change: CapturedChangeView| change_folded(tables, folds, change)
}

/// Whether a delta changes anything.
pub open spec fn changing() -> spec_fn(DeltaView) -> bool {
    |delta: DeltaView| delta.before != delta.after
}

/// The net changes of tables: those that have any.
pub open spec fn net_tables(folds: Seq<FoldView>) -> Seq<TableChangesView>
    decreases folds.len(),
{
    if folds.len() == 0 {
        Seq::empty()
    } else {
        let rows = folds.last().rows.filter(changing());
        let before = net_tables(folds.drop_last());
        if rows.len() == 0 {
            before
        } else {
            before.push(TableChangesView { rules: folds.last().rules, rows })
        }
    }
}

/// The changes that tables make: none without a table.
#[verifier::opaque]
pub open spec fn settled(tables: Seq<TableChangesView>) -> std::result::Result<
    Option<RowChangesView>,
    ErrorView,
> {
    let changes = RowChangesView { tables };
    if tables.len() == 0 {
        Ok(None)
    } else if let Some(error) = canonical_fault(tables) {
        Err(ErrorView::InvalidMultiliteOp(row_error_text(error)))
    } else {
        match budget_result(changes) {
            Err(error) => Err(error@),
            Ok(_) => Ok(Some(changes)),
        }
    }
}

/// The net effect of a statement's changes: none where nothing is left of them.
pub open spec fn changes_folded(
    tables: Seq<CatalogEntryView>,
    events: Seq<CapturedChangeView>,
) -> std::result::Result<Option<RowChangesView>, ErrorView> {
    match try_fold(Seq::<FoldView>::empty(), events, fold_step(tables)) {
        Err(error) => Err(error),
        Ok(folds) => settled(net_tables(folds)),
    }
}

/// Optional changes over views.
pub open spec fn optional_changes(r: Result<Option<RowChanges>>) -> std::result::Result<
    Option<RowChangesView>,
    ErrorView,
> {
    match r {
        Ok(Some(changes)) => Ok(Some(changes@)),
        Ok(None) => Ok(None),
        Err(error) => Err(error@),
    }
}

/// A captured image with the rules of its table and its key.
struct Image {
    rules: RowRules,
    row: Row,
    key: Key,
}

impl View for Image {
    type V = ImageView;

    closed spec fn view(&self) -> ImageView {
        ImageView { rules: self.rules@, row: self.row@, key: self.key@ }
    }
}

/// What a captured image stands for.
fn captured_image(
    catalog: &CatalogSnapshot,
    captured: &CapturedRow,
    missing: &'static str,
    expected: Option<&RowRules>,
) -> (r: Result<Image>)
    ensures
        verdict(r) == image_read(
            catalog@,
            captured@,
            missing@,
            match expected {
                Some(rules) => Some(rules@),
                None => None,
            },
        ),
{
    reveal(image_read);
    let created = match catalog.by_name(captured.table.as_str()) {
        None => {
            return Err(Error::UnsupportedSql(missing));
        },
        Some(created) => created,
    };
    let rules = match expected {
        Some(rules) => {
            if !rules.table.same(&created.table) {
                return Err(
                    Error::CaptureInvariant(
                        "one row statement changed more than one synchronized table",
                    ),
                );
            }
            rules.clone()
        },
        None => match RowRules::from_table(catalog, created) {
            Err(error) => {
                return Err(error);
            },
            Ok(rules) => rules,
        },
    };
    let row = match rules.capture(created, captured) {
        Err(error) => {
            return Err(error);
        },
        Ok(row) => row,
    };
    match rules.row_key(&row) {
        Err(error) => Err(error.into_operation()),
        Ok(key) => Ok(Image { rules, row, key }),
    }
}

/// The changes of one table while a statement runs.
struct TableFold {
    rules: RowRules,
    rows: Vec<RowDelta>,
    current: KeyIndex,
    retired: KeyIndex,
}

impl View for TableFold {
    type V = FoldView;

    closed spec fn view(&self) -> FoldView {
        FoldView {
            rules: self.rules@,
            rows: views(self.rows@),
            current: self.current@,
            retired: self.retired@,
        }
    }
}

impl TableFold {
    #[verifier::type_invariant]
    spec fn well_formed(self) -> bool {
        within(self@)
    }

    /// A table without changes.
    fn new(rules: RowRules) -> (r: TableFold)
        ensures
            r@ == fold_start(rules@),
    {
        let rows: Vec<RowDelta> = Vec::new();
        assert(views(rows@) =~= Seq::<DeltaView>::empty());
        TableFold { rules, rows, current: KeyIndex::new(), retired: KeyIndex::new() }
    }

    /// Insert a row.
    fn insert(self, key: Key, row: Row) -> (r: Result<TableFold>)
        ensures
            verdict(r) == fold_inserted(self@, key@, row@),
    {
        reveal(fold_inserted);
        proof {
            use_type_invariant(&self);
        }
        let ghost fold = self@;
        let ghost path = key@;
        let TableFold { rules, rows, current, retired } = self;
        if current.get(&key).is_some() {
            return Err(
                Error::CaptureInvariant(
                    "SQLite inserted a row key already live in the statement delta",
                ),
            );
        }
        let mut rows = rows;
        let place = retired.get(&key);
        let retired = retired.remove(&key);
        let mut at: usize = rows.len();
        let mut found = false;
        if let Some(i) = place {
            assert(fold.rows[i as int] == rows@[i as int]@);
            if rows[i].after.is_none() {
                at = i;
                found = true;
            }
        }
        if !found {
            rows.push(RowDelta { before: None, after: None });
            assert(views(rows@) =~= fold.rows.push(DeltaView { before: None, after: None }));
        }
        let ghost opened = views(rows@);
        let after = Some(row);
        rows[at].after = after;
        assert(views(rows@) =~= with_after(opened, at as int, Some(row@)));
        let current = current.insert(key, at);
        proof {
            assert forall|k: Path| current@.dom().contains(k) implies #[trigger] current@[k]
                < rows@.len() by {
                if k != path {
                    assert(fold.current[k] < fold.rows.len());
                }
            }
            assert forall|k: Path| retired@.dom().contains(k) implies #[trigger] retired@[k]
                < rows@.len() by {
                if k != path {
                    assert(fold.retired[k] < fold.rows.len());
                }
            }
        }
        let r = TableFold { rules, rows, current, retired };
        assert(r@ == fold_inserted(fold, path, row@)->Ok_0);
        Ok(r)
    }

    /// Delete a row.
    fn delete(self, key: Key, row: Row) -> (r: Result<TableFold>)
        ensures
            verdict(r) == fold_deleted(self@, key@, row@),
    {
        reveal(fold_deleted);
        proof {
            use_type_invariant(&self);
        }
        let ghost fold = self@;
        let ghost path = key@;
        let ghost image = row@;
        let TableFold { rules, rows, current, retired } = self;
        let mut rows = rows;
        let at: usize = match current.get(&key) {
            Some(i) => {
                assert(fold.rows[i as int] == rows@[i as int]@);
                let agrees = match &rows[i].after {
                    Some(after) => after.same(&row),
                    None => false,
                };
                if !agrees {
                    return Err(
                        Error::CaptureInvariant(
                            "SQLite delete before-image contradicts the statement delta",
                        ),
                    );
                }
                i
            },
            None => {
                let i: usize = rows.len();
                rows.push(RowDelta { before: Some(row), after: None });
                assert(views(rows@) =~= fold.rows.push(
                    DeltaView { before: Some(image), after: None },
                ));
                i
            },
        };
        let ghost opened = views(rows@);
        let current = current.remove(&key);
        rows[at].after = None;
        assert(views(rows@) =~= with_after(opened, at as int, None));
        let retired = retired.insert(key, at);
        proof {
            assert forall|k: Path| current@.dom().contains(k) implies #[trigger] current@[k]
                < rows@.len() by {
                if k != path {
                    assert(fold.current[k] < fold.rows.len());
                }
            }
            assert forall|k: Path| retired@.dom().contains(k) implies #[trigger] retired@[k]
                < rows@.len() by {
                if k != path {
                    assert(fold.retired[k] < fold.rows.len());
                }
            }
        }
        let r = TableFold { rules, rows, current, retired };
        assert(r@ == fold_deleted(fold, path, image)->Ok_0);
        Ok(r)
    }

    /// Update a row.
    fn update(self, before_key: Key, before: Row, after_key: Key, after: Row) -> (r: Result<
        TableFold,
    >)
        ensures
            verdict(r) == fold_updated(self@, before_key@, before@, after_key@, after@),
    {
        reveal(fold_updated);
        proof {
            use_type_invariant(&self);
        }
        let ghost fold = self@;
        let ghost path = before_key@;
        let ghost later = after_key@;
        let ghost image = before@;
        let TableFold { rules, rows, current, retired } = self;
        let mut rows = rows;
        let at: usize = match current.get(&before_key) {
            Some(i) => {
                assert(fold.rows[i as int] == rows@[i as int]@);
                let agrees = match &rows[i].after {
                    Some(after) => after.same(&before),
                    None => false,
                };
                if !agrees {
                    return Err(
                        Error::CaptureInvariant(
                            "SQLite update before-image contradicts the statement delta",
                        ),
                    );
                }
                i
            },
            None => {
                let i: usize = rows.len();
                rows.push(RowDelta { before: Some(before), after: None });
                assert(views(rows@) =~= fold.rows.push(
                    DeltaView { before: Some(image), after: None },
                ));
                i
            },
        };
        let ghost opened = views(rows@);
        let current = current.remove(&before_key);
        if let Some(other) = current.get(&after_key) {
            if other != at {
                return Err(
                    Error::CaptureInvariant("SQLite update produced a duplicate live row key"),
                );
            }
        }
        let changed = Some(after);
        rows[at].after = changed;
        assert(views(rows@) =~= with_after(opened, at as int, Some(after@)));
        let retired = if !before_key.same(&after_key) {
            retired.insert(before_key, at)
        } else {
            retired.remove(&before_key)
        };
        let current = current.insert(after_key, at);
        proof {
            assert forall|k: Path| current@.dom().contains(k) implies #[trigger] current@[k]
                < rows@.len() by {
                if k != later {
                    assert(fold.current[k] < fold.rows.len());
                }
            }
            assert forall|k: Path| retired@.dom().contains(k) implies #[trigger] retired@[k]
                < rows@.len() by {
                if k != path {
                    assert(fold.retired[k] < fold.rows.len());
                }
            }
        }
        let r = TableFold { rules, rows, current, retired };
        assert(r@ == fold_updated(fold, path, image, later, after@)->Ok_0);
        Ok(r)
    }
}

/// The place of a table is the first whose identity is not below its own.
proof fn lemma_table_rank(folds: Seq<FoldView>, table: Seq<u8>, n: int)
    requires
        0 <= n <= folds.len(),
        forall|i: int| 0 <= i < n ==> bytes_less((#[trigger] folds[i]).rules.table, table),
        n < folds.len() ==> !bytes_less(folds[n].rules.table, table),
    ensures
        table_rank(folds, table) == n,
    decreases folds.len(),
{
    if n > 0 {
        let rest = folds.drop_first();
        assert(bytes_less(folds[0].rules.table, table));
        assert forall|i: int| 0 <= i < n - 1 implies bytes_less(
            (#[trigger] rest[i]).rules.table,
            table,
        ) by {
            assert(rest[i] == folds[i + 1]);
        }
        lemma_table_rank(rest, table, n - 1);
    }
}

/// Bring a table among the others, in order.
fn open_table(folds: Vec<TableFold>, rules: &RowRules) -> (r: Result<(Vec<TableFold>, usize)>)
    ensures
        match r {
            Ok((open, at)) => opened(views(folds@), rules@) == Ok::<
                (Seq<FoldView>, int),
                ErrorView,
            >((views(open@), at as int)) && at < open@.len(),
            Err(error) => opened(views(folds@), rules@) == Err::<(Seq<FoldView>, int), ErrorView>(
                error@,
            ),
        },
{
    reveal(opened);
    let ghost before = views(folds@);
    let table = rules.table.as_bytes();
    let mut at: usize = 0;
    while at < folds.len() && bytes_before(&folds[at].rules.table.as_bytes(), &table)
        invariant
            at <= folds@.len(),
            before == views(folds@),
            table@ == rules@.table,
            forall|i: int|
                0 <= i < at ==> bytes_less((#[trigger] before[i]).rules.table, rules@.table),
        decreases folds.len() - at,
    {
        assert(before[at as int] == folds@[at as int]@);
        at += 1;
    }
    proof {
        if at < folds@.len() {
            assert(before[at as int] == folds@[at as int]@);
        }
        lemma_table_rank(before, rules@.table, at as int);
    }
    if at < folds.len() && folds[at].rules.table.same(&rules.table) {
        if !folds[at].rules.same(rules) {
            return Err(
                Error::CaptureInvariant(
                    "one row statement used inconsistent rules for one synchronized table",
                ),
            );
        }
        return Ok((folds, at));
    }
    let mut folds = folds;
    folds.insert(at, TableFold::new(rules.clone()));
    assert(views(folds@) =~= before.insert(at as int, fold_start(rules@)));
    Ok((folds, at))
}

/// What is left of the images of a change.
spec fn images_verdict(r: Result<(Image, Option<Image>)>) -> std::result::Result<
    (ImageView, ImageView),
    ErrorView,
> {
    match r {
        Ok((image, Some(after))) => Ok((image@, after@)),
        Ok((image, None)) => Ok((image@, image@)),
        Err(error) => Err(error@),
    }
}

/// The images of one change.
fn read_images(catalog: &CatalogSnapshot, change: &CapturedChange) -> (r: Result<
    (Image, Option<Image>),
>)
    ensures
        images_verdict(r) == change_images(catalog@, change@),
        r matches Ok((_, after)) ==> after is Some == change is Update,
{
    reveal(change_images);
    match change {
        CapturedChange::Insert(row) => match captured_image(
            catalog,
            row,
            "INSERT target has no synchronized schema identity",
            None,
        ) {
            Err(error) => Err(error),
            Ok(image) => Ok((image, None)),
        },
        CapturedChange::Delete(row) => match captured_image(
            catalog,
            row,
            "DELETE target has no synchronized schema identity",
            None,
        ) {
            Err(error) => Err(error),
            Ok(image) => Ok((image, None)),
        },
        CapturedChange::Update { before, after } => {
            let missing: &'static str = "UPDATE target has no synchronized schema identity";
            match captured_image(catalog, before, missing, None) {
                Err(error) => Err(error),
                Ok(image) => match captured_image(catalog, after, missing, Some(&image.rules)) {
                    Err(error) => Err(error),
                    Ok(later) => Ok((image, Some(later))),
                },
            }
        },
    }
}

/// Fold one change into the tables of a statement.
fn fold_change(catalog: &CatalogSnapshot, folds: Vec<TableFold>, change: &CapturedChange) -> (r:
    Result<Vec<TableFold>>)
    ensures
        match r {
            Ok(after) => change_folded(catalog@, views(folds@), change@) == Ok::<
                Seq<FoldView>,
                ErrorView,
            >(views(after@)),
            Err(error) => change_folded(catalog@, views(folds@), change@) == Err::<
                Seq<FoldView>,
                ErrorView,
            >(error@),
        },
{
    reveal(change_folded);
    let (first, second) = match read_images(catalog, change) {
        Err(error) => {
            return Err(error);
        },
        Ok(images) => images,
    };
    let (folds, at) = match open_table(folds, &first.rules) {
        Err(error) => {
            return Err(error);
        },
        Ok(open) => open,
    };
    let ghost all = views(folds@);
    let mut folds = folds;
    let fold = folds.remove(at);
    assert(all[at as int] == fold@);
    let changed = match (change, second) {
        (CapturedChange::Update { .. }, Some(later)) => fold.update(
            first.key,
            first.row,
            later.key,
            later.row,
        ),
        (CapturedChange::Delete(_), _) => fold.delete(first.key, first.row),
        _ => fold.insert(first.key, first.row),
    };
    match changed {
        Err(error) => Err(error),
        Ok(fold) => {
            folds.insert(at, fold);
            assert(views(folds@) =~= all.update(at as int, fold@));
            Ok(folds)
        },
    }
}

/// The net changes of tables.
fn collect_tables(folds: Vec<TableFold>) -> (r: Vec<TableChanges>)
    ensures
        views(r@) == net_tables(views(folds@)),
{
    let ghost all = views(folds@);
    let mut tables: Vec<TableChanges> = Vec::new();
    let mut folds = folds;
    let ghost mut seen: int = 0;
    proof {
        assert(views(tables@) =~= net_tables(all.subrange(0, 0)));
        assert(all.subrange(0, all.len() as int) =~= all);
    }
    while folds.len() > 0
        invariant
            0 <= seen <= all.len(),
            views(folds@) == all.subrange(seen, all.len() as int),
            views(tables@) == net_tables(all.subrange(0, seen)),
        decreases folds.len(),
    {
        let ghost left = views(folds@);
        let fold = folds.remove(0);
        proof {
            assert(left.len() == all.len() - seen);
            assert(left[0] == fold@);
            assert(all.subrange(seen, all.len() as int)[0] == all[seen]);
            assert(views(folds@) =~= left.subrange(1, left.len() as int));
            assert(left.subrange(1, left.len() as int) =~= all.subrange(
                seen + 1,
                all.len() as int,
            ));
            assert(all.subrange(0, seen + 1).drop_last() =~= all.subrange(0, seen));
            assert(all.subrange(0, seen + 1).last() == fold@);
            seen = seen + 1;
        }
        let ghost had = views(tables@);
        let TableFold { rules, rows, current, retired } = fold;
        let changes = |delta: &RowDelta| -> (r: bool)
            ensures
                r == changing()(delta@),
            { !same_optional_row(&delta.before, &delta.after) };
        let rows = retain(rows, changes, Ghost(changing()));
        if rows.len() > 0 {
            let table = TableChanges { rules, rows };
            tables.push(table);
            assert(views(tables@) =~= had.push(table@));
        }
    }
    assert(all.subrange(seen, all.len() as int).len() == 0);
    assert(all.subrange(0, seen) =~= all);
    tables
}

/// The changes that tables make.
fn settle(tables: Vec<TableChanges>) -> (r: Result<Option<RowChanges>>)
    ensures
        optional_changes(r) == settled(views(tables@)),
{
    reveal(settled);
    if tables.len() == 0 {
        return Ok(None);
    }
    if let Err(error) = validate_tables(tables.as_slice()) {
        return Err(error.into_operation());
    }
    let changes = RowChanges { tables };
    match changes.validate_budget() {
        Err(error) => Err(error),
        Ok(()) => Ok(Some(changes)),
    }
}

impl RowChanges {
    /// Fold the changes of one statement, in the order that they happened, into
    /// their net effect.
    pub fn from_catalog(catalog: &CatalogSnapshot, events: &[CapturedChange]) -> (r: Result<
        Option<RowChanges>,
    >)
        ensures
            optional_changes(r) == changes_folded(catalog@, views(events@)),
    {
        let ghost all = views(events@);
        let ghost none = Seq::<FoldView>::empty();
        let ghost step = fold_step(catalog@);
        let mut folds: Vec<TableFold> = Vec::new();
        let mut i: usize = 0;
        proof {
            lemma_try_fold_start(none, all, step);
            assert(views(folds@) =~= none);
        }
        while i < events.len()
            invariant
                i <= events@.len(),
                all == views(events@),
                none == Seq::<FoldView>::empty(),
                step == fold_step(catalog@),
                try_fold(none, all.subrange(0, i as int), step) == Ok::<Seq<FoldView>, ErrorView>(
                    views(folds@),
                ),
            decreases events.len() - i,
        {
            proof {
                assert(all[i as int] == events@[i as int]@);
                lemma_try_fold_step(none, all, i as int, step);
                if try_fold(none, all.subrange(0, i as int + 1), step) is Err {
                    lemma_try_fold_stop(none, all, i as int + 1, step);
                }
            }
            match fold_change(catalog, folds, &events[i]) {
                Err(error) => {
                    return Err(error);
                },
                Ok(after) => {
                    folds = after;
                },
            }
            i += 1;
        }
        settle(collect_tables(folds))
    }
}

} // verus!
