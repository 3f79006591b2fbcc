//! Row changes as guards and mutations.

use super::cells::{delta_fits, stored_row_frame, DeltaView, Row, RowView, StoredRowView};
use super::changes::{
    afters, befores, budget_result, canonical_fault, row_changes_fault, row_changes_fits,
    table_changes_fits, RowChanges, RowChangesView, TableChanges, TableChangesView,
};
use super::error::{row_error_text, RowCodecError};
use super::keys::{row_key_of, EntryView};
use super::owners::{owner_of, owns, OwnerMap};
use super::rules::{RowRules, RulesView};
use super::set::{incoming_set_of, order_in, reference_map_of, unique_map_of, RowSetView};
use crate::attempt::{
    lemma_try_fold_start, lemma_try_fold_step, lemma_try_fold_stop, map_step, try_fold, try_map,
};
use crate::bytes::{copy_bytes, same_bytes};
use crate::codec::{view_of, views};
use crate::error::Error;
use crate::footprint::ConflictFootprint;
use crate::key::{below, mutations_view, Key, Mutation, MutationView, Path, Range, RangeView};
use crate::logical::contract::{GuardClass, GuardReason, OperationFamily};
use crate::logical::guard::{entries_footprint, guard_fault, GuardPlan};
use crate::logical::layout::{
    active_primary_index_key, active_primary_index_path, lemma_active_primary_index_family,
    lemma_write_revision_family, write_revision_key, write_revision_path,
};
use crate::logical::lowering::{gathered, lemma_gathered_step, mutations_of, plan_of, Emission, Lowering};
use crate::logical::target::{classified, TargetFamily};
use vstd::prelude::*;

verus! {

/// Guards and mutations of one row operation, and the footprint of the guards.
#[derive(Debug, PartialEq, Eq)]
pub struct RowHomebaseOp {
    pub mutations: Vec<Mutation>,
    pub footprint: ConflictFootprint,
    pub guards: GuardPlan,
}

/// The key of an image that may be missing.
pub open spec fn optional_key(rules: RulesView, row: Option<RowView>) -> Result<
    Option<Path>,
    RowCodecError,
> {
    match row {
        None => Ok(None),
        Some(row) => match row_key_of(rules, row) {
            Err(error) => Err(error),
            Ok(key) => Ok(Some(key)),
        },
    }
}

/// The keys of a row before and after its change.
pub open spec fn delta_keys(rules: RulesView, delta: DeltaView) -> Result<
    (Option<Path>, Option<Path>),
    RowCodecError,
> {
    match optional_key(rules, delta.before) {
        Err(error) => Err(error),
        Ok(before) => match optional_key(rules, delta.after) {
            Err(error) => Err(error),
            Ok(after) => Ok((before, after)),
        },
    }
}

/// [`delta_keys`] of rules as a value.
pub open spec fn keys_of_delta(rules: RulesView) -> spec_fn(DeltaView) -> Result<
    (Option<Path>, Option<Path>),
    RowCodecError,
> {
    |delta: DeltaView| delta_keys(rules, delta)
}

/// What retires the row that a change starts from: its key is deleted unless
/// the row keeps it.
pub open spec fn retire(rules: RulesView) -> spec_fn(DeltaView) -> Seq<Emission> {
    |delta: DeltaView|
        {
            let (before, after) = delta_keys(rules, delta)->Ok_0;
            match before {
                None => Seq::empty(),
                Some(key) => if after == Some(key) {
                    seq![Emission::Write(key, GuardReason::RowIdentity)]
                } else {
                    seq![Emission::Write(key, GuardReason::RowIdentity), Emission::Delete(key)]
                },
            }
        }
}

/// What publishes the row that a change ends in.
pub open spec fn publish(rules: RulesView) -> spec_fn(DeltaView) -> Seq<Emission> {
    |delta: DeltaView|
        match (delta.after, (delta_keys(rules, delta)->Ok_0).1) {
            (Some(row), Some(key)) => seq![
                Emission::Invariant(key, GuardReason::RowIdentity),
                Emission::Write(key, GuardReason::RowIdentity),
                Emission::Put(
                    key,
                    stored_row_frame(
                        StoredRowView {
                            schema_revision: rules.schema_revision,
                            values: row.values,
                        },
                    ),
                ),
            ],
            _ => Seq::empty(),
        }
}

/// What removes an entry that is not there afterwards.
pub open spec fn remove_entry(after: Seq<EntryView>, reason: GuardReason) -> spec_fn(
    EntryView,
) -> Seq<Emission> {
    |entry: EntryView|
        if owner_of(after, entry.key) == Some(entry.value) {
            Seq::empty()
        } else {
            seq![Emission::Write(entry.key, reason), Emission::Delete(entry.key)]
        }
}

/// What adds an entry that was not there before.
pub open spec fn add_entry(before: Seq<EntryView>, reason: GuardReason) -> spec_fn(
    EntryView,
) -> Seq<Emission> {
    |entry: EntryView|
        if owner_of(before, entry.key) == Some(entry.value) {
            Seq::empty()
        } else {
            seq![
                Emission::Invariant(entry.key, reason),
                Emission::Write(entry.key, reason),
                Emission::Put(entry.key, entry.value),
            ]
        }
}

/// What turns one map into another: first every removal, then every addition.
pub open spec fn map_emissions(
    before: Seq<EntryView>,
    after: Seq<EntryView>,
    reason: GuardReason,
) -> Seq<Emission> {
    gathered(before, remove_entry(after, reason)) + gathered(after, add_entry(before, reason))
}

/// What closes the prefix of a parent key that no row has afterwards.
pub open spec fn close_prefix(after: Seq<EntryView>) -> spec_fn(EntryView) -> Seq<Emission> {
    |entry: EntryView|
        if owns(after, entry.key) {
            Seq::empty()
        } else {
            seq![
                Emission::Invariant(entry.key, GuardReason::ForeignChildren),
                Emission::Write(entry.key, GuardReason::ForeignChildren),
                Emission::DeletePrefix(entry.key),
            ]
        }
}

/// What every row operation on a table depends on.
pub open spec fn table_guards(table: Seq<u8>) -> Seq<Emission> {
    seq![
        Emission::Invariant(active_primary_index_path(table), GuardReason::PrimaryIndex),
        Emission::Invariant(write_revision_path(table), GuardReason::WriteContract),
    ]
}

/// The key maps of a table before and after its changes.
pub struct TableMaps {
    pub unique_before: Seq<EntryView>,
    pub unique_after: Seq<EntryView>,
    pub references_before: Seq<EntryView>,
    pub references_after: Seq<EntryView>,
    pub incoming_before: Seq<EntryView>,
    pub incoming_after: Seq<EntryView>,
}

/// The key maps of a table, or the first failure.
pub open spec fn table_maps(table: TableChangesView) -> Result<TableMaps, RowCodecError> {
    let before = RowSetView { rules: table.rules, rows: befores(table.rows) };
    let after = RowSetView { rules: table.rules, rows: afters(table.rows) };
    match (
        unique_map_of(before),
        unique_map_of(after),
        reference_map_of(before),
        reference_map_of(after),
        try_map(table.rows, keys_of_delta(table.rules)),
        incoming_set_of(before),
        incoming_set_of(after),
    ) {
        (Err(error), _, _, _, _, _, _) => Err(error),
        (_, Err(error), _, _, _, _, _) => Err(error),
        (_, _, Err(error), _, _, _, _) => Err(error),
        (_, _, _, Err(error), _, _, _) => Err(error),
        (_, _, _, _, Err(error), _, _) => Err(error),
        (_, _, _, _, _, Err(error), _) => Err(error),
        (_, _, _, _, _, _, Err(error)) => Err(error),
        (
            Ok(unique_before),
            Ok(unique_after),
            Ok(references_before),
            Ok(references_after),
            Ok(_),
            Ok(incoming_before),
            Ok(incoming_after),
        ) => Ok(
            TableMaps {
                unique_before,
                unique_after,
                references_before,
                references_after,
                incoming_before,
                incoming_after,
            },
        ),
    }
}

/// What a table's changes emit.
pub open spec fn table_emissions(table: TableChangesView, maps: TableMaps) -> Seq<Emission> {
    gathered(table.rows, retire(table.rules)) + gathered(table.rows, publish(table.rules))
        + map_emissions(maps.unique_before, maps.unique_after, GuardReason::UniqueOwnership)
        + map_emissions(
        maps.references_before,
        maps.references_after,
        GuardReason::ForeignReference,
    ) + gathered(maps.incoming_before, close_prefix(maps.incoming_after)) + table_guards(
        table.rules.table,
    )
}

/// What tables emit in turn, or the first failure.
pub open spec fn lower_step() -> spec_fn(Seq<Emission>, TableChangesView) -> Result<
    Seq<Emission>,
    RowCodecError,
> {
    |done: Seq<Emission>, table: TableChangesView|
        match table_maps(table) {
            Err(error) => Err(error),
            Ok(maps) => Ok(done + table_emissions(table, maps)),
        }
}

/// What a statement's changes emit, or the first failure.
pub open spec fn changes_lowered(changes: RowChangesView) -> Result<Seq<Emission>, RowCodecError> {
    try_fold(Seq::<Emission>::empty(), changes.tables, lower_step())
}

/// Whether a range deletion covers a key.
pub open spec fn covers(range: RangeView, key: Path) -> bool {
    match range {
        RangeView::Full => true,
        RangeView::Prefix(prefix) => below(key, prefix),
    }
}

/// Whether a mutation is the deletion of one key that a range deletion of the
/// list deletes anyway.
pub open spec fn redundant(mutations: Seq<MutationView>, mutation: MutationView) -> bool {
    mutation matches MutationView::Delete { key } && exists|i: int|
        0 <= i < mutations.len() && (#[trigger] mutations[i] matches MutationView::DeleteRange {
            range,
        } && covers(range, key))
}

/// A list without its redundant deletions.
pub open spec fn pruned(mutations: Seq<MutationView>) -> Seq<MutationView> {
    mutations.filter(|mutation: MutationView| !redundant(mutations, mutation))
}

/// Whether a range deletion covers a key.
pub fn covers_key(range: &Range, key: &Key) -> (r: bool)
    ensures
        r == covers(range@, key@),
{
    match range {
        Range::Full => true,
        Range::Prefix(prefix) => key.starts_with(prefix),
    }
}

/// Whether a range deletion of a list covers a key.
fn any_range_covers(mutations: &[Mutation], key: &Key) -> (r: bool)
    ensures
        r == redundant(mutations_view(mutations@), MutationView::Delete { key: key@ }),
{
    let ghost view = mutations_view(mutations@);
    let mut i: usize = 0;
    while i < mutations.len()
        invariant
            i <= mutations@.len(),
            view == mutations_view(mutations@),
            forall|j: int|
                0 <= j < i ==> !(#[trigger] view[j] matches MutationView::DeleteRange { range }
                    && covers(range, key@)),
        decreases mutations.len() - i,
    {
        assert(view[i as int] == mutations@[i as int]@);
        if let Mutation::DeleteRange { range } = &mutations[i] {
            if covers_key(range, key) {
                assert(view[i as int] matches MutationView::DeleteRange { range } && covers(
                    range,
                    key@,
                ));
                return true;
            }
        }
        i += 1;
    }
    false
}

/// Drop the deletion of a key that a range deletion of the list deletes anyway.
pub fn prune_redundant_point_deletes(mutations: &mut Vec<Mutation>)
    ensures
        mutations_view(final(mutations)@) == pruned(mutations_view(old(mutations)@)),
{
    let ghost view = mutations_view(mutations@);
    let ghost keep = |mutation: MutationView| !redundant(view, mutation);
    let mut kept: Vec<Mutation> = Vec::new();
    let mut i: usize = 0;
    proof {
        reveal(Seq::filter);
        assert(view.subrange(0, 0) =~= Seq::<MutationView>::empty());
        assert(mutations_view(kept@) =~= Seq::<MutationView>::empty());
    }
    while i < mutations.len()
        invariant
            i <= mutations@.len(),
            *mutations == *old(mutations),
            view == mutations_view(mutations@),
            keep == (|mutation: MutationView| !redundant(view, mutation)),
            mutations_view(kept@) == view.subrange(0, i as int).filter(keep),
        decreases mutations.len() - i,
    {
        let ghost before = mutations_view(kept@);
        proof {
            reveal(Seq::filter);
            assert(view.subrange(0, i as int + 1).drop_last() =~= view.subrange(0, i as int));
            assert(view[i as int] == mutations@[i as int]@);
        }
        let drop: bool = match &mutations[i] {
            Mutation::Delete { key } => any_range_covers(mutations.as_slice(), key),
            _ => false,
        };
        if !drop {
            kept.push(mutations[i].clone());
            assert(mutations_view(kept@) =~= before.push(view[i as int]));
        }
        i += 1;
    }
    proof {
        assert(view.subrange(0, i as int) =~= view);
        assert(view.filter(keep) == pruned(view));
    }
    *mutations = kept;
}

/// Whether an entry's guards are within the contract of row operations.
pub open spec fn guardable(key: Path, reason: GuardReason) -> bool {
    guard_fault(Some(OperationFamily::RowChanges), key, GuardClass::Invariant, reason) is None
        && guard_fault(Some(OperationFamily::RowChanges), key, GuardClass::Write, reason) is None
}

/// Emit what turns one map into another.
fn lower_map_delta(before: &OwnerMap, after: &OwnerMap, reason: GuardReason, start: Lowering) -> (r:
    Lowering)
    requires
        start.family() == OperationFamily::RowChanges,
        forall|i: int|
            0 <= i < before.order().len() ==> guardable((#[trigger] before.order()[i]).key, reason),
        forall|i: int|
            0 <= i < after.order().len() ==> guardable((#[trigger] after.order()[i]).key, reason),
    ensures
        r.family() == start.family(),
        r.emissions() == start.emissions() + map_emissions(before.order(), after.order(), reason),
{
    let ghost first = start.emissions();
    let ghost removed = before.order();
    let ghost added = after.order();
    let ghost remove = remove_entry(added, reason);
    let ghost adding = add_entry(removed, reason);
    let mut l = start;
    let entries = before.entries();
    let mut i: usize = 0;
    assert(first + gathered(removed.subrange(0, 0), remove) =~= first);
    while i < entries.len()
        invariant
            i <= entries@.len(),
            removed == before.order(),
            added == after.order(),
            views(entries@) == removed,
            remove == remove_entry(added, reason),
            l.family() == OperationFamily::RowChanges,
            l.emissions() == first + gathered(removed.subrange(0, i as int), remove),
            forall|j: int|
                0 <= j < removed.len() ==> guardable((#[trigger] removed[j]).key, reason),
        decreases entries.len() - i,
    {
        let entry = &entries[i];
        proof {
            assert(removed[i as int] == entry@);
            lemma_gathered_step(removed, i as int, remove);
        }
        let ghost done = l.emissions();
        let kept: bool = match after.get(&entry.key) {
            Some(owner) => same_bytes(owner.as_slice(), entry.value.as_slice()),
            None => false,
        };
        if !kept {
            l = l.write(entry.key.clone(), reason).delete(entry.key.clone());
        }
        assert(l.emissions() =~= done + remove(entry@));
        assert(done + remove(entry@) =~= first + gathered(
            removed.subrange(0, i as int + 1),
            remove,
        ));
        i += 1;
    }
    assert(removed.subrange(0, i as int) =~= removed);
    let ghost middle = l.emissions();
    let entries = after.entries();
    let mut i: usize = 0;
    assert(middle + gathered(added.subrange(0, 0), adding) =~= middle);
    while i < entries.len()
        invariant
            i <= entries@.len(),
            removed == before.order(),
            added == after.order(),
            views(entries@) == added,
            adding == add_entry(removed, reason),
            l.family() == OperationFamily::RowChanges,
            l.emissions() == middle + gathered(added.subrange(0, i as int), adding),
            forall|j: int| 0 <= j < added.len() ==> guardable((#[trigger] added[j]).key, reason),
        decreases entries.len() - i,
    {
        let entry = &entries[i];
        proof {
            assert(added[i as int] == entry@);
            lemma_gathered_step(added, i as int, adding);
        }
        let ghost done = l.emissions();
        let kept: bool = match before.get(&entry.key) {
            Some(owner) => same_bytes(owner.as_slice(), entry.value.as_slice()),
            None => false,
        };
        if !kept {
            l = l.add_invariant(entry.key.clone(), reason).write(entry.key.clone(), reason).put(
                entry.key.clone(),
                copy_bytes(entry.value.as_slice()),
            );
        }
        assert(l.emissions() =~= done + adding(entry@));
        assert(done + adding(entry@) =~= middle + gathered(added.subrange(0, i as int + 1), adding));
        i += 1;
    }
    assert(added.subrange(0, i as int) =~= added);
    assert(l.emissions() =~= first + map_emissions(removed, added, reason));
    l
}

/// A row error as that of a malformed operation.
pub open spec fn operation_error(error: Error, fault: RowCodecError) -> bool {
    error matches Error::InvalidMultiliteOp(text) && text@ == row_error_text(fault)
}

/// The key of an image that may be missing.
fn encode_optional_key(rules: &RowRules, row: &Option<Row>) -> (r: Result<
    Option<Key>,
    RowCodecError,
>)
    ensures
        match r {
            Err(error) => optional_key(rules@, view_of(*row)) == Err::<Option<Path>, RowCodecError>(
                error,
            ),
            Ok(None) => optional_key(rules@, view_of(*row)) == Ok::<Option<Path>, RowCodecError>(
                None,
            ),
            Ok(Some(key)) => optional_key(rules@, view_of(*row)) == Ok::<
                Option<Path>,
                RowCodecError,
            >(Some(key@)) && classified(key@) == Some(TargetFamily::Row),
        },
{
    match row {
        None => Ok(None),
        Some(row) => match rules.row_key(row) {
            Err(error) => Err(error),
            Ok(key) => Ok(Some(key)),
        },
    }
}

/// The keys of a row before and after its change.
pub struct DeltaKeys {
    pub before: Option<Key>,
    pub after: Option<Key>,
}

/// An optional key as a mathematical value.
pub open spec fn optional_path(key: Option<Key>) -> Option<Path> {
    match key {
        Some(key) => Some(key@),
        None => None,
    }
}

impl View for DeltaKeys {
    type V = (Option<Path>, Option<Path>);

    open spec fn view(&self) -> (Option<Path>, Option<Path>) {
        (optional_path(self.before), optional_path(self.after))
    }
}

/// Whether keys are those of rows.
pub open spec fn row_keyed(keys: DeltaKeys) -> bool {
    (keys.before matches Some(key) ==> classified(key@) == Some(TargetFamily::Row)) && (
    keys.after matches Some(key) ==> classified(key@) == Some(TargetFamily::Row))
}

impl TableChanges {
    /// The keys of every row before and after its change.
    fn row_keys(&self) -> (r: Result<Vec<DeltaKeys>, RowCodecError>)
        ensures
            crate::codec::list_outcome(r) == try_map(
                self@.rows,
                keys_of_delta(self@.rules),
            ),
            r matches Ok(keys) ==> forall|i: int|
                0 <= i < keys@.len() ==> row_keyed(#[trigger] keys@[i]),
    {
        let ghost view = views(self.rows@);
        let ghost f = keys_of_delta(self@.rules);
        let ghost step = map_step(f);
        let ghost none = Seq::<(Option<Path>, Option<Path>)>::empty();
        let mut keys: Vec<DeltaKeys> = Vec::new();
        let mut i: usize = 0;
        proof {
            lemma_try_fold_start(none, view, step);
            assert(views(keys@) =~= none);
        }
        while i < self.rows.len()
            invariant
                i <= self.rows@.len(),
                view == views(self.rows@),
                view == self@.rows,
                f == keys_of_delta(self@.rules),
                step == map_step(f),
                none == Seq::<(Option<Path>, Option<Path>)>::empty(),
                try_fold(none, view.subrange(0, i as int), step) == Ok::<
                    Seq<(Option<Path>, Option<Path>)>,
                    RowCodecError,
                >(views(keys@)),
                forall|j: int| 0 <= j < keys@.len() ==> row_keyed(#[trigger] keys@[j]),
            decreases self.rows.len() - i,
        {
            let delta = &self.rows[i];
            proof {
                lemma_try_fold_step(none, view, i as int, step);
                assert(view[i as int] == delta@);
                assert(f(delta@) == delta_keys(self@.rules, delta@));
                if try_fold(none, view.subrange(0, i as int + 1), step) is Err {
                    lemma_try_fold_stop(none, view, i as int + 1, step);
                }
            }
            let before = match encode_optional_key(&self.rules, &delta.before) {
                Err(error) => {
                    return Err(error);
                },
                Ok(key) => key,
            };
            let after = match encode_optional_key(&self.rules, &delta.after) {
                Err(error) => {
                    return Err(error);
                },
                Ok(key) => key,
            };
            let pair = DeltaKeys { before, after };
            let ghost so_far = views(keys@);
            keys.push(pair);
            assert(views(keys@) =~= so_far.push(pair@));
            i += 1;
        }
        proof {
            lemma_try_fold_start(none, view, step);
        }
        Ok(keys)
    }

    /// Emit what retires the rows and then what publishes them.
    fn lower_rows(&self, keys: &[DeltaKeys], start: Lowering) -> (r: Lowering)
        requires
            start.family() == OperationFamily::RowChanges,
            table_changes_fits(self@),
            keys@.len() == self@.rows.len(),
            forall|i: int|
                0 <= i < keys@.len() ==> row_keyed(#[trigger] keys@[i]) && delta_keys(
                    self@.rules,
                    self@.rows[i],
                ) == Ok::<(Option<Path>, Option<Path>), RowCodecError>(keys@[i]@),
        ensures
            r.family() == start.family(),
            r.emissions() == start.emissions() + (gathered(self@.rows, retire(self@.rules))
                + gathered(self@.rows, publish(self@.rules))),
    {
        let ghost first = start.emissions();
        let ghost rows = self@.rows;
        let ghost retiring = retire(self@.rules);
        let ghost publishing = publish(self@.rules);
        let mut l = start;
        let mut i: usize = 0;
        assert(first + gathered(rows.subrange(0, 0), retiring) =~= first);
        while i < keys.len()
            invariant
                i <= keys@.len(),
                rows == self@.rows,
                retiring == retire(self@.rules),
                keys@.len() == rows.len(),
                forall|j: int|
                    0 <= j < keys@.len() ==> row_keyed(#[trigger] keys@[j]) && delta_keys(
                        self@.rules,
                        rows[j],
                    ) == Ok::<(Option<Path>, Option<Path>), RowCodecError>(keys@[j]@),
                l.family() == OperationFamily::RowChanges,
                l.emissions() == first + gathered(rows.subrange(0, i as int), retiring),
            decreases keys.len() - i,
        {
            let pair = &keys[i];
            proof {
                lemma_gathered_step(rows, i as int, retiring);
                assert(row_keyed(keys@[i as int]));
            }
            let ghost done = l.emissions();
            if let Some(key) = &pair.before {
                l = l.write(key.clone(), GuardReason::RowIdentity);
                let stays: bool = match &pair.after {
                    Some(after) => after.same(key),
                    None => false,
                };
                if !stays {
                    l = l.delete(key.clone());
                }
            }
            assert(l.emissions() =~= done + retiring(rows[i as int]));
            assert(done + retiring(rows[i as int]) =~= first + gathered(
                rows.subrange(0, i as int + 1),
                retiring,
            ));
            i += 1;
        }
        assert(rows.subrange(0, i as int) =~= rows);
        let ghost middle = l.emissions();
        let mut i: usize = 0;
        assert(middle + gathered(rows.subrange(0, 0), publishing) =~= middle);
        while i < keys.len()
            invariant
                i <= keys@.len(),
                rows == self@.rows,
                rows == views(self.rows@),
                publishing == publish(self@.rules),
                keys@.len() == rows.len(),
                table_changes_fits(self@),
                forall|j: int|
                    0 <= j < keys@.len() ==> row_keyed(#[trigger] keys@[j]) && delta_keys(
                        self@.rules,
                        rows[j],
                    ) == Ok::<(Option<Path>, Option<Path>), RowCodecError>(keys@[j]@),
                l.family() == OperationFamily::RowChanges,
                l.emissions() == middle + gathered(rows.subrange(0, i as int), publishing),
            decreases keys.len() - i,
        {
            let pair = &keys[i];
            let delta = &self.rows[i];
            proof {
                lemma_gathered_step(rows, i as int, publishing);
                assert(row_keyed(keys@[i as int]));
                assert(self@.rows[i as int] == delta@);
                assert(delta_fits(self@.rows[i as int]));
            }
            let ghost done = l.emissions();
            if let (Some(row), Some(key)) = (&delta.after, &pair.after) {
                l = l.add_invariant(key.clone(), GuardReason::RowIdentity).write(
                    key.clone(),
                    GuardReason::RowIdentity,
                ).put(key.clone(), self.rules.encode_row(row));
            }
            assert(l.emissions() =~= done + publishing(rows[i as int]));
            assert(done + publishing(rows[i as int]) =~= middle + gathered(
                rows.subrange(0, i as int + 1),
                publishing,
            ));
            i += 1;
        }
        assert(rows.subrange(0, i as int) =~= rows);
        assert(l.emissions() =~= first + (gathered(rows, retiring) + gathered(rows, publishing)));
        l
    }

    /// Emit what a table's changes come to.
    pub fn lower(&self, start: Lowering) -> (r: Result<Lowering, Error>)
        requires
            start.family() == OperationFamily::RowChanges,
            table_changes_fits(self@),
        ensures
            match table_maps(self@) {
                Err(fault) => r matches Err(error) && operation_error(error, fault),
                Ok(maps) => r matches Ok(l) && l.family() == start.family() && l.emissions()
                    == start.emissions() + table_emissions(self@, maps),
            },
    {
        let before = self.before_set();
        let after = self.after_set();
        let unique_before = match before.index_entry_map() {
            Err(error) => {
                return Err(error.into_operation());
            },
            Ok(map) => map,
        };
        let unique_after = match after.index_entry_map() {
            Err(error) => {
                return Err(error.into_operation());
            },
            Ok(map) => map,
        };
        let references_before = match before.foreign_reference_map() {
            Err(error) => {
                return Err(error.into_operation());
            },
            Ok(map) => map,
        };
        let references_after = match after.foreign_reference_map() {
            Err(error) => {
                return Err(error.into_operation());
            },
            Ok(map) => map,
        };
        let keys = match self.row_keys() {
            Err(error) => {
                return Err(error.into_operation());
            },
            Ok(keys) => keys,
        };
        let incoming_before = match before.incoming_reference_prefix_set() {
            Err(error) => {
                return Err(error.into_operation());
            },
            Ok(map) => map,
        };
        let incoming_after = match after.incoming_reference_prefix_set() {
            Err(error) => {
                return Err(error.into_operation());
            },
            Ok(map) => map,
        };
        let ghost first = start.emissions();
        let ghost maps = TableMaps {
            unique_before: unique_before.order(),
            unique_after: unique_after.order(),
            references_before: references_before.order(),
            references_after: references_after.order(),
            incoming_before: incoming_before.order(),
            incoming_after: incoming_after.order(),
        };
        assert(table_maps(self@) == Ok::<TableMaps, RowCodecError>(maps));
        proof {
            crate::attempt::lemma_try_map_ok(self@.rows, keys_of_delta(self@.rules));
            assert forall|i: int| 0 <= i < keys@.len() implies row_keyed(#[trigger] keys@[i])
                && delta_keys(self@.rules, self@.rows[i]) == Ok::<
                (Option<Path>, Option<Path>),
                RowCodecError,
            >(keys@[i]@) by {
                assert(views(keys@)[i] == keys@[i]@);
            }
        }
        let l = self.lower_rows(keys.as_slice(), start);
        let l = lower_map_delta(&unique_before, &unique_after, GuardReason::UniqueOwnership, l);
        let l = lower_map_delta(
            &references_before,
            &references_after,
            GuardReason::ForeignReference,
            l,
        );
        let ghost middle = l.emissions();
        let ghost prefixes = incoming_before.order();
        let ghost close = close_prefix(incoming_after.order());
        let mut l = l;
        let entries = incoming_before.entries();
        let mut i: usize = 0;
        assert(middle + gathered(prefixes.subrange(0, 0), close) =~= middle);
        while i < entries.len()
            invariant
                i <= entries@.len(),
                views(entries@) == prefixes,
                order_in(prefixes, TargetFamily::ForeignReference),
                close == close_prefix(incoming_after.order()),
                l.family() == OperationFamily::RowChanges,
                l.emissions() == middle + gathered(prefixes.subrange(0, i as int), close),
            decreases entries.len() - i,
        {
            let prefix = &entries[i].key;
            proof {
                assert(prefixes[i as int] == entries@[i as int]@);
                lemma_gathered_step(prefixes, i as int, close);
            }
            let ghost done = l.emissions();
            if !incoming_after.contains(prefix) {
                l = l.add_invariant(prefix.clone(), GuardReason::ForeignChildren).write(
                    prefix.clone(),
                    GuardReason::ForeignChildren,
                ).delete_prefix(prefix.clone());
            }
            assert(l.emissions() =~= done + close(prefixes[i as int]));
            assert(done + close(prefixes[i as int]) =~= middle + gathered(
                prefixes.subrange(0, i as int + 1),
                close,
            ));
            i += 1;
        }
        assert(prefixes.subrange(0, i as int) =~= prefixes);
        let primary = active_primary_index_key(self.rules.table);
        let revision = write_revision_key(self.rules.table);
        proof {
            lemma_active_primary_index_family(self@.rules.table);
            lemma_write_revision_family(self@.rules.table);
        }
        let l = l.add_invariant(primary, GuardReason::PrimaryIndex).add_invariant(
            revision,
            GuardReason::WriteContract,
        );
        assert(l.emissions() =~= first + table_emissions(self@, maps));
        Ok(l)
    }
}

/// What lowering a statement's changes gives: its emissions, without the
/// deletions that a range deletion covers, or why it is refused.
pub open spec fn lowered_result(changes: RowChangesView, r: Result<RowHomebaseOp, Error>) -> bool {
    match r {
        Err(error) => match budget_result(changes) {
            Err(limit) => error == limit,
            Ok(_) => match canonical_fault(changes.tables) {
                Some(fault) => operation_error(error, fault),
                None => changes_lowered(changes) matches Err(fault) && operation_error(
                    error,
                    fault,
                ),
            },
        },
        Ok(op) => {
            &&& row_changes_fault(changes) is None
            &&& changes_lowered(changes) matches Ok(emissions) && {
                &&& mutations_view(op.mutations@) == pruned(mutations_of(emissions))
                &&& op.guards@ == plan_of(OperationFamily::RowChanges, emissions)
                &&& op.footprint@ == entries_footprint(op.guards@.entries)
            }
        },
    }
}

impl RowChanges {
    /// Lower the changes to guards and mutations. A deletion that a range
    /// deletion covers is not sent, and its guards remain.
    pub fn to_homebase(&self) -> (r: Result<RowHomebaseOp, Error>)
        ensures
            lowered_result(self@, r),
    {
        if let Err(error) = self.validate_budget() {
            return Err(error);
        }
        if let Err(error) = self.validate_structure() {
            return Err(error.into_operation());
        }
        assert(row_changes_fits(self@));
        let ghost view = self@.tables;
        let ghost step = lower_step();
        let ghost none = Seq::<Emission>::empty();
        let mut l = Lowering::new(OperationFamily::RowChanges);
        let mut i: usize = 0;
        proof {
            lemma_try_fold_start(none, view, step);
        }
        while i < self.tables.len()
            invariant
                i <= self.tables@.len(),
                view == self@.tables,
                view == views(self.tables@),
                step == lower_step(),
                none == Seq::<Emission>::empty(),
                row_changes_fits(self@),
                row_changes_fault(self@) is None,
                l.family() == OperationFamily::RowChanges,
                try_fold(none, view.subrange(0, i as int), step) == Ok::<
                    Seq<Emission>,
                    RowCodecError,
                >(l.emissions()),
            decreases self.tables.len() - i,
        {
            proof {
                lemma_try_fold_step(none, view, i as int, step);
                assert(self@.tables[i as int] == self.tables@[i as int]@);
                assert(table_changes_fits(self@.tables[i as int]));
                if try_fold(none, view.subrange(0, i as int + 1), step) is Err {
                    lemma_try_fold_stop(none, view, i as int + 1, step);
                }
            }
            l = match self.tables[i].lower(l) {
                Err(error) => {
                    return Err(error);
                },
                Ok(l) => l,
            };
            i += 1;
        }
        proof {
            lemma_try_fold_start(none, view, step);
        }
        let (mutations, guards) = l.finish();
        let mut mutations = mutations;
        prune_redundant_point_deletes(&mut mutations);
        let footprint = guards.footprint();
        Ok(RowHomebaseOp { mutations, footprint, guards })
    }
}

} // verus!
