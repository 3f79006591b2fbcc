//! What the authority holds of rows that are there.

use super::cells::{row_fits, stored_row_frame, RowView, StoredRowView};
use super::error::{row_error_text, RowCodecError};
use super::keys::{index_entries_of, references_of, row_key_of, EntryView, IndexEntry};
use super::lower::{table_guards, RowHomebaseOp};
use super::rules::RulesView;
use super::set::{row_set_fault, RowSet, RowSetView};
use crate::attempt::{lemma_try_fold_start, lemma_try_fold_step, lemma_try_fold_stop, try_fold};
use crate::bytes::copy_bytes;
use crate::codec::views;
use crate::error::{ErrorView, Result};
use crate::key::{mutations_view, same_mutations, Mutation};
use crate::logical::contract::{GuardClass, GuardReason, OperationFamily};
use crate::logical::guard::guard_fault;
use crate::logical::layout::{
    active_primary_index_key, lemma_active_primary_index_family, lemma_write_revision_family,
    write_revision_key,
};
use crate::logical::lowering::{
    gathered, lemma_gathered_step, lowers_to, mutations_of, Emission, Lowering,
};
use vstd::prelude::*;

verus! {

/// What publishes a value under a key that must be free.
pub open spec fn claim(reason: GuardReason) -> spec_fn(EntryView) -> Seq<Emission> {
    |entry: EntryView|
        seq![
            Emission::Invariant(entry.key, reason),
            Emission::Write(entry.key, reason),
            Emission::Put(entry.key, entry.value),
        ]
}

/// What publishes a row.
pub open spec fn row_published(rules: RulesView) -> spec_fn(Seq<Emission>, RowView) -> std::result::Result<
    Seq<Emission>,
    ErrorView,
> {
    |done: Seq<Emission>, row: RowView|
        match row_key_of(rules, row) {
            Err(error) => Err(ErrorView::InvalidMultiliteOp(row_error_text(error))),
            Ok(key) => Ok(
                done + claim(GuardReason::RowIdentity)(
                    EntryView {
                        key,
                        value: stored_row_frame(
                            StoredRowView {
                                schema_revision: rules.schema_revision,
                                values: row.values,
                            },
                        ),
                    },
                ),
            ),
        }
}

/// What publishes the entries of a row in the indexes and foreign keys of its
/// table.
pub open spec fn row_claimed(rules: RulesView) -> spec_fn(Seq<Emission>, RowView) -> std::result::Result<
    Seq<Emission>,
    ErrorView,
> {
    |done: Seq<Emission>, row: RowView|
        match index_entries_of(rules, row) {
            Err(error) => Err(ErrorView::InvalidMultiliteOp(row_error_text(error))),
            Ok(entries) => match references_of(rules, row) {
                Err(error) => Err(ErrorView::InvalidMultiliteOp(row_error_text(error))),
                Ok(references) => Ok(
                    done + gathered(entries, claim(GuardReason::UniqueOwnership)) + gathered(
                        references,
                        claim(GuardReason::ForeignReference),
                    ),
                ),
            },
        }
}

/// What publishes the rows of a set: first the rows, then what each of them owns
/// and refers to.
pub open spec fn set_lowered(set: RowSetView) -> std::result::Result<Seq<Emission>, ErrorView> {
    if let Some(error) = row_set_fault(set) {
        Err(ErrorView::InvalidMultiliteOp(row_error_text(error)))
    } else {
        match try_fold(Seq::<Emission>::empty(), set.rows, row_published(set.rules)) {
            Err(error) => Err(error),
            Ok(rows) => match try_fold(rows, set.rows, row_claimed(set.rules)) {
                Err(error) => Err(error),
                Ok(all) => Ok(all + table_guards(set.rules.table)),
            },
        }
    }
}

/// Publish entries under keys that must be free.
fn claim_entries(entries: &[IndexEntry], reason: GuardReason, start: Lowering) -> (r: Lowering)
    requires
        start.family() == OperationFamily::RowChanges,
        forall|i: int|
            0 <= i < entries@.len() ==> guard_fault(
                Some(OperationFamily::RowChanges),
                (#[trigger] entries@[i])@.key,
                GuardClass::Invariant,
                reason,
            ) is None && guard_fault(
                Some(OperationFamily::RowChanges),
                entries@[i]@.key,
                GuardClass::Write,
                reason,
            ) is None,
    ensures
        r.family() == start.family(),
        r.emissions() == start.emissions() + gathered(views(entries@), claim(reason)),
{
    let ghost all = views(entries@);
    let ghost first = start.emissions();
    let mut l = start;
    let mut i: usize = 0;
    assert(first + gathered(all.subrange(0, 0), claim(reason)) =~= first);
    while i < entries.len()
        invariant
            i <= entries@.len(),
            all == views(entries@),
            l.family() == OperationFamily::RowChanges,
            l.emissions() == first + gathered(all.subrange(0, i as int), claim(reason)),
            forall|i: int|
                0 <= i < entries@.len() ==> guard_fault(
                    Some(OperationFamily::RowChanges),
                    (#[trigger] entries@[i])@.key,
                    GuardClass::Invariant,
                    reason,
                ) is None && guard_fault(
                    Some(OperationFamily::RowChanges),
                    entries@[i]@.key,
                    GuardClass::Write,
                    reason,
                ) is None,
        decreases entries.len() - i,
    {
        let entry = &entries[i];
        let ghost done = l.emissions();
        proof {
            assert(all[i as int] == entry@);
            lemma_gathered_step(all, i as int, claim(reason));
        }
        l = l.add_invariant(entry.key.clone(), reason).write(entry.key.clone(), reason).put(
            entry.key.clone(),
            copy_bytes(entry.value.as_slice()),
        );
        assert(l.emissions() =~= done + claim(reason)(entry@));
        assert(l.emissions() =~= first + gathered(all.subrange(0, i as int + 1), claim(reason)));
        i += 1;
    }
    assert(all.subrange(0, i as int) =~= all);
    l
}

impl RowSet {
    /// Publish the rows.
    fn publish_rows(&self) -> (r: Result<Lowering>)
        requires
            forall|i: int| 0 <= i < self@.rows.len() ==> row_fits(#[trigger] self@.rows[i]),
        ensures
            ({
                let want = try_fold(
                    Seq::<Emission>::empty(),
                    self@.rows,
                    row_published(self@.rules),
                );
                match r {
                    Ok(l) => l.family() == OperationFamily::RowChanges && want == Ok::<
                        Seq<Emission>,
                        ErrorView,
                    >(l.emissions()),
                    Err(error) => want == Err::<Seq<Emission>, ErrorView>(error@),
                }
            }),
    {
        let ghost all = self@.rows;
        let ghost none = Seq::<Emission>::empty();
        let ghost step = row_published(self@.rules);
        let mut l = Lowering::new(OperationFamily::RowChanges);
        let mut i: usize = 0;
        proof {
            lemma_try_fold_start(none, all, step);
        }
        while i < self.rows.len()
            invariant
                i <= self.rows@.len(),
                all == self@.rows,
                all == views(self.rows@),
                none == Seq::<Emission>::empty(),
                step == row_published(self@.rules),
                l.family() == OperationFamily::RowChanges,
                try_fold(none, all.subrange(0, i as int), step) == Ok::<Seq<Emission>, ErrorView>(
                    l.emissions(),
                ),
                forall|i: int| 0 <= i < all.len() ==> row_fits(#[trigger] all[i]),
            decreases self.rows.len() - i,
        {
            let row = &self.rows[i];
            let ghost done = l.emissions();
            proof {
                assert(all[i as int] == row@);
                lemma_try_fold_step(none, all, i as int, step);
                if try_fold(none, all.subrange(0, i as int + 1), step) is Err {
                    lemma_try_fold_stop(none, all, i as int + 1, step);
                }
            }
            let key = match self.rules.row_key(row) {
                Err(error) => {
                    return Err(error.into_operation());
                },
                Ok(key) => key,
            };
            let value = self.rules.encode_row(row);
            let ghost entry = EntryView { key: key@, value: value@ };
            l = l.add_invariant(key.clone(), GuardReason::RowIdentity).write(
                key.clone(),
                GuardReason::RowIdentity,
            ).put(key, value);
            assert(l.emissions() =~= done + claim(GuardReason::RowIdentity)(entry));
            i += 1;
        }
        assert(all.subrange(0, i as int) =~= all);
        Ok(l)
    }

    /// Publish what the rows own and refer to.
    fn claim_rows(&self, start: Lowering) -> (r: Result<Lowering>)
        requires
            start.family() == OperationFamily::RowChanges,
        ensures
            ({
                let want = try_fold(start.emissions(), self@.rows, row_claimed(self@.rules));
                match r {
                    Ok(l) => l.family() == OperationFamily::RowChanges && want == Ok::<
                        Seq<Emission>,
                        ErrorView,
                    >(l.emissions()),
                    Err(error) => want == Err::<Seq<Emission>, ErrorView>(error@),
                }
            }),
    {
        let ghost all = self@.rows;
        let ghost first = start.emissions();
        let ghost step = row_claimed(self@.rules);
        let mut l = start;
        let mut i: usize = 0;
        proof {
            lemma_try_fold_start(first, all, step);
        }
        while i < self.rows.len()
            invariant
                i <= self.rows@.len(),
                all == self@.rows,
                all == views(self.rows@),
                first == start.emissions(),
                step == row_claimed(self@.rules),
                l.family() == OperationFamily::RowChanges,
                try_fold(first, all.subrange(0, i as int), step) == Ok::<Seq<Emission>, ErrorView>(
                    l.emissions(),
                ),
            decreases self.rows.len() - i,
        {
            let row = &self.rows[i];
            proof {
                assert(all[i as int] == row@);
                lemma_try_fold_step(first, all, i as int, step);
                if try_fold(first, all.subrange(0, i as int + 1), step) is Err {
                    lemma_try_fold_stop(first, all, i as int + 1, step);
                }
            }
            let entries = match self.rules.index_entries(row) {
                Err(error) => {
                    return Err(error.into_operation());
                },
                Ok(entries) => entries,
            };
            let references = match self.rules.foreign_references(row) {
                Err(error) => {
                    return Err(error.into_operation());
                },
                Ok(references) => references,
            };
            l = claim_entries(entries.as_slice(), GuardReason::UniqueOwnership, l);
            l = claim_entries(references.as_slice(), GuardReason::ForeignReference, l);
            i += 1;
        }
        assert(all.subrange(0, i as int) =~= all);
        Ok(l)
    }

    /// Lower the presence of the rows to guards and mutations.
    pub fn to_homebase(&self) -> (r: Result<RowHomebaseOp>)
        requires
            forall|i: int| 0 <= i < self@.rows.len() ==> row_fits(#[trigger] self@.rows[i]),
        ensures
            match r {
                Ok(op) => set_lowered(self@) is Ok && lowers_to(
                    OperationFamily::RowChanges,
                    set_lowered(self@)->Ok_0,
                    op.mutations@,
                    op.footprint@,
                    op.guards@,
                ),
                Err(error) => set_lowered(self@) == Err::<Seq<Emission>, ErrorView>(error@),
            },
    {
        if let Err(error) = self.validate_structure() {
            return Err(error.into_operation());
        }
        let l = match self.publish_rows() {
            Err(error) => {
                return Err(error);
            },
            Ok(l) => l,
        };
        let l = match self.claim_rows(l) {
            Err(error) => {
                return Err(error);
            },
            Ok(l) => l,
        };
        let ghost before = l.emissions();
        proof {
            lemma_active_primary_index_family(self@.rules.table);
            lemma_write_revision_family(self@.rules.table);
        }
        let l = l.add_invariant(
            active_primary_index_key(self.rules.table),
            GuardReason::PrimaryIndex,
        ).add_invariant(write_revision_key(self.rules.table), GuardReason::WriteContract);
        assert(l.emissions() =~= before + table_guards(self@.rules.table));
        let (mutations, guards) = l.finish();
        let footprint = guards.footprint();
        Ok(RowHomebaseOp { mutations, footprint, guards })
    }

    /// Refuse mutations that are not those of the rows.
    pub fn validate_homebase(&self, mutations: &[Mutation]) -> (r: std::result::Result<
        (),
        RowCodecError,
    >)
        requires
            forall|i: int| 0 <= i < self@.rows.len() ==> row_fits(#[trigger] self@.rows[i]),
        ensures
            r == (if set_lowered(self@) matches Ok(emissions) && mutations_view(mutations@)
                == mutations_of(emissions) {
                Ok::<(), RowCodecError>(())
            } else {
                Err::<(), RowCodecError>(RowCodecError::InvalidBatch)
            }),
    {
        match self.to_homebase() {
            Err(_) => Err(RowCodecError::InvalidBatch),
            Ok(op) => if same_mutations(op.mutations.as_slice(), mutations) {
                Ok(())
            } else {
                Err(RowCodecError::InvalidBatch)
            },
        }
    }
}

} // verus!
