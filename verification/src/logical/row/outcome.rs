//! Laws on lowered row changes: redundant deletions do not count, and tables are
//! carried out in turn.

use super::changes::{RowChangesView, TableChangesView};
use super::lower::{
    changes_lowered, covers, pruned, redundant, table_emissions, table_maps,
};
use crate::each::lemma_filter_push;
use crate::key::{MutationView, Path};
use crate::logical::lowering::mutations_of;
use crate::logical::space::{held, lemma_left_concat, performed, Space};
use vstd::prelude::*;

verus! {

/// Whether no key is deleted alone after it is put.
pub open spec fn puts_come_last(mutations: Seq<MutationView>) -> bool {
    forall|i: int, j: int|
        0 <= i < j < mutations.len() && #[trigger] mutations[i] is Put
            && #[trigger] mutations[j] is Delete ==> mutations[i]->Put_key
            != mutations[j]->Delete_key
}

/// Whether a mutation is a range deletion that covers a key.
spec fn sweeps(mutation: MutationView, key: Path) -> bool {
    mutation matches MutationView::DeleteRange { range } && covers(range, key)
}

/// Whether some mutation is a range deletion that covers a key.
spec fn swept(mutations: Seq<MutationView>, key: Path) -> bool {
    exists|i: int| 0 <= i < mutations.len() && sweeps(#[trigger] mutations[i], key)
}

/// Whether some mutation puts a key.
spec fn put_at(mutations: Seq<MutationView>, key: Path) -> bool {
    exists|i: int|
        0 <= i < mutations.len() && (#[trigger] mutations[i] matches MutationView::Put {
            key: at,
            ..
        } && at == key)
}

/// What the first mutations leave at a key, with and without redundant ones.
proof fn lemma_pruned_so_far(
    space: Space,
    mutations: Seq<MutationView>,
    n: int,
    key: Path,
    keep: spec_fn(MutationView) -> bool,
)
    requires
        0 <= n <= mutations.len(),
        puts_come_last(mutations),
        keep == (|mutation: MutationView| !redundant(mutations, mutation)),
    ensures
        ({
            let first = mutations.subrange(0, n);
            let all = held(space, first, key);
            let left = held(space, first.filter(keep), key);
            &&& !redundant(mutations, MutationView::Delete { key }) || swept(first, key) ==> left
                == all
            &&& swept(first, key) && !put_at(first, key) ==> left is None
        }),
    decreases n,
{
    let first = mutations.subrange(0, n);
    if n == 0 {
        reveal(Seq::filter);
        assert(first.filter(keep) =~= Seq::<MutationView>::empty());
    } else {
        let init = mutations.subrange(0, n - 1);
        let last = mutations[n - 1];
        lemma_pruned_so_far(space, mutations, n - 1, key, keep);
        assert(first =~= init.push(last));
        assert(first.drop_last() =~= init);
        lemma_filter_push(init, last, keep);
        let kept = first.filter(keep);
        if keep(last) {
            assert(kept.drop_last() =~= init.filter(keep));
        }
        assert(first[n - 1] == last);
        assert(swept(init, key) ==> swept(first, key)) by {
            if swept(init, key) {
                let i = choose|i: int| 0 <= i < init.len() && sweeps(#[trigger] init[i], key);
                assert(first[i] == init[i]);
            }
        }
        assert(swept(first, key) ==> swept(init, key) || sweeps(last, key)) by {
            if swept(first, key) {
                let i = choose|i: int| 0 <= i < first.len() && sweeps(#[trigger] first[i], key);
                if i < init.len() {
                    assert(init[i] == first[i]);
                }
            }
        }
        assert(put_at(init, key) ==> put_at(first, key)) by {
            if put_at(init, key) {
                let i = choose|i: int|
                    0 <= i < init.len() && (#[trigger] init[i] matches MutationView::Put {
                        key: at,
                        ..
                    } && at == key);
                assert(first[i] == init[i]);
            }
        }
        match last {
            MutationView::Put { key: at, value } => {
                assert(keep(last));
                if at == key {
                    assert(put_at(first, key));
                }
            },
            MutationView::Delete { key: at } => {
                if at == key && put_at(init, key) {
                    let i = choose|i: int|
                        0 <= i < init.len() && (#[trigger] init[i] matches MutationView::Put {
                            key: at,
                            ..
                        } && at == key);
                    assert(mutations[i] == init[i]);
                    assert(mutations[i] is Put && mutations[n - 1] is Delete);
                }
            },
            MutationView::DeleteRange { range } => {
                assert(keep(last));
                if covers(range, key) {
                    assert(sweeps(last, key));
                }
            },
        }
    }
}

/// Leaving redundant deletions out changes nothing of what mutations leave
/// behind, where no key is deleted alone after it is put.
pub proof fn pruning_keeps_the_outcome(space: Space, mutations: Seq<MutationView>, key: Path)
    requires
        puts_come_last(mutations),
    ensures
        performed(space, pruned(mutations))(key) == performed(space, mutations)(key),
{
    let keep = |mutation: MutationView| !redundant(mutations, mutation);
    lemma_pruned_so_far(space, mutations, mutations.len() as int, key, keep);
    assert(mutations.subrange(0, mutations.len() as int) =~= mutations);
    if redundant(mutations, MutationView::Delete { key }) {
        let i = choose|i: int|
            0 <= i < mutations.len() && (#[trigger] mutations[i] matches MutationView::DeleteRange {
                range,
            } && covers(range, key));
        assert(sweeps(mutations[i], key));
        assert(swept(mutations, key));
    }
}

/// The tables of a statement are carried out in turn: what is left behind is what
/// the last table's changes leave of what the tables before it left.
pub proof fn tables_are_carried_out_in_turn(
    tables: Seq<TableChangesView>,
    table: TableChangesView,
    space: Space,
    key: Path,
)
    requires
        changes_lowered(RowChangesView { tables: tables.push(table) }) is Ok,
    ensures
        changes_lowered(RowChangesView { tables }) is Ok,
        table_maps(table) is Ok,
        performed(
            space,
            mutations_of(changes_lowered(RowChangesView { tables: tables.push(table) })->Ok_0),
        )(key) == performed(
            performed(space, mutations_of(changes_lowered(RowChangesView { tables })->Ok_0)),
            mutations_of(table_emissions(table, table_maps(table)->Ok_0)),
        )(key),
{
    let more = tables.push(table);
    assert(more.drop_last() =~= tables);
    assert(more.last() == table);
    let before = changes_lowered(RowChangesView { tables })->Ok_0;
    lemma_left_concat(space, before, table_emissions(table, table_maps(table)->Ok_0), key);
}

} // verus!
