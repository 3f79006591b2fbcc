//! Laws on the keys of rows: which rows meet at one key.

use super::cells::RowView;
use super::error::RowCodecError;
use super::image::{image_of, images_are_injective, same_integer};
use super::keys::{
    child_parts, extended, images_of, incoming_prefix, incoming_prefixes_of, incoming_step,
    index_entries_of, part_images, reference_entry, reference_step, references_of, row_key_of,
    tuple_images, unique_entry, unique_step, EntryView,
};
use super::rules::{ForeignKeyView, IncomingView, IndexView, KeyPartView, RulesView};
use crate::attempt::{lemma_try_map_ok, try_fold};
use crate::key::{below, path_bytes, Path};
use crate::logical::layout::{reference_path, reference_prefix_path, row_path, unique_path};
use crate::value::ValueView;
use vstd::prelude::*;

verus! {

/// Whether two values meet in a key: they are the same, or numbers that equal
/// one integer.
pub open spec fn values_meet(a: ValueView, b: ValueView) -> bool {
    a == b || same_integer(a, b)
}

/// Whether two rows hold values that meet, part by part.
pub open spec fn rows_meet(
    a: RowView,
    a_parts: Seq<KeyPartView>,
    b: RowView,
    b_parts: Seq<KeyPartView>,
) -> bool {
    a_parts.len() == b_parts.len() && forall|i: int|
        #![trigger a_parts[i]]
        #![trigger b_parts[i]]
        0 <= i < a_parts.len() ==> values_meet(
            a.value(a_parts[i].column)->Some_0,
            b.value(b_parts[i].column)->Some_0,
        )
}

/// Whether a row holds a value that is not NULL for every part.
pub open spec fn row_holds(row: RowView, parts: Seq<KeyPartView>) -> bool {
    forall|i: int|
        0 <= i < parts.len() ==> row.value((#[trigger] parts[i]).column) is Some && row.value(
            parts[i].column,
        ) != Some(ValueView::Null)
}

/// The images of the values that a row holds for parts.
pub open spec fn held_images(row: RowView, parts: Seq<KeyPartView>) -> Path {
    Seq::new(parts.len(), |i: int| image_of(row.value(parts[i].column)->Some_0))
}

/// Images that are there are those of the values that the row holds.
proof fn lemma_held(row: RowView, parts: Seq<KeyPartView>)
    requires
        images_of(row, parts) is Ok,
    ensures
        images_of(row, parts)->Ok_0 == held_images(row, parts),
        row_holds(row, parts),
{
    let f = part_images(row);
    let images = images_of(row, parts)->Ok_0;
    lemma_try_map_ok(parts, f);
    assert forall|i: int| 0 <= i < parts.len() implies row.value(
        (#[trigger] parts[i]).column,
    ) is Some && row.value(parts[i].column) != Some(ValueView::Null) && images[i] == image_of(
        row.value(parts[i].column)->Some_0,
    ) by {
        assert(f(parts[i]) == Ok::<Seq<u8>, RowCodecError>(images[i]));
    }
    assert(images =~= held_images(row, parts));
}

/// Held images are the same exactly where the rows meet.
proof fn lemma_images_meet(
    a: RowView,
    a_parts: Seq<KeyPartView>,
    b: RowView,
    b_parts: Seq<KeyPartView>,
)
    ensures
        held_images(a, a_parts) == held_images(b, b_parts) <==> rows_meet(a, a_parts, b, b_parts),
{
    let x = held_images(a, a_parts);
    let y = held_images(b, b_parts);
    if x == y {
        assert(x.len() == y.len());
        assert forall|i: int| 0 <= i < a_parts.len() implies values_meet(
            a.value((#[trigger] a_parts[i]).column)->Some_0,
            b.value(b_parts[i].column)->Some_0,
        ) by {
            assert(x[i] == y[i]);
            images_are_injective(
                a.value(a_parts[i].column)->Some_0,
                b.value(b_parts[i].column)->Some_0,
            );
        }
    }
    if rows_meet(a, a_parts, b, b_parts) {
        assert forall|i: int| 0 <= i < x.len() implies x[i] == y[i] by {
            let part = a_parts[i];
            images_are_injective(
                a.value(a_parts[i].column)->Some_0,
                b.value(b_parts[i].column)->Some_0,
            );
        }
        assert(x =~= y);
    }
}

/// What follows the same number of components is the same where the paths are.
proof fn lemma_tails(a: Path, x: Path, b: Path, y: Path)
    requires
        a.len() == b.len(),
    ensures
        a + x == b + y <==> a == b && x == y,
{
    if a + x == b + y {
        assert((a + x).subrange(0, a.len() as int) =~= a);
        assert((b + y).subrange(0, b.len() as int) =~= b);
        assert((a + x).subrange(a.len() as int, (a + x).len() as int) =~= x);
        assert((b + y).subrange(b.len() as int, (b + y).len() as int) =~= y);
    }
}

/// Two rows of a table have the same key exactly where the values of their
/// primary keys meet.
pub proof fn row_keys_collide(rules: RulesView, a: RowView, b: RowView)
    requires
        row_key_of(rules, a) is Ok,
        row_key_of(rules, b) is Ok,
    ensures
        row_key_of(rules, a) == row_key_of(rules, b) <==> rows_meet(
            a,
            rules.key_parts,
            b,
            rules.key_parts,
        ),
{
    lemma_held(a, rules.key_parts);
    lemma_held(b, rules.key_parts);
    lemma_images_meet(a, rules.key_parts, b, rules.key_parts);
    let head = row_path(rules.table, rules.primary_index, Seq::empty());
    let x = held_images(a, rules.key_parts);
    let y = held_images(b, rules.key_parts);
    assert(row_path(rules.table, rules.primary_index, x) =~= head + x);
    assert(row_path(rules.table, rules.primary_index, y) =~= head + y);
    lemma_tails(head, x, head, y);
}

/// The key of a row lies below its table's rows, under its primary index, and
/// no row key is a key of another table or another index.
pub proof fn row_keys_stay_in_their_table(a: RulesView, b: RulesView, x: RowView, y: RowView)
    requires
        row_key_of(a, x) is Ok,
        row_key_of(b, y) is Ok,
    ensures
        below(row_key_of(a, x)->Ok_0, row_path(a.table, a.primary_index, Seq::empty())),
        row_key_of(a, x) == row_key_of(b, y) ==> a.table == b.table && a.primary_index
            == b.primary_index,
{
    let p = row_key_of(a, x)->Ok_0;
    let q = row_key_of(b, y)->Ok_0;
    let head = row_path(a.table, a.primary_index, Seq::empty());
    assert(p.subrange(0, head.len() as int) =~= head);
    assert(p[2] == a.table && q[2] == b.table);
    assert(p[4] == a.primary_index && q[4] == b.primary_index);
}

/// A row owns a value of a UNIQUE index exactly where it holds no NULL in the
/// index's columns; the entry names its owner, and two rows' entries meet
/// exactly where the values that they hold there do.
pub proof fn unique_owners_collide(
    table: Seq<u8>,
    index: IndexView,
    a: RowView,
    a_owner: Seq<u8>,
    b: RowView,
    b_owner: Seq<u8>,
)
    requires
        unique_entry(table, a_owner, a, index) is Ok,
        unique_entry(table, b_owner, b, index) is Ok,
    ensures
        unique_entry(table, a_owner, a, index)->Ok_0 is Some <==> row_holds(a, index.parts),
        unique_entry(table, a_owner, a, index)->Ok_0 matches Some(x) ==> x.value == a_owner && (
        unique_entry(table, b_owner, b, index)->Ok_0 matches Some(y) ==> (x.key == y.key
            <==> rows_meet(a, index.parts, b, index.parts))),
{
    lemma_tuple(a, index.parts);
    lemma_tuple(b, index.parts);
    if let (Some(x), Some(y)) = (
        unique_entry(table, a_owner, a, index)->Ok_0,
        unique_entry(table, b_owner, b, index)->Ok_0,
    ) {
        lemma_images_meet(a, index.parts, b, index.parts);
        let head = unique_path(table, index.index, Seq::empty());
        let p = held_images(a, index.parts);
        let q = held_images(b, index.parts);
        assert(x.key =~= head + p);
        assert(y.key =~= head + q);
        lemma_tails(head, p, head, q);
    }
}

/// A tuple is owned exactly where the row holds no NULL in it.
proof fn lemma_tuple(row: RowView, parts: Seq<KeyPartView>)
    requires
        tuple_images(row, parts) is Ok,
    ensures
        tuple_images(row, parts)->Ok_0 is Some <==> row_holds(row, parts),
        tuple_images(row, parts)->Ok_0 matches Some(images) ==> images == held_images(row, parts),
{
    if tuple_images(row, parts)->Ok_0 is Some {
        lemma_held(row, parts);
    } else {
        let i = choose|i: int|
            0 <= i < parts.len() && row.value((#[trigger] parts[i]).column) == Some(
                ValueView::Null,
            );
        assert(row.value(parts[i].column)->Some_0 is Null);
    }
}

/// A list that is extended item by item holds what the items gave, and no more.
proof fn lemma_extended<A, T, E>(
    items: Seq<A>,
    f: spec_fn(A) -> Result<Option<T>, E>,
    step: spec_fn(Seq<T>, A) -> Result<Seq<T>, E>,
)
    requires
        forall|list: Seq<T>, item: A| #[trigger] step(list, item) == extended(list, f(item)),
        try_fold(Seq::<T>::empty(), items, step) is Ok,
    ensures
        forall|i: int|
            0 <= i < items.len() ==> f(#[trigger] items[i]) is Ok && (f(items[i])->Ok_0 matches Some(
                value,
            ) ==> try_fold(Seq::<T>::empty(), items, step)->Ok_0.contains(value)),
        forall|k: int|
            0 <= k < try_fold(Seq::<T>::empty(), items, step)->Ok_0.len() ==> exists|i: int|
                0 <= i < items.len() && f(#[trigger] items[i]) == Ok::<Option<T>, E>(
                    Some(#[trigger] try_fold(Seq::<T>::empty(), items, step)->Ok_0[k]),
                ),
    decreases items.len(),
{
    if items.len() > 0 {
        let init = items.drop_last();
        let last = items.last();
        lemma_extended(init, f, step);
        let before = try_fold(Seq::<T>::empty(), init, step)->Ok_0;
        let all = try_fold(Seq::<T>::empty(), items, step)->Ok_0;
        assert(step(before, last) == extended(before, f(last)));
        assert(items[items.len() - 1] == last);
        assert forall|i: int| 0 <= i < items.len() implies f(#[trigger] items[i]) is Ok && (f(
            items[i],
        )->Ok_0 matches Some(value) ==> all.contains(value)) by {
            if i < init.len() {
                assert(items[i] == init[i]);
                if let Some(value) = f(init[i])->Ok_0 {
                    let k = choose|k: int| 0 <= k < before.len() && before[k] == value;
                    assert(all[k] == value);
                }
            } else if let Some(value) = f(last)->Ok_0 {
                assert(all[before.len() as int] == value);
            }
        }
        assert forall|k: int| 0 <= k < all.len() implies exists|i: int|
            0 <= i < items.len() && f(#[trigger] items[i]) == Ok::<Option<T>, E>(
                Some(#[trigger] all[k]),
            ) by {
            if k < before.len() {
                assert(all[k] == before[k]);
                let i = choose|i: int|
                    0 <= i < init.len() && f(#[trigger] init[i]) == Ok::<Option<T>, E>(
                        Some(before[k]),
                    );
                assert(items[i] == init[i]);
            } else {
                assert(f(items[items.len() - 1]) == Ok::<Option<T>, E>(Some(all[k])));
            }
        }
    }
}

/// The entry that a row has for a UNIQUE index whose columns it holds.
pub open spec fn owned_entry(rules: RulesView, row: RowView, index: IndexView) -> EntryView {
    EntryView {
        key: unique_path(rules.table, index.index, held_images(row, index.parts)),
        value: path_bytes(row_key_of(rules, row)->Ok_0),
    }
}

/// A row has an entry for every UNIQUE index in whose columns it holds no NULL,
/// with the images of the values and its own key, and no other entries.
pub proof fn rows_own_what_they_hold(rules: RulesView, row: RowView)
    requires
        index_entries_of(rules, row) is Ok,
    ensures
        forall|i: int|
            0 <= i < rules.indexes.len() && row_holds(row, (#[trigger] rules.indexes[i]).parts)
                ==> index_entries_of(rules, row)->Ok_0.contains(
                owned_entry(rules, row, rules.indexes[i]),
            ),
        forall|k: int|
            0 <= k < index_entries_of(rules, row)->Ok_0.len() ==> exists|i: int|
                0 <= i < rules.indexes.len() && row_holds(row, (#[trigger] rules.indexes[i]).parts)
                    && #[trigger] index_entries_of(rules, row)->Ok_0[k] == owned_entry(
                    rules,
                    row,
                    rules.indexes[i],
                ),
{
    let owner = path_bytes(row_key_of(rules, row)->Ok_0);
    let f = |index: IndexView| unique_entry(rules.table, owner, row, index);
    let step = unique_step(rules.table, owner, row);
    let entries = index_entries_of(rules, row)->Ok_0;
    lemma_extended(rules.indexes, f, step);
    assert forall|i: int|
        0 <= i < rules.indexes.len() && row_holds(
            row,
            (#[trigger] rules.indexes[i]).parts,
        ) implies entries.contains(owned_entry(rules, row, rules.indexes[i])) by {
        assert(f(rules.indexes[i]) is Ok);
        lemma_tuple(row, rules.indexes[i].parts);
    }
    assert forall|k: int| 0 <= k < entries.len() implies exists|i: int|
        0 <= i < rules.indexes.len() && row_holds(row, (#[trigger] rules.indexes[i]).parts)
            && #[trigger] entries[k] == owned_entry(rules, row, rules.indexes[i]) by {
        let i = choose|i: int|
            0 <= i < rules.indexes.len() && f(#[trigger] rules.indexes[i]) == Ok::<
                Option<EntryView>,
                RowCodecError,
            >(Some(entries[k]));
        lemma_tuple(row, rules.indexes[i].parts);
    }
}

/// The entry that a row has for a foreign key whose columns it holds.
pub open spec fn held_reference(
    rules: RulesView,
    row: RowView,
    foreign_key: ForeignKeyView,
) -> EntryView {
    EntryView {
        key: reference_path(
            foreign_key.parent_table,
            foreign_key.id,
            foreign_key.parent_index,
            held_images(row, child_parts(foreign_key.key_parts)),
            rules.primary_index,
            held_images(row, rules.key_parts),
        ),
        value: path_bytes(row_key_of(rules, row)->Ok_0),
    }
}

/// A row has a reference for every foreign key in whose columns it holds no
/// NULL, with its own key, and no other references.
pub proof fn rows_refer_by_what_they_hold(rules: RulesView, row: RowView)
    requires
        references_of(rules, row) is Ok,
    ensures
        forall|i: int|
            0 <= i < rules.foreign_keys.len() && row_holds(
                row,
                child_parts((#[trigger] rules.foreign_keys[i]).key_parts),
            ) ==> references_of(rules, row)->Ok_0.contains(
                held_reference(rules, row, rules.foreign_keys[i]),
            ),
        forall|k: int|
            0 <= k < references_of(rules, row)->Ok_0.len() ==> exists|i: int|
                0 <= i < rules.foreign_keys.len() && row_holds(
                    row,
                    child_parts((#[trigger] rules.foreign_keys[i]).key_parts),
                ) && #[trigger] references_of(rules, row)->Ok_0[k] == held_reference(
                    rules,
                    row,
                    rules.foreign_keys[i],
                ),
{
    let owner = path_bytes(row_key_of(rules, row)->Ok_0);
    let images = images_of(row, rules.key_parts)->Ok_0;
    let f = |key: ForeignKeyView| reference_entry(rules, owner, images, row, key);
    let step = reference_step(rules, owner, images, row);
    let entries = references_of(rules, row)->Ok_0;
    let keys = rules.foreign_keys;
    lemma_held(row, rules.key_parts);
    lemma_extended(keys, f, step);
    assert forall|i: int|
        0 <= i < keys.len() && row_holds(
            row,
            child_parts((#[trigger] keys[i]).key_parts),
        ) implies entries.contains(held_reference(rules, row, keys[i])) by {
        assert(f(keys[i]) is Ok);
        lemma_tuple(row, child_parts(keys[i].key_parts));
    }
    assert forall|k: int| 0 <= k < entries.len() implies exists|i: int|
        0 <= i < keys.len() && row_holds(row, child_parts((#[trigger] keys[i]).key_parts))
            && #[trigger] entries[k] == held_reference(rules, row, keys[i]) by {
        let i = choose|i: int|
            0 <= i < keys.len() && f(#[trigger] keys[i]) == Ok::<Option<EntryView>, RowCodecError>(
                Some(entries[k]),
            );
        lemma_tuple(row, child_parts(keys[i].key_parts));
    }
}

/// A child's reference lies below the prefix that fences a parent row for the
/// same foreign key exactly where the child's values meet the parent's.
pub proof fn references_lie_below_their_parents(
    child: RulesView,
    foreign_key: ForeignKeyView,
    row: RowView,
    owner: Seq<u8>,
    child_images: Path,
    parent: RulesView,
    incoming: IncomingView,
    target: RowView,
)
    requires
        foreign_key.parent_table == parent.table,
        foreign_key.id == incoming.id,
        foreign_key.parent_index == incoming.parent_index,
        foreign_key.key_parts.len() == incoming.parent_key_parts.len(),
        reference_entry(child, owner, child_images, row, foreign_key) is Ok,
        incoming_prefix(parent, target, incoming) is Ok,
    ensures
        reference_entry(child, owner, child_images, row, foreign_key)->Ok_0 is Some <==> row_holds(
            row,
            child_parts(foreign_key.key_parts),
        ),
        incoming_prefix(parent, target, incoming)->Ok_0 is Some <==> row_holds(
            target,
            incoming.parent_key_parts,
        ),
        reference_entry(child, owner, child_images, row, foreign_key)->Ok_0 matches Some(entry)
            ==> entry.value == owner && (incoming_prefix(parent, target, incoming)->Ok_0 matches Some(
            prefix,
        ) ==> (below(entry.key, prefix) <==> rows_meet(
            row,
            child_parts(foreign_key.key_parts),
            target,
            incoming.parent_key_parts,
        ))),
{
    let parts = child_parts(foreign_key.key_parts);
    lemma_tuple(row, parts);
    lemma_tuple(target, incoming.parent_key_parts);
    if let (Some(entry), Some(prefix)) = (
        reference_entry(child, owner, child_images, row, foreign_key)->Ok_0,
        incoming_prefix(parent, target, incoming)->Ok_0,
    ) {
        lemma_images_meet(row, parts, target, incoming.parent_key_parts);
        let head = reference_prefix_path(
            parent.table,
            incoming.id,
            incoming.parent_index,
            Seq::empty(),
        );
        let p = held_images(row, parts);
        let q = held_images(target, incoming.parent_key_parts);
        assert(prefix =~= head + q);
        assert(entry.key.subrange(0, prefix.len() as int) =~= head + p);
        lemma_tails(head, p, head, q);
    }
}

/// The references of two rows through one foreign key are at one key exactly
/// where they refer to values that meet and are rows with one primary key.
pub proof fn references_collide(rules: RulesView, foreign_key: ForeignKeyView, a: RowView, b: RowView)
    ensures
        held_reference(rules, a, foreign_key).key == held_reference(rules, b, foreign_key).key
            <==> rows_meet(
            a,
            child_parts(foreign_key.key_parts),
            b,
            child_parts(foreign_key.key_parts),
        ) && rows_meet(a, rules.key_parts, b, rules.key_parts),
{
    let parts = child_parts(foreign_key.key_parts);
    let head = reference_prefix_path(
        foreign_key.parent_table,
        foreign_key.id,
        foreign_key.parent_index,
        Seq::empty(),
    );
    let p = held_images(a, parts);
    let q = held_images(b, parts);
    let x = held_images(a, rules.key_parts);
    let y = held_images(b, rules.key_parts);
    lemma_images_meet(a, parts, b, parts);
    lemma_images_meet(a, rules.key_parts, b, rules.key_parts);
    let mid = seq![rules.primary_index];
    assert(held_reference(rules, a, foreign_key).key =~= (head + p) + (mid + x));
    assert(held_reference(rules, b, foreign_key).key =~= (head + q) + (mid + y));
    lemma_tails(head + p, mid + x, head + q, mid + y);
    lemma_tails(head, p, head, q);
    lemma_tails(mid, x, mid, y);
}

/// The prefix above every reference to a row through a foreign key whose
/// columns the row holds.
pub open spec fn fenced_prefix(rules: RulesView, row: RowView, incoming: IncomingView) -> Path {
    reference_prefix_path(
        rules.table,
        incoming.id,
        incoming.parent_index,
        held_images(row, incoming.parent_key_parts),
    )
}

/// A row is fenced for every incoming foreign key in whose columns it holds no
/// NULL, and for no others.
pub proof fn rows_are_fenced_by_what_they_hold(rules: RulesView, row: RowView)
    requires
        incoming_prefixes_of(rules, row) is Ok,
    ensures
        forall|i: int|
            0 <= i < rules.incoming_foreign_keys.len() && row_holds(
                row,
                (#[trigger] rules.incoming_foreign_keys[i]).parent_key_parts,
            ) ==> incoming_prefixes_of(rules, row)->Ok_0.contains(
                fenced_prefix(rules, row, rules.incoming_foreign_keys[i]),
            ),
        forall|k: int|
            0 <= k < incoming_prefixes_of(rules, row)->Ok_0.len() ==> exists|i: int|
                0 <= i < rules.incoming_foreign_keys.len() && row_holds(
                    row,
                    (#[trigger] rules.incoming_foreign_keys[i]).parent_key_parts,
                ) && #[trigger] incoming_prefixes_of(rules, row)->Ok_0[k] == fenced_prefix(
                    rules,
                    row,
                    rules.incoming_foreign_keys[i],
                ),
{
    let f = |incoming: IncomingView| incoming_prefix(rules, row, incoming);
    let step = incoming_step(rules, row);
    let prefixes = incoming_prefixes_of(rules, row)->Ok_0;
    let keys = rules.incoming_foreign_keys;
    lemma_extended(keys, f, step);
    assert forall|i: int|
        0 <= i < keys.len() && row_holds(row, (#[trigger] keys[i]).parent_key_parts) implies
        prefixes.contains(fenced_prefix(rules, row, keys[i])) by {
        assert(f(keys[i]) is Ok);
        lemma_tuple(row, keys[i].parent_key_parts);
    }
    assert forall|k: int| 0 <= k < prefixes.len() implies exists|i: int|
        0 <= i < keys.len() && row_holds(row, (#[trigger] keys[i]).parent_key_parts)
            && #[trigger] prefixes[k] == fenced_prefix(rules, row, keys[i]) by {
        let i = choose|i: int|
            0 <= i < keys.len() && f(#[trigger] keys[i]) == Ok::<Option<Path>, RowCodecError>(
                Some(prefixes[k]),
            );
        lemma_tuple(row, keys[i].parent_key_parts);
    }
}

} // verus!
