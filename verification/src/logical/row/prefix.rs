//! Keys of rows, from values of their primary keys.

use super::error::RowCodecError;
use super::image::{key_image, key_image_of};
use super::keys::{bounded_path, row_prefix};
use super::rules::KeyPartView;
use super::derive::primary_parts;
use crate::attempt::{lemma_try_fold_start, lemma_try_fold_step, lemma_try_fold_stop, map_step, try_fold, try_map};
use crate::codec::views;
use crate::key::{key_result, parts_view, valid_path, Key, Path};
use crate::logical::layout::row_path;
use crate::logical::schema::definition::{definition_sound, CreateTable, TableView};
use crate::logical::types::Affinity;
use crate::value::{StoredValue, ValueView};
use vstd::prelude::*;

verus! {

/// The image of a value that a key's column is compared with. Text is no number.
pub open spec fn equality_image(part: KeyPartView, value: ValueView) -> Result<
    Seq<u8>,
    RowCodecError,
> {
    if value is Text && (part.affinity == Affinity::Integer || part.affinity == Affinity::Real
        || part.affinity == Affinity::Numeric) {
        Err(RowCodecError::InvalidRow)
    } else {
        key_image_of(value, part.affinity)
    }
}

/// The image at each position of a key.
pub open spec fn equality_images(parts: Seq<KeyPartView>, values: Seq<ValueView>) -> spec_fn(
    int,
) -> Result<Seq<u8>, RowCodecError> {
    |i: int| equality_image(parts[i], values[i])
}

/// The key of every row that has the given values in the leading columns of its
/// primary key.
pub open spec fn equality_prefix(table: TableView, values: Seq<ValueView>) -> Result<
    Path,
    RowCodecError,
> {
    let parts = primary_parts(table);
    if values.len() > parts.len() {
        Err(RowCodecError::InvalidRow)
    } else {
        match try_map(positions(values.len()), equality_images(parts, values)) {
            Err(error) => Err(error),
            Ok(images) => bounded_path(
                valid_path(images),
                row_path(table.table, table.primary_index, images),
            ),
        }
    }
}

/// The positions below a number.
pub open spec fn positions(count: nat) -> Seq<int> {
    Seq::new(count, |i: int| i)
}

/// The key of every row that has the given values in the leading columns of its
/// primary key.
pub fn primary_key_equality_prefix(created: &CreateTable, values: &[StoredValue]) -> (r: Result<
    Key,
    RowCodecError,
>)
    requires
        definition_sound(created@),
    ensures
        key_result(r) == equality_prefix(created@, views(values@)),
{
    let parts = created.primary_key_parts();
    let ghost rules = views(parts@);
    let ghost all = views(values@);
    let ghost order = positions(all.len());
    let ghost f = equality_images(rules, all);
    let ghost none = Seq::<Seq<u8>>::empty();
    assert(rules.len() == parts@.len());
    if values.len() > parts.len() {
        return Err(RowCodecError::InvalidRow);
    }
    let mut images: Vec<Vec<u8>> = Vec::new();
    let mut i: usize = 0;
    proof {
        lemma_try_fold_start(none, order, map_step(f));
        assert(parts_view(images@) =~= none);
    }
    while i < values.len()
        invariant
            i <= values@.len(),
            values@.len() <= parts@.len(),
            rules == views(parts@),
            rules == primary_parts(created@),
            all == views(values@),
            order == positions(all.len()),
            f == equality_images(rules, all),
            none == Seq::<Seq<u8>>::empty(),
            try_fold(none, order.subrange(0, i as int), map_step(f)) == Ok::<
                Seq<Seq<u8>>,
                RowCodecError,
            >(parts_view(images@)),
        decreases values.len() - i,
    {
        let part = parts[i];
        let value = &values[i];
        proof {
            assert(order[i as int] == i);
            assert(rules[i as int] == part@);
            assert(all[i as int] == value@);
            lemma_try_fold_step(none, order, i as int, map_step(f));
            if try_fold(none, order.subrange(0, i as int + 1), map_step(f)) is Err {
                lemma_try_fold_stop(none, order, i as int + 1, map_step(f));
            }
        }
        if let StoredValue::Text(_) = value {
            match part.affinity {
                Affinity::Integer | Affinity::Real | Affinity::Numeric => {
                    return Err(RowCodecError::InvalidRow);
                },
                _ => {},
            }
        }
        match key_image(value, part) {
            Err(error) => {
                return Err(error);
            },
            Ok(image) => {
                let ghost before = parts_view(images@);
                images.push(image);
                assert(parts_view(images@) =~= before.push(image@));
            },
        }
        i += 1;
    }
    assert(order.subrange(0, i as int) =~= order);
    row_prefix(created.table, created.primary_index, images)
}

/// The key of the row that has the given values as its whole primary key.
pub fn primary_key_prefix(created: &CreateTable, values: &[StoredValue]) -> (r: Result<
    Key,
    RowCodecError,
>)
    requires
        definition_sound(created@),
    ensures
        key_result(r) == (if views(values@).len() != primary_parts(created@).len() {
            Err(RowCodecError::InvalidRow)
        } else {
            equality_prefix(created@, views(values@))
        }),
{
    let primary = created.primary_key_columns();
    if primary.len() != values.len() {
        return Err(RowCodecError::InvalidRow);
    }
    primary_key_equality_prefix(created, values)
}

} // verus!
