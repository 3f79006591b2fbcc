//! Views of lists and options, as the frame codecs use them.

use vstd::prelude::*;

verus! {

/// The items of a list as mathematical values.
pub open spec fn views<T: View>(items: Seq<T>) -> Seq<T::V> {
    Seq::new(items.len(), |i: int| items[i]@)
}

/// An optional item as a mathematical value.
pub open spec fn view_of<T: View>(item: Option<T>) -> Option<T::V> {
    match item {
        Some(value) => Some(value@),
        None => None,
    }
}

/// Appending an item appends its value.
pub broadcast proof fn lemma_views_push<T: View>(items: Seq<T>, item: T)
    ensures
        #[trigger] views(items.push(item)) == views(items).push(item@),
{
    assert(views(items.push(item)) =~= views(items).push(item@));
}

/// A slot that is filled once: empty before, full after.
pub open spec fn filled<V, E>(slot: Option<V>, value: Result<V, E>, duplicate: E) -> Result<
    Option<V>,
    E,
> {
    match value {
        Err(error) => Err(error),
        Ok(value) => if slot is Some {
            Err(duplicate)
        } else {
            Ok(Some(value))
        },
    }
}

/// A list that grows by one item.
pub open spec fn grown<V, E>(list: Seq<V>, value: Result<V, E>) -> Result<Seq<V>, E> {
    match value {
        Err(error) => Err(error),
        Ok(value) => Ok(list.push(value)),
    }
}

/// A result over views.
pub open spec fn outcome<T: View, E>(r: Result<T, E>) -> Result<T::V, E> {
    match r {
        Ok(value) => Ok(value@),
        Err(error) => Err(error),
    }
}

/// A list's result over views.
pub open spec fn list_outcome<T: View, E>(r: Result<Vec<T>, E>) -> Result<Seq<T::V>, E> {
    match r {
        Ok(items) => Ok(views(items@)),
        Err(error) => Err(error),
    }
}

} // verus!
