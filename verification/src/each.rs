//! Functions applied to every item of a list.

use crate::attempt::{
    lemma_try_fold_start, lemma_try_fold_step, lemma_try_fold_stop, map_step, try_fold, try_map,
};
use crate::codec::{list_outcome, outcome, views};
use crate::error::{list_verdict, refusal, verdict, Error, ErrorView};
use vstd::prelude::*;

verus! {

/// The image of every item, or the first failure.
pub fn try_each<A: View, B: View, E, F: Fn(&A) -> Result<B, E>>(
    items: &[A],
    f: F,
    Ghost(image): Ghost<spec_fn(A::V) -> Result<B::V, E>>,
) -> (r: Result<Vec<B>, E>)
    requires
        forall|i: int| 0 <= i < items@.len() ==> call_requires(f, (&#[trigger] items@[i],)),
        forall|i: int, r: Result<B, E>|
            0 <= i < items@.len() && #[trigger] call_ensures(f, (&items@[i],), r) ==> outcome(r)
                == image(items@[i]@),
    ensures
        list_outcome(r) == try_map(views(items@), image),
{
    let ghost all = views(items@);
    let ghost none = Seq::<B::V>::empty();
    let mut done: Vec<B> = Vec::new();
    let mut i: usize = 0;
    proof {
        lemma_try_fold_start(none, all, map_step(image));
        assert(views(done@) =~= none);
    }
    while i < items.len()
        invariant
            i <= items@.len(),
            all == views(items@),
            none == Seq::<B::V>::empty(),
            try_fold(none, all.subrange(0, i as int), map_step(image)) == Ok::<Seq<B::V>, E>(
                views(done@),
            ),
            forall|i: int| 0 <= i < items@.len() ==> call_requires(f, (&#[trigger] items@[i],)),
            forall|i: int, r: Result<B, E>|
                0 <= i < items@.len() && #[trigger] call_ensures(f, (&items@[i],), r) ==> outcome(r)
                    == image(items@[i]@),
        decreases items.len() - i,
    {
        let found = f(&items[i]);
        proof {
            assert(call_ensures(f, (&items@[i as int],), found));
            assert(outcome(found) == image(items@[i as int]@));
            assert(all[i as int] == items@[i as int]@);
            lemma_try_fold_step(none, all, i as int, map_step(image));
        }
        match found {
            Err(error) => {
                proof {
                    lemma_try_fold_stop(none, all, i as int + 1, map_step(image));
                }
                return Err(error);
            },
            Ok(item) => {
                let ghost before = views(done@);
                done.push(item);
                assert(views(done@) =~= before.push(item@));
            },
        }
        i += 1;
    }
    proof {
        assert(all.subrange(0, i as int) =~= all);
    }
    Ok(done)
}

/// The image of every item, or the first refusal.
pub fn attempt_each<A: View, B: View, F: Fn(&A) -> Result<B, Error>>(
    items: &[A],
    f: F,
    Ghost(image): Ghost<spec_fn(A::V) -> Result<B::V, ErrorView>>,
) -> (r: Result<Vec<B>, Error>)
    requires
        forall|i: int| 0 <= i < items@.len() ==> call_requires(f, (&#[trigger] items@[i],)),
        forall|i: int, r: Result<B, Error>|
            0 <= i < items@.len() && #[trigger] call_ensures(f, (&items@[i],), r) ==> verdict(r)
                == image(items@[i]@),
    ensures
        list_verdict(r) == try_map(views(items@), image),
{
    let ghost all = views(items@);
    let ghost none = Seq::<B::V>::empty();
    let mut done: Vec<B> = Vec::new();
    let mut i: usize = 0;
    proof {
        lemma_try_fold_start(none, all, map_step(image));
        assert(views(done@) =~= none);
    }
    while i < items.len()
        invariant
            i <= items@.len(),
            all == views(items@),
            none == Seq::<B::V>::empty(),
            try_fold(none, all.subrange(0, i as int), map_step(image)) == Ok::<Seq<B::V>, ErrorView>(
                views(done@),
            ),
            forall|i: int| 0 <= i < items@.len() ==> call_requires(f, (&#[trigger] items@[i],)),
            forall|i: int, r: Result<B, Error>|
                0 <= i < items@.len() && #[trigger] call_ensures(f, (&items@[i],), r) ==> verdict(r)
                    == image(items@[i]@),
        decreases items.len() - i,
    {
        let found = f(&items[i]);
        proof {
            assert(call_ensures(f, (&items@[i as int],), found));
            assert(verdict(found) == image(items@[i as int]@));
            assert(all[i as int] == items@[i as int]@);
            lemma_try_fold_step(none, all, i as int, map_step(image));
        }
        match found {
            Err(error) => {
                proof {
                    lemma_try_fold_stop(none, all, i as int + 1, map_step(image));
                }
                return Err(error);
            },
            Ok(item) => {
                let ghost before = views(done@);
                done.push(item);
                assert(views(done@) =~= before.push(item@));
            },
        }
        i += 1;
    }
    proof {
        assert(all.subrange(0, i as int) =~= all);
    }
    Ok(done)
}

/// The image of every item.
pub fn each<A: View, B: View, F: Fn(&A) -> B>(
    items: &[A],
    f: F,
    Ghost(image): Ghost<spec_fn(A::V) -> B::V>,
) -> (r: Vec<B>)
    requires
        forall|i: int| 0 <= i < items@.len() ==> call_requires(f, (&#[trigger] items@[i],)),
        forall|i: int, r: B|
            0 <= i < items@.len() && #[trigger] call_ensures(f, (&items@[i],), r) ==> r@ == image(
                items@[i]@,
            ),
    ensures
        views(r@) == views(items@).map_values(image),
{
    let mut done: Vec<B> = Vec::new();
    let mut i: usize = 0;
    while i < items.len()
        invariant
            i <= items@.len(),
            done@.len() == i,
            forall|j: int| 0 <= j < i ==> (#[trigger] done@[j])@ == image(items@[j]@),
            forall|i: int| 0 <= i < items@.len() ==> call_requires(f, (&#[trigger] items@[i],)),
            forall|i: int, r: B|
                0 <= i < items@.len() && #[trigger] call_ensures(f, (&items@[i],), r) ==> r@
                    == image(items@[i]@),
        decreases items.len() - i,
    {
        let found = f(&items[i]);
        assert(call_ensures(f, (&items@[i as int],), found));
        done.push(found);
        i += 1;
    }
    assert(views(done@) =~= views(items@).map_values(image));
    done
}

/// Whether some item passes a test.
pub fn any<A: View, F: Fn(&A) -> bool>(
    items: &[A],
    f: F,
    Ghost(test): Ghost<spec_fn(A::V) -> bool>,
) -> (r: bool)
    requires
        forall|i: int| 0 <= i < items@.len() ==> call_requires(f, (&#[trigger] items@[i],)),
        forall|i: int, r: bool|
            0 <= i < items@.len() && #[trigger] call_ensures(f, (&items@[i],), r) ==> r == test(
                items@[i]@,
            ),
    ensures
        r == exists|i: int| 0 <= i < views(items@).len() && test(#[trigger] views(items@)[i]),
{
    let mut i: usize = 0;
    while i < items.len()
        invariant
            i <= items@.len(),
            forall|j: int| 0 <= j < i ==> !test(#[trigger] views(items@)[j]),
            forall|i: int| 0 <= i < items@.len() ==> call_requires(f, (&#[trigger] items@[i],)),
            forall|i: int, r: bool|
                0 <= i < items@.len() && #[trigger] call_ensures(f, (&items@[i],), r) ==> r == test(
                    items@[i]@,
                ),
        decreases items.len() - i,
    {
        let found = f(&items[i]);
        assert(call_ensures(f, (&items@[i as int],), found));
        assert(views(items@)[i as int] == items@[i as int]@);
        if found {
            return true;
        }
        i += 1;
    }
    false
}

/// The first item that passes a test.
pub open spec fn first<V>(items: Seq<V>, test: spec_fn(V) -> bool) -> Option<V>
    decreases items.len(),
{
    if items.len() == 0 {
        None
    } else if test(items[0]) {
        Some(items[0])
    } else {
        first(items.drop_first(), test)
    }
}

/// The first item that passes a test is among the items and passes it.
pub proof fn lemma_first<V>(items: Seq<V>, test: spec_fn(V) -> bool)
    ensures
        match first(items, test) {
            Some(item) => items.contains(item) && test(item),
            None => forall|i: int| 0 <= i < items.len() ==> !test(#[trigger] items[i]),
        },
    decreases items.len(),
{
    if items.len() > 0 {
        if test(items[0]) {
            assert(items.contains(items[0]));
        } else {
            let rest = items.drop_first();
            lemma_first(rest, test);
            match first(rest, test) {
                Some(item) => {
                    let k = choose|k: int| 0 <= k < rest.len() && rest[k] == item;
                    assert(items[k + 1] == item);
                },
                None => {
                    assert forall|i: int| 0 <= i < items.len() implies !test(
                        #[trigger] items[i],
                    ) by {
                        if i > 0 {
                            assert(rest[i - 1] == items[i]);
                        }
                    }
                },
            }
        }
    }
}

/// The position of the first item that passes a test.
pub fn find<A: View, F: Fn(&A) -> bool>(
    items: &[A],
    f: F,
    Ghost(test): Ghost<spec_fn(A::V) -> bool>,
) -> (r: Option<usize>)
    requires
        forall|i: int| 0 <= i < items@.len() ==> call_requires(f, (&#[trigger] items@[i],)),
        forall|i: int, r: bool|
            0 <= i < items@.len() && #[trigger] call_ensures(f, (&items@[i],), r) ==> r == test(
                items@[i]@,
            ),
    ensures
        match r {
            Some(i) => i < items@.len() && first(views(items@), test) == Some(items@[i as int]@)
                && test(items@[i as int]@) && forall|j: int|
                0 <= j < i ==> !test(#[trigger] views(items@)[j]),
            None => first(views(items@), test) is None && forall|j: int|
                0 <= j < items@.len() ==> !test(#[trigger] views(items@)[j]),
        },
{
    let ghost all = views(items@);
    let mut i: usize = 0;
    assert(all.subrange(0, all.len() as int) =~= all);
    while i < items.len()
        invariant
            i <= items@.len(),
            all == views(items@),
            first(all, test) == first(all.subrange(i as int, all.len() as int), test),
            forall|j: int| 0 <= j < i ==> !test(#[trigger] views(items@)[j]),
            forall|i: int| 0 <= i < items@.len() ==> call_requires(f, (&#[trigger] items@[i],)),
            forall|i: int, r: bool|
                0 <= i < items@.len() && #[trigger] call_ensures(f, (&items@[i],), r) ==> r == test(
                    items@[i]@,
                ),
        decreases items.len() - i,
    {
        let found = f(&items[i]);
        assert(call_ensures(f, (&items@[i as int],), found));
        let ghost rest = all.subrange(i as int, all.len() as int);
        assert(rest[0] == items@[i as int]@);
        if found {
            return Some(i);
        }
        assert(rest.drop_first() =~= all.subrange(i as int + 1, all.len() as int));
        i += 1;
    }
    None
}

/// One more item is kept where it passes the test.
pub proof fn lemma_filter_push<V>(items: Seq<V>, item: V, test: spec_fn(V) -> bool)
    ensures
        items.push(item).filter(test) == (if test(item) {
            items.filter(test).push(item)
        } else {
            items.filter(test)
        }),
{
    reveal(Seq::filter);
    assert(items.push(item).drop_last() =~= items);
}

/// The items that pass a test, in order.
pub fn retain<A: View, F: Fn(&A) -> bool>(
    items: Vec<A>,
    f: F,
    Ghost(test): Ghost<spec_fn(A::V) -> bool>,
) -> (r: Vec<A>)
    requires
        forall|a: A| #[trigger] call_requires(f, (&a,)),
        forall|a: A, r: bool| #[trigger] call_ensures(f, (&a,), r) ==> r == test(a@),
    ensures
        views(r@) == views(items@).filter(test),
{
    let ghost all = views(items@);
    let mut items = items;
    let mut i: usize = 0;
    let ghost mut seen: int = 0;
    proof {
        reveal(Seq::filter);
        assert(all.subrange(0, 0) =~= Seq::<A::V>::empty());
        assert(views(items@).subrange(0, 0) =~= Seq::<A::V>::empty());
        assert(views(items@).subrange(0, items@.len() as int) =~= all.subrange(
            0,
            all.len() as int,
        ));
    }
    while i < items.len()
        invariant
            i <= items@.len(),
            0 <= seen <= all.len(),
            items@.len() - i == all.len() - seen,
            views(items@).subrange(0, i as int) == all.subrange(0, seen).filter(test),
            views(items@).subrange(i as int, items@.len() as int) == all.subrange(
                seen,
                all.len() as int,
            ),
            forall|a: A| #[trigger] call_requires(f, (&a,)),
            forall|a: A, r: bool| #[trigger] call_ensures(f, (&a,), r) ==> r == test(a@),
        decreases items.len() - i,
    {
        let ghost now = views(items@);
        let ghost item = items@[i as int];
        assert(now.subrange(i as int, items@.len() as int)[0] == all.subrange(
            seen,
            all.len() as int,
        )[0]);
        assert(item@ == all[seen]);
        proof {
            lemma_filter_push(all.subrange(0, seen), item@, test);
            assert(all.subrange(0, seen).push(item@) =~= all.subrange(0, seen + 1));
        }
        let ghost rest = now.subrange(i as int, items@.len() as int);
        assert(rest.subrange(1, rest.len() as int) =~= all.subrange(
            seen + 1,
            all.len() as int,
        ));
        let kept = f(&items[i]);
        assert(call_ensures(f, (&item,), kept));
        if kept {
            assert(now.subrange(0, i as int + 1) =~= now.subrange(0, i as int).push(item@));
            assert(rest.subrange(1, rest.len() as int) =~= now.subrange(
                i as int + 1,
                items@.len() as int,
            ));
            i += 1;
        } else {
            let _removed = items.remove(i);
            assert(views(items@) =~= now.remove(i as int));
            assert(views(items@).subrange(0, i as int) =~= now.subrange(0, i as int));
            assert(views(items@).subrange(i as int, items@.len() as int) =~= rest.subrange(
                1,
                rest.len() as int,
            ));
        }
        proof {
            seen = seen + 1;
        }
    }
    proof {
        assert(views(items@).subrange(0, i as int) =~= views(items@));
        assert(all.subrange(0, seen) =~= all);
    }
    items
}

/// The first fault among items.
pub open spec fn first_fault<V>(items: Seq<V>, fault: spec_fn(V) -> Option<ErrorView>) -> Option<
    ErrorView,
>
    decreases items.len(),
{
    if items.len() == 0 {
        None
    } else if fault(items[0]) is Some {
        fault(items[0])
    } else {
        first_fault(items.drop_first(), fault)
    }
}

/// Refuse items at the first that has a fault.
pub fn check_each<A: View, F: Fn(&A) -> Result<(), Error>>(
    items: &[A],
    f: F,
    Ghost(fault): Ghost<spec_fn(A::V) -> Option<ErrorView>>,
) -> (r: Result<(), Error>)
    requires
        forall|i: int| 0 <= i < items@.len() ==> call_requires(f, (&#[trigger] items@[i],)),
        forall|i: int, r: Result<(), Error>|
            0 <= i < items@.len() && #[trigger] call_ensures(f, (&items@[i],), r) ==> refusal(r)
                == fault(items@[i]@),
    ensures
        refusal(r) == first_fault(views(items@), fault),
{
    let ghost all = views(items@);
    let mut i: usize = 0;
    assert(all.subrange(0, all.len() as int) =~= all);
    while i < items.len()
        invariant
            i <= items@.len(),
            all == views(items@),
            first_fault(all, fault) == first_fault(all.subrange(i as int, all.len() as int), fault),
            forall|i: int| 0 <= i < items@.len() ==> call_requires(f, (&#[trigger] items@[i],)),
            forall|i: int, r: Result<(), Error>|
                0 <= i < items@.len() && #[trigger] call_ensures(f, (&items@[i],), r) ==> refusal(r)
                    == fault(items@[i]@),
        decreases items.len() - i,
    {
        let found = f(&items[i]);
        proof {
            assert(call_ensures(f, (&items@[i as int],), found));
            let rest = all.subrange(i as int, all.len() as int);
            assert(rest[0] == items@[i as int]@);
            assert(rest.drop_first() =~= all.subrange(i as int + 1, all.len() as int));
        }
        if found.is_err() {
            return found;
        }
        i += 1;
    }
    Ok(())
}

/// The items in the opposite order.
pub fn reversed<T>(items: Vec<T>) -> (r: Vec<T>)
    ensures
        r@ == items@.reverse(),
{
    let ghost all = items@;
    let mut items = items;
    let mut r: Vec<T> = Vec::new();
    while items.len() > 0
        invariant
            items@.len() + r@.len() == all.len(),
            forall|i: int| 0 <= i < items@.len() ==> #[trigger] items@[i] == all[i],
            forall|i: int| 0 <= i < r@.len() ==> #[trigger] r@[i] == all[all.len() - 1 - i],
        decreases items.len(),
    {
        if let Some(item) = items.pop() {
            r.push(item);
        }
    }
    assert(r@ =~= all.reverse());
    r
}

/// Whether two lists are alike, item by item.
pub open spec fn alike<V>(a: Seq<V>, b: Seq<V>, same: spec_fn(V, V) -> bool) -> bool {
    a.len() == b.len() && forall|i: int| 0 <= i < a.len() ==> same(#[trigger] a[i], b[i])
}

/// Whether two lists are alike, item by item.
pub fn are_alike<A: View, F: Fn(&A, &A) -> bool>(
    a: &[A],
    b: &[A],
    f: F,
    Ghost(same): Ghost<spec_fn(A::V, A::V) -> bool>,
) -> (r: bool)
    requires
        forall|x: &A, y: &A| #[trigger] call_requires(f, (x, y)),
        forall|x: &A, y: &A, r: bool| #[trigger]
            call_ensures(f, (x, y), r) ==> r == same(x@, y@),
    ensures
        r == alike(views(a@), views(b@), same),
{
    let ghost first = views(a@);
    let ghost second = views(b@);
    if a.len() != b.len() {
        return false;
    }
    let mut i: usize = 0;
    while i < a.len()
        invariant
            i <= a@.len(),
            a@.len() == b@.len(),
            first == views(a@),
            second == views(b@),
            forall|x: &A, y: &A| #[trigger] call_requires(f, (x, y)),
            forall|x: &A, y: &A, r: bool| #[trigger]
                call_ensures(f, (x, y), r) ==> r == same(x@, y@),
            forall|j: int| 0 <= j < i ==> same(#[trigger] first[j], second[j]),
        decreases a.len() - i,
    {
        assert(call_requires(f, (&a@[i as int], &b@[i as int])));
        let found = f(&a[i], &b[i]);
        assert(call_ensures(f, (&a@[i as int], &b@[i as int]), found));
        assert(first[i as int] == a@[i as int]@);
        assert(second[i as int] == b@[i as int]@);
        if !found {
            return false;
        }
        i += 1;
    }
    true
}

} // verus!
