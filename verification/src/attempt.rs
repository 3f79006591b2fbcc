//! Sequences of steps that can fail: the first failure ends them.

use vstd::prelude::*;

verus! {

/// The state behind the last item, or the first failure.
pub open spec fn try_fold<S, A, E>(
    start: S,
    items: Seq<A>,
    step: spec_fn(S, A) -> Result<S, E>,
) -> Result<S, E>
    decreases items.len(),
{
    if items.len() == 0 {
        Ok(start)
    } else {
        match try_fold(start, items.drop_last(), step) {
            Err(error) => Err(error),
            Ok(state) => step(state, items.last()),
        }
    }
}

/// The step that appends an item's image.
pub open spec fn map_step<A, B, E>(f: spec_fn(A) -> Result<B, E>) -> spec_fn(Seq<B>, A) -> Result<
    Seq<B>,
    E,
> {
    |done: Seq<B>, item: A|
        match f(item) {
            Err(error) => Err(error),
            Ok(image) => Ok(done.push(image)),
        }
}

/// The image of every item, or the first failure.
pub open spec fn try_map<A, B, E>(items: Seq<A>, f: spec_fn(A) -> Result<B, E>) -> Result<
    Seq<B>,
    E,
> {
    try_fold(Seq::<B>::empty(), items, map_step(f))
}

/// One more item takes one more step.
pub proof fn lemma_try_fold_step<S, A, E>(
    start: S,
    items: Seq<A>,
    i: int,
    step: spec_fn(S, A) -> Result<S, E>,
)
    requires
        0 <= i < items.len(),
    ensures
        try_fold(start, items.subrange(0, i + 1), step) == (match try_fold(
            start,
            items.subrange(0, i),
            step,
        ) {
            Err(error) => Err(error),
            Ok(state) => step(state, items[i]),
        }),
{
    assert(items.subrange(0, i + 1).drop_last() =~= items.subrange(0, i));
    assert(items.subrange(0, i + 1).last() == items[i]);
}

/// What follows a failure does not change it.
pub proof fn lemma_try_fold_stop<S, A, E>(
    start: S,
    items: Seq<A>,
    i: int,
    step: spec_fn(S, A) -> Result<S, E>,
)
    requires
        0 <= i <= items.len(),
        try_fold(start, items.subrange(0, i), step) is Err,
    ensures
        try_fold(start, items, step) == try_fold(start, items.subrange(0, i), step),
    decreases items.len() - i,
{
    if i == items.len() {
        assert(items.subrange(0, i) =~= items);
    } else {
        lemma_try_fold_step(start, items, i, step);
        lemma_try_fold_stop(start, items, i + 1, step);
    }
}

/// No item, no step.
pub proof fn lemma_try_fold_start<S, A, E>(
    start: S,
    items: Seq<A>,
    step: spec_fn(S, A) -> Result<S, E>,
)
    ensures
        try_fold(start, items.subrange(0, 0), step) == Ok::<S, E>(start),
        items.subrange(0, items.len() as int) == items,
{
    assert(items.subrange(0, items.len() as int) =~= items);
}

/// The images are as many as the items, and each is its item's image.
pub proof fn lemma_try_map_ok<A, B, E>(items: Seq<A>, f: spec_fn(A) -> Result<B, E>)
    requires
        try_map(items, f) is Ok,
    ensures
        try_map(items, f)->Ok_0.len() == items.len(),
        forall|i: int|
            0 <= i < items.len() ==> f(items[i]) == Ok::<B, E>(
                #[trigger] try_map(items, f)->Ok_0[i],
            ),
    decreases items.len(),
{
    if items.len() > 0 {
        lemma_try_map_ok(items.drop_last(), f);
        let before = try_map(items.drop_last(), f)->Ok_0;
        let all = try_map(items, f)->Ok_0;
        assert(f(items.last()) is Ok);
        assert(all == before.push(f(items.last())->Ok_0));
        assert forall|i: int| 0 <= i < items.len() implies f(items[i]) == Ok::<B, E>(
            #[trigger] all[i],
        ) by {
            if i < items.len() - 1 {
                assert(all[i] == before[i]);
                assert(items[i] == items.drop_last()[i]);
            }
        }
    }
}

/// Where every item has an image, so has the list.
pub proof fn lemma_try_map_total<A, B, E>(items: Seq<A>, f: spec_fn(A) -> Result<B, E>)
    requires
        forall|i: int| 0 <= i < items.len() ==> f(#[trigger] items[i]) is Ok,
    ensures
        try_map(items, f) is Ok,
    decreases items.len(),
{
    if items.len() > 0 {
        assert forall|i: int| 0 <= i < items.drop_last().len() implies f(
            #[trigger] items.drop_last()[i],
        ) is Ok by {
            assert(items[i] == items.drop_last()[i]);
        }
        lemma_try_map_total(items.drop_last(), f);
        assert(items.last() == items[items.len() - 1]);
    }
}

} // verus!
