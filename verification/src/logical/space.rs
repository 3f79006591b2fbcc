//! The key space as mutations leave it.

use crate::key::{below, MutationView, Path, RangeView};
use crate::logical::lowering::{all_emit, lemma_mutations_concat, mutations_of, Emission};
use vstd::prelude::*;

verus! {

/// What every key of a key space holds.
pub type Space = spec_fn(Path) -> Option<Seq<u8>>;

/// Whether a range takes a key in.
pub open spec fn in_range(range: RangeView, key: Path) -> bool {
    match range {
        RangeView::Full => true,
        RangeView::Prefix(prefix) => below(key, prefix),
    }
}

/// What a key holds after mutations were carried out in their order.
pub open spec fn held(space: Space, mutations: Seq<MutationView>, key: Path) -> Option<Seq<u8>>
    decreases mutations.len(),
{
    if mutations.len() == 0 {
        space(key)
    } else {
        let before = held(space, mutations.drop_last(), key);
        match mutations.last() {
            MutationView::Put { key: at, value } => if at == key {
                Some(value)
            } else {
                before
            },
            MutationView::Delete { key: at } => if at == key {
                None
            } else {
                before
            },
            MutationView::DeleteRange { range } => if in_range(range, key) {
                None
            } else {
                before
            },
        }
    }
}

/// A key space after mutations were carried out in their order.
pub open spec fn performed(space: Space, mutations: Seq<MutationView>) -> Space {
    |key: Path| held(space, mutations, key)
}

/// Mutations that are carried out behind others start from what these left.
pub proof fn lemma_held_concat(
    space: Space,
    a: Seq<MutationView>,
    b: Seq<MutationView>,
    key: Path,
)
    ensures
        held(space, a + b, key) == held(performed(space, a), b, key),
    decreases b.len(),
{
    if b.len() == 0 {
        assert(a + b =~= a);
    } else {
        assert((a + b).drop_last() =~= a + b.drop_last());
        lemma_held_concat(space, a, b.drop_last(), key);
    }
}

/// Whether an emission puts or deletes a key.
pub open spec fn touches(emission: Emission, key: Path) -> bool {
    match emission {
        Emission::Put(at, _) => at == key,
        Emission::Delete(at) => at == key,
        Emission::DeletePrefix(prefix) => below(key, prefix),
        _ => false,
    }
}

/// Whether an emission deletes a key.
pub open spec fn frees(emission: Emission, key: Path) -> bool {
    touches(emission, key) && !(emission is Put)
}

/// Whether an emission leaves a key as it is.
pub open spec fn spares(key: Path) -> spec_fn(Emission) -> bool {
    |emission: Emission| !touches(emission, key)
}

/// Whether an emission does not put a key.
pub open spec fn puts_nothing_at(key: Path) -> spec_fn(Emission) -> bool {
    |emission: Emission| !(touches(emission, key) && emission is Put)
}

/// Whether an emission leaves a key as it is, or puts a value there.
pub open spec fn agrees(key: Path, value: Seq<u8>) -> spec_fn(Emission) -> bool {
    |emission: Emission| touches(emission, key) ==> emission == Emission::Put(key, value)
}

/// What a key holds after an operation's mutations.
pub open spec fn left_by(space: Space, emissions: Seq<Emission>, key: Path) -> Option<Seq<u8>> {
    held(space, mutations_of(emissions), key)
}

/// What the last emission does to a key.
proof fn lemma_left_step(space: Space, emissions: Seq<Emission>, key: Path)
    requires
        emissions.len() > 0,
    ensures
        left_by(space, emissions, key) == (match emissions.last() {
            Emission::Put(at, value) if at == key => Some(value),
            emission => if touches(emission, key) {
                None
            } else {
                left_by(space, emissions.drop_last(), key)
            },
        }),
{
    let all = mutations_of(emissions);
    let before = mutations_of(emissions.drop_last());
    if all.len() > before.len() {
        assert(all.drop_last() =~= before);
    }
}

/// A key that no emission touches keeps what it holds.
pub proof fn lemma_spared(space: Space, emissions: Seq<Emission>, key: Path)
    requires
        all_emit(emissions, spares(key)),
    ensures
        left_by(space, emissions, key) == space(key),
    decreases emissions.len(),
{
    if emissions.len() > 0 {
        let init = emissions.drop_last();
        lemma_left_step(space, emissions, key);
        assert(spares(key)(emissions[emissions.len() - 1]));
        assert forall|i: int| 0 <= i < init.len() implies spares(key)(#[trigger] init[i]) by {
            assert(init[i] == emissions[i]);
        }
        lemma_spared(space, init, key);
    }
}

/// A key that an emission deletes and none puts holds nothing.
pub proof fn lemma_freed(space: Space, emissions: Seq<Emission>, key: Path, emission: Emission)
    requires
        emissions.contains(emission),
        frees(emission, key),
        all_emit(emissions, puts_nothing_at(key)),
    ensures
        left_by(space, emissions, key) is None,
    decreases emissions.len(),
{
    let init = emissions.drop_last();
    let last = emissions.last();
    lemma_left_step(space, emissions, key);
    assert(puts_nothing_at(key)(emissions[emissions.len() - 1]));
    if !touches(last, key) {
        let k = choose|k: int| 0 <= k < emissions.len() && emissions[k] == emission;
        assert(init[k] == emission);
        assert forall|i: int| 0 <= i < init.len() implies puts_nothing_at(key)(
            #[trigger] init[i],
        ) by {
            assert(init[i] == emissions[i]);
        }
        lemma_freed(space, init, key, emission);
    }
}

/// A key that an emission puts holds its value where what comes behind agrees.
pub proof fn lemma_settled(
    space: Space,
    before: Seq<Emission>,
    behind: Seq<Emission>,
    key: Path,
    value: Seq<u8>,
)
    requires
        before.len() > 0,
        before.last() == Emission::Put(key, value),
        all_emit(behind, agrees(key, value)),
    ensures
        left_by(space, before + behind, key) == Some(value),
    decreases behind.len(),
{
    let all = before + behind;
    lemma_left_step(space, all, key);
    if behind.len() > 0 {
        let init = behind.drop_last();
        assert(all.drop_last() =~= before + init);
        assert(agrees(key, value)(behind[behind.len() - 1]));
        assert forall|i: int| 0 <= i < init.len() implies agrees(key, value)(
            #[trigger] init[i],
        ) by {
            assert(init[i] == behind[i]);
        }
        lemma_settled(space, before, init, key, value);
    }
}

/// A key that an emission puts, and that every emission puts the same value at
/// or leaves, holds the value.
pub proof fn lemma_put(space: Space, emissions: Seq<Emission>, key: Path, value: Seq<u8>)
    requires
        emissions.contains(Emission::Put(key, value)),
        all_emit(emissions, agrees(key, value)),
    ensures
        left_by(space, emissions, key) == Some(value),
{
    let k = choose|k: int|
        0 <= k < emissions.len() && emissions[k] == Emission::Put(key, value);
    let before = emissions.subrange(0, k + 1);
    let behind = emissions.subrange(k + 1, emissions.len() as int);
    assert(emissions =~= before + behind);
    assert(before.last() == emissions[k]);
    assert forall|i: int| 0 <= i < behind.len() implies agrees(key, value)(#[trigger] behind[i]) by {
        assert(behind[i] == emissions[k + 1 + i]);
    }
    lemma_settled(space, before, behind, key, value);
}

/// Operations that are carried out behind each other.
pub proof fn lemma_left_concat(space: Space, a: Seq<Emission>, b: Seq<Emission>, key: Path)
    ensures
        left_by(space, a + b, key) == left_by(performed(space, mutations_of(a)), b, key),
{
    lemma_mutations_concat(a, b);
    lemma_held_concat(space, mutations_of(a), mutations_of(b), key);
}

} // verus!
