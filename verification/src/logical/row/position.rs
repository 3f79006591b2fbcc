//! Positions found by key.

use crate::footprint::{ascending, paths};
use crate::key::{
    lemma_path_irreflexive, lemma_path_total, lemma_path_transitive, path_less, Key, Path,
};
use vstd::prelude::*;

verus! {

/// A map from keys to positions, kept in key order.
pub struct KeyIndex {
    keys: Vec<Key>,
    positions: Vec<usize>,
}

impl View for KeyIndex {
    type V = Map<Path, usize>;

    closed spec fn view(&self) -> Map<Path, usize> {
        Map::new(
            |key: Path| paths(self.keys@).contains(key),
            |key: Path| self.positions@[paths(self.keys@).index_of(key)],
        )
    }
}

/// A key stands once in an ascending list.
proof fn lemma_index_of(keys: Seq<Path>, i: int)
    requires
        ascending(keys),
        0 <= i < keys.len(),
    ensures
        keys.contains(keys[i]),
        keys.index_of(keys[i]) == i,
{
    let j = keys.index_of(keys[i]);
    assert(keys[j] == keys[i]);
    lemma_path_irreflexive(keys[i]);
    if i < j {
        assert(path_less(keys[i], keys[j]));
    } else if j < i {
        assert(path_less(keys[j], keys[i]));
    }
}

impl KeyIndex {
    #[verifier::type_invariant]
    spec fn well_formed(self) -> bool {
        &&& self.keys@.len() == self.positions@.len()
        &&& ascending(paths(self.keys@))
    }

    /// The empty map.
    pub fn new() -> (r: KeyIndex)
        ensures
            r@ == Map::<Path, usize>::empty(),
    {
        let r = KeyIndex { keys: Vec::new(), positions: Vec::new() };
        assert(r@ =~= Map::<Path, usize>::empty());
        r
    }

    /// Where a key is in the order, or would be.
    fn lower_bound(&self, key: &Key) -> (r: usize)
        ensures
            r <= self.keys@.len(),
            forall|i: int| 0 <= i < r ==> path_less(#[trigger] paths(self.keys@)[i], key@),
            forall|i: int|
                r <= i < self.keys@.len() ==> !path_less(#[trigger] paths(self.keys@)[i], key@),
            self@.dom().contains(key@) == (r < self.keys@.len() && paths(self.keys@)[r as int]
                == key@),
            self@.dom().contains(key@) ==> self@[key@] == self.positions@[r as int],
    {
        proof {
            use_type_invariant(self);
        }
        let ghost order = paths(self.keys@);
        let mut low: usize = 0;
        let mut high: usize = self.keys.len();
        while low < high
            invariant
                low <= high <= self.keys@.len(),
                order == paths(self.keys@),
                ascending(order),
                forall|i: int| 0 <= i < low ==> path_less(#[trigger] order[i], key@),
                forall|i: int| high <= i < order.len() ==> !path_less(#[trigger] order[i], key@),
            decreases high - low,
        {
            let middle: usize = low + (high - low) / 2;
            assert(order[middle as int] == self.keys@[middle as int]@);
            if self.keys[middle].less(key) {
                proof {
                    assert forall|i: int| 0 <= i < middle + 1 implies path_less(
                        #[trigger] order[i],
                        key@,
                    ) by {
                        if i < middle {
                            assert(path_less(order[i], order[middle as int]));
                            lemma_path_transitive(order[i], order[middle as int], key@);
                        }
                    }
                }
                low = middle + 1;
            } else {
                proof {
                    assert forall|i: int| middle <= i < order.len() implies !path_less(
                        #[trigger] order[i],
                        key@,
                    ) by {
                        if i > middle && path_less(order[i], key@) {
                            assert(path_less(order[middle as int], order[i]));
                            lemma_path_transitive(order[middle as int], order[i], key@);
                        }
                    }
                }
                high = middle;
            }
        }
        proof {
            lemma_path_irreflexive(key@);
            if order.contains(key@) {
                let i = order.index_of(key@);
                assert(order[i] == key@);
                if i > low {
                    assert(path_less(order[low as int], order[i]));
                }
            }
            if low < order.len() && order[low as int] == key@ {
                lemma_index_of(order, low as int);
            }
        }
        low
    }

    /// The position of a key.
    pub fn get(&self, key: &Key) -> (r: Option<usize>)
        ensures
            r == (if self@.dom().contains(key@) {
                Some(self@[key@])
            } else {
                None
            }),
    {
        proof {
            use_type_invariant(self);
        }
        let at: usize = self.lower_bound(key);
        assert(at < self.keys@.len() ==> paths(self.keys@)[at as int] == self.keys@[at as int]@);
        if at < self.keys.len() && self.keys[at].same(key) {
            Some(self.positions[at])
        } else {
            None
        }
    }

    /// Put a key at a position.
    pub fn insert(self, key: Key, position: usize) -> (r: KeyIndex)
        ensures
            r@ == self@.insert(key@, position),
    {
        proof {
            use_type_invariant(&self);
        }
        let at: usize = self.lower_bound(&key);
        let ghost order = paths(self.keys@);
        let ghost before = self@;
        let path = Ghost(key@);
        assert(at < order.len() ==> order[at as int] == self.keys@[at as int]@);
        let here = at < self.keys.len() && self.keys[at].same(&key);
        let KeyIndex { keys, positions } = self;
        let mut keys = keys;
        let mut positions = positions;
        if here {
            positions.set(at, position);
            let r = KeyIndex { keys, positions };
            proof {
                let want = before.insert(path@, position);
                lemma_index_of(order, at as int);
                assert forall|k: Path| r@.dom().contains(k) implies #[trigger] r@[k]
                    == want[k] by {
                    let i = order.index_of(k);
                    assert(order[i] == k);
                }
                assert(r@.dom() =~= want.dom());
                assert(r@ =~= want);
            }
            return r;
        }
        keys.insert(at, key);
        positions.insert(at, position);
        let ghost more = paths(keys@);
        proof {
            assert(more =~= order.insert(at as int, path@));
            assert forall|i: int, j: int| 0 <= i < j < more.len() implies path_less(
                #[trigger] more[i],
                #[trigger] more[j],
            ) by {
                if j < at {
                    assert(more[i] == order[i] && more[j] == order[j]);
                } else if i < at && j == at {
                    assert(more[i] == order[i]);
                } else if i < at {
                    assert(more[i] == order[i] && more[j] == order[j - 1]);
                } else if i == at {
                    assert(more[j] == order[j - 1]);
                    assert(!path_less(order[j - 1], path@));
                    lemma_path_total(order[j - 1], path@);
                    if order[j - 1] == path@ {
                        assert(order.contains(path@));
                    }
                } else {
                    assert(more[i] == order[i - 1] && more[j] == order[j - 1]);
                }
            }
        }
        let r = KeyIndex { keys, positions };
        proof {
            let want = before.insert(path@, position);
            assert forall|k: Path| r@.dom().contains(k) == want.dom().contains(k) by {
                if more.contains(k) {
                    let i = more.index_of(k);
                    assert(more[i] == k);
                    if i < at {
                        assert(order[i] == k);
                    } else if i > at {
                        assert(order[i - 1] == k);
                    }
                }
                if order.contains(k) {
                    let i = order.index_of(k);
                    assert(order[i] == k);
                    if i < at {
                        assert(more[i] == k);
                    } else {
                        assert(more[i + 1] == k);
                    }
                }
                assert(more[at as int] == path@);
            }
            assert forall|k: Path| r@.dom().contains(k) implies #[trigger] r@[k] == want[k] by {
                let i = more.index_of(k);
                assert(more[i] == k);
                lemma_index_of(more, at as int);
                if i < at {
                    assert(order[i] == k);
                    lemma_index_of(order, i);
                } else if i > at {
                    assert(order[i - 1] == k);
                    lemma_index_of(order, i - 1);
                }
            }
            assert(r@.dom() =~= want.dom());
            assert(r@ =~= want);
        }
        r
    }

    /// Forget a key.
    pub fn remove(self, key: &Key) -> (r: KeyIndex)
        ensures
            r@ == self@.remove(key@),
    {
        proof {
            use_type_invariant(&self);
        }
        let at: usize = self.lower_bound(key);
        let ghost order = paths(self.keys@);
        let ghost before = self@;
        assert(at < order.len() ==> order[at as int] == self.keys@[at as int]@);
        if !(at < self.keys.len() && self.keys[at].same(key)) {
            assert(self@ =~= self@.remove(key@));
            return self;
        }
        let KeyIndex { keys, positions } = self;
        let mut keys = keys;
        let mut positions = positions;
        let _key = keys.remove(at);
        let _position = positions.remove(at);
        let ghost less = paths(keys@);
        proof {
            assert(less =~= order.remove(at as int));
            assert forall|i: int, j: int| 0 <= i < j < less.len() implies path_less(
                #[trigger] less[i],
                #[trigger] less[j],
            ) by {
                let a = if i < at {
                    i
                } else {
                    i + 1
                };
                let b = if j < at {
                    j
                } else {
                    j + 1
                };
                assert(less[i] == order[a] && less[j] == order[b]);
            }
        }
        let r = KeyIndex { keys, positions };
        proof {
            let want = before.remove(key@);
            assert forall|k: Path| r@.dom().contains(k) == want.dom().contains(k) by {
                if less.contains(k) {
                    let i = less.index_of(k);
                    let a = if i < at {
                        i
                    } else {
                        i + 1
                    };
                    assert(less[i] == k);
                    assert(order[a] == k);
                    if k == key@ {
                        lemma_index_of(order, a);
                        lemma_index_of(order, at as int);
                    }
                }
                if order.contains(k) && k != key@ {
                    let i = order.index_of(k);
                    assert(order[i] == k);
                    if i < at {
                        assert(less[i] == k);
                    } else {
                        assert(less[i - 1] == k);
                    }
                }
            }
            assert forall|k: Path| r@.dom().contains(k) implies #[trigger] r@[k] == want[k] by {
                let i = less.index_of(k);
                assert(less[i] == k);
                let a = if i < at {
                    i
                } else {
                    i + 1
                };
                assert(order[a] == k);
                lemma_index_of(order, a);
            }
            assert(r@.dom() =~= want.dom());
            assert(r@ =~= want);
        }
        r
    }
}

} // verus!
