//! Entries in key order, each key once.

use super::keys::{EntryView, IndexEntry};
use crate::codec::views;
use crate::footprint::ascending;
use crate::key::{
    lemma_path_irreflexive, lemma_path_total, lemma_path_transitive, path_less, Key, Path,
};
use vstd::prelude::*;

verus! {

/// The keys of entries, in order.
pub open spec fn entry_keys(entries: Seq<EntryView>) -> Seq<Path> {
    Seq::new(entries.len(), |i: int| entries[i].key)
}

/// Whether a key is among entries.
pub open spec fn owns(entries: Seq<EntryView>, key: Path) -> bool {
    exists|i: int| 0 <= i < entries.len() && (#[trigger] entries[i]).key == key
}

/// What is stored under a key.
pub open spec fn owner_of(entries: Seq<EntryView>, key: Path) -> Option<Seq<u8>> {
    if owns(entries, key) {
        let i = choose|i: int| 0 <= i < entries.len() && (#[trigger] entries[i]).key == key;
        Some(entries[i].value)
    } else {
        None
    }
}

/// How many leading entries have a key below the given one.
pub open spec fn rank(entries: Seq<EntryView>, key: Path) -> nat
    decreases entries.len(),
{
    if entries.len() == 0 || !path_less(entries[0].key, key) {
        0
    } else {
        1 + rank(entries.drop_first(), key)
    }
}

/// Entries with one more at its place in key order.
pub open spec fn placed(entries: Seq<EntryView>, entry: EntryView) -> Seq<EntryView> {
    entries.insert(rank(entries, entry.key) as int, entry)
}

/// The position behind which no key is below the given one.
proof fn lemma_rank(entries: Seq<EntryView>, key: Path, n: int)
    requires
        0 <= n <= entries.len(),
        forall|i: int| 0 <= i < n ==> path_less((#[trigger] entries[i]).key, key),
        n < entries.len() ==> !path_less(entries[n].key, key),
    ensures
        rank(entries, key) == n,
    decreases entries.len(),
{
    if n > 0 {
        let rest = entries.drop_first();
        assert(path_less(entries[0].key, key));
        assert forall|i: int| 0 <= i < n - 1 implies path_less((#[trigger] rest[i]).key, key) by {
            assert(rest[i] == entries[i + 1]);
        }
        lemma_rank(rest, key, n - 1);
    }
}

/// In ascending entries every key stands once.
pub proof fn lemma_owner(entries: Seq<EntryView>, i: int)
    requires
        ascending(entry_keys(entries)),
        0 <= i < entries.len(),
    ensures
        owner_of(entries, entries[i].key) == Some(entries[i].value),
{
    let key = entries[i].key;
    let j = choose|j: int| 0 <= j < entries.len() && (#[trigger] entries[j]).key == key;
    let keys = entry_keys(entries);
    assert(entries[i].key == key);
    lemma_path_irreflexive(key);
    if i < j {
        assert(path_less(keys[i], keys[j]));
    } else if j < i {
        assert(path_less(keys[j], keys[i]));
    }
}

/// A map from keys to what is stored under them, in key order.
#[derive(Debug, PartialEq, Eq)]
pub struct OwnerMap {
    entries: Vec<IndexEntry>,
}

impl OwnerMap {
    #[verifier::type_invariant]
    spec fn well_formed(self) -> bool {
        ascending(entry_keys(views(self.entries@)))
    }

    /// The entries in key order.
    pub closed spec fn order(&self) -> Seq<EntryView> {
        views(self.entries@)
    }

    /// The empty map.
    pub fn new() -> (r: OwnerMap)
        ensures
            r.order() == Seq::<EntryView>::empty(),
    {
        let entries: Vec<IndexEntry> = Vec::new();
        assert(views(entries@) =~= Seq::<EntryView>::empty());
        OwnerMap { entries }
    }

    /// The entries in key order.
    pub fn entries(&self) -> (r: &[IndexEntry])
        ensures
            views(r@) == self.order(),
            ascending(entry_keys(self.order())),
    {
        proof {
            use_type_invariant(self);
        }
        self.entries.as_slice()
    }

    /// The first position whose key is not below the given one.
    fn lower_bound(&self, key: &Key) -> (r: usize)
        ensures
            r == rank(self.order(), key@),
            r <= self.entries@.len(),
            forall|i: int| 0 <= i < r ==> path_less((#[trigger] self.order()[i]).key, key@),
            forall|i: int|
                r <= i < self.order().len() ==> !path_less((#[trigger] self.order()[i]).key, key@),
    {
        proof {
            use_type_invariant(self);
        }
        let ghost order = self.order();
        let ghost keys = entry_keys(order);
        let mut low: usize = 0;
        let mut high: usize = self.entries.len();
        while low < high
            invariant
                low <= high <= self.entries@.len(),
                order == views(self.entries@),
                keys == entry_keys(order),
                ascending(keys),
                forall|i: int| 0 <= i < low ==> path_less((#[trigger] order[i]).key, key@),
                forall|i: int|
                    high <= i < order.len() ==> !path_less((#[trigger] order[i]).key, key@),
            decreases high - low,
        {
            let middle: usize = low + (high - low) / 2;
            assert(order[middle as int] == self.entries@[middle as int]@);
            if self.entries[middle].key.less(key) {
                proof {
                    assert forall|i: int| 0 <= i < middle + 1 implies path_less(
                        (#[trigger] order[i]).key,
                        key@,
                    ) by {
                        if i < middle {
                            assert(path_less(keys[i], keys[middle as int]));
                            lemma_path_transitive(order[i].key, order[middle as int].key, key@);
                        }
                    }
                }
                low = middle + 1;
            } else {
                proof {
                    assert forall|i: int| middle <= i < order.len() implies !path_less(
                        (#[trigger] order[i]).key,
                        key@,
                    ) by {
                        if i > middle && path_less(order[i].key, key@) {
                            assert(path_less(keys[middle as int], keys[i]));
                            lemma_path_transitive(order[middle as int].key, order[i].key, key@);
                        }
                    }
                }
                high = middle;
            }
        }
        proof {
            lemma_rank(order, key@, low as int);
        }
        low
    }

    /// What is stored under a key.
    pub fn get(&self, key: &Key) -> (r: Option<&Vec<u8>>)
        ensures
            match r {
                Some(value) => owner_of(self.order(), key@) == Some(value@),
                None => owner_of(self.order(), key@) is None,
            },
    {
        proof {
            use_type_invariant(self);
        }
        let at: usize = self.lower_bound(key);
        let ghost order = self.order();
        if at < self.entries.len() && self.entries[at].key.same(key) {
            proof {
                assert(order[at as int] == self.entries@[at as int]@);
                lemma_owner(order, at as int);
            }
            return Some(&self.entries[at].value);
        }
        proof {
            if owns(order, key@) {
                let i = choose|i: int| 0 <= i < order.len() && (#[trigger] order[i]).key == key@;
                lemma_path_irreflexive(key@);
                assert(i >= at);
                if i > at {
                    let keys = entry_keys(order);
                    assert(path_less(keys[at as int], keys[i]));
                    assert(!path_less(order[at as int].key, key@));
                } else {
                    assert(order[at as int] == self.entries@[at as int]@);
                }
            }
        }
        None
    }

    /// Whether a key is in the map.
    pub fn contains(&self, key: &Key) -> (r: bool)
        ensures
            r == owns(self.order(), key@),
    {
        self.get(key).is_some()
    }

    /// Add an entry under a new key. An entry under a key that is there already
    /// is not added.
    pub fn insert(self, entry: IndexEntry) -> (r: (OwnerMap, bool))
        ensures
            r.1 == !owns(self.order(), entry@.key),
            r.0.order() == (if r.1 {
                placed(self.order(), entry@)
            } else {
                self.order()
            }),
    {
        proof {
            use_type_invariant(&self);
        }
        if self.contains(&entry.key) {
            return (self, false);
        }
        let at: usize = self.lower_bound(&entry.key);
        let ghost order = self.order();
        let ghost key = entry@.key;
        let OwnerMap { entries } = self;
        let mut entries = entries;
        entries.insert(at, entry);
        proof {
            let more = views(entries@);
            assert(more =~= order.insert(at as int, entry@));
            assert forall|i: int, j: int| 0 <= i < j < more.len() implies path_less(
                #[trigger] entry_keys(more)[i],
                #[trigger] entry_keys(more)[j],
            ) by {
                let keys = entry_keys(order);
                if j < at {
                    assert(more[i] == order[i] && more[j] == order[j]);
                    assert(path_less(keys[i], keys[j]));
                } else if i < at && j == at {
                    assert(more[i] == order[i]);
                    assert(path_less(order[i].key, key));
                } else if i < at {
                    assert(more[i] == order[i] && more[j] == order[j - 1]);
                    assert(path_less(keys[i], keys[j - 1]));
                } else if i == at {
                    assert(more[j] == order[j - 1]);
                    assert(!path_less(order[j - 1].key, key));
                    lemma_path_total(order[j - 1].key, key);
                    assert(order[j - 1].key != key);
                } else {
                    assert(more[i] == order[i - 1] && more[j] == order[j - 1]);
                    assert(path_less(keys[i - 1], keys[j - 1]));
                }
            }
        }
        (OwnerMap { entries }, true)
    }
}

/// A placed entry joins the others.
pub proof fn lemma_placed_owns(entries: Seq<EntryView>, entry: EntryView, key: Path)
    ensures
        owns(placed(entries, entry), key) <==> owns(entries, key) || entry.key == key,
{
    let n = rank(entries, entry.key) as int;
    lemma_rank_bound(entries, entry.key);
    let more = placed(entries, entry);
    assert(more[n] == entry);
    if owns(entries, key) {
        let i = choose|i: int| 0 <= i < entries.len() && (#[trigger] entries[i]).key == key;
        if i < n {
            assert(more[i] == entries[i]);
        } else {
            assert(more[i + 1] == entries[i]);
        }
    }
    if owns(more, key) && entry.key != key {
        let i = choose|i: int| 0 <= i < more.len() && (#[trigger] more[i]).key == key;
        if i < n {
            assert(more[i] == entries[i]);
        } else {
            assert(more[i] == entries[i - 1]);
        }
    }
}

/// The place of an entry lies within the list or at its end.
pub proof fn lemma_rank_bound(entries: Seq<EntryView>, key: Path)
    ensures
        rank(entries, key) <= entries.len(),
    decreases entries.len(),
{
    if entries.len() > 0 {
        lemma_rank_bound(entries.drop_first(), key);
    }
}

} // verus!
