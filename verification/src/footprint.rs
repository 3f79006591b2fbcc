//! Conflict footprints: which parts of the key space an operation depends on.
//!
//! A footprint keeps the topmost keys only. A key below another one adds
//! nothing, because an assertion about a key covers everything below it.

use crate::key::{below, lemma_below_antisymmetric, lemma_below_reflexive, lemma_below_transitive};
use crate::key::{lemma_path_asymmetric, lemma_path_irreflexive, lemma_path_total};
use crate::key::{lemma_path_transitive, path_less, Key, Path, Range};
use crate::logical::isolation::IsolationLevel;
use vstd::prelude::*;

verus! {

/// The keys of a set that lie below no other key of it.
pub open spec fn topmost(keys: Set<Path>) -> Set<Path> {
    Set::new(|k: Path| keys.contains(k) && forall|t: Path| keys.contains(t) && below(k, t) ==> t == k)
}

/// Keys in strictly ascending order.
pub open spec fn ascending(order: Seq<Path>) -> bool {
    forall|i: int, j: int| 0 <= i < j < order.len() ==> path_less(#[trigger] order[i], #[trigger] order[j])
}

/// The keys of a list as mathematical values.
pub open spec fn paths(keys: Seq<Key>) -> Seq<Path> {
    Seq::new(keys.len(), |i: int| keys[i]@)
}

/// Two ascending lists of the same keys are one list.
pub proof fn lemma_ascending_unique(a: Seq<Path>, b: Seq<Path>)
    requires
        ascending(a),
        ascending(b),
        forall|p: Path| a.contains(p) <==> b.contains(p),
    ensures
        a == b,
    decreases a.len(),
{
    if a.len() == 0 {
        if b.len() > 0 {
            assert(b.contains(b[0]));
            assert(a.contains(b[0]));
        }
        assert(a =~= b);
    } else {
        assert(a.contains(a[0]));
        assert(b.contains(a[0]));
        let i = choose|i: int| 0 <= i < b.len() && b[i] == a[0];
        assert(b.contains(b[0]));
        assert(a.contains(b[0]));
        let j = choose|j: int| 0 <= j < a.len() && a[j] == b[0];
        if i > 0 && j > 0 {
            assert(path_less(b[0], b[i]));
            assert(path_less(a[0], a[j]));
            lemma_path_asymmetric(a[0], b[0]);
        }
        assert(a[0] == b[0]);
        let a1 = a.drop_first();
        let b1 = b.drop_first();
        assert forall|p: Path| a1.contains(p) <==> b1.contains(p) by {
            if a1.contains(p) {
                let k = choose|k: int| 0 <= k < a1.len() && a1[k] == p;
                assert(a[k + 1] == p);
                assert(path_less(a[0], a[k + 1]));
                lemma_path_asymmetric(a[0], p);
                assert(a.contains(p));
                let m = choose|m: int| 0 <= m < b.len() && b[m] == p;
                assert(b1[m - 1] == p);
            }
            if b1.contains(p) {
                let k = choose|k: int| 0 <= k < b1.len() && b1[k] == p;
                assert(b[k + 1] == p);
                assert(path_less(b[0], b[k + 1]));
                lemma_path_asymmetric(b[0], p);
                assert(b.contains(p));
                let m = choose|m: int| 0 <= m < a.len() && a[m] == p;
                assert(a1[m - 1] == p);
            }
        }
        assert(ascending(a1)) by {
            assert forall|x: int, y: int| 0 <= x < y < a1.len() implies path_less(
                #[trigger] a1[x],
                #[trigger] a1[y],
            ) by {
                assert(path_less(a[x + 1], a[y + 1]));
            }
        }
        assert(ascending(b1)) by {
            assert forall|x: int, y: int| 0 <= x < y < b1.len() implies path_less(
                #[trigger] b1[x],
                #[trigger] b1[y],
            ) by {
                assert(path_less(b[x + 1], b[y + 1]));
            }
        }
        lemma_ascending_unique(a1, b1);
        assert(a =~= seq![a[0]] + a1);
        assert(b =~= seq![b[0]] + b1);
    }
}

/// Reducing a set to its topmost keys before another key joins it changes
/// nothing.
pub proof fn lemma_topmost_insert(keys: Set<Path>, key: Path)
    requires
        keys.finite(),
    ensures
        topmost(topmost(keys).insert(key)) == topmost(keys.insert(key)),
{
    let top = topmost(keys);
    let a = topmost(top.insert(key));
    let b = topmost(keys.insert(key));
    assert forall|k: Path| a.contains(k) <==> b.contains(k) by {
        if a.contains(k) {
            assert forall|t: Path| keys.insert(key).contains(t) && below(k, t) implies t == k by {
                if t != key {
                    lemma_topmost_above(keys, t);
                    let u = choose|u: Path| top.contains(u) && below(t, u);
                    lemma_below_transitive(k, t, u);
                    assert(u == k);
                    lemma_below_antisymmetric(t, k);
                }
            }
        }
        if b.contains(k) {
            assert forall|t: Path| top.insert(key).contains(t) && below(k, t) implies t == k by {
                assert(keys.insert(key).contains(t));
            }
            if k != key {
                assert forall|t: Path| keys.contains(t) && below(k, t) implies t == k by {
                    assert(keys.insert(key).contains(t));
                }
            }
        }
    }
    assert(a =~= b);
}

/// Every key of a finite set lies below a topmost one.
pub proof fn lemma_topmost_above(keys: Set<Path>, key: Path)
    requires
        keys.finite(),
        keys.contains(key),
    ensures
        exists|u: Path| topmost(keys).contains(u) && below(key, u),
    decreases key.len(),
{
    lemma_below_reflexive(key);
    if !topmost(keys).contains(key) {
        let t = choose|t: Path| keys.contains(t) && below(key, t) && t != key;
        if t.len() == key.len() {
            assert(key.subrange(0, t.len() as int) =~= key);
        }
        lemma_topmost_above(keys, t);
        let u = choose|u: Path| topmost(keys).contains(u) && below(t, u);
        lemma_below_transitive(key, t, u);
        assert(topmost(keys).contains(u) && below(key, u));
    }
}

/// A set of keys, none below another, in ascending order.
#[derive(Debug, PartialEq, Eq)]
pub struct KeySet {
    keys: Vec<Key>,
}

impl KeySet {
    /// The keys in ascending order.
    pub closed spec fn order(&self) -> Seq<Path> {
        paths(self.keys@)
    }

    /// The keys.
    pub open spec fn view(&self) -> Set<Path> {
        self.order().to_set()
    }

    #[verifier::type_invariant]
    spec fn well_formed(self) -> bool {
        ascending(paths(self.keys@))
    }

    /// The empty set.
    pub fn new() -> (r: KeySet)
        ensures
            r@ == Set::<Path>::empty(),
            r.order() == Seq::<Path>::empty(),
    {
        let keys: Vec<Key> = Vec::new();
        assert(paths(keys@) =~= Seq::<Path>::empty());
        let r = KeySet { keys };
        assert(r@ =~= Set::<Path>::empty());
        r
    }

    /// The keys in ascending order.
    pub fn keys(&self) -> (r: &[Key])
        ensures
            paths(r@) == self.order(),
            ascending(self.order()),
    {
        proof {
            use_type_invariant(self);
        }
        self.keys.as_slice()
    }

    /// How many keys there are.
    pub fn len(&self) -> (r: usize)
        ensures
            r == self.order().len(),
    {
        self.keys.len()
    }

    /// Whether there is no key.
    pub fn is_empty(&self) -> (r: bool)
        ensures
            r == (self.order().len() == 0),
    {
        self.keys.len() == 0
    }

    /// Whether a key is in the set.
    pub fn contains(&self, key: &Key) -> (r: bool)
        ensures
            r == self@.contains(key@),
    {
        let mut i: usize = 0;
        while i < self.keys.len()
            invariant
                i <= self.keys.len(),
                forall|j: int| 0 <= j < i ==> self.order()[j] != key@,
            decreases self.keys.len() - i,
        {
            if self.keys[i].same(key) {
                assert(self.order()[i as int] == key@);
                return true;
            }
            i += 1;
        }
        false
    }

    /// Whether a key lies at or below a key of the set.
    pub fn covers(&self, key: &Key) -> (r: bool)
        ensures
            r == exists|t: Path| #[trigger] self@.contains(t) && below(key@, t),
    {
        let mut i: usize = 0;
        while i < self.keys.len()
            invariant
                i <= self.keys.len(),
                forall|j: int| 0 <= j < i ==> !below(key@, #[trigger] self.order()[j]),
            decreases self.keys.len() - i,
        {
            if key.starts_with(&self.keys[i]) {
                assert(self.order()[i as int] == self.keys@[i as int]@);
                assert(self@.contains(self.order()[i as int]));
                return true;
            }
            i += 1;
        }
        false
    }

    /// Add a key, and keep the topmost keys.
    pub fn add(self, key: Key) -> (r: KeySet)
        requires
            self@ == topmost(self@),
        ensures
            r@ == topmost(self@.insert(key@)),
    {
        proof {
            use_type_invariant(&self);
            lemma_below_reflexive(key@);
        }
        let ghost set = self@;
        if self.covers(&key) {
            proof {
                let t = choose|t: Path| #[trigger] set.contains(t) && below(key@, t);
                let all = set.insert(key@);
                assert forall|k: Path| topmost(all).contains(k) <==> set.contains(k) by {
                    if topmost(all).contains(k) && !set.contains(k) {
                        assert(k == key@);
                        assert(all.contains(t));
                    }
                    if set.contains(k) {
                        assert(topmost(set).contains(k));
                        assert forall|u: Path| all.contains(u) && below(k, u) implies u == k by {
                            if !set.contains(u) {
                                lemma_below_transitive(k, u, t);
                                assert(t == k);
                                lemma_below_antisymmetric(u, k);
                            }
                        }
                    }
                }
                assert(topmost(all) =~= set);
            }
            return self;
        }
        let ghost order = self.order();
        let mut keys: Vec<Key> = Vec::new();
        let mut placed: bool = false;
        let mut i: usize = 0;
        let n: usize = self.keys.len();
        while i < n
            invariant
                n == self.keys@.len(),
                i <= n,
                order == paths(self.keys@),
                ascending(order),
                set == order.to_set(),
                !set.contains(key@),
                ascending(paths(keys@)),
                placed ==> paths(keys@).contains(key@),
                forall|j: int| 0 <= j < keys@.len() ==> #[trigger] paths(keys@)[j] == key@ || (
                exists|m: int| 0 <= m < i && order[m] == paths(keys@)[j] && !below(order[m], key@)),
                forall|m: int|
                    0 <= m < i && !below(#[trigger] order[m], key@) ==> paths(keys@).contains(
                        order[m],
                    ),
                !placed ==> forall|j: int|
                    0 <= j < keys@.len() ==> path_less(#[trigger] paths(keys@)[j], key@),
                i < n ==> forall|j: int|
                    0 <= j < keys@.len() && paths(keys@)[j] != key@ ==> path_less(
                        #[trigger] paths(keys@)[j],
                        order[i as int],
                    ),
                placed && i < n ==> path_less(key@, order[i as int]),
                placed ==> forall|m: int| i <= m < n ==> path_less(key@, #[trigger] order[m]),
            decreases n - i,
        {
            let current = &self.keys[i];
            assert(order[i as int] == current@);
            assert(set.contains(order[i as int]));
            let ghost before = paths(keys@);
            if !placed && key.less(current) {
                keys.push(key.clone());
                placed = true;
                proof {
                    let after = paths(keys@);
                    assert(after =~= before.push(key@));
                    assert(after[before.len() as int] == key@);
                    assert forall|m: int| 0 <= m < i && !below(#[trigger] order[m], key@) implies
                        after.contains(order[m]) by {
                        let w = choose|w: int| 0 <= w < before.len() && before[w] == order[m];
                        assert(after[w] == order[m]);
                    }
                    assert forall|m: int| i <= m < n implies path_less(key@, #[trigger] order[m]) by {
                        if m > i {
                            lemma_path_transitive(key@, order[i as int], order[m]);
                        }
                    }
                }
            }
            let ghost middle = paths(keys@);
            if !current.starts_with(&key) {
                proof {
                    if !placed {
                        lemma_path_total(key@, current@);
                    }
                }
                keys.push(current.clone());
                proof {
                    let after = paths(keys@);
                    assert(after =~= middle.push(current@));
                    assert(after[middle.len() as int] == current@);
                    assert forall|j: int| 0 <= j < middle.len() implies path_less(
                        #[trigger] after[j],
                        current@,
                    ) by {
                        assert(after[j] == middle[j]);
                        if middle[j] != key@ {
                            assert(middle[j] == before[j]);
                        } else {
                            lemma_path_irreflexive(key@);
                        }
                    }
                    assert forall|m: int| 0 <= m < i + 1 && !below(#[trigger] order[m], key@) implies
                        after.contains(order[m]) by {
                        if m < i {
                            let w = choose|w: int| 0 <= w < middle.len() && middle[w] == order[m];
                            assert(after[w] == order[m]);
                        }
                    }
                    if placed {
                        let w = choose|w: int| 0 <= w < middle.len() && middle[w] == key@;
                        assert(after[w] == key@);
                    }
                }
            }
            proof {
                let after = paths(keys@);
                assert forall|j: int| 0 <= j < after.len() implies #[trigger] after[j] == key@ || (
                exists|m: int| 0 <= m < i + 1 && order[m] == after[j] && !below(order[m], key@)) by {
                    if j < middle.len() {
                        assert(after[j] == middle[j]);
                    } else {
                        assert(order[i as int] == after[j]);
                    }
                }
                if i + 1 < n {
                    assert forall|j: int| 0 <= j < after.len() && after[j] != key@ implies path_less(
                        #[trigger] after[j],
                        order[i as int + 1],
                    ) by {
                        let m = choose|m: int|
                            0 <= m < i + 1 && order[m] == after[j] && !below(order[m], key@);
                        assert(path_less(order[m], order[i as int + 1]));
                    }
                }
                if !placed {
                    lemma_path_total(key@, current@);
                }
            }
            i += 1;
        }
        let ghost before = paths(keys@);
        if !placed {
            keys.push(key.clone());
            proof {
                let after = paths(keys@);
                assert(after =~= before.push(key@));
                assert(after[before.len() as int] == key@);
                assert forall|m: int| 0 <= m < n && !below(#[trigger] order[m], key@) implies
                    after.contains(order[m]) by {
                    let w = choose|w: int| 0 <= w < before.len() && before[w] == order[m];
                    assert(after[w] == order[m]);
                }
            }
        }
        let r = KeySet { keys };
        proof {
            let after = paths(keys@);
            let all = set.insert(key@);
            assert forall|k: Path| topmost(all).contains(k) <==> r@.contains(k) by {
                if topmost(all).contains(k) {
                    if k != key@ {
                        assert(set.contains(k));
                        let m = choose|m: int| 0 <= m < order.len() && order[m] == k;
                        if below(order[m], key@) {
                            assert(all.contains(key@));
                            assert(false);
                        }
                        assert(after.contains(order[m]));
                    }
                }
                if r@.contains(k) {
                    let j = choose|j: int| 0 <= j < after.len() && after[j] == k;
                    assert(after[j] == k);
                    if k == key@ {
                        assert forall|t: Path| all.contains(t) && below(k, t) implies t == k by {
                            if set.contains(t) {
                                assert(set.contains(t) && below(key@, t));
                            }
                        }
                    } else {
                        let m = choose|m: int|
                            0 <= m < n && order[m] == after[j] && !below(order[m], key@);
                        assert(set.contains(order[m]));
                        assert(topmost(set).contains(k));
                    }
                }
            }
            assert(topmost(all) =~= r@);
        }
        r
    }

    /// Whether two sets hold the same keys.
    pub fn same(&self, other: &KeySet) -> (r: bool)
        ensures
            r == (self@ == other@),
    {
        proof {
            use_type_invariant(self);
            use_type_invariant(other);
            if self@ == other@ {
                assert forall|p: Path| self.order().contains(p) <==> other.order().contains(p) by {
                    assert(self@.contains(p) <==> other@.contains(p));
                }
                lemma_ascending_unique(self.order(), other.order());
            }
        }
        if self.keys.len() != other.keys.len() {
            assert(self.order().len() != other.order().len());
            return false;
        }
        let mut i: usize = 0;
        while i < self.keys.len()
            invariant
                i <= self.keys.len(),
                self.keys.len() == other.keys.len(),
                self@ == other@ ==> self.order() == other.order(),
                forall|j: int| 0 <= j < i ==> self.order()[j] == other.order()[j],
            decreases self.keys.len() - i,
        {
            if !self.keys[i].same(&other.keys[i]) {
                assert(self.order()[i as int] != other.order()[i as int]);
                return false;
            }
            i += 1;
        }
        assert(self.order() =~= other.order());
        true
    }
}

impl Clone for KeySet {
    fn clone(&self) -> (r: Self)
        ensures
            r.order() == self.order(),
            r@ == self@,
    {
        proof {
            use_type_invariant(self);
        }
        let mut keys: Vec<Key> = Vec::new();
        let mut i: usize = 0;
        while i < self.keys.len()
            invariant
                i <= self.keys.len(),
                keys@.len() == i,
                forall|j: int| 0 <= j < i ==> (#[trigger] keys@[j])@ == self.keys@[j]@,
            decreases self.keys.len() - i,
        {
            keys.push(self.keys[i].clone());
            i += 1;
        }
        assert(paths(keys@) =~= paths(self.keys@));
        KeySet { keys }
    }
}

/// A position in the authority's admission order.
#[derive(Clone, Copy, Debug, PartialEq, Eq, PartialOrd, Ord, Hash, Structural)]
pub struct AdmissionSeq(pub u64);

/// A demand that no admission up to a position has touched a range.
#[derive(Debug, PartialEq, Eq)]
pub struct RangeAssert {
    pub range: Range,
    pub upto: AdmissionSeq,
}

/// The key-space dependencies of an operation.
///
/// Constraints are checked at every isolation level, writes take part in
/// write-write validation, and reads count for serializable isolation alone.
#[derive(Debug, PartialEq, Eq)]
pub struct ConflictFootprint {
    constraints: KeySet,
    writes: KeySet,
    reads: KeySet,
}

/// A footprint as a mathematical value.
#[verifier::ext_equal]
pub struct FootprintView {
    pub constraints: Set<Path>,
    pub writes: Set<Path>,
    pub reads: Set<Path>,
}

impl FootprintView {
    /// Whether each part holds topmost keys only.
    pub open spec fn pruned(self) -> bool {
        &&& self.constraints == topmost(self.constraints)
        &&& self.writes == topmost(self.writes)
        &&& self.reads == topmost(self.reads)
    }

    /// Every key that an isolation level asserts.
    pub open spec fn asserted(self, isolation: IsolationLevel) -> Set<Path> {
        match isolation {
            IsolationLevel::Snapshot => self.constraints.union(self.writes),
            IsolationLevel::Serializable => self.constraints.union(self.writes).union(self.reads),
        }
    }
}

/// Reducing a set to its topmost keys twice is reducing it once.
pub proof fn lemma_topmost_idempotent(keys: Set<Path>)
    ensures
        topmost(topmost(keys)) == topmost(keys),
{
    assert(topmost(topmost(keys)) =~= topmost(keys));
}

/// The set of keys in an ascending list is finite.
proof fn lemma_order_finite(order: Seq<Path>)
    ensures
        order.to_set().finite(),
{
    vstd::seq_lib::seq_to_set_is_finite(order);
}

impl ConflictFootprint {
    /// The footprint as a mathematical value.
    pub closed spec fn view(&self) -> FootprintView {
        FootprintView {
            constraints: self.constraints@,
            writes: self.writes@,
            reads: self.reads@,
        }
    }

    #[verifier::type_invariant]
    spec fn well_formed(self) -> bool {
        &&& self.constraints@ == topmost(self.constraints@)
        &&& self.writes@ == topmost(self.writes@)
        &&& self.reads@ == topmost(self.reads@)
    }

    /// The footprint that depends on nothing.
    pub fn new() -> (r: ConflictFootprint)
        ensures
            r@.constraints == Set::<Path>::empty(),
            r@.writes == Set::<Path>::empty(),
            r@.reads == Set::<Path>::empty(),
    {
        assert(topmost(Set::<Path>::empty()) =~= Set::<Path>::empty());
        ConflictFootprint { constraints: KeySet::new(), writes: KeySet::new(), reads: KeySet::new() }
    }

    /// Add a mandatory dependency.
    pub fn add_constraint(self, key: Key) -> (r: ConflictFootprint)
        ensures
            r@.constraints == topmost(self@.constraints.insert(key@)),
            r@.writes == self@.writes,
            r@.reads == self@.reads,
    {
        proof {
            use_type_invariant(&self);
            lemma_topmost_idempotent(self.constraints@.insert(key@));
        }
        ConflictFootprint {
            constraints: self.constraints.add(key),
            writes: self.writes,
            reads: self.reads,
        }
    }

    /// Add a write dependency.
    pub fn add_write(self, key: Key) -> (r: ConflictFootprint)
        ensures
            r@.constraints == self@.constraints,
            r@.writes == topmost(self@.writes.insert(key@)),
            r@.reads == self@.reads,
    {
        proof {
            use_type_invariant(&self);
            lemma_topmost_idempotent(self.writes@.insert(key@));
        }
        ConflictFootprint {
            constraints: self.constraints,
            writes: self.writes.add(key),
            reads: self.reads,
        }
    }

    /// Add a read dependency.
    pub fn add_read(self, key: Key) -> (r: ConflictFootprint)
        ensures
            r@.constraints == self@.constraints,
            r@.writes == self@.writes,
            r@.reads == topmost(self@.reads.insert(key@)),
    {
        proof {
            use_type_invariant(&self);
            lemma_topmost_idempotent(self.reads@.insert(key@));
        }
        ConflictFootprint {
            constraints: self.constraints,
            writes: self.writes,
            reads: self.reads.add(key),
        }
    }

    /// The mandatory dependencies.
    pub fn constraints(&self) -> (r: &KeySet)
        ensures
            r@ == self@.constraints,
            r@ == topmost(r@),
    {
        proof {
            use_type_invariant(self);
        }
        &self.constraints
    }

    /// The write dependencies.
    pub fn writes(&self) -> (r: &KeySet)
        ensures
            r@ == self@.writes,
            r@ == topmost(r@),
    {
        proof {
            use_type_invariant(self);
        }
        &self.writes
    }

    /// The read dependencies.
    pub fn reads(&self) -> (r: &KeySet)
        ensures
            r@ == self@.reads,
            r@ == topmost(r@),
    {
        proof {
            use_type_invariant(self);
        }
        &self.reads
    }

    /// Whether two footprints depend on the same keys.
    pub fn same(&self, other: &ConflictFootprint) -> (r: bool)
        ensures
            r == (self@ == other@),
    {
        self.constraints.same(&other.constraints) && self.writes.same(&other.writes)
            && self.reads.same(&other.reads)
    }

    /// The assertions that an isolation level asks of the authority, in
    /// ascending key order, each up to the given admission.
    pub fn plan(&self, isolation: IsolationLevel, upto: AdmissionSeq) -> (r: Vec<RangeAssert>)
        ensures
            forall|i: int| 0 <= i < r@.len() ==> (#[trigger] r@[i]).upto == upto && r@[i].range is Prefix,
            ascending(asserted_paths(r@)),
            asserted_paths(r@).to_set() == topmost(self@.asserted(isolation)),
    {
        let mut merged = self.constraints.clone();
        let ghost mut added = self@.constraints;
        proof {
            use_type_invariant(self);
            lemma_order_finite(self.constraints.order());
        }
        merged = merge(merged, &self.writes, Ghost(added));
        proof {
            added = added.union(self.writes@);
            lemma_order_finite(self.writes.order());
            lemma_order_finite(self.reads.order());
        }
        if isolation == IsolationLevel::Serializable {
            merged = merge(merged, &self.reads, Ghost(added));
        }
        let keys = merged.keys();
        let mut out: Vec<RangeAssert> = Vec::new();
        let mut i: usize = 0;
        while i < keys.len()
            invariant
                i <= keys@.len(),
                out@.len() == i,
                forall|j: int|
                    0 <= j < i ==> (#[trigger] out@[j]).upto == upto && out@[j].range@
                        == crate::key::RangeView::Prefix(keys@[j]@),
            decreases keys.len() - i,
        {
            out.push(RangeAssert { range: Range::Prefix(keys[i].clone()), upto });
            i += 1;
        }
        proof {
            assert forall|j: int| 0 <= j < out@.len() implies (#[trigger] out@[j]).range is Prefix by {
                assert(out@[j].range@ == crate::key::RangeView::Prefix(keys@[j]@));
            }
            assert(asserted_paths(out@) =~= paths(keys@)) by {
                assert forall|j: int| 0 <= j < out@.len() implies asserted_paths(out@)[j] == paths(
                    keys@,
                )[j] by {
                    assert(out@[j].range@ == crate::key::RangeView::Prefix(keys@[j]@));
                }
            }
        }
        out
    }
}

impl Clone for ConflictFootprint {
    fn clone(&self) -> (r: Self)
        ensures
            r@ == self@,
    {
        proof {
            use_type_invariant(self);
        }
        ConflictFootprint {
            constraints: self.constraints.clone(),
            writes: self.writes.clone(),
            reads: self.reads.clone(),
        }
    }
}

/// The keys that assertions are about.
pub open spec fn asserted_paths(asserts: Seq<RangeAssert>) -> Seq<Path> {
    Seq::new(asserts.len(), |i: int| asserts[i].range->Prefix_0@)
}

/// Add every key of one set to another.
fn merge(into: KeySet, from: &KeySet, added: Ghost<Set<Path>>) -> (r: KeySet)
    requires
        into@ == topmost(added@),
        added@.finite(),
    ensures
        r@ == topmost(added@.union(from@)),
{
    let mut merged = into;
    let keys = from.keys();
    let mut i: usize = 0;
    let ghost mut all = added@;
    proof {
        lemma_topmost_idempotent(all);
        assert(added@ =~= all);
    }
    while i < keys.len()
        invariant
            i <= keys@.len(),
            paths(keys@) == from.order(),
            all.finite(),
            merged@ == topmost(all),
            merged@ == topmost(merged@),
            forall|p: Path|
                all.contains(p) <==> added@.contains(p) || (exists|j: int|
                    0 <= j < i && from.order()[j] == p),
        decreases keys.len() - i,
    {
        merged = merged.add(keys[i].clone());
        proof {
            let key = keys@[i as int]@;
            lemma_topmost_insert(all, key);
            lemma_topmost_idempotent(all.insert(key));
            let grown = all.insert(key);
            assert(from.order()[i as int] == key);
            assert forall|p: Path| grown.contains(p) <==> added@.contains(p) || (exists|j: int|
                0 <= j < i + 1 && from.order()[j] == p) by {
                if p == key {
                    assert(from.order()[i as int] == p);
                }
            }
            all = grown;
        }
        i += 1;
    }
    assert(all =~= added@.union(from@));
    merged
}

/// Every key of a footprint stays covered when keys join it, and nothing is
/// covered that was not added: a key lies below one of the reduced keys exactly
/// where it lies below one of the keys themselves.
pub proof fn reducing_keeps_what_is_covered(keys: Set<Path>, key: Path)
    requires
        keys.finite(),
    ensures
        (exists|t: Path| #[trigger] topmost(keys).contains(t) && below(key, t)) <==> (exists|
            t: Path,
        | #[trigger]
            keys.contains(t) && below(key, t)),
        forall|s: Path, t: Path| #[trigger]
            topmost(keys).contains(s) && #[trigger] topmost(keys).contains(t) && below(s, t) ==> s
                == t,
{
    if exists|t: Path| #[trigger] keys.contains(t) && below(key, t) {
        let t = choose|t: Path| #[trigger] keys.contains(t) && below(key, t);
        lemma_topmost_above(keys, t);
        let u = choose|u: Path| topmost(keys).contains(u) && below(t, u);
        lemma_below_transitive(key, t, u);
        assert(topmost(keys).contains(u) && below(key, u));
    }
}

/// Constraints and writes are asserted at every isolation level. Reads are
/// asserted at the serializable one; at the snapshot level a key is asserted
/// only as a constraint or a write.
pub proof fn isolation_decides_on_reads_alone(footprint: FootprintView, key: Path)
    ensures
        footprint.constraints.contains(key) || footprint.writes.contains(key)
            ==> footprint.asserted(IsolationLevel::Snapshot).contains(key) && footprint.asserted(
            IsolationLevel::Serializable,
        ).contains(key),
        footprint.reads.contains(key) ==> footprint.asserted(IsolationLevel::Serializable).contains(
            key,
        ),
        footprint.asserted(IsolationLevel::Snapshot).contains(key)
            ==> footprint.constraints.contains(key) || footprint.writes.contains(key),
        footprint.asserted(IsolationLevel::Serializable).contains(key)
            ==> footprint.constraints.contains(key) || footprint.writes.contains(key)
            || footprint.reads.contains(key),
{
}

} // verus!
