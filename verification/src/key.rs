//! Keys of the ordered store, and mutations against them.
//!
//! A key is a list of byte components. A key that starts with another key's
//! components lies below it.

use crate::bytes::{append_bytes, copy_bytes, same_bytes};
use vstd::prelude::*;

verus! {

/// The longest component that a key can hold.
pub const MAX_COMPONENT_BYTES: usize = 255;

/// A key as a mathematical value: its components in order.
pub type Path = Seq<Seq<u8>>;

/// Byte strings in lexicographic order.
pub open spec fn bytes_less(a: Seq<u8>, b: Seq<u8>) -> bool
    decreases a.len(),
{
    if b.len() == 0 {
        false
    } else if a.len() == 0 {
        true
    } else if a[0] != b[0] {
        a[0] < b[0]
    } else {
        bytes_less(a.drop_first(), b.drop_first())
    }
}

/// Keys in lexicographic order of their components.
pub open spec fn path_less(a: Path, b: Path) -> bool
    decreases a.len(),
{
    if b.len() == 0 {
        false
    } else if a.len() == 0 {
        true
    } else if a[0] != b[0] {
        bytes_less(a[0], b[0])
    } else {
        path_less(a.drop_first(), b.drop_first())
    }
}

/// Whether `key` lies at or below `prefix`.
pub open spec fn below(key: Path, prefix: Path) -> bool {
    prefix.len() <= key.len() && key.subrange(0, prefix.len() as int) == prefix
}

/// Whether every component is short enough for a key.
pub open spec fn valid_path(path: Path) -> bool {
    forall|i: int| 0 <= i < path.len() ==> (#[trigger] path[i]).len() <= MAX_COMPONENT_BYTES
}

/// The encoded form of a key: each component behind its length in one byte.
pub open spec fn path_bytes(path: Path) -> Seq<u8>
    decreases path.len(),
{
    if path.len() == 0 {
        Seq::empty()
    } else {
        path_bytes(path.drop_last()) + (seq![path.last().len() as u8] + path.last())
    }
}

/// No byte string is less than itself.
pub proof fn lemma_bytes_irreflexive(a: Seq<u8>)
    ensures
        !bytes_less(a, a),
    decreases a.len(),
{
    if a.len() > 0 {
        lemma_bytes_irreflexive(a.drop_first());
    }
}

/// Of two different byte strings one is less than the other.
pub proof fn lemma_bytes_total(a: Seq<u8>, b: Seq<u8>)
    ensures
        a == b || bytes_less(a, b) || bytes_less(b, a),
    decreases a.len(),
{
    if a.len() > 0 && b.len() > 0 {
        lemma_bytes_total(a.drop_first(), b.drop_first());
        if a[0] == b[0] && a.drop_first() == b.drop_first() {
            assert(a =~= seq![a[0]] + a.drop_first());
            assert(b =~= seq![b[0]] + b.drop_first());
        }
    } else if a.len() == 0 && b.len() == 0 {
        assert(a =~= b);
    }
}

/// The order of byte strings is transitive.
pub proof fn lemma_bytes_transitive(a: Seq<u8>, b: Seq<u8>, c: Seq<u8>)
    requires
        bytes_less(a, b),
        bytes_less(b, c),
    ensures
        bytes_less(a, c),
    decreases a.len(),
{
    if a.len() > 0 && b.len() > 0 && c.len() > 0 && a[0] == b[0] && b[0] == c[0] {
        lemma_bytes_transitive(a.drop_first(), b.drop_first(), c.drop_first());
    }
}

/// No key is less than itself.
pub proof fn lemma_path_irreflexive(a: Path)
    ensures
        !path_less(a, a),
    decreases a.len(),
{
    if a.len() > 0 {
        lemma_path_irreflexive(a.drop_first());
    }
}

/// Of two different keys one is less than the other.
pub proof fn lemma_path_total(a: Path, b: Path)
    ensures
        a == b || path_less(a, b) || path_less(b, a),
    decreases a.len(),
{
    if a.len() > 0 && b.len() > 0 {
        lemma_path_total(a.drop_first(), b.drop_first());
        lemma_bytes_total(a[0], b[0]);
        if a[0] == b[0] && a.drop_first() == b.drop_first() {
            assert(a =~= seq![a[0]] + a.drop_first());
            assert(b =~= seq![b[0]] + b.drop_first());
        }
    } else if a.len() == 0 && b.len() == 0 {
        assert(a =~= b);
    }
}

/// The order of keys is transitive.
pub proof fn lemma_path_transitive(a: Path, b: Path, c: Path)
    requires
        path_less(a, b),
        path_less(b, c),
    ensures
        path_less(a, c),
    decreases a.len(),
{
    if a.len() > 0 && b.len() > 0 && c.len() > 0 {
        if a[0] == b[0] && b[0] == c[0] {
            lemma_path_transitive(a.drop_first(), b.drop_first(), c.drop_first());
        } else if a[0] != b[0] && b[0] != c[0] {
            lemma_bytes_transitive(a[0], b[0], c[0]);
            if a[0] == c[0] {
                lemma_bytes_irreflexive(a[0]);
            }
        }
    }
}

/// The order of keys is asymmetric.
pub proof fn lemma_path_asymmetric(a: Path, b: Path)
    requires
        path_less(a, b),
    ensures
        !path_less(b, a),
        a != b,
{
    lemma_path_irreflexive(a);
    if path_less(b, a) {
        lemma_path_transitive(a, b, a);
    }
}

/// Lying below is transitive.
pub proof fn lemma_below_transitive(a: Path, b: Path, c: Path)
    requires
        below(a, b),
        below(b, c),
    ensures
        below(a, c),
{
    assert(a.subrange(0, c.len() as int) =~= a.subrange(0, b.len() as int).subrange(
        0,
        c.len() as int,
    ));
}

/// A key lies below itself.
pub proof fn lemma_below_reflexive(a: Path)
    ensures
        below(a, a),
{
    assert(a.subrange(0, a.len() as int) =~= a);
}

/// Two keys below each other are one key.
pub proof fn lemma_below_antisymmetric(a: Path, b: Path)
    requires
        below(a, b),
        below(b, a),
    ensures
        a == b,
{
    assert(a.subrange(0, b.len() as int) =~= a);
}

/// The encoding of a key starts with the encoding of its first component.
proof fn lemma_path_bytes_front(a: Path)
    requires
        a.len() > 0,
    ensures
        path_bytes(a) == (seq![a[0].len() as u8] + a[0]) + path_bytes(a.drop_first()),
    decreases a.len(),
{
    if a.len() == 1 {
        assert(a.drop_last() =~= Seq::<Seq<u8>>::empty());
        assert(a.drop_first() =~= Seq::<Seq<u8>>::empty());
        assert(path_bytes(Seq::<Seq<u8>>::empty()) =~= Seq::<u8>::empty());
        assert(path_bytes(a) =~= (seq![a[0].len() as u8] + a[0]) + path_bytes(a.drop_first()));
    } else {
        lemma_path_bytes_front(a.drop_last());
        assert(a.drop_last().drop_first() =~= a.drop_first().drop_last());
        assert(path_bytes(a) =~= (seq![a[0].len() as u8] + a[0]) + path_bytes(a.drop_first()));
    }
}

/// Different keys have different encodings.
pub proof fn lemma_path_bytes_injective(a: Path, b: Path)
    requires
        valid_path(a),
        valid_path(b),
        path_bytes(a) == path_bytes(b),
    ensures
        a == b,
    decreases a.len(),
{
    if a.len() == 0 || b.len() == 0 {
        if a.len() > 0 {
            lemma_path_bytes_front(a);
        }
        if b.len() > 0 {
            lemma_path_bytes_front(b);
        }
        assert(a =~= b);
    } else {
        lemma_path_bytes_front(a);
        lemma_path_bytes_front(b);
        let x = path_bytes(a);
        let n = a[0].len() as int;
        assert(x[0] == a[0].len() as u8);
        assert(x[0] == b[0].len() as u8);
        assert(a[0].len() == b[0].len());
        assert(x.subrange(1, 1 + n) =~= a[0]);
        assert(x.subrange(1, 1 + n) =~= b[0]);
        assert(x.subrange(1 + n, x.len() as int) =~= path_bytes(a.drop_first()));
        assert(x.subrange(1 + n, x.len() as int) =~= path_bytes(b.drop_first()));
        assert(valid_path(a.drop_first())) by {
            assert forall|i: int| 0 <= i < a.drop_first().len() implies (
            #[trigger] a.drop_first()[i]).len() <= MAX_COMPONENT_BYTES by {
                assert(a[i + 1].len() <= MAX_COMPONENT_BYTES);
            }
        }
        assert(valid_path(b.drop_first())) by {
            assert forall|i: int| 0 <= i < b.drop_first().len() implies (
            #[trigger] b.drop_first()[i]).len() <= MAX_COMPONENT_BYTES by {
                assert(b[i + 1].len() <= MAX_COMPONENT_BYTES);
            }
        }
        lemma_path_bytes_injective(a.drop_first(), b.drop_first());
        assert(a =~= seq![a[0]] + a.drop_first());
        assert(b =~= seq![b[0]] + b.drop_first());
    }
}

/// Why a key cannot be built.
#[derive(Clone, Copy, Debug, PartialEq, Eq, Structural)]
pub enum KeyError {
    /// A component is longer than [`MAX_COMPONENT_BYTES`].
    ComponentTooLong,
}

/// One component of a key.
#[derive(Debug, PartialEq, Eq, PartialOrd, Ord)]
pub struct Component {
    bytes: Vec<u8>,
}

impl Component {
    /// The component's bytes.
    pub closed spec fn view(&self) -> Seq<u8> {
        self.bytes@
    }

    /// The component's bytes.
    pub fn as_bytes(&self) -> (r: &[u8])
        ensures
            r@ == self@,
    {
        self.bytes.as_slice()
    }
}

impl Clone for Component {
    fn clone(&self) -> (r: Self)
        ensures
            r@ == self@,
    {
        Component { bytes: copy_bytes(self.bytes.as_slice()) }
    }
}

/// The key whose components have the given contents.
pub closed spec fn components_view(components: Seq<Component>) -> Path {
    Seq::new(components.len(), |i: int| components[i]@)
}

/// The contents of a list of byte strings.
pub open spec fn parts_view(parts: Seq<Vec<u8>>) -> Path {
    Seq::new(parts.len(), |i: int| parts[i]@)
}

/// A position in the ordered store.
#[derive(Debug, PartialEq, Eq, PartialOrd, Ord)]
pub struct Key {
    components: Vec<Component>,
}

impl Key {
    /// The key's components.
    pub closed spec fn view(&self) -> Path {
        components_view(self.components@)
    }

    #[verifier::type_invariant]
    spec fn well_formed(self) -> bool {
        valid_path(components_view(self.components@))
    }

    /// Build a key from its components.
    pub fn from_bytes(components: Vec<Vec<u8>>) -> (r: Result<Key, KeyError>)
        ensures
            r is Ok <==> valid_path(parts_view(components@)),
            r matches Ok(key) ==> key@ == parts_view(components@),
    {
        let mut parts: Vec<Component> = Vec::new();
        let mut i: usize = 0;
        while i < components.len()
            invariant
                i <= components.len(),
                parts@.len() == i,
                forall|j: int| 0 <= j < i ==> (#[trigger] parts@[j])@ == components@[j]@,
                forall|j: int|
                    0 <= j < i ==> (#[trigger] parts_view(components@)[j]).len()
                        <= MAX_COMPONENT_BYTES,
            decreases components.len() - i,
        {
            if components[i].len() > MAX_COMPONENT_BYTES {
                assert(parts_view(components@)[i as int].len() > MAX_COMPONENT_BYTES);
                return Err(KeyError::ComponentTooLong);
            }
            parts.push(Component { bytes: copy_bytes(components[i].as_slice()) });
            i += 1;
        }
        assert(components_view(parts@) =~= parts_view(components@));
        Ok(Key { components: parts })
    }

    /// The key's components.
    pub fn components(&self) -> (r: &[Component])
        ensures
            r@.len() == self@.len(),
            forall|i: int| 0 <= i < r@.len() ==> (#[trigger] r@[i])@ == self@[i],
    {
        self.components.as_slice()
    }

    /// Every component of a key is short enough.
    pub fn bound(&self)
        ensures
            valid_path(self@),
    {
        proof {
            use_type_invariant(self);
        }
    }

    /// Whether two keys have the same components.
    pub fn same(&self, other: &Key) -> (r: bool)
        ensures
            r == (self@ == other@),
    {
        if self.components.len() != other.components.len() {
            assert(self@.len() != other@.len());
            return false;
        }
        let mut i: usize = 0;
        while i < self.components.len()
            invariant
                i <= self.components.len(),
                self.components.len() == other.components.len(),
                forall|j: int| 0 <= j < i ==> self@[j] == other@[j],
            decreases self.components.len() - i,
        {
            if !same_bytes(self.components[i].as_bytes(), other.components[i].as_bytes()) {
                assert(self@[i as int] != other@[i as int]);
                return false;
            }
            i += 1;
        }
        assert(self@ =~= other@);
        true
    }

    /// Whether this key lies at or below `prefix`.
    pub fn starts_with(&self, prefix: &Key) -> (r: bool)
        ensures
            r == below(self@, prefix@),
    {
        if self.components.len() < prefix.components.len() {
            return false;
        }
        let mut i: usize = 0;
        while i < prefix.components.len()
            invariant
                i <= prefix.components.len() <= self.components.len(),
                forall|j: int| 0 <= j < i ==> self@[j] == prefix@[j],
            decreases prefix.components.len() - i,
        {
            if !same_bytes(self.components[i].as_bytes(), prefix.components[i].as_bytes()) {
                assert(self@.subrange(0, prefix@.len() as int)[i as int] != prefix@[i as int]);
                return false;
            }
            i += 1;
        }
        assert(self@.subrange(0, prefix@.len() as int) =~= prefix@);
        true
    }

    /// Whether this key comes before `other`.
    pub fn less(&self, other: &Key) -> (r: bool)
        ensures
            r == path_less(self@, other@),
    {
        let mut i: usize = 0;
        assert(self@.subrange(0, self@.len() as int) =~= self@);
        assert(other@.subrange(0, other@.len() as int) =~= other@);
        while i < self.components.len() && i < other.components.len()
            invariant
                i <= self.components.len(),
                i <= other.components.len(),
                path_less(self@, other@) == path_less(
                    self@.subrange(i as int, self@.len() as int),
                    other@.subrange(i as int, other@.len() as int),
                ),
            decreases self.components.len() - i,
        {
            let a = self.components[i].as_bytes();
            let b = other.components[i].as_bytes();
            if !same_bytes(a, b) {
                return bytes_before(a, b);
            }
            assert(self@.subrange(i as int, self@.len() as int).drop_first() =~= self@.subrange(
                i as int + 1,
                self@.len() as int,
            ));
            assert(other@.subrange(i as int, other@.len() as int).drop_first()
                =~= other@.subrange(i as int + 1, other@.len() as int));
            i += 1;
        }
        i < other.components.len()
    }

    /// The key's encoded form.
    pub fn encode(&self) -> (r: Vec<u8>)
        ensures
            r@ == path_bytes(self@),
    {
        proof {
            use_type_invariant(self);
        }
        let mut out: Vec<u8> = Vec::new();
        let mut i: usize = 0;
        assert(self@.subrange(0, 0) =~= Seq::<Seq<u8>>::empty());
        while i < self.components.len()
            invariant
                i <= self.components.len(),
                valid_path(self@),
                out@ == path_bytes(self@.subrange(0, i as int)),
            decreases self.components.len() - i,
        {
            let part = self.components[i].as_bytes();
            assert(self@[i as int].len() <= MAX_COMPONENT_BYTES);
            out.push(part.len() as u8);
            append_bytes(&mut out, part);
            assert(self@.subrange(0, i as int + 1).drop_last() =~= self@.subrange(0, i as int));
            assert(out@ =~= path_bytes(self@.subrange(0, i as int + 1)));
            i += 1;
        }
        assert(self@.subrange(0, self@.len() as int) =~= self@);
        out
    }
}

/// A fallible key as a mathematical value.
pub open spec fn key_result<E>(r: Result<Key, E>) -> Result<Path, E> {
    match r {
        Ok(key) => Ok(key@),
        Err(error) => Err(error),
    }
}

impl Clone for Key {
    fn clone(&self) -> (r: Self)
        ensures
            r@ == self@,
    {
        proof {
            use_type_invariant(self);
        }
        let mut parts: Vec<Component> = Vec::new();
        let mut i: usize = 0;
        while i < self.components.len()
            invariant
                i <= self.components.len(),
                parts@.len() == i,
                forall|j: int| 0 <= j < i ==> (#[trigger] parts@[j])@ == self@[j],
            decreases self.components.len() - i,
        {
            parts.push(self.components[i].clone());
            i += 1;
        }
        assert(components_view(parts@) =~= self@);
        Key { components: parts }
    }
}

/// Whether one byte string comes before another.
pub fn bytes_before(a: &[u8], b: &[u8]) -> (r: bool)
    ensures
        r == bytes_less(a@, b@),
{
    let mut i: usize = 0;
    assert(a@.subrange(0, a@.len() as int) =~= a@);
    assert(b@.subrange(0, b@.len() as int) =~= b@);
    while i < a.len() && i < b.len()
        invariant
            i <= a.len(),
            i <= b.len(),
            bytes_less(a@, b@) == bytes_less(
                a@.subrange(i as int, a@.len() as int),
                b@.subrange(i as int, b@.len() as int),
            ),
        decreases a.len() - i,
    {
        if a[i] != b[i] {
            return a[i] < b[i];
        }
        assert(a@.subrange(i as int, a@.len() as int).drop_first() =~= a@.subrange(
            i as int + 1,
            a@.len() as int,
        ));
        assert(b@.subrange(i as int, b@.len() as int).drop_first() =~= b@.subrange(
            i as int + 1,
            b@.len() as int,
        ));
        i += 1;
    }
    i < b.len()
}

/// A set of keys that a deletion covers.
#[derive(Debug, PartialEq, Eq)]
pub enum Range {
    /// Every key.
    Full,
    /// Every key at or below the given one.
    Prefix(Key),
}

/// A range as a mathematical value.
pub enum RangeView {
    Full,
    Prefix(Path),
}

impl Range {
    /// The range as a mathematical value.
    pub open spec fn view(&self) -> RangeView {
        match self {
            Range::Full => RangeView::Full,
            Range::Prefix(key) => RangeView::Prefix(key@),
        }
    }
}

impl Clone for Range {
    fn clone(&self) -> (r: Self)
        ensures
            r@ == self@,
    {
        match self {
            Range::Full => Range::Full,
            Range::Prefix(key) => Range::Prefix(key.clone()),
        }
    }
}

/// One change to the ordered store.
#[derive(Debug, PartialEq, Eq)]
pub enum Mutation {
    /// Bind a key to a value.
    Put { key: Key, value: Vec<u8> },
    /// Remove a key.
    Delete { key: Key },
    /// Remove every key of a range.
    DeleteRange { range: Range },
}

/// A mutation as a mathematical value.
pub enum MutationView {
    Put { key: Path, value: Seq<u8> },
    Delete { key: Path },
    DeleteRange { range: RangeView },
}

/// The mutations of a list as mathematical values.
pub open spec fn mutations_view(mutations: Seq<Mutation>) -> Seq<MutationView> {
    Seq::new(mutations.len(), |i: int| mutations[i]@)
}

impl Mutation {
    /// The mutation as a mathematical value.
    pub open spec fn view(&self) -> MutationView {
        match self {
            Mutation::Put { key, value } => MutationView::Put { key: key@, value: value@ },
            Mutation::Delete { key } => MutationView::Delete { key: key@ },
            Mutation::DeleteRange { range } => MutationView::DeleteRange { range: range@ },
        }
    }

    /// Whether two mutations are the same change.
    pub fn same(&self, other: &Mutation) -> (r: bool)
        ensures
            r == (self@ == other@),
    {
        match (self, other) {
            (Mutation::Put { key: a, value: x }, Mutation::Put { key: b, value: y }) => {
                a.same(b) && same_bytes(x.as_slice(), y.as_slice())
            },
            (Mutation::Delete { key: a }, Mutation::Delete { key: b }) => a.same(b),
            (Mutation::DeleteRange { range: a }, Mutation::DeleteRange { range: b }) => match (
                a,
                b,
            ) {
                (Range::Full, Range::Full) => true,
                (Range::Prefix(a), Range::Prefix(b)) => a.same(b),
                _ => false,
            },
            _ => false,
        }
    }
}

impl Clone for Mutation {
    fn clone(&self) -> (r: Self)
        ensures
            r@ == self@,
    {
        match self {
            Mutation::Put { key, value } => Mutation::Put {
                key: key.clone(),
                value: copy_bytes(value.as_slice()),
            },
            Mutation::Delete { key } => Mutation::Delete { key: key.clone() },
            Mutation::DeleteRange { range } => Mutation::DeleteRange { range: range.clone() },
        }
    }
}

/// Whether two mutation lists make the same changes in the same order.
pub fn same_mutations(a: &[Mutation], b: &[Mutation]) -> (r: bool)
    ensures
        r == (mutations_view(a@) == mutations_view(b@)),
{
    if a.len() != b.len() {
        assert(mutations_view(a@).len() != mutations_view(b@).len());
        return false;
    }
    let mut i: usize = 0;
    while i < a.len()
        invariant
            i <= a.len(),
            a.len() == b.len(),
            forall|j: int| 0 <= j < i ==> mutations_view(a@)[j] == mutations_view(b@)[j],
        decreases a.len() - i,
    {
        if !a[i].same(&b[i]) {
            assert(mutations_view(a@)[i as int] != mutations_view(b@)[i as int]);
            return false;
        }
        i += 1;
    }
    assert(mutations_view(a@) =~= mutations_view(b@));
    true
}

/// Of two byte strings that differ first in one byte, the one with the lesser
/// byte is less, whatever follows; a string is less than every longer one that
/// begins with it.
pub proof fn the_first_difference_decides(
    head: Seq<u8>,
    x: u8,
    y: u8,
    a: Seq<u8>,
    b: Seq<u8>,
)
    ensures
        bytes_less(head + (seq![x] + a), head + (seq![y] + b)) <==> if x == y {
            bytes_less(a, b)
        } else {
            x < y
        },
        bytes_less(head, head + (seq![x] + a)),
    decreases head.len(),
{
    let p = head + (seq![x] + a);
    let q = head + (seq![y] + b);
    if head.len() == 0 {
        assert(p =~= seq![x] + a);
        assert(q =~= seq![y] + b);
        assert(p.drop_first() =~= a);
        assert(q.drop_first() =~= b);
    } else {
        let rest = head.drop_first();
        the_first_difference_decides(rest, x, y, a, b);
        assert(p.drop_first() =~= rest + (seq![x] + a));
        assert(q.drop_first() =~= rest + (seq![y] + b));
    }
}

/// A key comes before every key that lies below it, and all keys below one lie
/// together: what lies between two of them lies below it too.
pub proof fn keys_below_one_lie_together(prefix: Path, a: Path, b: Path, c: Path)
    ensures
        below(a, prefix) && a != prefix ==> path_less(prefix, a),
        below(a, prefix) && below(c, prefix) && path_less(a, b) && path_less(b, c) ==> below(
            b,
            prefix,
        ),
    decreases prefix.len(),
{
    if prefix.len() == 0 {
        assert(b.subrange(0, 0) =~= prefix);
        assert(a.len() == 0 ==> a =~= prefix);
    } else {
        let rest = prefix.drop_first();
        if below(a, prefix) {
            assert(a.subrange(0, prefix.len() as int)[0] == prefix[0]);
            assert(a.drop_first().subrange(0, rest.len() as int) =~= a.subrange(
                0,
                prefix.len() as int,
            ).drop_first());
            if a != prefix && a.drop_first() == rest {
                assert(a =~= prefix);
            }
        }
        if below(c, prefix) {
            assert(c.subrange(0, prefix.len() as int)[0] == prefix[0]);
            assert(c.drop_first().subrange(0, rest.len() as int) =~= c.subrange(
                0,
                prefix.len() as int,
            ).drop_first());
        }
        if below(a, prefix) && below(c, prefix) && path_less(a, b) && path_less(b, c) {
            if b[0] != prefix[0] {
                lemma_bytes_transitive(prefix[0], b[0], prefix[0]);
                lemma_bytes_irreflexive(prefix[0]);
            }
            keys_below_one_lie_together(rest, a.drop_first(), b.drop_first(), c.drop_first());
            let cut = b.subrange(0, prefix.len() as int);
            let tail = b.drop_first().subrange(0, rest.len() as int);
            assert forall|i: int| 0 <= i < cut.len() implies cut[i] == prefix[i] by {
                if i > 0 {
                    assert(tail[i - 1] == rest[i - 1]);
                }
            }
            assert(cut =~= prefix);
        } else if below(a, prefix) {
            keys_below_one_lie_together(rest, a.drop_first(), b, c);
        }
    }
}

} // verus!
