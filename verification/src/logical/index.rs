//! Changes of an index, by what they stand for.
//!
//! The statement of an index and its frame are read where the SQL of an index is
//! known. This layer holds what was read: the payload, the table, and the guarded
//! mutations.

use crate::bytes::{copy_bytes, same_bytes};
use crate::codec::views;
use crate::footprint::ConflictFootprint;
use crate::identity::TableId;
use crate::key::{mutations_view, Mutation, MutationView};
use crate::logical::contract::{permits_guard, OperationFamily};
use crate::logical::guard::{entries_footprint, guards_view, GuardPlan, GuardView, PlanView};
use vstd::prelude::*;
use vstd::string::*;

verus! {

/// The creation or the drop of an index. Its guards are those of its family.
#[derive(Debug, PartialEq, Eq)]
pub struct IndexOperation {
    family: OperationFamily,
    table: TableId,
    payload: Vec<u8>,
    mutations: Vec<Mutation>,
    guards: GuardPlan,
}

/// A change of an index as a mathematical value.
pub struct IndexOpView {
    pub family: OperationFamily,
    pub table: Seq<u8>,
    pub payload: Seq<u8>,
    pub mutations: Seq<MutationView>,
    pub guards: PlanView,
}

/// Whether every guard is one that a family emits.
pub open spec fn guards_within(family: OperationFamily, entries: Seq<GuardView>) -> bool {
    forall|i: int|
        0 <= i < entries.len() ==> (#[trigger] entries[i]).operation == family && permits_guard(
            family,
            entries[i].class,
            entries[i].reason,
            entries[i].family,
        )
}

/// Whether a change of an index is one that can be.
pub open spec fn index_sound(op: IndexOpView) -> bool {
    &&& op.family is CreateIndex || op.family is DropIndex
    &&& op.guards.operation == Some(op.family)
    &&& guards_within(op.family, op.guards.entries)
}

impl View for IndexOperation {
    type V = IndexOpView;

    closed spec fn view(&self) -> IndexOpView {
        IndexOpView {
            family: self.family,
            table: self.table@,
            payload: self.payload@,
            mutations: mutations_view(self.mutations@),
            guards: self.guards@,
        }
    }
}

/// The mutations of a change of an index, the footprint of its guards, and the
/// guards.
pub struct IndexHomebaseOp {
    pub mutations: Vec<Mutation>,
    pub footprint: ConflictFootprint,
    pub guards: GuardPlan,
}

/// Copy a list of mutations.
fn copy_mutations(mutations: &[Mutation]) -> (r: Vec<Mutation>)
    ensures
        mutations_view(r@) == mutations_view(mutations@),
{
    let mut r: Vec<Mutation> = Vec::new();
    let mut i: usize = 0;
    while i < mutations.len()
        invariant
            i <= mutations@.len(),
            r@.len() == i,
            forall|j: int| 0 <= j < i ==> (#[trigger] r@[j])@ == mutations@[j]@,
        decreases mutations.len() - i,
    {
        r.push(mutations[i].clone());
        i += 1;
    }
    assert(mutations_view(r@) =~= mutations_view(mutations@));
    r
}

impl Clone for IndexOperation {
    fn clone(&self) -> (r: Self)
        ensures
            r@ == self@,
    {
        proof {
            use_type_invariant(self);
        }
        IndexOperation {
            family: self.family,
            table: self.table,
            payload: copy_bytes(self.payload.as_slice()),
            mutations: copy_mutations(self.mutations.as_slice()),
            guards: self.guards.clone(),
        }
    }
}

impl IndexOperation {
    /// Every change is sound.
    #[verifier::type_invariant]
    pub open spec fn well_formed(self) -> bool {
        index_sound(self@)
    }

    /// A change of an index, if its family is one and its guards are of that
    /// family.
    pub fn new(
        family: OperationFamily,
        table: TableId,
        payload: Vec<u8>,
        mutations: Vec<Mutation>,
        guards: GuardPlan,
    ) -> (r: Option<IndexOperation>)
        ensures
            ({
                let op = IndexOpView {
                    family,
                    table: table@,
                    payload: payload@,
                    mutations: mutations_view(mutations@),
                    guards: guards@,
                };
                match r {
                    Some(made) => index_sound(op) && made@ == op,
                    None => !index_sound(op),
                }
            }),
    {
        match family {
            OperationFamily::CreateIndex | OperationFamily::DropIndex => {},
            _ => {
                return None;
            },
        }
        if guards.operation() != Some(family) {
            return None;
        }
        let entries = guards.entries();
        let mut i: usize = 0;
        while i < entries.len()
            invariant
                i <= entries@.len(),
                guards_view(entries@) == guards@.entries,
                forall|j: int|
                    0 <= j < i ==> (#[trigger] guards@.entries[j]).operation == family
                        && permits_guard(
                        family,
                        guards@.entries[j].class,
                        guards@.entries[j].reason,
                        guards@.entries[j].family,
                    ),
            decreases entries.len() - i,
        {
            let guard = &entries[i];
            assert(guards@.entries[i as int] == guard@);
            let _ = guard.reason();
            if guard.operation() != family {
                return None;
            }
            i += 1;
        }
        assert(guards@.entries.len() == entries@.len());
        Some(IndexOperation { family, table, payload, mutations, guards })
    }

    /// Whether the index is created or dropped. Every change is one of the two.
    pub fn family(&self) -> (r: OperationFamily)
        ensures
            r == self@.family,
            r is CreateIndex || r is DropIndex,
    {
        proof {
            use_type_invariant(self);
        }
        self.family
    }

    /// The table whose index is changed.
    pub fn table_id(&self) -> (r: TableId)
        ensures
            r@ == self@.table,
    {
        self.table
    }

    /// The frame of the change.
    pub fn encode(&self) -> (r: Vec<u8>)
        ensures
            r@ == self@.payload,
    {
        copy_bytes(self.payload.as_slice())
    }

    /// Read the frame of a change, given what payloads stand for.
    pub fn decode(payload: &[u8], indexes: &Indexes) -> (r: Result<IndexOperation, String>)
        ensures
            reading(r) == index_read(payload@, indexes@),
    {
        match indexes.find(payload) {
            None => Err(UNREADABLE.to_owned()),
            Some(entry) => entry.copy_outcome(),
        }
    }

    /// The mutations of the change and what guards them.
    pub fn to_homebase(&self) -> (r: IndexHomebaseOp)
        ensures
            mutations_view(r.mutations@) == self@.mutations,
            r.footprint@ == entries_footprint(self@.guards.entries),
            r.guards@ == self@.guards,
    {
        IndexHomebaseOp {
            mutations: copy_mutations(self.mutations.as_slice()),
            footprint: self.guards.footprint(),
            guards: self.guards.clone(),
        }
    }
}

/// The refusal of a payload of which nothing is known.
pub const UNREADABLE: &'static str = "index operation is not readable";

/// What is left of a payload that was read.
pub open spec fn reading(r: Result<IndexOperation, String>) -> Result<IndexOpView, Seq<char>> {
    match r {
        Ok(op) => Ok(op@),
        Err(text) => Err(text@),
    }
}

/// A payload and what it stands for: a change of an index, or the refusal's
/// message.
#[derive(Debug, PartialEq, Eq)]
pub struct IndexReading {
    payload: Vec<u8>,
    outcome: Result<IndexOperation, String>,
}

impl View for IndexReading {
    type V = (Seq<u8>, Result<IndexOpView, Seq<char>>);

    closed spec fn view(&self) -> (Seq<u8>, Result<IndexOpView, Seq<char>>) {
        (self.payload@, reading(self.outcome))
    }
}

impl IndexReading {
    /// What the payload stands for.
    fn copy_outcome(&self) -> (r: Result<IndexOperation, String>)
        ensures
            reading(r) == self@.1,
    {
        match &self.outcome {
            Ok(op) => Ok(op.clone()),
            Err(text) => Err(text.as_str().to_owned()),
        }
    }
}

/// The position of the first reading of a payload, or the number of readings.
pub open spec fn reading_rank(
    readings: Seq<(Seq<u8>, Result<IndexOpView, Seq<char>>)>,
    payload: Seq<u8>,
) -> nat
    decreases readings.len(),
{
    if readings.len() == 0 {
        0
    } else if readings[0].0 == payload {
        0
    } else {
        1 + reading_rank(readings.drop_first(), payload)
    }
}

/// What a payload stands for.
pub open spec fn index_read(
    payload: Seq<u8>,
    readings: Seq<(Seq<u8>, Result<IndexOpView, Seq<char>>)>,
) -> Result<IndexOpView, Seq<char>> {
    let at = reading_rank(readings, payload);
    if at < readings.len() {
        readings[at as int].1
    } else {
        Err(UNREADABLE@)
    }
}

/// The first reading of a payload is the first with that payload.
proof fn lemma_rank(
    readings: Seq<(Seq<u8>, Result<IndexOpView, Seq<char>>)>,
    payload: Seq<u8>,
)
    ensures
        reading_rank(readings, payload) <= readings.len(),
        reading_rank(readings, payload) < readings.len() ==> readings[reading_rank(
            readings,
            payload,
        ) as int].0 == payload,
        forall|i: int|
            0 <= i < reading_rank(readings, payload) ==> (#[trigger] readings[i]).0 != payload,
    decreases readings.len(),
{
    if readings.len() > 0 && readings[0].0 != payload {
        let rest = readings.drop_first();
        lemma_rank(rest, payload);
        assert forall|i: int| 0 <= i < reading_rank(readings, payload) implies (
        #[trigger] readings[i]).0 != payload by {
            if i > 0 {
                assert(readings[i] == rest[i - 1]);
            }
        }
    }
}

/// A position whose payload differs from all before it is the first of its
/// payload.
proof fn lemma_rank_at(
    readings: Seq<(Seq<u8>, Result<IndexOpView, Seq<char>>)>,
    payload: Seq<u8>,
    at: int,
)
    requires
        0 <= at <= readings.len(),
        at < readings.len() ==> readings[at].0 == payload,
        forall|i: int| 0 <= i < at ==> (#[trigger] readings[i]).0 != payload,
    ensures
        reading_rank(readings, payload) == at,
{
    lemma_rank(readings, payload);
    let rank = reading_rank(readings, payload) as int;
    if rank < at {
        assert(readings[rank].0 != payload);
    }
}

/// Whether what payloads stand for is closed: the frame of a change that was read
/// stands for that change, and is no longer than what was read.
pub open spec fn indexes_closed(
    readings: Seq<(Seq<u8>, Result<IndexOpView, Seq<char>>)>,
) -> bool {
    forall|i: int|
        0 <= i < readings.len() && (#[trigger] readings[i]).1 is Ok ==> index_sound(
            readings[i].1->Ok_0,
        ) && readings[i].1->Ok_0.payload.len() <= readings[i].0.len() && index_read(
            readings[i].1->Ok_0.payload,
            readings,
        ) == readings[i].1
}

/// A change that was read is sound, stands for itself, and is written in no more
/// bytes.
pub proof fn index_shrinks(
    payload: Seq<u8>,
    readings: Seq<(Seq<u8>, Result<IndexOpView, Seq<char>>)>,
)
    requires
        indexes_closed(readings),
    ensures
        index_read(payload, readings) matches Ok(op) ==> index_sound(op) && op.payload.len()
            <= payload.len() && index_read(op.payload, readings) == Ok::<IndexOpView, Seq<char>>(
            op,
        ),
{
    lemma_rank(readings, payload);
}

/// What payloads stand for. A payload that is not listed is refused.
#[derive(Debug, PartialEq, Eq)]
pub struct Indexes {
    readings: Vec<IndexReading>,
}

impl View for Indexes {
    type V = Seq<(Seq<u8>, Result<IndexOpView, Seq<char>>)>;

    closed spec fn view(&self) -> Seq<(Seq<u8>, Result<IndexOpView, Seq<char>>)> {
        views(self.readings@)
    }
}

/// Readings after one more payload was learned, unless it was known.
pub open spec fn learned(
    readings: Seq<(Seq<u8>, Result<IndexOpView, Seq<char>>)>,
    payload: Seq<u8>,
    outcome: Result<IndexOpView, Seq<char>>,
) -> Seq<(Seq<u8>, Result<IndexOpView, Seq<char>>)> {
    if reading_rank(readings, payload) < readings.len() {
        readings
    } else {
        readings.push((payload, outcome))
    }
}

/// Learning a payload leaves what is known as it was.
proof fn lemma_learned(
    readings: Seq<(Seq<u8>, Result<IndexOpView, Seq<char>>)>,
    payload: Seq<u8>,
    outcome: Result<IndexOpView, Seq<char>>,
)
    requires
        reading_rank(readings, payload) == readings.len(),
    ensures
        forall|known: Seq<u8>|
            reading_rank(readings, known) < readings.len() ==> #[trigger] index_read(
                known,
                readings.push((payload, outcome)),
            ) == index_read(known, readings),
        index_read(payload, readings.push((payload, outcome))) == outcome,
{
    let more = readings.push((payload, outcome));
    lemma_rank(readings, payload);
    assert forall|known: Seq<u8>|
        reading_rank(readings, known) < readings.len() implies #[trigger] index_read(known, more)
        == index_read(known, readings) by {
        lemma_rank(readings, known);
        let at = reading_rank(readings, known) as int;
        assert forall|i: int| 0 <= i < at implies (#[trigger] more[i]).0 != known by {
            assert(more[i] == readings[i]);
        }
        lemma_rank_at(more, known, at);
    }
    assert forall|i: int| 0 <= i < readings.len() implies (#[trigger] more[i]).0 != payload by {
        assert(more[i] == readings[i]);
    }
    lemma_rank_at(more, payload, readings.len() as int);
}

/// Learning a closed reading keeps readings closed.
proof fn lemma_learned_closed(
    readings: Seq<(Seq<u8>, Result<IndexOpView, Seq<char>>)>,
    payload: Seq<u8>,
    outcome: Result<IndexOpView, Seq<char>>,
)
    requires
        indexes_closed(readings),
        reading_rank(readings, payload) == readings.len(),
        outcome matches Ok(op) ==> index_sound(op) && op.payload.len() <= payload.len() && (
        op.payload == payload || index_read(op.payload, readings) == outcome),
    ensures
        indexes_closed(readings.push((payload, outcome))),
{
    let more = readings.push((payload, outcome));
    lemma_learned(readings, payload, outcome);
    assert forall|i: int| 0 <= i < more.len() && (#[trigger] more[i]).1 is Ok implies index_sound(
        more[i].1->Ok_0,
    ) && more[i].1->Ok_0.payload.len() <= more[i].0.len() && index_read(
        more[i].1->Ok_0.payload,
        more,
    ) == more[i].1 by {
        if i < readings.len() {
            assert(more[i] == readings[i]);
            lemma_rank(readings, readings[i].1->Ok_0.payload);
        } else if outcome->Ok_0.payload != payload {
            lemma_rank(readings, outcome->Ok_0.payload);
        }
    }
}

impl Indexes {
    /// What payloads stand for is closed.
    #[verifier::type_invariant]
    pub open spec fn well_formed(self) -> bool {
        indexes_closed(self@)
    }

    /// No payload stands for anything.
    pub fn new() -> (r: Indexes)
        ensures
            r@ == Seq::<(Seq<u8>, Result<IndexOpView, Seq<char>>)>::empty(),
    {
        let readings: Vec<IndexReading> = Vec::new();
        proof {
            assert(views(readings@) =~= Seq::<(Seq<u8>, Result<IndexOpView, Seq<char>>)>::empty());
        }
        Indexes { readings }
    }

    /// The first reading of a payload.
    fn find(&self, payload: &[u8]) -> (r: Option<&IndexReading>)
        ensures
            match r {
                Some(entry) => reading_rank(self@, payload@) < self@.len() && entry@
                    == self@[reading_rank(self@, payload@) as int],
                None => reading_rank(self@, payload@) == self@.len(),
            },
    {
        let mut i: usize = 0;
        while i < self.readings.len()
            invariant
                i <= self.readings@.len(),
                self@.len() == self.readings@.len(),
                forall|j: int| 0 <= j < i ==> (#[trigger] self@[j]).0 != payload@,
            decreases self.readings.len() - i,
        {
            assert(self@[i as int] == self.readings@[i as int]@);
            if same_bytes(self.readings[i].payload.as_slice(), payload) {
                proof {
                    lemma_rank_at(self@, payload@, i as int);
                }
                return Some(&self.readings[i]);
            }
            i += 1;
        }
        proof {
            lemma_rank_at(self@, payload@, i as int);
        }
        None
    }

    /// Add a reading.
    fn learn(&mut self, payload: Vec<u8>, outcome: Result<IndexOperation, String>)
        requires
            reading(outcome) matches Ok(op) ==> index_sound(op) && op.payload.len()
                <= payload@.len() && (op.payload == payload@ || index_read(op.payload, old(self)@)
                == reading(outcome)),
        ensures
            final(self)@ == learned(old(self)@, payload@, reading(outcome)),
    {
        proof {
            use_type_invariant(&*self);
        }
        if self.find(payload.as_slice()).is_some() {
            return;
        }
        let ghost before = self@;
        let entry = IndexReading { payload, outcome };
        let mut readings: Vec<IndexReading> = Vec::new();
        std::mem::swap(&mut readings, &mut self.readings);
        readings.push(entry);
        proof {
            assert(views(readings@) =~= before.push(entry@));
            lemma_learned_closed(before, payload@, reading(outcome));
        }
        self.readings = readings;
    }

    /// Record a change under its own frame.
    pub fn record(&mut self, operation: IndexOperation)
        ensures
            final(self)@ == learned(
                old(self)@,
                operation@.payload,
                Ok::<IndexOpView, Seq<char>>(operation@),
            ),
    {
        proof {
            use_type_invariant(&operation);
        }
        let payload = operation.encode();
        self.learn(payload, Ok(operation));
    }

    /// Record another frame of a change that is known. A frame that is shorter
    /// than the change's own is not one of it.
    pub fn record_as(&mut self, payload: Vec<u8>, known: &[u8])
        ensures
            final(self)@ == if index_read(known@, old(self)@) is Ok && known@.len()
                <= payload@.len() {
                learned(old(self)@, payload@, index_read(known@, old(self)@))
            } else {
                old(self)@
            },
    {
        proof {
            use_type_invariant(&*self);
        }
        if known.len() > payload.len() {
            return;
        }
        let outcome = match self.find(known) {
            None => {
                return;
            },
            Some(entry) => entry.copy_outcome(),
        };
        proof {
            lemma_rank(self@, known@);
        }
        if outcome.is_ok() {
            self.learn(payload, outcome);
        }
    }

    /// Record that a payload is refused, and why.
    pub fn refuse(&mut self, payload: Vec<u8>, text: String)
        ensures
            final(self)@ == learned(
                old(self)@,
                payload@,
                Err::<IndexOpView, Seq<char>>(text@),
            ),
    {
        self.learn(payload, Err(text));
    }
}

/// A payload that was learned stands for what it was learned as, whatever is
/// learned behind it.
pub proof fn payloads_stand_for_what_was_learned(
    readings: Seq<(Seq<u8>, Result<IndexOpView, Seq<char>>)>,
    payload: Seq<u8>,
    outcome: Result<IndexOpView, Seq<char>>,
    known: Seq<u8>,
)
    ensures
        (exists|i: int| 0 <= i < readings.len() && (#[trigger] readings[i]).0 == known)
            ==> index_read(known, learned(readings, payload, outcome)) == index_read(
            known,
            readings,
        ),
        (forall|i: int| 0 <= i < readings.len() ==> (#[trigger] readings[i]).0 != payload)
            ==> index_read(payload, learned(readings, payload, outcome)) == outcome,
        (forall|i: int| 0 <= i < readings.len() ==> (#[trigger] readings[i]).0 != known)
            ==> index_read(known, readings) is Err,
{
    lemma_rank(readings, payload);
    lemma_rank(readings, known);
    if reading_rank(readings, payload) == readings.len() {
        lemma_learned(readings, payload, outcome);
    }
    if exists|i: int| 0 <= i < readings.len() && (#[trigger] readings[i]).0 == known {
        let i = choose|i: int| 0 <= i < readings.len() && (#[trigger] readings[i]).0 == known;
        assert(readings[i].0 == known);
        assert(reading_rank(readings, known) < readings.len());
    }
}

} // verus!
