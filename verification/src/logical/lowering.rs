//! What an operation emits when it is lowered: guards and mutations, in order.

use crate::footprint::FootprintView;
use crate::key::{
    mutations_view, Key, Mutation, MutationView, Path, Range, RangeView,
};
use crate::logical::contract::{
    requires_guard, GuardClass, GuardContract, GuardReason, MutationKind, OperationFamily,
};
use crate::logical::guard::{
    compiled_fault, entries_footprint, guard_fault, guard_on, guard_requirements, has_guard,
    has_shape, lemma_mutations_fault, mutation_fault, mutation_guarded, mutation_target, GuardPlan,
    GuardView, PlanView,
};
use crate::logical::target::classified;
use vstd::prelude::*;

verus! {

/// One step of a lowering.
pub enum Emission {
    Invariant(Path, GuardReason),
    Write(Path, GuardReason),
    Put(Path, Seq<u8>),
    Delete(Path),
    DeletePrefix(Path),
}

/// The mutations among emissions.
pub open spec fn mutations_of(emissions: Seq<Emission>) -> Seq<MutationView>
    decreases emissions.len(),
{
    if emissions.len() == 0 {
        Seq::empty()
    } else {
        let before = mutations_of(emissions.drop_last());
        match emissions.last() {
            Emission::Put(key, value) => before.push(MutationView::Put { key, value }),
            Emission::Delete(key) => before.push(MutationView::Delete { key }),
            Emission::DeletePrefix(key) => before.push(
                MutationView::DeleteRange { range: RangeView::Prefix(key) },
            ),
            _ => before,
        }
    }
}

/// The guards among emissions.
pub open spec fn guards_of(operation: OperationFamily, emissions: Seq<Emission>) -> Seq<GuardView>
    decreases emissions.len(),
{
    if emissions.len() == 0 {
        Seq::empty()
    } else {
        let before = guards_of(operation, emissions.drop_last());
        match emissions.last() {
            Emission::Invariant(key, reason) => before.push(
                guard_on(operation, key, GuardClass::Invariant, reason),
            ),
            Emission::Write(key, reason) => before.push(
                guard_on(operation, key, GuardClass::Write, reason),
            ),
            _ => before,
        }
    }
}

/// The plan of an operation that emits these steps.
pub open spec fn plan_of(operation: OperationFamily, emissions: Seq<Emission>) -> PlanView {
    PlanView { operation: Some(operation), entries: guards_of(operation, emissions) }
}

/// Whether an operation was lowered to what it emits: its mutations, its guard
/// plan, and the footprint of the plan.
pub open spec fn lowers_to(
    operation: OperationFamily,
    emissions: Seq<Emission>,
    mutations: Seq<Mutation>,
    footprint: FootprintView,
    guards: PlanView,
) -> bool {
    &&& mutations_view(mutations) == mutations_of(emissions)
    &&& guards == plan_of(operation, emissions)
    &&& footprint == entries_footprint(guards.entries)
}

/// What every item of a list emits, in order.
pub open spec fn gathered<A>(items: Seq<A>, f: spec_fn(A) -> Seq<Emission>) -> Seq<Emission>
    decreases items.len(),
{
    if items.len() == 0 {
        Seq::empty()
    } else {
        gathered(items.drop_last(), f) + f(items.last())
    }
}

/// One more item emits behind the others.
pub proof fn lemma_gathered_step<A>(items: Seq<A>, i: int, f: spec_fn(A) -> Seq<Emission>)
    requires
        0 <= i < items.len(),
    ensures
        gathered(items.subrange(0, i + 1), f) == gathered(items.subrange(0, i), f) + f(items[i]),
{
    assert(items.subrange(0, i + 1).drop_last() =~= items.subrange(0, i));
}

/// Whether every emission is one of a kind.
pub open spec fn all_emit(emissions: Seq<Emission>, test: spec_fn(Emission) -> bool) -> bool {
    forall|i: int| 0 <= i < emissions.len() ==> test(#[trigger] emissions[i])
}

/// Emissions of a kind behind each other are of that kind.
pub proof fn lemma_all_concat(
    a: Seq<Emission>,
    b: Seq<Emission>,
    test: spec_fn(Emission) -> bool,
)
    requires
        all_emit(a, test),
        all_emit(b, test),
    ensures
        all_emit(a + b, test),
{
    let all = a + b;
    assert forall|i: int| 0 <= i < all.len() implies test(#[trigger] all[i]) by {
        if i < a.len() {
            assert(all[i] == a[i]);
        } else {
            assert(all[i] == b[i - a.len()]);
        }
    }
}

/// What items emit is of a kind where each of them emits that kind.
pub proof fn lemma_all_gathered<A>(
    items: Seq<A>,
    f: spec_fn(A) -> Seq<Emission>,
    test: spec_fn(Emission) -> bool,
)
    requires
        forall|i: int| 0 <= i < items.len() ==> all_emit(f(#[trigger] items[i]), test),
    ensures
        all_emit(gathered(items, f), test),
    decreases items.len(),
{
    if items.len() > 0 {
        let init = items.drop_last();
        assert forall|i: int| 0 <= i < init.len() implies all_emit(
            f(#[trigger] init[i]),
            test,
        ) by {
            assert(init[i] == items[i]);
        }
        lemma_all_gathered(init, f, test);
        assert(items[items.len() - 1] == items.last());
        lemma_all_concat(gathered(init, f), f(items.last()), test);
    }
}

/// What one item emits is among what all of them emit.
pub proof fn lemma_gathered_has<A>(
    items: Seq<A>,
    f: spec_fn(A) -> Seq<Emission>,
    i: int,
    emission: Emission,
)
    requires
        0 <= i < items.len(),
        f(items[i]).contains(emission),
    ensures
        gathered(items, f).contains(emission),
    decreases items.len(),
{
    let init = items.drop_last();
    let before = gathered(init, f);
    let added = f(items.last());
    if i < init.len() {
        assert(init[i] == items[i]);
        lemma_gathered_has(init, f, i, emission);
        let k = choose|k: int| 0 <= k < before.len() && before[k] == emission;
        assert((before + added)[k] == emission);
    } else {
        let k = choose|k: int| 0 <= k < added.len() && added[k] == emission;
        assert((before + added)[before.len() + k] == emission);
    }
}

/// What is among emissions is among them with more before or behind.
pub proof fn lemma_has_concat(a: Seq<Emission>, b: Seq<Emission>, emission: Emission)
    ensures
        (a + b).contains(emission) <==> a.contains(emission) || b.contains(emission),
{
    if a.contains(emission) {
        let k = choose|k: int| 0 <= k < a.len() && a[k] == emission;
        assert((a + b)[k] == emission);
    }
    if b.contains(emission) {
        let k = choose|k: int| 0 <= k < b.len() && b[k] == emission;
        assert((a + b)[a.len() + k] == emission);
    }
}

/// A deletion among emissions is a mutation of theirs.
pub proof fn lemma_delete_emitted(emissions: Seq<Emission>, key: Path)
    requires
        emissions.contains(Emission::Delete(key)),
    ensures
        mutations_of(emissions).contains(MutationView::Delete { key }),
    decreases emissions.len(),
{
    let wanted = MutationView::Delete { key };
    let i = choose|i: int| 0 <= i < emissions.len() && emissions[i] == Emission::Delete(key);
    let init = emissions.drop_last();
    let before = mutations_of(init);
    let all = mutations_of(emissions);
    if i < init.len() {
        assert(init[i] == emissions[i]);
        lemma_delete_emitted(init, key);
        let j = choose|j: int| 0 <= j < before.len() && before[j] == wanted;
        assert(all[j] == wanted);
    } else {
        assert(all[before.len() as int] == wanted);
    }
}

/// Whether an emission is within an operation's contract.
pub open spec fn emission_permitted(operation: OperationFamily, emission: Emission) -> bool {
    match emission {
        Emission::Invariant(key, reason) => guard_fault(
            Some(operation),
            key,
            GuardClass::Invariant,
            reason,
        ) is None,
        Emission::Write(key, reason) => guard_fault(
            Some(operation),
            key,
            GuardClass::Write,
            reason,
        ) is None,
        Emission::Put(key, value) => mutation_fault(
            operation,
            MutationView::Put { key, value },
        ) is None,
        Emission::Delete(key) => mutation_fault(operation, MutationView::Delete { key }) is None,
        Emission::DeletePrefix(key) => mutation_fault(
            operation,
            MutationView::DeleteRange { range: RangeView::Prefix(key) },
        ) is None,
    }
}

/// Whether emissions include a guard.
pub open spec fn emits_guard(
    emissions: Seq<Emission>,
    key: Path,
    class: GuardClass,
    reason: GuardReason,
) -> bool {
    match class {
        GuardClass::Invariant => emissions.contains(Emission::Invariant(key, reason)),
        GuardClass::Write => emissions.contains(Emission::Write(key, reason)),
        GuardClass::SerializableRead => false,
    }
}

/// A guard among emissions is a guard of their plan.
pub proof fn lemma_emitted_guard(
    operation: OperationFamily,
    emissions: Seq<Emission>,
    key: Path,
    class: GuardClass,
    reason: GuardReason,
)
    requires
        emits_guard(emissions, key, class, reason),
    ensures
        exists|i: int|
            0 <= i < guards_of(operation, emissions).len() && #[trigger] guards_of(
                operation,
                emissions,
            )[i] == guard_on(operation, key, class, reason),
    decreases emissions.len(),
{
    let wanted = if class == GuardClass::Invariant {
        Emission::Invariant(key, reason)
    } else {
        Emission::Write(key, reason)
    };
    let i = choose|i: int| 0 <= i < emissions.len() && emissions[i] == wanted;
    let all = guards_of(operation, emissions);
    if i == emissions.len() - 1 {
        assert(all[all.len() - 1] == guard_on(operation, key, class, reason));
    } else {
        let init = emissions.drop_last();
        assert(init[i] == wanted);
        lemma_emitted_guard(operation, init, key, class, reason);
        let before = guards_of(operation, init);
        let j = choose|j: int|
            0 <= j < before.len() && #[trigger] before[j] == guard_on(operation, key, class, reason);
        assert(all[j] == before[j]);
    }
}

/// Every mutation of emissions is one of them.
pub proof fn lemma_emitted_mutation(emissions: Seq<Emission>, i: int)
    requires
        0 <= i < mutations_of(emissions).len(),
    ensures
        exists|j: int|
            0 <= j < emissions.len() && match #[trigger] emissions[j] {
                Emission::Put(key, value) => mutations_of(emissions)[i] == (MutationView::Put {
                    key,
                    value,
                }),
                Emission::Delete(key) => mutations_of(emissions)[i] == (MutationView::Delete {
                    key,
                }),
                Emission::DeletePrefix(key) => mutations_of(emissions)[i] == (
                MutationView::DeleteRange { range: RangeView::Prefix(key) }),
                _ => false,
            },
    decreases emissions.len(),
{
    let init = emissions.drop_last();
    let before = mutations_of(init);
    if i < before.len() {
        lemma_emitted_mutation(init, i);
        let j = choose|j: int|
            0 <= j < init.len() && match #[trigger] init[j] {
                Emission::Put(key, value) => before[i] == (MutationView::Put { key, value }),
                Emission::Delete(key) => before[i] == (MutationView::Delete { key }),
                Emission::DeletePrefix(key) => before[i] == (MutationView::DeleteRange {
                    range: RangeView::Prefix(key),
                }),
                _ => false,
            };
        assert(emissions[j] == init[j]);
        assert(mutations_of(emissions)[i] == before[i]);
    } else {
        assert(emissions[emissions.len() - 1] == emissions.last());
    }
}

/// The mutations of two lists of emissions behind each other.
pub proof fn lemma_mutations_concat(a: Seq<Emission>, b: Seq<Emission>)
    ensures
        mutations_of(a + b) == mutations_of(a) + mutations_of(b),
    decreases b.len(),
{
    if b.len() == 0 {
        assert(a + b =~= a);
        assert(mutations_of(a) + mutations_of(b) =~= mutations_of(a));
    } else {
        assert((a + b).drop_last() =~= a + b.drop_last());
        lemma_mutations_concat(a, b.drop_last());
        assert(mutations_of(a + b) =~= mutations_of(a) + mutations_of(b));
    }
}

/// The guards of two lists of emissions behind each other.
pub proof fn lemma_guards_concat(operation: OperationFamily, a: Seq<Emission>, b: Seq<Emission>)
    ensures
        guards_of(operation, a + b) == guards_of(operation, a) + guards_of(operation, b),
    decreases b.len(),
{
    if b.len() == 0 {
        assert(a + b =~= a);
        assert(guards_of(operation, a) + guards_of(operation, b) =~= guards_of(operation, a));
    } else {
        assert((a + b).drop_last() =~= a + b.drop_last());
        lemma_guards_concat(operation, a, b.drop_last());
        assert(guards_of(operation, a + b) =~= guards_of(operation, a) + guards_of(operation, b));
    }
}

/// The key of a mutation's emission with its shape.
pub open spec fn emission_target(emission: Emission) -> Option<(MutationKind, Path)> {
    match emission {
        Emission::Put(key, _) => Some((MutationKind::Put, key)),
        Emission::Delete(key) => Some((MutationKind::Delete, key)),
        Emission::DeletePrefix(key) => Some((MutationKind::DeletePrefix, key)),
        _ => None,
    }
}

/// Whether emissions include every guard that one of them calls for.
pub open spec fn emission_guarded(
    operation: OperationFamily,
    emissions: Seq<Emission>,
    emission: Emission,
) -> bool {
    emission_target(emission) matches Some((kind, key)) ==> {
        let needs = guard_requirements(operation, kind, classified(key)->Some_0);
        forall|j: int|
            0 <= j < needs.len() ==> emits_guard(
                emissions,
                key,
                (#[trigger] needs[j]).0,
                needs[j].1,
            )
    }
}

/// Whether emissions include every guard that an operation's family requires.
pub open spec fn emits_required(operation: OperationFamily, emissions: Seq<Emission>) -> bool {
    forall|contract: GuardContract|
        contract.operation == operation && #[trigger] requires_guard(contract) ==> exists|
            key: Path,
        |
            #[trigger] classified(key) == Some(contract.target) && emits_guard(
                emissions,
                key,
                contract.class,
                contract.reason,
            )
}

/// Emissions within the contract that are fully guarded compile, and so does
/// every selection of their mutations.
pub proof fn lemma_emissions_compile(
    operation: OperationFamily,
    emissions: Seq<Emission>,
    mutations: Seq<MutationView>,
)
    requires
        forall|i: int|
            0 <= i < emissions.len() ==> emission_permitted(operation, #[trigger] emissions[i]),
        forall|i: int|
            0 <= i < emissions.len() ==> emission_guarded(
                operation,
                emissions,
                #[trigger] emissions[i],
            ),
        emits_required(operation, emissions),
        forall|i: int|
            0 <= i < mutations.len() ==> mutations_of(emissions).contains(#[trigger] mutations[i]),
    ensures
        compiled_fault(operation, mutations, plan_of(operation, emissions)) is None,
{
    let plan = plan_of(operation, emissions);
    assert forall|i: int| 0 <= i < mutations.len() implies mutation_fault(
        operation,
        #[trigger] mutations[i],
    ) is None && mutation_guarded(operation, mutations[i], plan.entries) by {
        let all = mutations_of(emissions);
        assert(all.contains(mutations[i]));
        let k = choose|k: int| 0 <= k < all.len() && all[k] == mutations[i];
        lemma_emitted_mutation(emissions, k);
        let j = choose|j: int|
            0 <= j < emissions.len() && match #[trigger] emissions[j] {
                Emission::Put(key, value) => all[k] == (MutationView::Put { key, value }),
                Emission::Delete(key) => all[k] == (MutationView::Delete { key }),
                Emission::DeletePrefix(key) => all[k] == (MutationView::DeleteRange {
                    range: RangeView::Prefix(key),
                }),
                _ => false,
            };
        assert(emission_permitted(operation, emissions[j]));
        assert(emission_guarded(operation, emissions, emissions[j]));
        let (kind, key) = mutation_target(mutations[i])->Some_0;
        assert(emission_target(emissions[j]) == Some((kind, key)));
        let needs = guard_requirements(operation, kind, classified(key)->Some_0);
        assert forall|n: int| 0 <= n < needs.len() implies has_guard(
            plan.entries,
            key,
            (#[trigger] needs[n]).0,
            needs[n].1,
        ) by {
            assert(emits_guard(emissions, key, needs[n].0, needs[n].1));
            lemma_emitted_guard(operation, emissions, key, needs[n].0, needs[n].1);
        }
    }
    lemma_mutations_fault(operation, mutations);
    assert forall|contract: GuardContract|
        contract.operation == operation && #[trigger] requires_guard(
            contract,
        ) implies has_shape(plan.entries, contract) by {
        let key = choose|key: Path| #[trigger]
            classified(key) == Some(contract.target) && emits_guard(
                emissions,
                key,
                contract.class,
                contract.reason,
            );
        lemma_emitted_guard(operation, emissions, key, contract.class, contract.reason);
    }
}

/// Whether every emission is within the contract of an operation and comes
/// with the guards that it calls for.
pub open spec fn sound(operation: OperationFamily, emissions: Seq<Emission>) -> bool {
    forall|i: int|
        0 <= i < emissions.len() ==> emission_permitted(
            operation,
            #[trigger] emissions[i],
        ) && emission_guarded(operation, emissions, emissions[i])
}

/// Guards of a list remain among more emissions.
pub proof fn lemma_guarded_within(
    operation: OperationFamily,
    part: Seq<Emission>, whole: Seq<Emission>, emission: Emission)
    requires
        emission_guarded(operation, part, emission),
        forall|e: Emission| part.contains(e) ==> #[trigger] whole.contains(e),
    ensures
        emission_guarded(operation, whole, emission),
{
    if let Some((kind, key)) = emission_target(emission) {
        let needs = guard_requirements(operation, kind, classified(key)->Some_0);
        assert forall|j: int| 0 <= j < needs.len() implies emits_guard(
            whole,
            key,
            (#[trigger] needs[j]).0,
            needs[j].1,
        ) by {
            assert(emits_guard(part, key, needs[j].0, needs[j].1));
            match needs[j].0 {
                GuardClass::Invariant => {
                    assert(whole.contains(Emission::Invariant(key, needs[j].1)));
                },
                GuardClass::Write => {
                    assert(whole.contains(Emission::Write(key, needs[j].1)));
                },
                GuardClass::SerializableRead => {},
            }
        }
    }
}

/// Sound lists behind each other are sound.
pub proof fn lemma_sound_concat(operation: OperationFamily, a: Seq<Emission>, b: Seq<Emission>)
    requires
        sound(operation, a),
        sound(operation, b),
    ensures
        sound(operation, a + b),
{
    let whole = a + b;
    assert forall|e: Emission| a.contains(e) implies #[trigger] whole.contains(e) by {
        let i = choose|i: int| 0 <= i < a.len() && a[i] == e;
        assert(whole[i] == e);
    }
    assert forall|e: Emission| b.contains(e) implies #[trigger] whole.contains(e) by {
        let i = choose|i: int| 0 <= i < b.len() && b[i] == e;
        assert(whole[a.len() + i] == e);
    }
    assert forall|i: int| 0 <= i < whole.len() implies emission_permitted(
        operation,
        #[trigger] whole[i],
    ) && emission_guarded(operation, whole, whole[i]) by {
        if i < a.len() {
            assert(whole[i] == a[i]);
            lemma_guarded_within(operation, a, whole, a[i]);
        } else {
            assert(whole[i] == b[i - a.len()]);
            lemma_guarded_within(operation, b, whole, b[i - a.len()]);
        }
    }
}

/// What sound items emit is sound.
pub proof fn lemma_sound_gathered<A>(operation: OperationFamily, items: Seq<A>, f: spec_fn(A) -> Seq<Emission>)
    requires
        forall|i: int| 0 <= i < items.len() ==> sound(operation, f(#[trigger] items[i])),
    ensures
        sound(operation, gathered(items, f)),
    decreases items.len(),
{
    if items.len() > 0 {
        let init = items.drop_last();
        assert forall|i: int| 0 <= i < init.len() implies sound(operation, f(#[trigger] init[i])) by {
            assert(init[i] == items[i]);
        }
        lemma_sound_gathered(operation, init, f);
        assert(items.last() == items[items.len() - 1]);
        lemma_sound_concat(operation, gathered(init, f), f(items.last()));
    }
}

/// Whether sound emissions that include what is required compile.
pub proof fn lemma_sound_compiles(operation: OperationFamily, emissions: Seq<Emission>)
    requires
        sound(operation, emissions),
        emits_required(operation, emissions),
    ensures
        compiled_fault(operation, mutations_of(emissions), plan_of(operation, emissions)) is None,
{
    let mutations = mutations_of(emissions);
    assert forall|i: int| 0 <= i < mutations.len() implies mutations_of(emissions).contains(
        #[trigger] mutations[i],
    ) by {}
    lemma_emissions_compile(operation, emissions, mutations);
}

/// A lowering under way.
pub struct Lowering {
    operation: OperationFamily,
    mutations: Vec<Mutation>,
    guards: GuardPlan,
    emissions: Ghost<Seq<Emission>>,
}

impl Lowering {
    #[verifier::type_invariant]
    spec fn well_formed(self) -> bool {
        &&& mutations_view(self.mutations@) == mutations_of(self.emissions@)
        &&& self.guards@ == plan_of(self.operation, self.emissions@)
    }

    /// The operation that is lowered.
    pub closed spec fn family(&self) -> OperationFamily {
        self.operation
    }

    /// What has been emitted so far.
    pub closed spec fn emissions(&self) -> Seq<Emission> {
        self.emissions@
    }

    /// Start the lowering of an operation.
    pub fn new(operation: OperationFamily) -> (r: Lowering)
        ensures
            r.family() == operation,
            r.emissions() == Seq::<Emission>::empty(),
    {
        let mutations: Vec<Mutation> = Vec::new();
        let guards = GuardPlan::for_operation(operation);
        let ghost emissions = Seq::<Emission>::empty();
        proof {
            assert(mutations_view(mutations@) =~= mutations_of(emissions));
            assert(guards@ =~= plan_of(operation, emissions));
        }
        Lowering { operation, mutations, guards, emissions: Ghost(emissions) }
    }

    /// Emit a mandatory guard.
    pub fn add_invariant(self, key: Key, reason: GuardReason) -> (r: Lowering)
        requires
            guard_fault(Some(self.family()), key@, GuardClass::Invariant, reason) is None,
        ensures
            r.family() == self.family(),
            r.emissions() == self.emissions().push(Emission::Invariant(key@, reason)),
    {
        proof {
            use_type_invariant(&self);
        }
        let Lowering { operation, mutations, guards, emissions } = self;
        let mut guards = guards;
        let ghost more = emissions@.push(Emission::Invariant(key@, reason));
        let _ = guards.add_invariant(key, reason);
        proof {
            assert(more.drop_last() =~= emissions@);
        }
        Lowering { operation, mutations, guards, emissions: Ghost(more) }
    }

    /// Emit a write guard.
    pub fn write(self, key: Key, reason: GuardReason) -> (r: Lowering)
        requires
            guard_fault(Some(self.family()), key@, GuardClass::Write, reason) is None,
        ensures
            r.family() == self.family(),
            r.emissions() == self.emissions().push(Emission::Write(key@, reason)),
    {
        proof {
            use_type_invariant(&self);
        }
        let Lowering { operation, mutations, guards, emissions } = self;
        let mut guards = guards;
        let ghost more = emissions@.push(Emission::Write(key@, reason));
        let _ = guards.write(key, reason);
        proof {
            assert(more.drop_last() =~= emissions@);
        }
        Lowering { operation, mutations, guards, emissions: Ghost(more) }
    }

    /// Emit a value under a key.
    pub fn put(self, key: Key, value: Vec<u8>) -> (r: Lowering)
        ensures
            r.family() == self.family(),
            r.emissions() == self.emissions().push(Emission::Put(key@, value@)),
    {
        proof {
            use_type_invariant(&self);
        }
        let Lowering { operation, mutations, guards, emissions } = self;
        let mut mutations = mutations;
        let ghost more = emissions@.push(Emission::Put(key@, value@));
        mutations.push(Mutation::Put { key, value });
        proof {
            assert(more.drop_last() =~= emissions@);
            assert(mutations_view(mutations@) =~= mutations_of(more));
        }
        Lowering { operation, mutations, guards, emissions: Ghost(more) }
    }

    /// Emit the deletion of a key.
    pub fn delete(self, key: Key) -> (r: Lowering)
        ensures
            r.family() == self.family(),
            r.emissions() == self.emissions().push(Emission::Delete(key@)),
    {
        proof {
            use_type_invariant(&self);
        }
        let Lowering { operation, mutations, guards, emissions } = self;
        let mut mutations = mutations;
        let ghost more = emissions@.push(Emission::Delete(key@));
        mutations.push(Mutation::Delete { key });
        proof {
            assert(more.drop_last() =~= emissions@);
            assert(mutations_view(mutations@) =~= mutations_of(more));
        }
        Lowering { operation, mutations, guards, emissions: Ghost(more) }
    }

    /// Emit the deletion of everything at or below a key.
    pub fn delete_prefix(self, key: Key) -> (r: Lowering)
        ensures
            r.family() == self.family(),
            r.emissions() == self.emissions().push(Emission::DeletePrefix(key@)),
    {
        proof {
            use_type_invariant(&self);
        }
        let Lowering { operation, mutations, guards, emissions } = self;
        let mut mutations = mutations;
        let ghost more = emissions@.push(Emission::DeletePrefix(key@));
        mutations.push(Mutation::DeleteRange { range: Range::Prefix(key) });
        proof {
            assert(more.drop_last() =~= emissions@);
            assert(mutations_view(mutations@) =~= mutations_of(more));
        }
        Lowering { operation, mutations, guards, emissions: Ghost(more) }
    }

    /// Take what was emitted.
    pub fn finish(self) -> (r: (Vec<Mutation>, GuardPlan))
        ensures
            mutations_view(r.0@) == mutations_of(self.emissions()),
            r.1@ == plan_of(self.family(), self.emissions()),
    {
        proof {
            use_type_invariant(&self);
        }
        (self.mutations, self.guards)
    }
}

} // verus!
