//! Guards: the conflict dependencies of an operation.
//!
//! A plan lists every guard that the compiler emitted. The footprint that the
//! authority checks is derived from it, and so is the proof that an operation's
//! output keeps to its contract.

use crate::bytes::copy_bytes;
use crate::error::{Error, Result};
use crate::footprint::{
    lemma_topmost_above, lemma_topmost_insert, topmost, ConflictFootprint, FootprintView,
};
use crate::identity::{ColumnId, TableId};
use crate::key::{
    below, lemma_below_transitive, mutations_view, Key, Mutation, MutationView, Path, Range,
    RangeView,
};
use crate::logical::contract::{
    guard_contracts, guard_table_is_exact, lists_guard, lists_mutation, mutation_contracts,
    mutation_rank, mutation_table_is_exact, permits_guard, permits_mutation, permits_rejection,
    rejection_contracts, rejection_table_is_exact, required_guard_contracts, required_rank,
    required_table_is_exact, requires_guard, GuardClass, GuardContract, GuardReason,
    MutationContract, MutationKind, OperationFamily, RejectionContract, RejectionKind,
};
use crate::logical::isolation::IsolationLevel;
use crate::logical::layout::{column_view_path, view_path, view_prefix_path};
use crate::logical::target::{bounded_key, classified, LogicalTarget, TargetFamily};
use crate::name::SqlName;
use vstd::prelude::*;

verus! {

/// One unpruned conflict dependency emitted by the compiler.
#[derive(Debug, PartialEq, Eq)]
pub struct Guard {
    operation: OperationFamily,
    target: Key,
    family: TargetFamily,
    class: GuardClass,
    reason: GuardReason,
}

/// A guard as a mathematical value.
pub struct GuardView {
    pub operation: OperationFamily,
    pub target: Path,
    pub family: TargetFamily,
    pub class: GuardClass,
    pub reason: GuardReason,
}

/// The guard for a target that the registry knows.
pub open spec fn guard_on(
    operation: OperationFamily,
    target: Path,
    class: GuardClass,
    reason: GuardReason,
) -> GuardView {
    GuardView { operation, target, family: classified(target)->Some_0, class, reason }
}

impl Guard {
    /// The guard as a mathematical value.
    pub closed spec fn view(&self) -> GuardView {
        GuardView {
            operation: self.operation,
            target: self.target@,
            family: self.family,
            class: self.class,
            reason: self.reason,
        }
    }

    #[verifier::type_invariant]
    spec fn well_formed(self) -> bool {
        &&& classified(self.target@) == Some(self.family)
        &&& permits_guard(self.operation, self.class, self.reason, self.family)
    }

    /// The operation family that emitted the guard.
    pub fn operation(&self) -> (r: OperationFamily)
        ensures
            r == self@.operation,
    {
        self.operation
    }

    /// The key that the operation depends on.
    pub fn target(&self) -> (r: &Key)
        ensures
            r@ == self@.target,
    {
        &self.target
    }

    /// The family of the target. Every guard's family is that of its target.
    pub fn family(&self) -> (r: TargetFamily)
        ensures
            r == self@.family,
            classified(self@.target) == Some(r),
    {
        proof {
            use_type_invariant(self);
        }
        self.family
    }

    /// When the guard counts.
    pub fn class(&self) -> (r: GuardClass)
        ensures
            r == self@.class,
    {
        self.class
    }

    /// Why the operation depends on the target. Every guard's shape is one that
    /// its operation's contract permits.
    pub fn reason(&self) -> (r: GuardReason)
        ensures
            r == self@.reason,
            permits_guard(self@.operation, self@.class, r, self@.family),
    {
        proof {
            use_type_invariant(self);
        }
        self.reason
    }
}

impl Clone for Guard {
    fn clone(&self) -> (r: Self)
        ensures
            r@ == self@,
    {
        proof {
            use_type_invariant(self);
        }
        Guard {
            operation: self.operation,
            target: self.target.clone(),
            family: self.family,
            class: self.class,
            reason: self.reason,
        }
    }
}

/// Unpruned compiler evidence from which the executable footprint is derived.
#[derive(Debug, PartialEq, Eq)]
pub struct GuardPlan {
    operation: Option<OperationFamily>,
    entries: Vec<Guard>,
}

/// A plan as a mathematical value.
#[verifier::ext_equal]
pub struct PlanView {
    pub operation: Option<OperationFamily>,
    pub entries: Seq<GuardView>,
}

/// The guards of a list as mathematical values.
pub open spec fn guards_view(guards: Seq<Guard>) -> Seq<GuardView> {
    Seq::new(guards.len(), |i: int| guards[i]@)
}

/// The targets that guards of one class depend on.
pub open spec fn class_targets(entries: Seq<GuardView>, class: GuardClass) -> Set<Path> {
    Set::new(
        |p: Path| exists|i: int| 0 <= i < entries.len() && (#[trigger] entries[i]).class == class && entries[i].target == p,
    )
}

/// The footprint of a list of guards: of each class, the topmost targets.
pub open spec fn entries_footprint(entries: Seq<GuardView>) -> FootprintView {
    FootprintView {
        constraints: topmost(class_targets(entries, GuardClass::Invariant)),
        writes: topmost(class_targets(entries, GuardClass::Write)),
        reads: topmost(class_targets(entries, GuardClass::SerializableRead)),
    }
}

/// Why a guard cannot join a plan, if it cannot.
pub open spec fn guard_fault(
    operation: Option<OperationFamily>,
    target: Path,
    class: GuardClass,
    reason: GuardReason,
) -> Option<&'static str> {
    match classified(target) {
        None => Some("guard target is outside the logical target registry"),
        Some(family) => match operation {
            None => Some("guards can only be added to an operation-scoped plan"),
            Some(operation) => if permits_guard(operation, class, reason, family) {
                None
            } else {
                Some("guard is absent from the operation contract")
            },
        },
    }
}

/// A fault as the result that reports it.
pub open spec fn fault_result(fault: Option<&'static str>) -> Result<()> {
    match fault {
        None => Ok(()),
        Some(message) => Err(Error::CaptureInvariant(message)),
    }
}

/// The targets of one class after another guard joined.
proof fn lemma_class_targets_push(entries: Seq<GuardView>, guard: GuardView, class: GuardClass)
    ensures
        guard.class == class ==> class_targets(entries.push(guard), class) == class_targets(
            entries,
            class,
        ).insert(guard.target),
        guard.class != class ==> class_targets(entries.push(guard), class) == class_targets(
            entries,
            class,
        ),
{
    let a = class_targets(entries.push(guard), class);
    let b = class_targets(entries, class);
    assert forall|p: Path| a.contains(p) implies b.contains(p) || (guard.class == class && p
        == guard.target) by {
        let i = choose|i: int|
            0 <= i < entries.push(guard).len() && (#[trigger] entries.push(guard)[i]).class == class
                && entries.push(guard)[i].target == p;
        if i < entries.len() {
            assert(entries[i] == entries.push(guard)[i]);
        }
    }
    assert forall|p: Path| b.contains(p) implies a.contains(p) by {
        let i = choose|i: int|
            0 <= i < entries.len() && (#[trigger] entries[i]).class == class && entries[i].target
                == p;
        assert(entries.push(guard)[i] == entries[i]);
    }
    assert(entries.push(guard)[entries.len() as int] == guard);
    if guard.class == class {
        assert(a =~= b.insert(guard.target));
    } else {
        assert(a =~= b);
    }
}

/// The targets of a finite list are finitely many.
proof fn lemma_class_targets_finite(entries: Seq<GuardView>, class: GuardClass)
    ensures
        class_targets(entries, class).finite(),
    decreases entries.len(),
{
    if entries.len() == 0 {
        assert(class_targets(entries, class) =~= Set::<Path>::empty());
    } else {
        lemma_class_targets_finite(entries.drop_last(), class);
        lemma_class_targets_push(entries.drop_last(), entries.last(), class);
        assert(entries.drop_last().push(entries.last()) =~= entries);
    }
}

impl GuardPlan {
    /// The plan as a mathematical value.
    pub closed spec fn view(&self) -> PlanView {
        PlanView { operation: self.operation, entries: guards_view(self.entries@) }
    }

    /// An empty plan for one operation.
    pub fn for_operation(operation: OperationFamily) -> (r: Self)
        ensures
            r@.operation == Some(operation),
            r@.entries == Seq::<GuardView>::empty(),
    {
        let r = GuardPlan { operation: Some(operation), entries: Vec::new() };
        assert(r@.entries =~= Seq::<GuardView>::empty());
        r
    }

    /// An empty plan that collects the guards of several operations.
    pub fn merged() -> (r: Self)
        ensures
            r@.operation is None,
            r@.entries == Seq::<GuardView>::empty(),
    {
        let r = GuardPlan { operation: None, entries: Vec::new() };
        assert(r@.entries =~= Seq::<GuardView>::empty());
        r
    }

    /// The operation family that the plan belongs to.
    pub fn operation(&self) -> (r: Option<OperationFamily>)
        ensures
            r == self@.operation,
    {
        self.operation
    }

    /// Add a mandatory guard.
    pub fn add_invariant(&mut self, target: Key, reason: GuardReason) -> (r: Result<()>)
        ensures
            r == fault_result(
                guard_fault(old(self)@.operation, target@, GuardClass::Invariant, reason),
            ),
            r is Err ==> final(self)@ == old(self)@,
            r is Ok ==> final(self)@ == (PlanView {
                entries: old(self)@.entries.push(
                    guard_on(
                        old(self)@.operation->Some_0,
                        target@,
                        GuardClass::Invariant,
                        reason,
                    ),
                ),
                ..old(self)@
            }),
    {
        self.insert(target, GuardClass::Invariant, reason)
    }

    /// Add a write guard.
    pub fn write(&mut self, target: Key, reason: GuardReason) -> (r: Result<()>)
        ensures
            r == fault_result(guard_fault(old(self)@.operation, target@, GuardClass::Write, reason)),
            r is Err ==> final(self)@ == old(self)@,
            r is Ok ==> final(self)@ == (PlanView {
                entries: old(self)@.entries.push(
                    guard_on(old(self)@.operation->Some_0, target@, GuardClass::Write, reason),
                ),
                ..old(self)@
            }),
    {
        self.insert(target, GuardClass::Write, reason)
    }

    /// Add a guard that counts for serializable isolation alone.
    pub fn serializable_read(&mut self, target: Key, reason: GuardReason) -> (r: Result<()>)
        ensures
            r == fault_result(
                guard_fault(old(self)@.operation, target@, GuardClass::SerializableRead, reason),
            ),
            r is Err ==> final(self)@ == old(self)@,
            r is Ok ==> final(self)@ == (PlanView {
                entries: old(self)@.entries.push(
                    guard_on(
                        old(self)@.operation->Some_0,
                        target@,
                        GuardClass::SerializableRead,
                        reason,
                    ),
                ),
                ..old(self)@
            }),
    {
        self.insert(target, GuardClass::SerializableRead, reason)
    }

    /// Append another plan's guards.
    pub fn extend(&mut self, other: Self)
        ensures
            final(self)@.operation == old(self)@.operation,
            final(self)@.entries == old(self)@.entries + other@.entries,
    {
        let mut entries = other.entries;
        self.entries.append(&mut entries);
        assert(self@.entries =~= old(self)@.entries + other@.entries);
    }

    /// Every guard, in the order of emission.
    pub fn entries(&self) -> (r: &[Guard])
        ensures
            guards_view(r@) == self@.entries,
    {
        self.entries.as_slice()
    }

    /// The executable footprint of the plan.
    pub fn footprint(&self) -> (r: ConflictFootprint)
        ensures
            r@ == entries_footprint(self@.entries),
    {
        let mut footprint = ConflictFootprint::new();
        let mut i: usize = 0;
        let ghost entries = self@.entries;
        proof {
            let none = entries.subrange(0, 0);
            assert(class_targets(none, GuardClass::Invariant) =~= Set::<Path>::empty());
            assert(class_targets(none, GuardClass::Write) =~= Set::<Path>::empty());
            assert(class_targets(none, GuardClass::SerializableRead) =~= Set::<Path>::empty());
            assert(topmost(Set::<Path>::empty()) =~= Set::<Path>::empty());
        }
        while i < self.entries.len()
            invariant
                i <= self.entries@.len(),
                entries == guards_view(self.entries@),
                footprint@ == entries_footprint(entries.subrange(0, i as int)),
            decreases self.entries.len() - i,
        {
            let guard = &self.entries[i];
            let target = guard.target().clone();
            proof {
                let seen = entries.subrange(0, i as int);
                assert(entries.subrange(0, i as int + 1) =~= seen.push(guard@));
                lemma_class_targets_push(seen, guard@, GuardClass::Invariant);
                lemma_class_targets_push(seen, guard@, GuardClass::Write);
                lemma_class_targets_push(seen, guard@, GuardClass::SerializableRead);
                lemma_class_targets_finite(seen, guard@.class);
                lemma_topmost_insert(class_targets(seen, guard@.class), guard@.target);
            }
            match guard.class() {
                GuardClass::Invariant => {
                    footprint = footprint.add_constraint(target);
                },
                GuardClass::Write => {
                    footprint = footprint.add_write(target);
                },
                GuardClass::SerializableRead => {
                    footprint = footprint.add_read(target);
                },
            }
            i += 1;
        }
        assert(entries.subrange(0, entries.len() as int) =~= entries);
        footprint
    }

    fn insert(&mut self, target: Key, class: GuardClass, reason: GuardReason) -> (r: Result<()>)
        ensures
            r == fault_result(guard_fault(old(self)@.operation, target@, class, reason)),
            r is Err ==> final(self)@ == old(self)@,
            r is Ok ==> final(self)@ == (PlanView {
                entries: old(self)@.entries.push(
                    guard_on(old(self)@.operation->Some_0, target@, class, reason),
                ),
                ..old(self)@
            }),
    {
        let family = match TargetFamily::classify(&target) {
            Some(family) => family,
            None => {
                return Err(
                    Error::CaptureInvariant("guard target is outside the logical target registry"),
                );
            },
        };
        let operation = match self.operation {
            Some(operation) => operation,
            None => {
                return Err(
                    Error::CaptureInvariant("guards can only be added to an operation-scoped plan"),
                );
            },
        };
        let table = guard_contracts();
        let contract = GuardContract { operation, class, reason, target: family };
        proof {
            guard_table_is_exact(table@, contract);
        }
        if !lists_guard(table.as_slice(), contract) {
            return Err(Error::CaptureInvariant("guard is absent from the operation contract"));
        }
        self.entries.push(Guard { operation, target, family, class, reason });
        assert(self@.entries =~= old(self)@.entries.push(
            guard_on(operation, target@, class, reason),
        ));
        Ok(())
    }

    /// Whether two plans emit the same guards in the same order.
    pub fn same(&self, other: &GuardPlan) -> (r: bool)
        ensures
            r == (self@ == other@),
    {
        if self.operation != other.operation || self.entries.len() != other.entries.len() {
            assert(self@.entries.len() == self.entries@.len());
            return false;
        }
        let mut i: usize = 0;
        while i < self.entries.len()
            invariant
                i <= self.entries@.len(),
                self.entries@.len() == other.entries@.len(),
                forall|j: int| 0 <= j < i ==> self@.entries[j] == other@.entries[j],
            decreases self.entries.len() - i,
        {
            let a = &self.entries[i];
            let b = &other.entries[i];
            if a.operation != b.operation || a.family != b.family || a.class != b.class || a.reason
                != b.reason || !a.target.same(&b.target) {
                assert(self@.entries[i as int] != other@.entries[i as int]);
                return false;
            }
            i += 1;
        }
        assert(self@.entries =~= other@.entries);
        true
    }
}

impl Clone for GuardPlan {
    fn clone(&self) -> (r: Self)
        ensures
            r@ == self@,
    {
        let mut entries: Vec<Guard> = Vec::new();
        let mut i: usize = 0;
        while i < self.entries.len()
            invariant
                i <= self.entries@.len(),
                entries@.len() == i,
                forall|j: int| 0 <= j < i ==> (#[trigger] entries@[j])@ == self.entries@[j]@,
            decreases self.entries.len() - i,
        {
            entries.push(self.entries[i].clone());
            i += 1;
        }
        assert(guards_view(entries@) =~= guards_view(self.entries@));
        GuardPlan { operation: self.operation, entries }
    }
}

/// The shape of a mutation and the key that it is about. Deleting the full key
/// space has no such key.
pub open spec fn mutation_target(mutation: MutationView) -> Option<(MutationKind, Path)> {
    match mutation {
        MutationView::Put { key, .. } => Some((MutationKind::Put, key)),
        MutationView::Delete { key } => Some((MutationKind::Delete, key)),
        MutationView::DeleteRange { range: RangeView::Prefix(key) } => Some(
            (MutationKind::DeletePrefix, key),
        ),
        MutationView::DeleteRange { range: RangeView::Full } => None,
    }
}

/// Why an operation may not make a mutation, if it may not.
pub open spec fn mutation_fault(
    operation: OperationFamily,
    mutation: MutationView,
) -> Option<&'static str> {
    match mutation_target(mutation) {
        None => Some("Multilite operations cannot delete the full Homebase keyspace"),
        Some((kind, key)) => match classified(key) {
            None => Some("mutation target is outside the logical target registry"),
            Some(family) => if permits_mutation(operation, kind, family) {
                None
            } else {
                Some("mutation is absent from the operation contract")
            },
        },
    }
}

/// The first fault of a list of mutations.
pub open spec fn mutations_fault(
    operation: OperationFamily,
    mutations: Seq<MutationView>,
) -> Option<&'static str>
    decreases mutations.len(),
{
    if mutations.len() == 0 {
        None
    } else {
        match mutation_fault(operation, mutations[0]) {
            Some(message) => Some(message),
            None => mutations_fault(operation, mutations.drop_first()),
        }
    }
}

/// A list without a faulty mutation has no fault.
pub proof fn lemma_mutations_fault(operation: OperationFamily, mutations: Seq<MutationView>)
    ensures
        mutations_fault(operation, mutations) is None <==> forall|i: int|
            0 <= i < mutations.len() ==> mutation_fault(operation, #[trigger] mutations[i]) is None,
    decreases mutations.len(),
{
    if mutations.len() > 0 {
        let rest = mutations.drop_first();
        lemma_mutations_fault(operation, rest);
        if mutations_fault(operation, mutations) is None {
            assert forall|i: int| 0 <= i < mutations.len() implies mutation_fault(
                operation,
                #[trigger] mutations[i],
            ) is None by {
                if i > 0 {
                    assert(rest[i - 1] == mutations[i]);
                }
            }
        }
        if forall|i: int|
            0 <= i < mutations.len() ==> mutation_fault(operation, #[trigger] mutations[i]) is None {
            assert forall|i: int| 0 <= i < rest.len() implies mutation_fault(
                operation,
                #[trigger] rest[i],
            ) is None by {
                assert(rest[i] == mutations[i + 1]);
            }
            assert(mutation_fault(operation, mutations[0]) is None);
        }
    }
}

/// Reject compiler output that writes outside its declared operation contract.
pub fn validate_mutations(operation: OperationFamily, mutations: &[Mutation]) -> (r: Result<()>)
    ensures
        r == fault_result(mutations_fault(operation, mutations_view(mutations@))),
{
    let table = mutation_contracts();
    let mut i: usize = 0;
    let ghost all = mutations_view(mutations@);
    assert(all.subrange(0, all.len() as int) =~= all);
    while i < mutations.len()
        invariant
            i <= mutations@.len(),
            all == mutations_view(mutations@),
            table@.len() == mutation_contracts_len(),
            forall|j: int| 0 <= j < table@.len() ==> mutation_rank(#[trigger] table@[j]) == j,
            mutations_fault(operation, all) == mutations_fault(
                operation,
                all.subrange(i as int, all.len() as int),
            ),
        decreases mutations.len() - i,
    {
        let ghost rest = all.subrange(i as int, all.len() as int);
        assert(rest[0] == mutations@[i as int]@);
        let (kind, key) = match mutation_kind_and_key(&mutations[i]) {
            Ok(pair) => pair,
            Err(error) => {
                return Err(error);
            },
        };
        let family = match TargetFamily::classify(key) {
            Some(family) => family,
            None => {
                return Err(
                    Error::CaptureInvariant(
                        "mutation target is outside the logical target registry",
                    ),
                );
            },
        };
        let contract = MutationContract { operation, kind, target: family };
        proof {
            mutation_table_is_exact(table@, contract);
        }
        if !lists_mutation(table.as_slice(), contract) {
            return Err(Error::CaptureInvariant("mutation is absent from the operation contract"));
        }
        assert(rest.drop_first() =~= all.subrange(i as int + 1, all.len() as int));
        i += 1;
    }
    Ok(())
}

/// How many mutation contracts there are.
pub open spec fn mutation_contracts_len() -> nat {
    74
}

/// The shape of a mutation and the key that it is about.
fn mutation_kind_and_key(mutation: &Mutation) -> (r: Result<(MutationKind, &Key)>)
    ensures
        match mutation_target(mutation@) {
            Some((kind, path)) => r is Ok && r->Ok_0.0 == kind && r->Ok_0.1@ == path,
            None => r == Err::<(MutationKind, &Key), Error>(
                Error::CaptureInvariant(
                    "Multilite operations cannot delete the full Homebase keyspace",
                ),
            ),
        },
{
    match mutation {
        Mutation::Put { key, .. } => Ok((MutationKind::Put, key)),
        Mutation::Delete { key } => Ok((MutationKind::Delete, key)),
        Mutation::DeleteRange { range: Range::Prefix(prefix) } => Ok(
            (MutationKind::DeletePrefix, prefix),
        ),
        Mutation::DeleteRange { range: Range::Full } => Err(
            Error::CaptureInvariant("Multilite operations cannot delete the full Homebase keyspace"),
        ),
    }
}

/// Whether a repair is the one that an operation's contract declares.
pub fn validate_rejection(operation: OperationFamily, rejection: RejectionKind) -> (r: Result<()>)
    ensures
        r == fault_result(
            if permits_rejection(operation, rejection) {
                None
            } else {
                Some("rejection repair is absent from the operation contract")
            },
        ),
{
    let table = rejection_contracts();
    let contract = RejectionContract { operation, rejection };
    proof {
        rejection_table_is_exact(table@, contract);
    }
    let mut i: usize = 0;
    while i < table.len()
        invariant
            i <= table@.len(),
            forall|j: int| 0 <= j < i ==> table@[j] != contract,
            table@.contains(contract) <==> permits_rejection(operation, rejection),
        decreases table.len() - i,
    {
        if table[i] == contract {
            assert(table@.contains(contract));
            return Ok(());
        }
        i += 1;
    }
    Err(Error::CaptureInvariant("rejection repair is absent from the operation contract"))
}

/// The guards on a mutation's own key that the mutation calls for.
pub open spec fn guard_requirements(
    operation: OperationFamily,
    kind: MutationKind,
    family: TargetFamily,
) -> Seq<(GuardClass, GuardReason)> {
    match (operation, kind, family) {
        (OperationFamily::CreateTable, MutationKind::Put, TargetFamily::SchemaObjectName)
        | (OperationFamily::DropTable, MutationKind::Delete, TargetFamily::SchemaObjectName)
        | (OperationFamily::RenameTable, MutationKind::Put, TargetFamily::SchemaObjectName)
        | (OperationFamily::RenameTable, MutationKind::Delete, TargetFamily::SchemaObjectName)
        | (OperationFamily::CreateIndex, MutationKind::Put, TargetFamily::SchemaObjectName)
        | (OperationFamily::DropIndex, MutationKind::Delete, TargetFamily::SchemaObjectName)
        | (OperationFamily::CreateView, MutationKind::Put, TargetFamily::SchemaObjectName)
        | (OperationFamily::DropView, MutationKind::Delete, TargetFamily::SchemaObjectName) => seq![(GuardClass::Invariant, GuardReason::SchemaObjectName)],
        (OperationFamily::CreateView, MutationKind::Put, TargetFamily::ViewDependency)
        | (OperationFamily::DropView, MutationKind::Delete, TargetFamily::ViewDependency) => seq![(GuardClass::Invariant, GuardReason::ViewDependency)],
        (OperationFamily::CreateView, MutationKind::Put, TargetFamily::ColumnDependency)
        | (OperationFamily::DropView, MutationKind::Delete, TargetFamily::ColumnDependency) => seq![(GuardClass::Invariant, GuardReason::ColumnDependency), (GuardClass::Write, GuardReason::ColumnDependency)],
        (OperationFamily::RenameColumn, MutationKind::Put, TargetFamily::ColumnName)
        | (OperationFamily::RenameColumn, MutationKind::Delete, TargetFamily::ColumnName)
        | (OperationFamily::DropColumn, MutationKind::Delete, TargetFamily::ColumnName) => seq![(GuardClass::Invariant, GuardReason::ColumnNameBinding)],
        (OperationFamily::AddColumn, MutationKind::Put, TargetFamily::ColumnName) => seq![(GuardClass::Invariant, GuardReason::ColumnNameBinding), (GuardClass::Write, GuardReason::ColumnNameBinding)],
        (OperationFamily::AddColumn, MutationKind::Put, TargetFamily::ConstraintName) => seq![(GuardClass::Invariant, GuardReason::ConstraintNameBinding)],
        (OperationFamily::DropColumn, MutationKind::Delete, TargetFamily::ConstraintName)
        | (OperationFamily::DropConstraint, MutationKind::Delete, TargetFamily::ConstraintName) => seq![(GuardClass::Invariant, GuardReason::ConstraintNameBinding), (GuardClass::Write, GuardReason::ConstraintNameBinding)],
        (OperationFamily::DropConstraint, MutationKind::Delete, TargetFamily::ActiveConstraint)
        | (OperationFamily::CreateIndex, MutationKind::Put, TargetFamily::ActiveConstraint)
        | (OperationFamily::DropIndex, MutationKind::Delete, TargetFamily::ActiveConstraint) => seq![(GuardClass::Invariant, GuardReason::ConstraintState), (GuardClass::Write, GuardReason::ConstraintState)],
        (OperationFamily::CreateTable, MutationKind::Put, TargetFamily::ConstraintReference)
        | (OperationFamily::AddColumn, MutationKind::Put, TargetFamily::ConstraintReference)
        | (OperationFamily::DropTable, MutationKind::Delete, TargetFamily::ConstraintReference)
        | (OperationFamily::DropConstraint, MutationKind::Delete, TargetFamily::ConstraintReference)
        | (OperationFamily::DropIndex, MutationKind::DeletePrefix, TargetFamily::ConstraintReference)
        | (OperationFamily::DropConstraint, MutationKind::DeletePrefix, TargetFamily::ConstraintReference) => seq![(GuardClass::Invariant, GuardReason::ConstraintReference), (GuardClass::Write, GuardReason::ConstraintReference)],
        (OperationFamily::CreateIndex, MutationKind::Put, TargetFamily::ActiveSchemaRevision)
        | (OperationFamily::DropIndex, MutationKind::Put, TargetFamily::ActiveSchemaRevision) => seq![(GuardClass::Invariant, GuardReason::SchemaRevision), (GuardClass::Write, GuardReason::SchemaRevision)],
        (OperationFamily::CreateTable, MutationKind::Put, TargetFamily::WriteRevision)
        | (OperationFamily::CreateIndex, MutationKind::Put, TargetFamily::WriteRevision)
        | (OperationFamily::AddColumn, MutationKind::Put, TargetFamily::WriteRevision) => seq![(GuardClass::Write, GuardReason::WriteContract)],
        (OperationFamily::CreateIndex, MutationKind::Put, TargetFamily::ColumnDependency)
        | (OperationFamily::AddColumn, MutationKind::Put, TargetFamily::ColumnDependency)
        | (OperationFamily::DropIndex, MutationKind::Delete, TargetFamily::ColumnDependency)
        | (OperationFamily::DropIndex, MutationKind::DeletePrefix, TargetFamily::ColumnDependency)
        | (OperationFamily::DropColumn, MutationKind::Delete, TargetFamily::ColumnDependency)
        | (OperationFamily::DropColumn, MutationKind::DeletePrefix, TargetFamily::ColumnDependency) => seq![(GuardClass::Invariant, GuardReason::ColumnDependency), (GuardClass::Write, GuardReason::ColumnDependency)],
        (OperationFamily::RowChanges, MutationKind::Put, TargetFamily::Row) => seq![(GuardClass::Invariant, GuardReason::RowIdentity), (GuardClass::Write, GuardReason::RowIdentity)],
        (OperationFamily::RowChanges, MutationKind::Delete, TargetFamily::Row) => seq![(GuardClass::Write, GuardReason::RowIdentity)],
        (OperationFamily::RowChanges, MutationKind::Put, TargetFamily::UniqueOwner) => seq![(GuardClass::Invariant, GuardReason::UniqueOwnership), (GuardClass::Write, GuardReason::UniqueOwnership)],
        (OperationFamily::RowChanges, MutationKind::Delete, TargetFamily::UniqueOwner) => seq![(GuardClass::Write, GuardReason::UniqueOwnership)],
        (OperationFamily::RowChanges, MutationKind::Put, TargetFamily::ForeignReference) => seq![(GuardClass::Invariant, GuardReason::ForeignReference), (GuardClass::Write, GuardReason::ForeignReference)],
        (OperationFamily::RowChanges, MutationKind::Delete, TargetFamily::ForeignReference) => seq![(GuardClass::Write, GuardReason::ForeignReference)],
        (OperationFamily::RowChanges, MutationKind::DeletePrefix, TargetFamily::ForeignReference) => seq![(GuardClass::Invariant, GuardReason::ForeignChildren), (GuardClass::Write, GuardReason::ForeignChildren)],
        (OperationFamily::DropTable, MutationKind::DeletePrefix, TargetFamily::TableRoot) => seq![(GuardClass::Invariant, GuardReason::TableExistence), (GuardClass::Write, GuardReason::TableExistence)],
        (OperationFamily::DropTable, MutationKind::DeletePrefix, TargetFamily::ForeignReference) => seq![(GuardClass::Invariant, GuardReason::ForeignReference), (GuardClass::Write, GuardReason::ForeignReference)],
        (OperationFamily::SetUserVersion, MutationKind::Put, TargetFamily::UserVersion) => seq![(GuardClass::Write, GuardReason::UserVersion)],
        _ => seq![],
    }
}

/// The guards on a mutation's own key that the mutation calls for.
pub fn mutation_guard_requirements(
    operation: OperationFamily,
    kind: MutationKind,
    family: TargetFamily,
) -> (r: Vec<(GuardClass, GuardReason)>)
    ensures
        r@ == guard_requirements(operation, kind, family),
{
    let r: Vec<(GuardClass, GuardReason)> = match (operation, kind, family) {
        (OperationFamily::CreateTable, MutationKind::Put, TargetFamily::SchemaObjectName)
        | (OperationFamily::DropTable, MutationKind::Delete, TargetFamily::SchemaObjectName)
        | (OperationFamily::RenameTable, MutationKind::Put, TargetFamily::SchemaObjectName)
        | (OperationFamily::RenameTable, MutationKind::Delete, TargetFamily::SchemaObjectName)
        | (OperationFamily::CreateIndex, MutationKind::Put, TargetFamily::SchemaObjectName)
        | (OperationFamily::DropIndex, MutationKind::Delete, TargetFamily::SchemaObjectName)
        | (OperationFamily::CreateView, MutationKind::Put, TargetFamily::SchemaObjectName)
        | (OperationFamily::DropView, MutationKind::Delete, TargetFamily::SchemaObjectName) => vec![(GuardClass::Invariant, GuardReason::SchemaObjectName)],
        (OperationFamily::CreateView, MutationKind::Put, TargetFamily::ViewDependency)
        | (OperationFamily::DropView, MutationKind::Delete, TargetFamily::ViewDependency) => vec![(GuardClass::Invariant, GuardReason::ViewDependency)],
        (OperationFamily::CreateView, MutationKind::Put, TargetFamily::ColumnDependency)
        | (OperationFamily::DropView, MutationKind::Delete, TargetFamily::ColumnDependency) => vec![(GuardClass::Invariant, GuardReason::ColumnDependency), (GuardClass::Write, GuardReason::ColumnDependency)],
        (OperationFamily::RenameColumn, MutationKind::Put, TargetFamily::ColumnName)
        | (OperationFamily::RenameColumn, MutationKind::Delete, TargetFamily::ColumnName)
        | (OperationFamily::DropColumn, MutationKind::Delete, TargetFamily::ColumnName) => vec![(GuardClass::Invariant, GuardReason::ColumnNameBinding)],
        (OperationFamily::AddColumn, MutationKind::Put, TargetFamily::ColumnName) => vec![(GuardClass::Invariant, GuardReason::ColumnNameBinding), (GuardClass::Write, GuardReason::ColumnNameBinding)],
        (OperationFamily::AddColumn, MutationKind::Put, TargetFamily::ConstraintName) => vec![(GuardClass::Invariant, GuardReason::ConstraintNameBinding)],
        (OperationFamily::DropColumn, MutationKind::Delete, TargetFamily::ConstraintName)
        | (OperationFamily::DropConstraint, MutationKind::Delete, TargetFamily::ConstraintName) => vec![(GuardClass::Invariant, GuardReason::ConstraintNameBinding), (GuardClass::Write, GuardReason::ConstraintNameBinding)],
        (OperationFamily::DropConstraint, MutationKind::Delete, TargetFamily::ActiveConstraint)
        | (OperationFamily::CreateIndex, MutationKind::Put, TargetFamily::ActiveConstraint)
        | (OperationFamily::DropIndex, MutationKind::Delete, TargetFamily::ActiveConstraint) => vec![(GuardClass::Invariant, GuardReason::ConstraintState), (GuardClass::Write, GuardReason::ConstraintState)],
        (OperationFamily::CreateTable, MutationKind::Put, TargetFamily::ConstraintReference)
        | (OperationFamily::AddColumn, MutationKind::Put, TargetFamily::ConstraintReference)
        | (OperationFamily::DropTable, MutationKind::Delete, TargetFamily::ConstraintReference)
        | (OperationFamily::DropConstraint, MutationKind::Delete, TargetFamily::ConstraintReference)
        | (OperationFamily::DropIndex, MutationKind::DeletePrefix, TargetFamily::ConstraintReference)
        | (OperationFamily::DropConstraint, MutationKind::DeletePrefix, TargetFamily::ConstraintReference) => vec![(GuardClass::Invariant, GuardReason::ConstraintReference), (GuardClass::Write, GuardReason::ConstraintReference)],
        (OperationFamily::CreateIndex, MutationKind::Put, TargetFamily::ActiveSchemaRevision)
        | (OperationFamily::DropIndex, MutationKind::Put, TargetFamily::ActiveSchemaRevision) => vec![(GuardClass::Invariant, GuardReason::SchemaRevision), (GuardClass::Write, GuardReason::SchemaRevision)],
        (OperationFamily::CreateTable, MutationKind::Put, TargetFamily::WriteRevision)
        | (OperationFamily::CreateIndex, MutationKind::Put, TargetFamily::WriteRevision)
        | (OperationFamily::AddColumn, MutationKind::Put, TargetFamily::WriteRevision) => vec![(GuardClass::Write, GuardReason::WriteContract)],
        (OperationFamily::CreateIndex, MutationKind::Put, TargetFamily::ColumnDependency)
        | (OperationFamily::AddColumn, MutationKind::Put, TargetFamily::ColumnDependency)
        | (OperationFamily::DropIndex, MutationKind::Delete, TargetFamily::ColumnDependency)
        | (OperationFamily::DropIndex, MutationKind::DeletePrefix, TargetFamily::ColumnDependency)
        | (OperationFamily::DropColumn, MutationKind::Delete, TargetFamily::ColumnDependency)
        | (OperationFamily::DropColumn, MutationKind::DeletePrefix, TargetFamily::ColumnDependency) => vec![(GuardClass::Invariant, GuardReason::ColumnDependency), (GuardClass::Write, GuardReason::ColumnDependency)],
        (OperationFamily::RowChanges, MutationKind::Put, TargetFamily::Row) => vec![(GuardClass::Invariant, GuardReason::RowIdentity), (GuardClass::Write, GuardReason::RowIdentity)],
        (OperationFamily::RowChanges, MutationKind::Delete, TargetFamily::Row) => vec![(GuardClass::Write, GuardReason::RowIdentity)],
        (OperationFamily::RowChanges, MutationKind::Put, TargetFamily::UniqueOwner) => vec![(GuardClass::Invariant, GuardReason::UniqueOwnership), (GuardClass::Write, GuardReason::UniqueOwnership)],
        (OperationFamily::RowChanges, MutationKind::Delete, TargetFamily::UniqueOwner) => vec![(GuardClass::Write, GuardReason::UniqueOwnership)],
        (OperationFamily::RowChanges, MutationKind::Put, TargetFamily::ForeignReference) => vec![(GuardClass::Invariant, GuardReason::ForeignReference), (GuardClass::Write, GuardReason::ForeignReference)],
        (OperationFamily::RowChanges, MutationKind::Delete, TargetFamily::ForeignReference) => vec![(GuardClass::Write, GuardReason::ForeignReference)],
        (OperationFamily::RowChanges, MutationKind::DeletePrefix, TargetFamily::ForeignReference) => vec![(GuardClass::Invariant, GuardReason::ForeignChildren), (GuardClass::Write, GuardReason::ForeignChildren)],
        (OperationFamily::DropTable, MutationKind::DeletePrefix, TargetFamily::TableRoot) => vec![(GuardClass::Invariant, GuardReason::TableExistence), (GuardClass::Write, GuardReason::TableExistence)],
        (OperationFamily::DropTable, MutationKind::DeletePrefix, TargetFamily::ForeignReference) => vec![(GuardClass::Invariant, GuardReason::ForeignReference), (GuardClass::Write, GuardReason::ForeignReference)],
        (OperationFamily::SetUserVersion, MutationKind::Put, TargetFamily::UserVersion) => vec![(GuardClass::Write, GuardReason::UserVersion)],
        _ => Vec::new(),
    };
    assert(r@ =~= guard_requirements(operation, kind, family));
    r
}

/// Whether a guard of the given shape is in a list.
pub open spec fn has_shape(entries: Seq<GuardView>, contract: GuardContract) -> bool {
    exists|i: int|
        0 <= i < entries.len() && (#[trigger] entries[i]).class == contract.class
            && entries[i].reason == contract.reason && entries[i].family == contract.target
}

/// Whether a guard on the given key is in a list.
pub open spec fn has_guard(
    entries: Seq<GuardView>,
    target: Path,
    class: GuardClass,
    reason: GuardReason,
) -> bool {
    exists|i: int|
        0 <= i < entries.len() && (#[trigger] entries[i]).target == target && entries[i].class
            == class && entries[i].reason == reason
}

/// Whether every guard that the operation's family requires is in a list.
pub open spec fn required_present(operation: OperationFamily, entries: Seq<GuardView>) -> bool {
    forall|contract: GuardContract|
        contract.operation == operation && #[trigger] requires_guard(contract) ==> has_shape(
            entries,
            contract,
        )
}

/// Whether every guard that a mutation calls for is in a list.
pub open spec fn mutation_guarded(
    operation: OperationFamily,
    mutation: MutationView,
    entries: Seq<GuardView>,
) -> bool {
    match mutation_target(mutation) {
        None => true,
        Some((kind, key)) => {
            let needs = guard_requirements(operation, kind, classified(key)->Some_0);
            forall|j: int|
                0 <= j < needs.len() ==> has_guard(
                    entries,
                    key,
                    (#[trigger] needs[j]).0,
                    needs[j].1,
                )
        },
    }
}

/// Why compiler output breaks its operation's contract, if it does.
pub open spec fn compiled_fault(
    operation: OperationFamily,
    mutations: Seq<MutationView>,
    plan: PlanView,
) -> Option<&'static str> {
    match mutations_fault(operation, mutations) {
        Some(message) => Some(message),
        None => if plan.operation != Some(operation) {
            Some("compiled guard plan has the wrong operation family")
        } else if !required_present(operation, plan.entries) {
            Some("compiler omitted a required operation guard")
        } else if !(forall|i: int|
            0 <= i < mutations.len() ==> mutation_guarded(
                operation,
                #[trigger] mutations[i],
                plan.entries,
            )) {
            Some("compiler omitted a guard required by a mutation")
        } else {
            None
        },
    }
}

/// Whether a guard of the given shape is in a list.
fn any_shape(entries: &[Guard], contract: GuardContract) -> (r: bool)
    ensures
        r == has_shape(guards_view(entries@), contract),
{
    let mut i: usize = 0;
    while i < entries.len()
        invariant
            i <= entries@.len(),
            forall|j: int|
                0 <= j < i ==> !((#[trigger] guards_view(entries@)[j]).class == contract.class
                    && guards_view(entries@)[j].reason == contract.reason
                    && guards_view(entries@)[j].family == contract.target),
        decreases entries.len() - i,
    {
        let guard = &entries[i];
        assert(guards_view(entries@)[i as int] == guard@);
        if guard.class() == contract.class && guard.reason() == contract.reason && guard.family()
            == contract.target {
            return true;
        }
        i += 1;
    }
    false
}

/// Whether a guard on the given key is in a list.
fn any_guard(entries: &[Guard], target: &Key, class: GuardClass, reason: GuardReason) -> (r: bool)
    ensures
        r == has_guard(guards_view(entries@), target@, class, reason),
{
    let mut i: usize = 0;
    while i < entries.len()
        invariant
            i <= entries@.len(),
            forall|j: int|
                0 <= j < i ==> !((#[trigger] guards_view(entries@)[j]).target == target@
                    && guards_view(entries@)[j].class == class && guards_view(entries@)[j].reason
                    == reason),
        decreases entries.len() - i,
    {
        let guard = &entries[i];
        assert(guards_view(entries@)[i as int] == guard@);
        if guard.target().same(target) && guard.class() == class && guard.reason() == reason {
            return true;
        }
        i += 1;
    }
    false
}

/// Reject compiler output that omits a mandatory operation or mutation guard.
pub fn validate_compiled_output(
    operation: OperationFamily,
    mutations: &[Mutation],
    guards: &GuardPlan,
) -> (r: Result<()>)
    ensures
        r == fault_result(compiled_fault(operation, mutations_view(mutations@), guards@)),
{
    let ghost all = mutations_view(mutations@);
    match validate_mutations(operation, mutations) {
        Ok(()) => {},
        Err(error) => {
            return Err(error);
        },
    }
    if guards.operation() != Some(operation) {
        return Err(Error::CaptureInvariant("compiled guard plan has the wrong operation family"));
    }
    let table = required_guard_contracts();
    let mut i: usize = 0;
    while i < table.len()
        invariant
            i <= table@.len(),
            mutations_fault(operation, all) is None,
            all == mutations_view(mutations@),
            guards@.operation == Some(operation),
            table@.len() == 22,
            forall|j: int| 0 <= j < table@.len() ==> required_rank(#[trigger] table@[j]) == j,
            forall|j: int|
                0 <= j < i && (#[trigger] table@[j]).operation == operation ==> has_shape(
                    guards@.entries,
                    table@[j],
                ),
        decreases table.len() - i,
    {
        if table[i].operation == operation && !any_shape(guards.entries(), table[i]) {
            proof {
                assert(required_rank(table@[i as int]) == i);
                assert(requires_guard(table@[i as int]));
                assert(!required_present(operation, guards@.entries));
            }
            return Err(Error::CaptureInvariant("compiler omitted a required operation guard"));
        }
        i += 1;
    }
    proof {
        assert forall|contract: GuardContract|
            contract.operation == operation && #[trigger] requires_guard(contract) implies has_shape(
            guards@.entries,
            contract,
        ) by {
            required_table_is_exact(table@, contract);
            let k = choose|k: int| 0 <= k < table@.len() && table@[k] == contract;
            assert(table@[k].operation == operation);
        }
        lemma_mutations_fault(operation, all);
    }
    let mut m: usize = 0;
    while m < mutations.len()
        invariant
            m <= mutations@.len(),
            mutations_fault(operation, all) is None,
            forall|j: int|
                0 <= j < all.len() ==> mutation_fault(operation, #[trigger] all[j]) is None,
            all == mutations_view(mutations@),
            guards@.operation == Some(operation),
            required_present(operation, guards@.entries),
            forall|j: int|
                0 <= j < m ==> mutation_guarded(operation, #[trigger] all[j], guards@.entries),
        decreases mutations.len() - m,
    {
        assert(all[m as int] == mutations@[m as int]@);
        assert(mutation_fault(operation, all[m as int]) is None);
        let (kind, key) = match mutation_kind_and_key(&mutations[m]) {
            Ok(pair) => pair,
            Err(error) => {
                return Err(error);
            },
        };
        let family = match TargetFamily::classify(key) {
            Some(family) => family,
            None => {
                return Err(
                    Error::CaptureInvariant(
                        "mutation target is outside the logical target registry",
                    ),
                );
            },
        };
        let needs = mutation_guard_requirements(operation, kind, family);
        let mut n: usize = 0;
        while n < needs.len()
            invariant
                n <= needs@.len(),
                m < mutations@.len(),
                mutations_fault(operation, all) is None,
                all == mutations_view(mutations@),
                mutation_target(all[m as int]) == Some((kind, key@)),
                classified(key@) == Some(family),
                needs@ == guard_requirements(operation, kind, family),
                guards@.operation == Some(operation),
                required_present(operation, guards@.entries),
                forall|j: int|
                    0 <= j < n ==> has_guard(
                        guards@.entries,
                        key@,
                        (#[trigger] needs@[j]).0,
                        needs@[j].1,
                    ),
            decreases needs.len() - n,
        {
            if !any_guard(guards.entries(), key, needs[n].0, needs[n].1) {
                proof {
                    assert(!has_guard(
                        guards@.entries,
                        key@,
                        needs@[n as int].0,
                        needs@[n as int].1,
                    ));
                    let spec_needs = guard_requirements(operation, kind, classified(key@)->Some_0);
                    assert(spec_needs[n as int] == needs@[n as int]);
                    assert(!mutation_guarded(operation, all[m as int], guards@.entries));
                }
                return Err(
                    Error::CaptureInvariant("compiler omitted a guard required by a mutation"),
                );
            }
            n += 1;
        }
        assert(mutation_guarded(operation, all[m as int], guards@.entries));
        m += 1;
    }
    Ok(())
}

/// The key below which a table's view markers lie.
pub fn view_dependency_prefix(table: TableId) -> (r: Key)
    ensures
        r@ == view_prefix_path(table@),
        classified(r@) == Some(TargetFamily::ViewDependency),
{
    bounded_key(LogicalTarget::ViewDependencyPrefix { table })
}

/// The marker that a view leaves in a table it reads.
pub fn view_dependency_key(table: TableId, view: &SqlName) -> (r: Key)
    ensures
        r@ == view_path(table@, view@),
        classified(r@) == Some(TargetFamily::ViewDependency),
{
    bounded_key(
        LogicalTarget::ViewDependency { table, canonical: copy_bytes(view.canonical()) },
    )
}

/// The marker that a view leaves on a column it reads.
pub fn column_view_dependency_key(table: TableId, column: ColumnId, view: &SqlName) -> (r: Key)
    ensures
        r@ == column_view_path(table@, column@, view@),
        classified(r@) == Some(TargetFamily::ColumnDependency),
{
    bounded_key(
        LogicalTarget::ColumnViewDependency {
            table,
            column,
            canonical: copy_bytes(view.canonical()),
        },
    )
}

/// Whether a class of guards counts at an isolation level.
pub open spec fn counts(class: GuardClass, isolation: IsolationLevel) -> bool {
    class == GuardClass::SerializableRead ==> isolation == IsolationLevel::Serializable
}

/// The keys that a level asserts are finitely many.
proof fn lemma_asserted_finite(entries: Seq<GuardView>, isolation: IsolationLevel)
    ensures
        entries_footprint(entries).asserted(isolation).finite(),
{
    let all = entries_footprint(entries);
    lemma_class_targets_finite(entries, GuardClass::Invariant);
    lemma_class_targets_finite(entries, GuardClass::Write);
    lemma_class_targets_finite(entries, GuardClass::SerializableRead);
    assert(all.constraints.subset_of(class_targets(entries, GuardClass::Invariant)));
    assert(all.writes.subset_of(class_targets(entries, GuardClass::Write)));
    assert(all.reads.subset_of(class_targets(entries, GuardClass::SerializableRead)));
    vstd::set_lib::lemma_set_subset_finite(
        class_targets(entries, GuardClass::Invariant),
        all.constraints,
    );
    vstd::set_lib::lemma_set_subset_finite(class_targets(entries, GuardClass::Write), all.writes);
    vstd::set_lib::lemma_set_subset_finite(
        class_targets(entries, GuardClass::SerializableRead),
        all.reads,
    );
}

/// Every guard that counts at an isolation level is held: its target lies below
/// a key that is asserted there.
pub proof fn guards_are_asserted(entries: Seq<GuardView>, isolation: IsolationLevel, i: int)
    requires
        0 <= i < entries.len(),
        counts(entries[i].class, isolation),
    ensures
        exists|key: Path|
            topmost(entries_footprint(entries).asserted(isolation)).contains(key) && #[trigger] below(
                entries[i].target,
                key,
            ),
{
    let target = entries[i].target;
    let targets = class_targets(entries, entries[i].class);
    let all = entries_footprint(entries).asserted(isolation);
    lemma_class_targets_finite(entries, entries[i].class);
    assert(targets.contains(target));
    lemma_topmost_above(targets, target);
    let u = choose|u: Path| topmost(targets).contains(u) && below(target, u);
    assert(all.contains(u));
    lemma_asserted_finite(entries, isolation);
    lemma_topmost_above(all, u);
    let v = choose|v: Path| topmost(all).contains(v) && below(u, v);
    lemma_below_transitive(target, u, v);
}

/// Nothing is asserted but the targets of guards that count.
pub proof fn assertions_are_guarded(
    entries: Seq<GuardView>,
    isolation: IsolationLevel,
    key: Path,
)
    requires
        topmost(entries_footprint(entries).asserted(isolation)).contains(key),
    ensures
        exists|i: int|
            0 <= i < entries.len() && (#[trigger] entries[i]).target == key && counts(
                entries[i].class,
                isolation,
            ),
{
}

/// A mandatory guard and a guard on a write are held at every isolation level,
/// a guard on a read at the serializable one.
pub proof fn mandatory_guards_hold_at_every_level(
    entries: Seq<GuardView>,
    isolation: IsolationLevel,
    i: int,
)
    requires
        0 <= i < entries.len(),
        entries[i].class == GuardClass::SerializableRead ==> isolation
            == IsolationLevel::Serializable,
    ensures
        exists|key: Path|
            topmost(entries_footprint(entries).asserted(isolation)).contains(key) && #[trigger] below(
                entries[i].target,
                key,
            ),
{
    guards_are_asserted(entries, isolation, i);
}

} // verus!
