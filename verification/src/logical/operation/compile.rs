//! What an operation is lowered to, and how it is undone when it is rejected.

use super::codec::{operation_fits, MultiliteOp, OpView};
use crate::error::{verdict, Error, ErrorView, Result};
use crate::footprint::ConflictFootprint;
use crate::key::{mutations_view, Mutation, MutationView};
use crate::logical::alter::error::alter_error_text;
use crate::logical::alter::lower::{alter_emissions, alter_family};
use crate::logical::alter::operation::{
    alter_fault, AlterTableDelta, AlterTableOperation, AlterView,
};
use crate::logical::contract::{permits_rejection, OperationFamily, RejectionKind};
use crate::logical::drop_table::error::drop_refusal;
use crate::logical::drop_table::frame::{DropTableOperation, DropTableOperationView};
use crate::logical::drop_table::lower::drop_table_emissions;
use crate::logical::drop_table::operation::drop_fault;
use crate::logical::guard::{
    compiled_fault, entries_footprint, validate_compiled_output, validate_rejection, GuardPlan,
    PlanView,
};
use crate::logical::index::{index_sound, IndexOpView, IndexOperation};
use crate::logical::lowering::{mutations_of, plan_of, Emission};
use crate::logical::row::changes::{budget_result, canonical_fault, RowChanges, RowChangesView};
use crate::logical::row::error::row_error_text;
use crate::logical::row::lower::{changes_lowered, pruned};
use crate::logical::schema::definition::{CreateTable, TableView};
use crate::logical::schema::lower::create_emissions;
use crate::logical::schema::statement::{statement_of, ParsedTexts, Statements};
use crate::logical::user_version::{user_version_emissions, SetUserVersion};
use crate::logical::view::error::view_error_text;
use crate::logical::view::frame::{ViewOperation, ViewOperationView};
use crate::logical::view::lower::{view_emissions, view_family};
use crate::logical::view::operation::view_fault;
use vstd::prelude::*;

verus! {

/// The mutations of a lowered operation and the plan that guards them.
pub struct LoweredView {
    pub mutations: Seq<MutationView>,
    pub guards: PlanView,
}

/// What an operation that emits these steps is lowered to.
pub open spec fn lowered_to(family: OperationFamily, emissions: Seq<Emission>) -> LoweredView {
    LoweredView { mutations: mutations_of(emissions), guards: plan_of(family, emissions) }
}

/// The family of an operation.
pub open spec fn operation_family(op: OpView) -> OperationFamily {
    match op {
        OpView::AlterTable(op) => alter_family(op.delta),
        OpView::CreateTable(_) => OperationFamily::CreateTable,
        OpView::DropTable(_) => OperationFamily::DropTable,
        OpView::ChangeRows(_) => OperationFamily::RowChanges,
        OpView::Index(op) => op.family,
        OpView::SetUserVersion(_) => OperationFamily::SetUserVersion,
        OpView::View(op) => view_family(op.action),
    }
}

/// What an operation emits, or why it is refused.
#[verifier::opaque]
pub open spec fn emitted(op: OpView, parsed: ParsedTexts) -> std::result::Result<
    LoweredView,
    ErrorView,
> {
    match op {
        OpView::AlterTable(op) => match alter_fault(op, statement_of(parsed, op.sql)) {
            Some(error) => Err(ErrorView::InvalidMultiliteOp(alter_error_text(error))),
            None => Ok(lowered_to(alter_family(op.delta), alter_emissions(op))),
        },
        OpView::CreateTable(op) => Ok(
            lowered_to(OperationFamily::CreateTable, create_emissions(op)),
        ),
        OpView::DropTable(op) => match drop_fault(op, statement_of(parsed, op.sql)) {
            Some(error) => Err(drop_refusal(error)),
            None => Ok(lowered_to(OperationFamily::DropTable, drop_table_emissions(op))),
        },
        OpView::ChangeRows(op) => match budget_result(op) {
            Err(error) => Err(error@),
            Ok(_) => match canonical_fault(op.tables) {
                Some(error) => Err(ErrorView::InvalidMultiliteOp(row_error_text(error))),
                None => match changes_lowered(op) {
                    Err(error) => Err(ErrorView::InvalidMultiliteOp(row_error_text(error))),
                    Ok(emissions) => Ok(
                        LoweredView {
                            mutations: pruned(mutations_of(emissions)),
                            guards: plan_of(OperationFamily::RowChanges, emissions),
                        },
                    ),
                },
            },
        },
        OpView::Index(op) => Ok(LoweredView { mutations: op.mutations, guards: op.guards }),
        OpView::SetUserVersion(op) => Ok(
            lowered_to(OperationFamily::SetUserVersion, user_version_emissions(op)),
        ),
        OpView::View(op) => match view_fault(op, statement_of(parsed, op.create_sql)) {
            Some(error) => Err(ErrorView::InvalidMultiliteOp(view_error_text(error))),
            None => Ok(lowered_to(view_family(op.action), view_emissions(op))),
        },
    }
}

/// What an operation is lowered to, within the contract of its family.
pub open spec fn lowered(op: OpView, parsed: ParsedTexts) -> std::result::Result<
    LoweredView,
    ErrorView,
> {
    match emitted(op, parsed) {
        Err(error) => Err(error),
        Ok(lowered) => match compiled_fault(
            operation_family(op),
            lowered.mutations,
            lowered.guards,
        ) {
            Some(message) => Err(ErrorView::CaptureInvariant(message@)),
            None => Ok(lowered),
        },
    }
}

/// Mutations of one operation, the guards that they depend on, and the footprint
/// of the guards.
#[derive(Debug, PartialEq, Eq)]
pub struct HomebaseOp {
    mutations: Vec<Mutation>,
    footprint: ConflictFootprint,
    guards: GuardPlan,
}

impl View for HomebaseOp {
    type V = LoweredView;

    closed spec fn view(&self) -> LoweredView {
        LoweredView { mutations: mutations_view(self.mutations@), guards: self.guards@ }
    }
}

impl HomebaseOp {
    #[verifier::type_invariant]
    spec fn well_formed(self) -> bool {
        self.footprint@ == entries_footprint(self.guards@.entries)
    }

    /// The mutations in the order of their emission.
    pub fn mutations(&self) -> (r: &[Mutation])
        ensures
            mutations_view(r@) == self@.mutations,
    {
        self.mutations.as_slice()
    }

    /// The guards in the order of their emission.
    pub fn guards(&self) -> (r: &GuardPlan)
        ensures
            r@ == self@.guards,
    {
        &self.guards
    }

    /// The mutations and the footprint of the guards.
    pub fn into_parts(self) -> (r: (Vec<Mutation>, ConflictFootprint))
        ensures
            mutations_view(r.0@) == self@.mutations,
            r.1@ == entries_footprint(self@.guards.entries),
    {
        proof {
            use_type_invariant(&self);
        }
        (self.mutations, self.footprint)
    }

    /// The mutations, the footprint of the guards, and the guards.
    pub fn into_all_parts(self) -> (r: (Vec<Mutation>, ConflictFootprint, GuardPlan))
        ensures
            mutations_view(r.0@) == self@.mutations,
            r.1@ == entries_footprint(self@.guards.entries),
            r.2@ == self@.guards,
    {
        proof {
            use_type_invariant(&self);
        }
        (self.mutations, self.footprint, self.guards)
    }
}

/// How an operation is undone where it was applied before it was rejected.
#[derive(Debug, PartialEq, Eq)]
pub enum RejectionEffect {
    RevertAlterTable { operation: AlterTableOperation },
    RemoveCreatedTable { created: CreateTable },
    RestoreDroppedTable { operation: DropTableOperation },
    RestoreRowChanges { changes: RowChanges },
    RevertIndex { operation: IndexOperation },
    RestoreUserVersion { operation: SetUserVersion },
    RevertView { operation: ViewOperation },
}

/// An undoing as a mathematical value.
pub enum RejectionView {
    RevertAlterTable { operation: AlterView },
    RemoveCreatedTable { created: TableView },
    RestoreDroppedTable { operation: DropTableOperationView },
    RestoreRowChanges { changes: RowChangesView },
    RevertIndex { operation: IndexOpView },
    RestoreUserVersion { operation: SetUserVersion },
    RevertView { operation: ViewOperationView },
}

impl View for RejectionEffect {
    type V = RejectionView;

    open spec fn view(&self) -> RejectionView {
        match self {
            RejectionEffect::RevertAlterTable { operation } => RejectionView::RevertAlterTable {
                operation: operation@,
            },
            RejectionEffect::RemoveCreatedTable { created } => RejectionView::RemoveCreatedTable {
                created: created@,
            },
            RejectionEffect::RestoreDroppedTable { operation } => RejectionView::RestoreDroppedTable {
                operation: operation@,
            },
            RejectionEffect::RestoreRowChanges { changes } => RejectionView::RestoreRowChanges {
                changes: changes@,
            },
            RejectionEffect::RevertIndex { operation } => RejectionView::RevertIndex {
                operation: operation@,
            },
            RejectionEffect::RestoreUserVersion { operation } => RejectionView::RestoreUserVersion {
                operation: *operation,
            },
            RejectionEffect::RevertView { operation } => RejectionView::RevertView {
                operation: operation@,
            },
        }
    }
}

/// How an operation is undone.
pub open spec fn rejection_of(op: OpView) -> RejectionView {
    match op {
        OpView::AlterTable(operation) => RejectionView::RevertAlterTable { operation },
        OpView::CreateTable(created) => RejectionView::RemoveCreatedTable { created },
        OpView::DropTable(operation) => RejectionView::RestoreDroppedTable { operation },
        OpView::ChangeRows(changes) => RejectionView::RestoreRowChanges { changes },
        OpView::Index(operation) => RejectionView::RevertIndex { operation },
        OpView::SetUserVersion(operation) => RejectionView::RestoreUserVersion { operation },
        OpView::View(operation) => RejectionView::RevertView { operation },
    }
}

/// One operation with what it is lowered to and how it is undone.
#[derive(Debug, PartialEq, Eq)]
pub struct CompiledOperation {
    logical: MultiliteOp,
    homebase: HomebaseOp,
    rejection: RejectionEffect,
}

impl CompiledOperation {
    /// The operation.
    pub closed spec fn op(&self) -> OpView {
        self.logical@
    }

    /// What the operation is lowered to.
    pub closed spec fn lowering(&self) -> LoweredView {
        self.homebase@
    }

    /// How the operation is undone.
    pub closed spec fn inverse(&self) -> RejectionView {
        self.rejection@
    }

    /// The operation.
    pub fn logical(&self) -> (r: &MultiliteOp)
        ensures
            r@ == self.op(),
    {
        &self.logical
    }

    /// What the operation is lowered to.
    pub fn homebase(&self) -> (r: &HomebaseOp)
        ensures
            r@ == self.lowering(),
    {
        &self.homebase
    }

    /// The operation, what it is lowered to, and how it is undone.
    pub fn into_parts(self) -> (r: (MultiliteOp, HomebaseOp, RejectionEffect))
        ensures
            r.0@ == self.op(),
            r.1@ == self.lowering(),
            r.2@ == self.inverse(),
    {
        (self.logical, self.homebase, self.rejection)
    }
}

impl MultiliteOp {
    /// Emit the operation's guards and mutations.
    fn emit(&self, statements: &Statements) -> (r: Result<
        (Vec<Mutation>, ConflictFootprint, GuardPlan),
    >)
        requires
            operation_fits(self@),
        ensures
            match r {
                Ok((mutations, footprint, guards)) => emitted(self@, statements@) == Ok::<
                    LoweredView,
                    ErrorView,
                >(LoweredView { mutations: mutations_view(mutations@), guards: guards@ })
                    && footprint@ == entries_footprint(guards@.entries),
                Err(error) => emitted(self@, statements@) == Err::<LoweredView, ErrorView>(error@),
            },
    {
        reveal(emitted);
        match self {
            MultiliteOp::AlterTable(op) => match op.to_homebase(statements) {
                Err(error) => Err(error),
                Ok(op) => Ok((op.mutations, op.footprint, op.guards)),
            },
            MultiliteOp::CreateTable(op) => {
                let op = op.to_homebase();
                Ok((op.mutations, op.footprint, op.guards))
            },
            MultiliteOp::DropTable(op) => match op.to_homebase(statements) {
                Err(error) => Err(error),
                Ok(op) => Ok((op.mutations, op.footprint, op.guards)),
            },
            MultiliteOp::ChangeRows(op) => match op.to_homebase() {
                Err(error) => Err(error),
                Ok(op) => Ok((op.mutations, op.footprint, op.guards)),
            },
            MultiliteOp::Index(op) => {
                let op = op.to_homebase();
                Ok((op.mutations, op.footprint, op.guards))
            },
            MultiliteOp::SetUserVersion(op) => {
                let op = op.to_homebase();
                Ok((op.mutations, op.footprint, op.guards))
            },
            MultiliteOp::View(op) => match op.to_homebase(statements) {
                Err(error) => Err(error),
                Ok(op) => Ok((op.mutations, op.footprint, op.guards)),
            },
        }
    }

    /// Lower the operation and hold it to the contract of its family.
    pub fn to_homebase(&self, statements: &Statements) -> (r: Result<HomebaseOp>)
        requires
            operation_fits(self@),
        ensures
            verdict(r) == lowered(self@, statements@),
    {
        let (mutations, footprint, guards) = match self.emit(statements) {
            Err(error) => {
                return Err(error);
            },
            Ok(parts) => parts,
        };
        proof {
            if let MultiliteOp::Index(op) = self {
                use_type_invariant(op);
            }
            lemma_emitted_family(self@, statements@);
        }
        let operation = match guards.operation() {
            None => {
                return Err(
                    Error::CaptureInvariant("operation lowering produced an unscoped guard plan"),
                );
            },
            Some(operation) => operation,
        };
        if let Err(error) = validate_compiled_output(operation, mutations.as_slice(), &guards) {
            return Err(error);
        }
        if !footprint.same(&guards.footprint()) {
            return Err(Error::CaptureInvariant("operation footprint contradicts its guard plan"));
        }
        Ok(HomebaseOp { mutations, footprint, guards })
    }

    /// Derive everything that is determined by the operation.
    pub fn compile(self, statements: &Statements) -> (r: Result<CompiledOperation>)
        requires
            operation_fits(self@),
        ensures
            match r {
                Ok(compiled) => compiled.op() == self@ && lowered(self@, statements@) == Ok::<
                    LoweredView,
                    ErrorView,
                >(compiled.lowering()) && compiled.inverse() == rejection_of(self@),
                Err(error) => lowered(self@, statements@) == Err::<LoweredView, ErrorView>(error@),
            },
    {
        let homebase = match self.to_homebase(statements) {
            Err(error) => {
                return Err(error);
            },
            Ok(homebase) => homebase,
        };
        let (rejection, kind) = match &self {
            MultiliteOp::AlterTable(op) => (
                RejectionEffect::RevertAlterTable { operation: op.clone() },
                RejectionKind::RevertAlterTable,
            ),
            MultiliteOp::CreateTable(op) => (
                RejectionEffect::RemoveCreatedTable { created: op.clone() },
                RejectionKind::RemoveCreatedTable,
            ),
            MultiliteOp::DropTable(op) => (
                RejectionEffect::RestoreDroppedTable { operation: op.clone() },
                RejectionKind::RestoreDroppedTable,
            ),
            MultiliteOp::ChangeRows(op) => (
                RejectionEffect::RestoreRowChanges { changes: op.clone() },
                RejectionKind::RestoreRowChanges,
            ),
            MultiliteOp::Index(op) => (
                RejectionEffect::RevertIndex { operation: op.clone() },
                RejectionKind::RevertIndex,
            ),
            MultiliteOp::SetUserVersion(op) => (
                RejectionEffect::RestoreUserVersion { operation: *op },
                RejectionKind::RestoreUserVersion,
            ),
            MultiliteOp::View(op) => (
                RejectionEffect::RevertView { operation: op.clone() },
                RejectionKind::RevertView,
            ),
        };
        proof {
            if let MultiliteOp::Index(op) = &self {
                use_type_invariant(op);
            }
            lemma_emitted_family(self@, statements@);
            assert(permits_rejection(operation_family(self@), kind));
        }
        let operation = match homebase.guards().operation() {
            None => {
                return Err(
                    Error::CaptureInvariant("operation lowering produced an unscoped guard plan"),
                );
            },
            Some(operation) => operation,
        };
        if let Err(error) = validate_rejection(operation, kind) {
            return Err(error);
        }
        Ok(CompiledOperation { logical: self, homebase, rejection })
    }

    /// The sidecar that must exist while the operation is pending: a dropped
    /// column or table has one.
    pub fn repair_id(&self) -> (r: Option<[u8; 16]>)
        ensures
            match r {
                Some(id) => repair_of(self@) == Some(id@),
                None => repair_of(self@) is None,
            },
    {
        match self {
            MultiliteOp::AlterTable(op) => match &op.delta {
                AlterTableDelta::DropColumn { .. } => Some(op.mutation_id.as_bytes()),
                _ => None,
            },
            MultiliteOp::DropTable(op) => Some(op.mutation_id.as_bytes()),
            _ => None,
        }
    }
}

/// The sidecar that must exist while an operation is pending.
pub open spec fn repair_of(op: OpView) -> Option<Seq<u8>> {
    match op {
        OpView::AlterTable(op) => if op.delta is DropColumn {
            Some(op.mutation_id)
        } else {
            None
        },
        OpView::DropTable(op) => Some(op.mutation_id),
        _ => None,
    }
}

/// The plan of what an operation emits is of its family.
pub proof fn lemma_emitted_family(op: OpView, parsed: ParsedTexts)
    requires
        op matches OpView::Index(changed) ==> index_sound(changed),
    ensures
        emitted(op, parsed) matches Ok(lowered) ==> lowered.guards.operation == Some(
            operation_family(op),
        ),
{
    reveal(emitted);
}

} // verus!
