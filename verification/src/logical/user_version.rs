//! Replicated application-defined SQLite `user_version` metadata.

use crate::bytes::{
    be32, bits32, from_be32, from_bits32, lemma_be32_roundtrip, to_bits32, Reader, Writer,
};
use crate::error::{Error, ErrorView, Result};
use crate::footprint::ConflictFootprint;
use crate::key::{Key, Mutation, Path};
use crate::logical::contract::{requires_guard, GuardContract, GuardReason, OperationFamily};
use crate::logical::guard::{compiled_fault, GuardPlan};
use crate::logical::layout::{
    lemma_user_version_family, user_version_key, user_version_path,
};
use crate::logical::lowering::{
    emission_guarded, emission_permitted, emits_guard, emits_required, lemma_emissions_compile,
    lowers_to, mutations_of, plan_of, Emission, Lowering,
};
use crate::logical::space::{lemma_put, lemma_spared, performed, Space};
use crate::logical::target::classified;
use vstd::prelude::*;

verus! {

/// Version of the frame.
pub const FRAME_VERSION: u8 = 1;

/// A change of the user version.
#[derive(Clone, Copy, Debug, PartialEq, Eq, Structural)]
pub struct SetUserVersion {
    pub before: i32,
    pub after: i32,
}

impl View for SetUserVersion {
    type V = SetUserVersion;

    open spec fn view(&self) -> SetUserVersion {
        *self
    }
}

/// Guards and mutations of one change, and the footprint of the guards.
#[derive(Debug, PartialEq, Eq)]
pub struct UserVersionHomebaseOp {
    pub mutations: Vec<Mutation>,
    pub footprint: ConflictFootprint,
    pub guards: GuardPlan,
}

/// Why a frame is refused.
#[derive(Clone, Copy, Debug, PartialEq, Eq, Structural)]
pub enum UserVersionCodecError {
    UnknownVersion,
    Truncated,
    InvalidFrame,
}

/// The message of a codec error.
pub open spec fn user_version_error_text(error: UserVersionCodecError) -> Seq<char> {
    match error {
        UserVersionCodecError::UnknownVersion => "UnknownVersion"@,
        UserVersionCodecError::Truncated => "Truncated"@,
        UserVersionCodecError::InvalidFrame => "InvalidFrame"@,
    }
}

impl UserVersionCodecError {
    /// The error's message.
    pub fn text(self) -> (r: String)
        ensures
            r@ == user_version_error_text(self),
    {
        match self {
            UserVersionCodecError::UnknownVersion => "UnknownVersion".to_owned(),
            UserVersionCodecError::Truncated => "Truncated".to_owned(),
            UserVersionCodecError::InvalidFrame => "InvalidFrame".to_owned(),
        }
    }
}

/// The frame of a change.
pub open spec fn user_version_frame(op: SetUserVersion) -> Seq<u8> {
    seq![FRAME_VERSION] + be32(bits32(op.before)) + be32(bits32(op.after))
}

/// The integer with a bit pattern.
pub open spec fn signed32(bits: nat) -> i32 {
    if bits <= i32::MAX {
        bits as i32
    } else {
        (bits - 4294967296) as i32
    }
}

/// What decoding a frame gives. A change to the same version is no change.
pub open spec fn user_version_decoded(b: Seq<u8>) -> std::result::Result<
    SetUserVersion,
    UserVersionCodecError,
> {
    if b.len() == 0 || b[0] != FRAME_VERSION {
        Err(UserVersionCodecError::UnknownVersion)
    } else if b.len() < 9 {
        Err(UserVersionCodecError::Truncated)
    } else {
        let before = signed32(from_be32(b.subrange(1, 5)));
        let after = signed32(from_be32(b.subrange(5, 9)));
        if b.len() != 9 || before == after {
            Err(UserVersionCodecError::InvalidFrame)
        } else {
            Ok(SetUserVersion { before, after })
        }
    }
}

/// What a change emits.
pub open spec fn user_version_emissions(op: SetUserVersion) -> Seq<Emission> {
    seq![
        Emission::Put(user_version_path(), be32(bits32(op.after))),
        Emission::Write(user_version_path(), GuardReason::UserVersion),
    ]
}

/// Decoding the frame of a change gives it back.
pub proof fn user_version_roundtrip(op: SetUserVersion)
    requires
        op.before != op.after,
    ensures
        user_version_decoded(user_version_frame(op)) == Ok::<
            SetUserVersion,
            UserVersionCodecError,
        >(op),
{
    let b = user_version_frame(op);
    assert(b.subrange(1, 5) =~= be32(bits32(op.before)));
    assert(b.subrange(5, 9) =~= be32(bits32(op.after)));
    lemma_be32_roundtrip(bits32(op.before));
    lemma_be32_roundtrip(bits32(op.after));
}

/// A lowered change stays within its contract.
pub proof fn lowered_user_version_compiles(op: SetUserVersion)
    ensures
        compiled_fault(
            OperationFamily::SetUserVersion,
            mutations_of(user_version_emissions(op)),
            plan_of(OperationFamily::SetUserVersion, user_version_emissions(op)),
        ) is None,
{
    lemma_user_version_family();
    let operation = OperationFamily::SetUserVersion;
    let emissions = user_version_emissions(op);
    let key = user_version_path();
    assert(emissions[1] == Emission::Write(key, GuardReason::UserVersion));
    assert(emissions.contains(Emission::Write(key, GuardReason::UserVersion)));
    assert(emits_required(operation, emissions)) by {
        assert forall|contract: GuardContract|
            contract.operation == operation && #[trigger] requires_guard(contract) implies exists|
            key: Path,
        |
            #[trigger] classified(key) == Some(contract.target) && emits_guard(
                emissions,
                key,
                contract.class,
                contract.reason,
            ) by {
            assert(classified(key) == Some(contract.target));
            assert(emits_guard(emissions, key, contract.class, contract.reason));
        }
    }
    let mutations = mutations_of(emissions);
    assert forall|i: int| 0 <= i < emissions.len() implies emission_permitted(
        operation,
        #[trigger] emissions[i],
    ) && emission_guarded(operation, emissions, emissions[i]) by {
        assert(i == 0 || i == 1);
    }
    assert forall|i: int| 0 <= i < mutations.len() implies mutations_of(emissions).contains(
        #[trigger] mutations[i],
    ) by {}
    lemma_emissions_compile(operation, emissions, mutations);
}

impl SetUserVersion {
    /// The change from the version that is there to another one, if it is one.
    pub fn prepare(before: i32, after: i32) -> (r: Option<SetUserVersion>)
        ensures
            r == (if before != after {
                Some(SetUserVersion { before, after })
            } else {
                None
            }),
    {
        if before != after {
            Some(SetUserVersion { before, after })
        } else {
            None
        }
    }

    /// Encode the frame.
    pub fn encode(&self) -> (r: Vec<u8>)
        ensures
            r@ == user_version_frame(*self),
    {
        let mut writer = Writer::new();
        writer.u8(FRAME_VERSION);
        writer.u32(to_bits32(self.before));
        writer.u32(to_bits32(self.after));
        let r = writer.finish();
        assert(r@ =~= user_version_frame(*self));
        r
    }

    /// Decode one complete frame.
    pub fn decode(frame: &[u8]) -> (r: std::result::Result<SetUserVersion, UserVersionCodecError>)
        ensures
            r == user_version_decoded(frame@),
    {
        let ghost b = frame@;
        let mut reader = Reader::new(frame);
        if reader.u8() != Some(FRAME_VERSION) {
            return Err(UserVersionCodecError::UnknownVersion);
        }
        let ghost rest = reader.remaining();
        assert(rest.len() >= 4 ==> rest.subrange(0, 4) =~= b.subrange(1, 5));
        assert(rest.len() >= 8 ==> rest.subrange(4, rest.len() as int).subrange(0, 4)
            =~= b.subrange(5, 9));
        let before = match reader.u32() {
            None => {
                return Err(UserVersionCodecError::Truncated);
            },
            Some(bits) => from_bits32(bits),
        };
        let after = match reader.u32() {
            None => {
                return Err(UserVersionCodecError::Truncated);
            },
            Some(bits) => from_bits32(bits),
        };
        if reader.end().is_none() || before == after {
            return Err(UserVersionCodecError::InvalidFrame);
        }
        Ok(SetUserVersion { before, after })
    }

    /// Lower the change to guards and mutations.
    pub fn to_homebase(&self) -> (r: UserVersionHomebaseOp)
        ensures
            lowers_to(
                OperationFamily::SetUserVersion,
                user_version_emissions(*self),
                r.mutations@,
                r.footprint@,
                r.guards@,
            ),
    {
        proof {
            lemma_user_version_family();
        }
        let mut value = Writer::new();
        value.u32(to_bits32(self.after));
        let value = value.finish();
        assert(value@ =~= be32(bits32(self.after)));
        let l = Lowering::new(OperationFamily::SetUserVersion).put(key(), value).write(
            key(),
            GuardReason::UserVersion,
        );
        assert(l.emissions() =~= user_version_emissions(*self));
        let (mutations, guards) = l.finish();
        let footprint = guards.footprint();
        UserVersionHomebaseOp { mutations, footprint, guards }
    }

    /// The version to set.
    pub fn apply(&self) -> (r: i32)
        ensures
            r == self.after,
    {
        self.after
    }

    /// The version to set back, given the one that is there.
    pub fn rollback(&self, current: i32) -> (r: Result<i32>)
        ensures
            match r {
                Ok(version) => current == self.after && version == self.before,
                Err(error) => current != self.after && error@ == ErrorView::InvalidDatabase(
                    "pending user_version no longer matches SQLite state"@,
                ),
            },
    {
        if current != self.after {
            return Err(
                Error::InvalidDatabase("pending user_version no longer matches SQLite state"),
            );
        }
        Ok(self.before)
    }

    /// Check the version that is there against the change.
    pub fn verify_materialized(&self, current: i32) -> (r: Result<()>)
        ensures
            match r {
                Ok(()) => current == self.after,
                Err(error) => current != self.after && error@ == ErrorView::InvalidDatabase(
                    "replicated user_version does not match SQLite state"@,
                ),
            },
    {
        if current == self.after {
            Ok(())
        } else {
            Err(Error::InvalidDatabase("replicated user_version does not match SQLite state"))
        }
    }
}

/// The key of the replicated user version.
pub fn key() -> (r: Key)
    ensures
        r@ == user_version_path(),
{
    user_version_key()
}

/// A version that was set is what the key space holds: reading it back gives
/// the version, and every other key is as it was.
pub proof fn the_version_that_was_set_is_held(op: SetUserVersion, space: Space, key: Path)
    ensures
        ({
            let after = performed(space, mutations_of(user_version_emissions(op)));
            &&& after(user_version_path()) matches Some(bytes) && bytes.len() == 4 && signed32(
                from_be32(bytes),
            ) == op.after
            &&& key != user_version_path() ==> after(key) == space(key)
        }),
{
    let all = user_version_emissions(op);
    let value = be32(bits32(op.after));
    lemma_be32_roundtrip(bits32(op.after));
    assert(all[0] == Emission::Put(user_version_path(), value));
    lemma_put(space, all, user_version_path(), value);
    if key != user_version_path() {
        lemma_spared(space, all, key);
    }
}

/// Setting a version and then the one before it again leaves the key space as it
/// was where it held that one.
pub proof fn setting_the_version_back_restores_it(
    op: SetUserVersion,
    back: SetUserVersion,
    space: Space,
    key: Path,
)
    requires
        back.after == op.before,
        space(user_version_path()) == Some(be32(bits32(op.before))),
    ensures
        performed(
            performed(space, mutations_of(user_version_emissions(op))),
            mutations_of(user_version_emissions(back)),
        )(key) == space(key),
{
    let between = performed(space, mutations_of(user_version_emissions(op)));
    let all = user_version_emissions(back);
    the_version_that_was_set_is_held(op, space, key);
    the_version_that_was_set_is_held(back, between, key);
    assert(all[0] == Emission::Put(user_version_path(), be32(bits32(back.after))));
    lemma_put(between, all, user_version_path(), be32(bits32(back.after)));
}

/// A change to the version that is there is no change, and its frame is refused.
pub proof fn unchanged_versions_are_refused(op: SetUserVersion)
    requires
        op.before == op.after,
    ensures
        user_version_decoded(user_version_frame(op)) is Err,
{
    let b = user_version_frame(op);
    lemma_be32_roundtrip(bits32(op.before));
    assert(b.subrange(1, 5) =~= be32(bits32(op.before)));
    assert(b.subrange(5, 9) =~= be32(bits32(op.after)));
}

} // verus!
