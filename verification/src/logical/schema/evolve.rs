//! How a table definition gains and loses columns.

use super::definition::{
    definition_sound, CheckDefinition, CheckView, Column, ColumnView, CreateTable,
    ForeignKeyDefinition, NamedIndex, NamedIndexView, RelationshipView, TableView, UniqueConstraint,
    UniqueView,
};
use super::error::SchemaCodecError;
use super::statement::{CreateCheckConstraint, CreateCheckView, CreateColumn, CreateColumnView};
use super::table::{column_by_id, find_column, resolve_names, resolved};
use crate::attempt::try_map;
use crate::bytes::append_bytes;
use crate::codec::{outcome, view_of, views};
use crate::digest::{sha256, sha256_digest};
use crate::each::{any, retain, try_each};
use crate::identity::{random_uuid, ColumnId, SchemaRevisionId};
use crate::name::SqlName;
use vstd::prelude::*;
use vstd::utf8::encode_utf8;

verus! {

/// What a change adds to the revision of its table: the head of a digest, with
/// the bits left out that say what kind of UUID a revision is.
pub open spec fn column_token(change: Seq<u8>) -> Seq<u8> {
    let digest = sha256_digest(encode_utf8("multilite schema column"@) + change);
    Seq::new(
        16,
        |i: int|
            if i == 6 {
                digest[i] % 16
            } else if i == 8 {
                digest[i] % 64
            } else {
                digest[i]
            },
    )
}

/// The revision of a table after a change, such as a column that comes or goes.
pub open spec fn evolved(revision: Seq<u8>, change: Seq<u8>) -> Seq<u8> {
    Seq::new(16, |i: int| revision[i] ^ column_token(change)[i])
}

/// What names a column in the revision of its table.
pub open spec fn name_token(column: Seq<u8>, name: Seq<char>) -> Seq<u8> {
    column + encode_utf8(name)
}

/// The revision of a table whose column takes another name.
pub open spec fn renamed_revision(
    revision: Seq<u8>,
    column: Seq<u8>,
    old_name: Seq<char>,
    new_name: Seq<char>,
) -> Seq<u8> {
    evolved(evolved(revision, name_token(column, old_name)), name_token(column, new_name))
}

/// The revision after a change that bytes stand for.
fn evolve_by(revision: SchemaRevisionId, change: &[u8]) -> (r: SchemaRevisionId)
    ensures
        r@ == evolved(revision@, change@),
{
    let mut text: Vec<u8> = Vec::new();
    append_bytes(&mut text, "multilite schema column".as_bytes());
    append_bytes(&mut text, change);
    assert(text@ =~= encode_utf8("multilite schema column"@) + change@);
    let digest = sha256(text.as_slice());
    let before = revision.as_bytes();
    let mut after: [u8; 16] = before;
    let ghost token = column_token(change@);
    let mut i: usize = 0;
    while i < 16
        invariant
            i <= 16,
            digest@.len() == 32,
            digest@ == sha256_digest(encode_utf8("multilite schema column"@) + change@),
            token == column_token(change@),
            forall|j: int| 0 <= j < i ==> #[trigger] after@[j] == before@[j] ^ token[j],
        decreases 16 - i,
    {
        let byte: u8 = if i == 6 {
            digest[i] % 16
        } else if i == 8 {
            digest[i] % 64
        } else {
            digest[i]
        };
        after[i] = before[i] ^ byte;
        i += 1;
    }
    let r = SchemaRevisionId::from_bytes(after);
    assert(r@ =~= evolved(revision@, change@));
    r
}

/// The revision of a table that gains or loses a column.
pub fn evolve_revision(revision: SchemaRevisionId, column: ColumnId) -> (r: SchemaRevisionId)
    ensures
        r@ == evolved(revision@, column@),
{
    let id = column.as_bytes();
    evolve_by(revision, &id)
}

/// What names a column in the revision of its table.
fn name_bytes(column: ColumnId, name: &SqlName) -> (r: Vec<u8>)
    ensures
        r@ == name_token(column@, name@),
{
    let mut text: Vec<u8> = Vec::new();
    let id = column.as_bytes();
    append_bytes(&mut text, &id);
    append_bytes(&mut text, name.value().as_bytes());
    assert(text@ =~= name_token(column@, name@));
    text
}

/// The revision of a table whose column takes another name.
pub fn rename_revision(
    revision: SchemaRevisionId,
    column: ColumnId,
    old_name: &SqlName,
    new_name: &SqlName,
) -> (r: SchemaRevisionId)
    ensures
        r@ == renamed_revision(revision@, column@, old_name@, new_name@),
{
    let without = evolve_by(revision, name_bytes(column, old_name).as_slice());
    evolve_by(without, name_bytes(column, new_name).as_slice())
}

/// A column's token undoes itself.
pub proof fn lemma_evolved_twice(revision: Seq<u8>, column: Seq<u8>)
    requires
        revision.len() == 16,
    ensures
        evolved(evolved(revision, column), column) == revision,
{
    let token = column_token(column);
    assert forall|i: int| 0 <= i < 16 implies #[trigger] evolved(
        evolved(revision, column),
        column,
    )[i] == revision[i] by {
        let a: u8 = revision[i];
        let t: u8 = token[i];
        assert((a ^ t) ^ t == a) by (bit_vector);
    }
    assert(evolved(evolved(revision, column), column) =~= revision);
}

/// The revision after a change is a random UUID like the one before it.
pub proof fn evolved_revisions_stay_random(revision: Seq<u8>, change: Seq<u8>)
    requires
        random_uuid(revision),
    ensures
        random_uuid(evolved(revision, change)),
{
    let token = column_token(change);
    let a: u8 = revision[6];
    let t: u8 = token[6];
    assert((a ^ t) / 16 == 4) by (bit_vector)
        requires
            a / 16 == 4u8,
            t < 16,
    ;
    let b: u8 = revision[8];
    let u: u8 = token[8];
    assert((b ^ u) / 64 == 2) by (bit_vector)
        requires
            b / 64 == 2u8,
            u < 64,
    ;
}

/// The column that a statement describes, under an identity.
pub open spec fn column_of(id: Seq<u8>, column: CreateColumnView) -> ColumnView {
    ColumnView {
        id,
        name: column.name,
        affinity: column.declared_type.affinity,
        strict: column.declared_type.strict,
        integer: column.declared_type.integer,
        not_null: column.not_null,
        default: match column.default {
            Some(default) => Some(default.expression),
            None => None,
        },
        primary_key: column.primary_key,
    }
}

/// The column that a statement describes, under an identity.
pub fn describe_column(id: ColumnId, column: &CreateColumn) -> (r: Column)
    ensures
        r@ == column_of(id@, column@),
{
    let default = match &column.default {
        Some(default) => Some(default.expression.clone()),
        None => None,
    };
    let r = Column {
        id,
        name: column.name.clone(),
        affinity: column.declared_type.affinity,
        strict: column.declared_type.strict,
        integer: column.declared_type.integer,
        not_null: column.not_null,
        default,
        primary_key: column.primary_key,
    };
    assert(r@ =~= column_of(id@, column@));
    r
}

/// A CHECK of a statement, with the columns it reads resolved.
pub open spec fn check_of(
    columns: Seq<ColumnView>,
    owner: Option<Seq<u8>>,
    check: CreateCheckView,
) -> Result<CheckView, SchemaCodecError> {
    match resolved(columns, check.columns) {
        Err(error) => Err(error),
        Ok(ids) => Ok(
            CheckView { name: check.name, owner, columns: ids, expression: check.expression },
        ),
    }
}

/// A CHECK of a statement, with the columns it reads resolved.
pub fn describe_check(
    columns: &[Column],
    owner: Option<ColumnId>,
    check: &CreateCheckConstraint,
) -> (r: Result<CheckDefinition, SchemaCodecError>)
    ensures
        outcome(r) == check_of(views(columns@), view_of(owner), check@),
{
    match resolve_names(columns, check.columns.as_slice()) {
        Err(error) => Err(error),
        Ok(ids) => {
            let name = match &check.name {
                Some(name) => Some(name.clone()),
                None => None,
            };
            let r = CheckDefinition {
                name,
                owner,
                columns: ids,
                expression: check.expression.clone(),
            };
            Ok(r)
        },
    }
}

/// The CHECKs that a new column brings.
pub open spec fn owned_check(columns: Seq<ColumnView>, id: Seq<u8>) -> spec_fn(
    CreateCheckView,
) -> Result<CheckView, SchemaCodecError> {
    |check: CreateCheckView| check_of(columns, Some(id), check)
}

/// A table with one more column at its end, and the CHECKs that came with it.
pub open spec fn with_column(
    table: TableView,
    id: Seq<u8>,
    column: CreateColumnView,
    checks: Seq<CreateCheckView>,
) -> Result<TableView, SchemaCodecError> {
    let columns = table.columns.push(column_of(id, column));
    match try_map(checks, owned_check(columns, id)) {
        Err(error) => Err(error),
        Ok(owned) => {
            let next = TableView {
                columns,
                checks: table.checks + owned,
                schema_revision: evolved(table.schema_revision, id),
                ..table
            };
            if definition_sound(next) {
                Ok(next)
            } else {
                Err(SchemaCodecError::InvalidSchema)
            }
        },
    }
}

/// Whether a column of a table is in no key, no index and no CHECK but its own.
pub open spec fn removable(table: TableView, id: Seq<u8>) -> bool {
    &&& column_by_id(table.columns, id) matches Some(column)
    &&& column.primary_key is None
    &&& forall|i: int|
        0 <= i < table.unique_constraints.len()
            ==> !(#[trigger] table.unique_constraints[i]).columns.contains(id)
    &&& forall|i: int|
        0 <= i < table.indexes.len() ==> !(#[trigger] table.indexes[i]).columns.contains(id)
    &&& forall|i: int|
        0 <= i < table.foreign_keys.len() ==> !(#[trigger] table.foreign_keys[i]).columns.contains(
            id,
        )
    &&& forall|i: int|
        0 <= i < table.checks.len() && (#[trigger] table.checks[i]).columns.contains(id)
            ==> table.checks[i].owner == Some(id)
}

/// Whether a column has another identity.
pub open spec fn other_column(id: Seq<u8>) -> spec_fn(ColumnView) -> bool {
    |column: ColumnView| column.id != id
}

/// Whether a CHECK did not come with a column.
pub open spec fn other_check(id: Seq<u8>) -> spec_fn(CheckView) -> bool {
    |check: CheckView| check.owner != Some(id)
}

/// A table without one of its columns and without the CHECKs that came with it.
pub open spec fn without_column(table: TableView, id: Seq<u8>) -> Result<
    TableView,
    SchemaCodecError,
> {
    let next = TableView {
        columns: table.columns.filter(other_column(id)),
        checks: table.checks.filter(other_check(id)),
        schema_revision: evolved(table.schema_revision, id),
        ..table
    };
    if removable(table, id) && definition_sound(next) {
        Ok(next)
    } else {
        Err(SchemaCodecError::InvalidSchema)
    }
}

/// Whether an identity is among identities.
pub fn has_id(ids: &[ColumnId], id: ColumnId) -> (r: bool)
    ensures
        r == views(ids@).contains(id@),
{
    let matching = |other: &ColumnId| -> (r: bool)
        ensures
            r == (other@ == id@),
        { other.same(&id) };
    let ghost test = |other: Seq<u8>| other == id@;
    any(ids, matching, Ghost(test))
}

impl CreateTable {
    /// Add a column under a given identity.
    pub fn with_added_column_identity(
        &self,
        id: ColumnId,
        column: &CreateColumn,
        checks: &[CreateCheckConstraint],
    ) -> (r: Result<CreateTable, SchemaCodecError>)
        ensures
            outcome(r) == with_column(self@, id@, column@, views(checks@)),
    {
        let mut next = self.clone();
        let added = describe_column(id, column);
        next.columns.push(added);
        let ghost columns = self@.columns.push(column_of(id@, column@));
        assert(views(next.columns@) =~= columns);
        let describe = |check: &CreateCheckConstraint| -> (r: Result<
            CheckDefinition,
            SchemaCodecError,
        >)
            ensures
                outcome(r) == owned_check(views(next.columns@), id@)(check@),
            { describe_check(next.columns.as_slice(), Some(id), check) };
        let mut owned = match try_each(checks, describe, Ghost(owned_check(columns, id@))) {
            Err(error) => {
                return Err(error);
            },
            Ok(owned) => owned,
        };
        let ghost owned_views = views(owned@);
        let ghost checks_before = views(next.checks@);
        next.checks.append(&mut owned);
        assert(views(next.checks@) =~= checks_before + owned_views);
        next.schema_revision = evolve_revision(self.schema_revision, id);
        proof {
            let want = TableView {
                columns,
                checks: self@.checks + owned_views,
                schema_revision: evolved(self@.schema_revision, id@),
                ..self@
            };
            assert(next@ =~= want);
        }
        match next.validate_ir() {
            Err(error) => Err(error),
            Ok(()) => Ok(next),
        }
    }

    /// Add a column under a new identity.
    pub fn with_added_column(
        &self,
        column: &CreateColumn,
        checks: &[CreateCheckConstraint],
    ) -> (r: Result<(CreateTable, ColumnId), SchemaCodecError>)
        ensures
            match r {
                Ok((next, id)) => random_uuid(id@) && with_column(
                    self@,
                    id@,
                    column@,
                    views(checks@),
                ) == Ok::<TableView, SchemaCodecError>(next@),
                Err(error) => exists|id: Seq<u8>|
                    random_uuid(id) && with_column(self@, id, column@, views(checks@)) == Err::<
                        TableView,
                        SchemaCodecError,
                    >(error),
            },
    {
        let id = ColumnId::fresh();
        match self.with_added_column_identity(id, column, checks) {
            Err(error) => Err(error),
            Ok(next) => Ok((next, id)),
        }
    }

    /// Whether a column is in no key, no index and no CHECK but its own.
    fn can_remove(&self, id: ColumnId) -> (r: bool)
        ensures
            r == removable(self@, id@),
    {
        assert(self@.columns == views(self.columns@));
        assert(self@.unique_constraints == views(self.unique_constraints@));
        assert(self@.indexes == views(self.indexes@));
        assert(self@.foreign_keys == views(self.foreign_keys@));
        assert(self@.checks == views(self.checks@));
        match find_column(self.columns.as_slice(), id) {
            None => {
                return false;
            },
            Some(i) => {
                if self.columns[i].primary_key.is_some() {
                    return false;
                }
            },
        }
        let in_unique = |unique: &UniqueConstraint| -> (r: bool)
            ensures
                r == unique@.columns.contains(id@),
            { has_id(unique.columns.as_slice(), id) };
        let ghost unique_test = |unique: UniqueView| unique.columns.contains(id@);
        let in_index = |index: &NamedIndex| -> (r: bool)
            ensures
                r == index@.columns.contains(id@),
            { has_id(index.columns.as_slice(), id) };
        let ghost index_test = |index: NamedIndexView| index.columns.contains(id@);
        let in_foreign_key = |foreign_key: &ForeignKeyDefinition| -> (r: bool)
            ensures
                r == foreign_key@.columns.contains(id@),
            { has_id(foreign_key.columns.as_slice(), id) };
        let ghost foreign_test = |foreign_key: RelationshipView| foreign_key.columns.contains(id@);
        let in_check = |check: &CheckDefinition| -> (r: bool)
            ensures
                r == (check@.columns.contains(id@) && check@.owner != Some(id@)),
            { has_id(check.columns.as_slice(), id) && !is_owner(check, id) };
        let ghost check_test = |check: CheckView|
            check.columns.contains(id@) && check.owner != Some(id@);
        !any(self.unique_constraints.as_slice(), in_unique, Ghost(unique_test)) && !any(
            self.indexes.as_slice(),
            in_index,
            Ghost(index_test),
        ) && !any(self.foreign_keys.as_slice(), in_foreign_key, Ghost(foreign_test)) && !any(
            self.checks.as_slice(),
            in_check,
            Ghost(check_test),
        )
    }

    /// Remove a column.
    pub fn with_removed_column(&self, id: ColumnId) -> (r: Result<CreateTable, SchemaCodecError>)
        ensures
            outcome(r) == without_column(self@, id@),
    {
        if !self.can_remove(id) {
            return Err(SchemaCodecError::InvalidSchema);
        }
        let CreateTable {
            mutation,
            sql,
            name,
            table,
            schema_revision,
            primary_index,
            mode,
            storage,
            columns,
            unique_constraints,
            indexes,
            foreign_keys,
            checks,
        } = self.clone();
        let keep_column = |column: &Column| -> (r: bool)
            ensures
                r == other_column(id@)(column@),
            { !column.id.same(&id) };
        let keep_check = |check: &CheckDefinition| -> (r: bool)
            ensures
                r == other_check(id@)(check@),
            { !is_owner(check, id) };
        let columns = retain(columns, keep_column, Ghost(other_column(id@)));
        let checks = retain(checks, keep_check, Ghost(other_check(id@)));
        let next = CreateTable {
            mutation,
            sql,
            name,
            table,
            schema_revision: evolve_revision(schema_revision, id),
            primary_index,
            mode,
            storage,
            columns,
            unique_constraints,
            indexes,
            foreign_keys,
            checks,
        };
        match next.validate_ir() {
            Err(error) => Err(error),
            Ok(()) => Ok(next),
        }
    }
}

/// Whether a CHECK came with a column.
fn is_owner(check: &CheckDefinition, id: ColumnId) -> (r: bool)
    ensures
        r == (check@.owner == Some(id@)),
{
    match &check.owner {
        Some(owner) => owner.same(&id),
        None => false,
    }
}

} // verus!
