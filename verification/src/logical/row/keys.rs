//! The durable keys that a row owns, and those that it refers to.

use super::cells::{Row, RowView};
use super::error::RowCodecError;
use super::image::{key_image, key_image_of};
use super::rules::{
    ForeignKeyPartRules, ForeignKeyPartView, ForeignKeyView, IncomingView, IndexView, KeyPartRules,
    KeyPartView, RowRules, RulesView,
};
use crate::attempt::{
    lemma_try_fold_start, lemma_try_fold_step, lemma_try_fold_stop, map_step, try_fold, try_map,
};
use crate::bytes::copy_bytes;
use crate::codec::{list_outcome, views};
use crate::footprint::paths;
use crate::identity::{ForeignKeyId, IndexId, TableId};
use crate::key::{key_result, parts_view, path_bytes, valid_path, Key, KeyError, Path};
use crate::logical::layout::{reference_path, reference_prefix_path, row_path, unique_path};
use crate::logical::schema::definition::CreateTable;
use crate::logical::target::{bounded_key, classified, LogicalTarget, TargetFamily};
use crate::value::{StoredValue, ValueView};
use vstd::prelude::*;

verus! {

/// A key and what is stored under it.
#[derive(Debug, PartialEq, Eq)]
pub struct IndexEntry {
    pub key: Key,
    pub value: Vec<u8>,
}

/// An entry as a mathematical value.
#[verifier::ext_equal]
pub struct EntryView {
    pub key: Path,
    pub value: Seq<u8>,
}

impl View for IndexEntry {
    type V = EntryView;

    open spec fn view(&self) -> EntryView {
        EntryView { key: self.key@, value: self.value@ }
    }
}

impl Clone for IndexEntry {
    fn clone(&self) -> (r: Self)
        ensures
            r@ == self@,
    {
        IndexEntry { key: self.key.clone(), value: copy_bytes(self.value.as_slice()) }
    }
}

/// A key whose value images must be short enough for components.
pub open spec fn bounded_path(images_fit: bool, path: Path) -> Result<Path, RowCodecError> {
    if images_fit {
        Ok(path)
    } else {
        Err(RowCodecError::InvalidKey(KeyError::ComponentTooLong))
    }
}

/// The image of one part of a row's key.
pub open spec fn part_image(row: RowView, part: KeyPartView) -> Result<Seq<u8>, RowCodecError> {
    match row.value(part.column) {
        None => Err(RowCodecError::InvalidRow),
        Some(value) => key_image_of(value, part.affinity),
    }
}

/// [`part_image`] of a row as a value.
pub open spec fn part_images(row: RowView) -> spec_fn(KeyPartView) -> Result<
    Seq<u8>,
    RowCodecError,
> {
    |part: KeyPartView| part_image(row, part)
}

/// The images of a key's parts in order, or the first failure.
pub open spec fn images_of(row: RowView, parts: Seq<KeyPartView>) -> Result<Path, RowCodecError> {
    try_map(parts, part_images(row))
}

/// The images of a tuple that is not owned where one of its values is NULL.
/// Every column must be there.
pub open spec fn tuple_images(row: RowView, parts: Seq<KeyPartView>) -> Result<
    Option<Path>,
    RowCodecError,
> {
    if exists|i: int|
        0 <= i < parts.len() && row.value((#[trigger] parts[i]).column) is None {
        Err(RowCodecError::InvalidRow)
    } else if exists|i: int|
        0 <= i < parts.len() && row.value((#[trigger] parts[i]).column) == Some(ValueView::Null) {
        Ok(None)
    } else {
        match images_of(row, parts) {
            Err(error) => Err(error),
            Ok(images) => Ok(Some(images)),
        }
    }
}

/// The key of a row.
pub open spec fn row_key_of(rules: RulesView, row: RowView) -> Result<Path, RowCodecError> {
    match images_of(row, rules.key_parts) {
        Err(error) => Err(error),
        Ok(images) => bounded_path(
            valid_path(images),
            row_path(rules.table, rules.primary_index, images),
        ),
    }
}

/// A list to which an item may be added.
pub open spec fn extended<T, E>(list: Seq<T>, item: Result<Option<T>, E>) -> Result<Seq<T>, E> {
    match item {
        Err(error) => Err(error),
        Ok(Some(value)) => Ok(list.push(value)),
        Ok(None) => Ok(list),
    }
}

/// What a row owns in one UNIQUE index.
pub open spec fn unique_entry(
    table: Seq<u8>,
    owner: Seq<u8>,
    row: RowView,
    index: IndexView,
) -> Result<Option<EntryView>, RowCodecError> {
    match tuple_images(row, index.parts) {
        Err(error) => Err(error),
        Ok(None) => Ok(None),
        Ok(Some(images)) => match bounded_path(
            valid_path(images),
            unique_path(table, index.index, images),
        ) {
            Err(error) => Err(error),
            Ok(key) => Ok(Some(EntryView { key, value: owner })),
        },
    }
}

/// [`unique_entry`] as a step that extends a list.
pub open spec fn unique_step(table: Seq<u8>, owner: Seq<u8>, row: RowView) -> spec_fn(
    Seq<EntryView>,
    IndexView,
) -> Result<Seq<EntryView>, RowCodecError> {
    |list: Seq<EntryView>, index: IndexView|
        extended(list, unique_entry(table, owner, row, index))
}

/// What a row owns in the UNIQUE indexes of its table.
pub open spec fn index_entries_of(rules: RulesView, row: RowView) -> Result<
    Seq<EntryView>,
    RowCodecError,
> {
    match row_key_of(rules, row) {
        Err(error) => Err(error),
        Ok(key) => try_fold(
            Seq::<EntryView>::empty(),
            rules.indexes,
            unique_step(rules.table, path_bytes(key), row),
        ),
    }
}

/// The parts of a foreign key, read from the child's columns.
pub open spec fn child_parts(parts: Seq<ForeignKeyPartView>) -> Seq<KeyPartView> {
    Seq::new(
        parts.len(),
        |i: int|
            KeyPartView {
                column: parts[i].child_column,
                affinity: parts[i].parent.affinity,
                rowid_alias: parts[i].parent.rowid_alias,
            },
    )
}

/// A row's reference through one foreign key.
pub open spec fn reference_entry(
    rules: RulesView,
    owner: Seq<u8>,
    child_images: Path,
    row: RowView,
    foreign_key: ForeignKeyView,
) -> Result<Option<EntryView>, RowCodecError> {
    match tuple_images(row, child_parts(foreign_key.key_parts)) {
        Err(error) => Err(error),
        Ok(None) => Ok(None),
        Ok(Some(images)) => match bounded_path(
            valid_path(images) && valid_path(child_images),
            reference_path(
                foreign_key.parent_table,
                foreign_key.id,
                foreign_key.parent_index,
                images,
                rules.primary_index,
                child_images,
            ),
        ) {
            Err(error) => Err(error),
            Ok(key) => Ok(Some(EntryView { key, value: owner })),
        },
    }
}

/// [`reference_entry`] as a step that extends a list.
pub open spec fn reference_step(
    rules: RulesView,
    owner: Seq<u8>,
    child_images: Path,
    row: RowView,
) -> spec_fn(Seq<EntryView>, ForeignKeyView) -> Result<Seq<EntryView>, RowCodecError> {
    |list: Seq<EntryView>, foreign_key: ForeignKeyView|
        extended(list, reference_entry(rules, owner, child_images, row, foreign_key))
}

/// A row's references through the foreign keys of its table.
pub open spec fn references_of(rules: RulesView, row: RowView) -> Result<
    Seq<EntryView>,
    RowCodecError,
> {
    match row_key_of(rules, row) {
        Err(error) => Err(error),
        Ok(key) => try_fold(
            Seq::<EntryView>::empty(),
            rules.foreign_keys,
            reference_step(
                rules,
                path_bytes(key),
                images_of(row, rules.key_parts)->Ok_0,
                row,
            ),
        ),
    }
}

/// The prefix above every reference to a row through one incoming foreign key.
pub open spec fn incoming_prefix(rules: RulesView, row: RowView, incoming: IncomingView) -> Result<
    Option<Path>,
    RowCodecError,
> {
    match tuple_images(row, incoming.parent_key_parts) {
        Err(error) => Err(error),
        Ok(None) => Ok(None),
        Ok(Some(images)) => match bounded_path(
            valid_path(images),
            reference_prefix_path(rules.table, incoming.id, incoming.parent_index, images),
        ) {
            Err(error) => Err(error),
            Ok(key) => Ok(Some(key)),
        },
    }
}

/// [`incoming_prefix`] as a step that extends a list.
pub open spec fn incoming_step(rules: RulesView, row: RowView) -> spec_fn(
    Seq<Path>,
    IncomingView,
) -> Result<Seq<Path>, RowCodecError> {
    |list: Seq<Path>, incoming: IncomingView|
        extended(list, incoming_prefix(rules, row, incoming))
}

/// The prefixes above every reference to a row.
pub open spec fn incoming_prefixes_of(rules: RulesView, row: RowView) -> Result<
    Seq<Path>,
    RowCodecError,
> {
    try_fold(Seq::<Path>::empty(), rules.incoming_foreign_keys, incoming_step(rules, row))
}

/// The images that a path ends in are short enough exactly where the path is.
proof fn lemma_suffix_valid(head: Path, images: Path)
    ensures
        valid_path(head + images) ==> valid_path(images),
{
    if valid_path(head + images) {
        assert forall|i: int| 0 <= i < images.len() implies (#[trigger] images[i]).len() <= 255 by {
            assert((head + images)[head.len() + i] == images[i]);
        }
    }
}

/// The key of a row, or of a prefix of its key images.
pub fn row_prefix(table: TableId, primary_index: IndexId, images: Vec<Vec<u8>>) -> (r: Result<
    Key,
    RowCodecError,
>)
    ensures
        key_result(r) == bounded_path(
            valid_path(parts_view(images@)),
            row_path(table@, primary_index@, parts_view(images@)),
        ),
        r matches Ok(key) ==> classified(key@) == Some(TargetFamily::Row),
{
    let ghost parts = parts_view(images@);
    let target = LogicalTarget::Row { table, index: primary_index, images };
    proof {
        lemma_suffix_valid(row_path(table@, primary_index@, Seq::empty()), parts);
        assert(target.path() =~= row_path(table@, primary_index@, Seq::empty()) + parts);
        assert(target.path() =~= row_path(table@, primary_index@, parts));
    }
    match target.render() {
        Ok(key) => Ok(key),
        Err(error) => Err(RowCodecError::InvalidKey(error)),
    }
}

/// The key above every row of a table.
pub fn primary_index_prefix(created: &CreateTable) -> (r: Key)
    ensures
        r@ == row_path(created@.table, created@.primary_index, Seq::empty()),
{
    let images: Vec<Vec<u8>> = Vec::new();
    let target = LogicalTarget::Row {
        table: created.table,
        index: created.primary_index,
        images,
    };
    assert(parts_view(images@) =~= Seq::<Seq<u8>>::empty());
    assert(target.path() =~= row_path(created@.table, created@.primary_index, Seq::empty()));
    bounded_key(target)
}

/// The key of an owner in a UNIQUE index.
pub fn unique_prefix(table: TableId, index: IndexId, images: Vec<Vec<u8>>) -> (r: Result<
    Key,
    RowCodecError,
>)
    ensures
        key_result(r) == bounded_path(
            valid_path(parts_view(images@)),
            unique_path(table@, index@, parts_view(images@)),
        ),
        r matches Ok(key) ==> classified(key@) == Some(TargetFamily::UniqueOwner),
{
    let ghost parts = parts_view(images@);
    let target = LogicalTarget::UniqueOwner { table, index, images };
    proof {
        lemma_suffix_valid(unique_path(table@, index@, Seq::empty()), parts);
        assert(target.path() =~= unique_path(table@, index@, Seq::empty()) + parts);
        assert(target.path() =~= unique_path(table@, index@, parts));
    }
    match target.render() {
        Ok(key) => Ok(key),
        Err(error) => Err(RowCodecError::InvalidKey(error)),
    }
}

/// The prefix above every reference to one parent key.
pub fn foreign_reference_prefix(
    parent: TableId,
    relationship: ForeignKeyId,
    parent_index: IndexId,
    parent_images: Vec<Vec<u8>>,
) -> (r: Result<Key, RowCodecError>)
    ensures
        key_result(r) == bounded_path(
            valid_path(parts_view(parent_images@)),
            reference_prefix_path(
                parent@,
                relationship@,
                parent_index@,
                parts_view(parent_images@),
            ),
        ),
        r matches Ok(key) ==> classified(key@) == Some(TargetFamily::ForeignReference),
{
    let ghost parts = parts_view(parent_images@);
    let target = LogicalTarget::ForeignReferencePrefix {
        parent,
        relationship,
        parent_index,
        parent_images,
    };
    proof {
        let head = reference_prefix_path(parent@, relationship@, parent_index@, Seq::empty());
        lemma_suffix_valid(head, parts);
        assert(target.path() =~= head + parts);
        assert(target.path() =~= reference_prefix_path(
            parent@,
            relationship@,
            parent_index@,
            parts,
        ));
    }
    match target.render() {
        Ok(key) => Ok(key),
        Err(error) => Err(RowCodecError::InvalidKey(error)),
    }
}

/// The key of one child's reference to a parent key.
pub fn foreign_reference_key(
    parent: TableId,
    relationship: ForeignKeyId,
    parent_index: IndexId,
    parent_images: Vec<Vec<u8>>,
    child_primary_index: IndexId,
    child_images: Vec<Vec<u8>>,
) -> (r: Result<Key, RowCodecError>)
    ensures
        key_result(r) == bounded_path(
            valid_path(parts_view(parent_images@)) && valid_path(parts_view(child_images@)),
            reference_path(
                parent@,
                relationship@,
                parent_index@,
                parts_view(parent_images@),
                child_primary_index@,
                parts_view(child_images@),
            ),
        ),
        r matches Ok(key) ==> classified(key@) == Some(TargetFamily::ForeignReference),
{
    let ghost parts = parts_view(parent_images@);
    let ghost child = parts_view(child_images@);
    let target = LogicalTarget::ForeignReference {
        parent,
        relationship,
        parent_index,
        parent_images,
        child_index: child_primary_index,
        child_images,
    };
    proof {
        let head = reference_prefix_path(parent@, relationship@, parent_index@, Seq::empty());
        let middle = seq![child_primary_index@];
        let path = reference_path(
            parent@,
            relationship@,
            parent_index@,
            parts,
            child_primary_index@,
            child,
        );
        assert(target.path() =~= path);
        assert(path =~= head + (parts + (middle + child)));
        assert(path =~= (head + parts + middle) + child);
        lemma_suffix_valid(head + parts + middle, child);
        if valid_path(path) {
            assert forall|i: int| 0 <= i < parts.len() implies (#[trigger] parts[i]).len()
                <= 255 by {
                assert(path[head.len() + i] == parts[i]);
            }
        }
    }
    match target.render() {
        Ok(key) => Ok(key),
        Err(error) => Err(RowCodecError::InvalidKey(error)),
    }
}

/// The images of a key's parts in order.
pub fn encode_images(row: &Row, parts: &[KeyPartRules]) -> (r: Result<Vec<Vec<u8>>, RowCodecError>)
    ensures
        match r {
            Ok(images) => images_of(row@, views(parts@)) == Ok::<Path, RowCodecError>(
                parts_view(images@),
            ),
            Err(error) => images_of(row@, views(parts@)) == Err::<Path, RowCodecError>(error),
        },
{
    let ghost view = views(parts@);
    let ghost step = map_step(part_images(row@));
    let ghost none = Seq::<Seq<u8>>::empty();
    let mut images: Vec<Vec<u8>> = Vec::new();
    let mut i: usize = 0;
    proof {
        lemma_try_fold_start(none, view, step);
        assert(parts_view(images@) =~= none);
    }
    while i < parts.len()
        invariant
            i <= parts@.len(),
            view == views(parts@),
            none == Seq::<Seq<u8>>::empty(),
            step == map_step(part_images(row@)),
            try_fold(none, view.subrange(0, i as int), step) == Ok::<Path, RowCodecError>(
                parts_view(images@),
            ),
        decreases parts.len() - i,
    {
        let part = parts[i];
        proof {
            lemma_try_fold_step(none, view, i as int, step);
            assert(view[i as int] == part@);
            assert(part_images(row@)(part@) == part_image(row@, part@));
        }
        let value = match row.value(part.column) {
            Some(value) => value,
            None => {
                proof {
                    lemma_try_fold_stop(none, view, i as int + 1, step);
                }
                return Err(RowCodecError::InvalidRow);
            },
        };
        match key_image(value, part) {
            Err(error) => {
                proof {
                    lemma_try_fold_stop(none, view, i as int + 1, step);
                }
                return Err(error);
            },
            Ok(image) => {
                let ghost before = parts_view(images@);
                images.push(image);
                assert(parts_view(images@) =~= before.push(image@));
            },
        }
        i += 1;
    }
    proof {
        lemma_try_fold_start(none, view, step);
    }
    Ok(images)
}

/// The images of a tuple that is not owned where one of its values is NULL.
pub fn encode_tuple(row: &Row, parts: &[KeyPartRules]) -> (r: Result<
    Option<Vec<Vec<u8>>>,
    RowCodecError,
>)
    ensures
        match r {
            Ok(Some(images)) => tuple_images(row@, views(parts@)) == Ok::<
                Option<Path>,
                RowCodecError,
            >(Some(parts_view(images@))),
            Ok(None) => tuple_images(row@, views(parts@)) == Ok::<Option<Path>, RowCodecError>(None),
            Err(error) => tuple_images(row@, views(parts@)) == Err::<Option<Path>, RowCodecError>(
                error,
            ),
        },
{
    let ghost view = views(parts@);
    let mut null: bool = false;
    let mut i: usize = 0;
    while i < parts.len()
        invariant
            i <= parts@.len(),
            view == views(parts@),
            forall|j: int| 0 <= j < i ==> row@.value((#[trigger] view[j]).column) is Some,
            null == exists|j: int|
                0 <= j < i && row@.value((#[trigger] view[j]).column) == Some(ValueView::Null),
        decreases parts.len() - i,
    {
        assert(view[i as int] == parts@[i as int]@);
        match row.value(parts[i].column) {
            None => {
                return Err(RowCodecError::InvalidRow);
            },
            Some(StoredValue::Null) => {
                null = true;
            },
            Some(_) => {},
        }
        i += 1;
    }
    if null {
        return Ok(None);
    }
    match encode_images(row, parts) {
        Ok(images) => Ok(Some(images)),
        Err(error) => Err(error),
    }
}

/// The parts of a foreign key, read from the child's columns.
fn source_parts(parts: &[ForeignKeyPartRules]) -> (r: Vec<KeyPartRules>)
    ensures
        views(r@) == child_parts(views(parts@)),
{
    let mut r: Vec<KeyPartRules> = Vec::new();
    let mut i: usize = 0;
    while i < parts.len()
        invariant
            i <= parts@.len(),
            r@.len() == i,
            forall|j: int| 0 <= j < i ==> (#[trigger] r@[j])@ == child_parts(views(parts@))[j],
        decreases parts.len() - i,
    {
        let part = parts[i];
        r.push(
            KeyPartRules {
                column: part.child_column,
                affinity: part.parent.affinity,
                rowid_alias: part.parent.rowid_alias,
            },
        );
        i += 1;
    }
    assert(views(r@) =~= child_parts(views(parts@)));
    r
}

/// A copy of value images.
fn copy_images(images: &[Vec<u8>]) -> (r: Vec<Vec<u8>>)
    ensures
        parts_view(r@) == parts_view(images@),
{
    let mut r: Vec<Vec<u8>> = Vec::new();
    let mut i: usize = 0;
    while i < images.len()
        invariant
            i <= images@.len(),
            r@.len() == i,
            forall|j: int| 0 <= j < i ==> (#[trigger] r@[j])@ == images@[j]@,
        decreases images.len() - i,
    {
        r.push(copy_bytes(images[i].as_slice()));
        i += 1;
    }
    assert(parts_view(r@) =~= parts_view(images@));
    r
}

/// Whether every entry of a list lies in a family of keys.
pub open spec fn entries_in(entries: Seq<IndexEntry>, family: TargetFamily) -> bool {
    forall|i: int| 0 <= i < entries.len() ==> classified((#[trigger] entries[i])@.key) == Some(family)
}

impl RowRules {
    /// The images of the row's primary key.
    pub fn key_images(&self, row: &Row) -> (r: Result<Vec<Vec<u8>>, RowCodecError>)
        ensures
            match r {
                Ok(images) => images_of(row@, self@.key_parts) == Ok::<Path, RowCodecError>(
                    parts_view(images@),
                ),
                Err(error) => images_of(row@, self@.key_parts) == Err::<Path, RowCodecError>(error),
            },
    {
        encode_images(row, self.key_parts.as_slice())
    }

    /// The key of a row.
    pub fn row_key(&self, row: &Row) -> (r: Result<Key, RowCodecError>)
        ensures
            key_result(r) == row_key_of(self@, row@),
            r matches Ok(key) ==> classified(key@) == Some(TargetFamily::Row),
    {
        match self.key_images(row) {
            Err(error) => Err(error),
            Ok(images) => row_prefix(self.table, self.primary_index, images),
        }
    }

    /// What a row owns in the UNIQUE indexes of its table.
    pub fn index_entries(&self, row: &Row) -> (r: Result<Vec<IndexEntry>, RowCodecError>)
        ensures
            list_outcome(r) == index_entries_of(self@, row@),
            r matches Ok(entries) ==> entries_in(entries@, TargetFamily::UniqueOwner),
    {
        let owner = match self.row_key(row) {
            Err(error) => {
                return Err(error);
            },
            Ok(key) => key.encode(),
        };
        let ghost none = Seq::<EntryView>::empty();
        let ghost view = views(self.indexes@);
        let ghost step = unique_step(self@.table, owner@, row@);
        let mut entries: Vec<IndexEntry> = Vec::new();
        let mut i: usize = 0;
        proof {
            lemma_try_fold_start(none, view, step);
            assert(views(entries@) =~= none);
        }
        while i < self.indexes.len()
            invariant
                i <= self.indexes@.len(),
                view == views(self.indexes@),
                none == Seq::<EntryView>::empty(),
                step == unique_step(self@.table, owner@, row@),
                index_entries_of(self@, row@) == try_fold(none, view, step),
                try_fold(none, view.subrange(0, i as int), step) == Ok::<
                    Seq<EntryView>,
                    RowCodecError,
                >(views(entries@)),
                entries_in(entries@, TargetFamily::UniqueOwner),
            decreases self.indexes.len() - i,
        {
            let index = &self.indexes[i];
            proof {
                lemma_try_fold_step(none, view, i as int, step);
                assert(view[i as int] == index@);
                if try_fold(none, view.subrange(0, i as int + 1), step) is Err {
                    lemma_try_fold_stop(none, view, i as int + 1, step);
                }
            }
            match encode_tuple(row, index.parts.as_slice()) {
                Err(error) => {
                    return Err(error);
                },
                Ok(None) => {},
                Ok(Some(images)) => {
                    match unique_prefix(self.table, index.index, images) {
                        Err(error) => {
                            return Err(error);
                        },
                        Ok(key) => {
                            let ghost before = views(entries@);
                            let entry = IndexEntry { key, value: copy_bytes(owner.as_slice()) };
                            entries.push(entry);
                            assert(views(entries@) =~= before.push(entry@));
                        },
                    }
                },
            }
            i += 1;
        }
        proof {
            lemma_try_fold_start(none, view, step);
        }
        Ok(entries)
    }

    /// A row's references through the foreign keys of its table.
    pub fn foreign_references(&self, row: &Row) -> (r: Result<Vec<IndexEntry>, RowCodecError>)
        ensures
            list_outcome(r) == references_of(self@, row@),
            r matches Ok(entries) ==> entries_in(entries@, TargetFamily::ForeignReference),
    {
        let owner = match self.row_key(row) {
            Err(error) => {
                return Err(error);
            },
            Ok(key) => key.encode(),
        };
        let child_images = match self.key_images(row) {
            Err(error) => {
                return Err(error);
            },
            Ok(images) => images,
        };
        let ghost none = Seq::<EntryView>::empty();
        let ghost view = views(self.foreign_keys@);
        let ghost step = reference_step(self@, owner@, parts_view(child_images@), row@);
        let mut entries: Vec<IndexEntry> = Vec::new();
        let mut i: usize = 0;
        proof {
            lemma_try_fold_start(none, view, step);
            assert(views(entries@) =~= none);
        }
        while i < self.foreign_keys.len()
            invariant
                i <= self.foreign_keys@.len(),
                view == views(self.foreign_keys@),
                none == Seq::<EntryView>::empty(),
                step == reference_step(self@, owner@, parts_view(child_images@), row@),
                references_of(self@, row@) == try_fold(none, view, step),
                try_fold(none, view.subrange(0, i as int), step) == Ok::<
                    Seq<EntryView>,
                    RowCodecError,
                >(views(entries@)),
                entries_in(entries@, TargetFamily::ForeignReference),
            decreases self.foreign_keys.len() - i,
        {
            let foreign_key = &self.foreign_keys[i];
            proof {
                lemma_try_fold_step(none, view, i as int, step);
                assert(view[i as int] == foreign_key@);
                if try_fold(none, view.subrange(0, i as int + 1), step) is Err {
                    lemma_try_fold_stop(none, view, i as int + 1, step);
                }
            }
            let parts = source_parts(foreign_key.key_parts.as_slice());
            match encode_tuple(row, parts.as_slice()) {
                Err(error) => {
                    return Err(error);
                },
                Ok(None) => {},
                Ok(Some(images)) => {
                    match foreign_reference_key(
                        foreign_key.parent_table,
                        foreign_key.id,
                        foreign_key.parent_index,
                        images,
                        self.primary_index,
                        copy_images(child_images.as_slice()),
                    ) {
                        Err(error) => {
                            return Err(error);
                        },
                        Ok(key) => {
                            let ghost before = views(entries@);
                            let entry = IndexEntry { key, value: copy_bytes(owner.as_slice()) };
                            entries.push(entry);
                            assert(views(entries@) =~= before.push(entry@));
                        },
                    }
                },
            }
            i += 1;
        }
        proof {
            lemma_try_fold_start(none, view, step);
        }
        Ok(entries)
    }

    /// The prefixes above every reference to a row.
    pub fn incoming_reference_prefixes(&self, row: &Row) -> (r: Result<Vec<Key>, RowCodecError>)
        ensures
            match r {
                Ok(keys) => incoming_prefixes_of(self@, row@) == Ok::<Seq<Path>, RowCodecError>(
                    paths(keys@),
                ),
                Err(error) => incoming_prefixes_of(self@, row@) == Err::<Seq<Path>, RowCodecError>(
                    error,
                ),
            },
            r matches Ok(keys) ==> forall|i: int|
                0 <= i < keys@.len() ==> classified((#[trigger] keys@[i])@) == Some(
                    TargetFamily::ForeignReference,
                ),
    {
        let ghost none = Seq::<Path>::empty();
        let ghost view = views(self.incoming_foreign_keys@);
        let ghost step = incoming_step(self@, row@);
        let mut prefixes: Vec<Key> = Vec::new();
        let mut i: usize = 0;
        proof {
            lemma_try_fold_start(none, view, step);
            assert(paths(prefixes@) =~= none);
        }
        while i < self.incoming_foreign_keys.len()
            invariant
                i <= self.incoming_foreign_keys@.len(),
                view == views(self.incoming_foreign_keys@),
                none == Seq::<Path>::empty(),
                step == incoming_step(self@, row@),
                incoming_prefixes_of(self@, row@) == try_fold(none, view, step),
                try_fold(none, view.subrange(0, i as int), step) == Ok::<
                    Seq<Path>,
                    RowCodecError,
                >(paths(prefixes@)),
                forall|j: int|
                    0 <= j < prefixes@.len() ==> classified((#[trigger] prefixes@[j])@) == Some(
                        TargetFamily::ForeignReference,
                    ),
            decreases self.incoming_foreign_keys.len() - i,
        {
            let incoming = &self.incoming_foreign_keys[i];
            proof {
                lemma_try_fold_step(none, view, i as int, step);
                assert(view[i as int] == incoming@);
                if try_fold(none, view.subrange(0, i as int + 1), step) is Err {
                    lemma_try_fold_stop(none, view, i as int + 1, step);
                }
            }
            match encode_tuple(row, incoming.parent_key_parts.as_slice()) {
                Err(error) => {
                    return Err(error);
                },
                Ok(None) => {},
                Ok(Some(images)) => {
                    match foreign_reference_prefix(
                        self.table,
                        incoming.id,
                        incoming.parent_index,
                        images,
                    ) {
                        Err(error) => {
                            return Err(error);
                        },
                        Ok(key) => {
                            let ghost before = paths(prefixes@);
                            prefixes.push(key);
                            assert(paths(prefixes@) =~= before.push(key@));
                        },
                    }
                },
            }
            i += 1;
        }
        proof {
            lemma_try_fold_start(none, view, step);
        }
        Ok(prefixes)
    }
}

} // verus!
