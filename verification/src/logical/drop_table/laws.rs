//! Laws on the drop of a table: what it leaves of the key space.

use super::frame::{drop_table_frame, DropTableOperationView};
use super::lower::{drop_head, drop_index, drop_relationship, drop_table_emissions};
use crate::key::{below, MutationView, Path};
use crate::logical::codes;
use crate::logical::codes::{label, lemma_labels};
use crate::logical::layout::{
    constraint_reference_path, layout_families, object_name_path, reference_prefix_path,
    schema_log_path, table_root_path,
};
use crate::logical::lowering::{
    all_emit, gathered, lemma_all_concat, lemma_all_gathered, lemma_delete_emitted,
    lemma_gathered_has, lemma_has_concat, mutations_of, Emission,
};
use crate::logical::schema::definition::{NamedIndexView, RelationshipView};
use crate::logical::space::{
    agrees, left_by, lemma_freed, lemma_put, lemma_spared, performed, puts_nothing_at,
    spares, touches, Space,
};
use vstd::prelude::*;

verus! {

/// Whether a key is the name of an active index.
pub open spec fn active_name(index: NamedIndexView, key: Path) -> bool {
    index.active && key == object_name_path(index.name)
}

/// Whether a key holds what a parent table knows of an active foreign key: its
/// marker, or a child's reference.
pub open spec fn parent_knows(foreign_key: RelationshipView, key: Path) -> bool {
    foreign_key.active && (key == constraint_reference_path(
        foreign_key.referenced_table,
        foreign_key.referenced_index,
        foreign_key.id,
    ) || below(
        key,
        reference_prefix_path(
            foreign_key.referenced_table,
            foreign_key.id,
            foreign_key.referenced_index,
            Seq::empty(),
        ),
    ))
}

/// Whether a key goes with a table: the table's name, the name of one of its
/// active indexes, whatever lies below the table, and what the parents know of
/// its active foreign keys.
pub open spec fn goes_with_table(op: DropTableOperationView, key: Path) -> bool {
    ||| key == object_name_path(op.source_table)
    ||| exists|i: int|
        0 <= i < op.before.indexes.len() && active_name(#[trigger] op.before.indexes[i], key)
    ||| below(key, table_root_path(op.before.table))
    ||| exists|i: int|
        0 <= i < op.before.foreign_keys.len() && parent_knows(
            #[trigger] op.before.foreign_keys[i],
            key,
        )
}

/// An entry of the schema log is neither a name nor below a table.
proof fn lemma_log_apart(mutation: Seq<u8>)
    ensures
        forall|name: Seq<char>| schema_log_path(mutation) != #[trigger] object_name_path(name),
        forall|prefix: Path|
            prefix.len() >= 2 && prefix[1] == label(codes::TABLES) ==> !#[trigger] below(
                schema_log_path(mutation),
                prefix,
            ),
        schema_log_path(mutation)[1] != label(codes::TABLES),
{
    broadcast use layout_families;

    lemma_labels();
    let log = schema_log_path(mutation);
    assert(log[1] == label(codes::SCHEMA));
    assert forall|prefix: Path|
        prefix.len() >= 2 && prefix[1] == label(codes::TABLES) implies !#[trigger] below(
        log,
        prefix,
    ) by {
        if below(log, prefix) {
            assert(log.subrange(0, prefix.len() as int)[1] == prefix[1]);
        }
    }
}

/// Every emission of a drop frees a key that goes with the table, but for the
/// entry of the schema log.
proof fn lemma_drop_emits(op: DropTableOperationView, key: Path)
    ensures
        key != schema_log_path(op.mutation_id) ==> all_emit(
            drop_table_emissions(op),
            puts_nothing_at(key),
        ),
        key != schema_log_path(op.mutation_id) && !goes_with_table(op, key) ==> all_emit(
            drop_table_emissions(op),
            spares(key),
        ),
        key == schema_log_path(op.mutation_id) ==> all_emit(
            drop_table_emissions(op),
            agrees(key, drop_table_frame(op)),
        ) && !goes_with_table(op, key),
{
    let log = schema_log_path(op.mutation_id);
    let head = drop_head(op);
    let names = gathered(op.before.indexes, drop_index());
    let root = seq![Emission::DeletePrefix(table_root_path(op.before.table))];
    let parents = gathered(op.before.foreign_keys, drop_relationship());
    lemma_log_apart(op.mutation_id);
    assert(table_root_path(op.before.table)[1] == label(codes::TABLES));
    assert forall|i: int| 0 <= i < op.before.foreign_keys.len() implies !parent_knows(
        #[trigger] op.before.foreign_keys[i],
        log,
    ) by {
        let foreign_key = op.before.foreign_keys[i];
        let marker = constraint_reference_path(
            foreign_key.referenced_table,
            foreign_key.referenced_index,
            foreign_key.id,
        );
        let prefix = reference_prefix_path(
            foreign_key.referenced_table,
            foreign_key.id,
            foreign_key.referenced_index,
            Seq::empty(),
        );
        assert(marker[1] == label(codes::TABLES));
        assert(prefix[1] == label(codes::TABLES));
    }
    let test = |emission: Emission|
        match emission {
            Emission::Put(at, value) => at == log && value == drop_table_frame(op),
            _ => touches(emission, key) ==> goes_with_table(op, key),
        };
    assert(all_emit(head, test));
    assert forall|i: int| 0 <= i < op.before.indexes.len() implies all_emit(
        drop_index()(#[trigger] op.before.indexes[i]),
        test,
    ) by {
        let emitted = drop_index()(op.before.indexes[i]);
        assert forall|j: int| 0 <= j < emitted.len() implies test(#[trigger] emitted[j]) by {
            if touches(emitted[j], key) {
                assert(active_name(op.before.indexes[i], key));
            }
        }
    }
    lemma_all_gathered(op.before.indexes, drop_index(), test);
    assert forall|i: int| 0 <= i < op.before.foreign_keys.len() implies all_emit(
        drop_relationship()(#[trigger] op.before.foreign_keys[i]),
        test,
    ) by {
        let emitted = drop_relationship()(op.before.foreign_keys[i]);
        assert forall|j: int| 0 <= j < emitted.len() implies test(#[trigger] emitted[j]) by {
            if touches(emitted[j], key) {
                assert(parent_knows(op.before.foreign_keys[i], key));
            }
        }
    }
    lemma_all_gathered(op.before.foreign_keys, drop_relationship(), test);
    lemma_all_concat(head, names, test);
    assert(all_emit(root, test));
    lemma_all_concat(head + names, root, test);
    lemma_all_concat(head + names + root, parents, test);
    let all = drop_table_emissions(op);
    assert(all == head + names + root + parents);
    assert forall|i: int| 0 <= i < all.len() implies (key != log ==> puts_nothing_at(key)(
        #[trigger] all[i],
    )) && (key != log && !goes_with_table(op, key) ==> spares(key)(all[i])) && (key == log
        ==> agrees(key, drop_table_frame(op))(all[i])) by {
        assert(test(all[i]));
    }
}

/// A part of what a drop emits is among what it emits.
proof fn lemma_drop_has(op: DropTableOperationView, emission: Emission)
    requires
        drop_head(op).contains(emission) || gathered(op.before.indexes, drop_index()).contains(
            emission,
        ) || emission == Emission::DeletePrefix(table_root_path(op.before.table)) || gathered(
            op.before.foreign_keys,
            drop_relationship(),
        ).contains(emission),
    ensures
        drop_table_emissions(op).contains(emission),
{
    let head = drop_head(op);
    let names = gathered(op.before.indexes, drop_index());
    let root = seq![Emission::DeletePrefix(table_root_path(op.before.table))];
    let parents = gathered(op.before.foreign_keys, drop_relationship());
    assert(root.contains(root[0]));
    lemma_has_concat(head, names, emission);
    lemma_has_concat(head + names, root, emission);
    lemma_has_concat(head + names + root, parents, emission);
}

/// Once the drop of a table is carried out, no key that goes with the table
/// holds anything: not its name, nor the name of an active index, nor a key
/// below the table, nor what its parents knew of it. The schema log holds the
/// operation, and every other key is as it was.
pub proof fn dropping_a_table_frees_its_keys(op: DropTableOperationView, space: Space, key: Path)
    ensures
        ({
            let after = performed(space, mutations_of(drop_table_emissions(op)));
            let log = schema_log_path(op.mutation_id);
            &&& key == log ==> after(key) == Some(drop_table_frame(op))
            &&& goes_with_table(op, key) ==> after(key) is None
            &&& key != log && !goes_with_table(op, key) ==> after(key) == space(key)
        }),
{
    let log = schema_log_path(op.mutation_id);
    let all = drop_table_emissions(op);
    lemma_drop_emits(op, key);
    assert(performed(space, mutations_of(all))(key) == left_by(space, all, key));
    if key == log {
        let put = Emission::Put(key, drop_table_frame(op));
        assert(drop_head(op)[3] == put);
        lemma_drop_has(op, put);
        lemma_put(space, all, key, drop_table_frame(op));
    } else if !goes_with_table(op, key) {
        lemma_spared(space, all, key);
    } else {
        let emission = if key == object_name_path(op.source_table) {
            Emission::Delete(key)
        } else if below(key, table_root_path(op.before.table)) {
            Emission::DeletePrefix(table_root_path(op.before.table))
        } else if exists|i: int|
            0 <= i < op.before.indexes.len() && active_name(#[trigger] op.before.indexes[i], key) {
            Emission::Delete(key)
        } else {
            let i = choose|i: int|
                0 <= i < op.before.foreign_keys.len() && parent_knows(
                    #[trigger] op.before.foreign_keys[i],
                    key,
                );
            let foreign_key = op.before.foreign_keys[i];
            if key == constraint_reference_path(
                foreign_key.referenced_table,
                foreign_key.referenced_index,
                foreign_key.id,
            ) {
                Emission::Delete(key)
            } else {
                Emission::DeletePrefix(
                    reference_prefix_path(
                        foreign_key.referenced_table,
                        foreign_key.id,
                        foreign_key.referenced_index,
                        Seq::empty(),
                    ),
                )
            }
        };
        if key == object_name_path(op.source_table) {
            assert(drop_head(op)[4] == emission);
        } else if below(key, table_root_path(op.before.table)) {
        } else if exists|i: int|
            0 <= i < op.before.indexes.len() && active_name(#[trigger] op.before.indexes[i], key) {
            let i = choose|i: int|
                0 <= i < op.before.indexes.len() && active_name(
                    #[trigger] op.before.indexes[i],
                    key,
                );
            assert(drop_index()(op.before.indexes[i])[1] == emission);
            lemma_gathered_has(op.before.indexes, drop_index(), i, emission);
        } else {
            let i = choose|i: int|
                0 <= i < op.before.foreign_keys.len() && parent_knows(
                    #[trigger] op.before.foreign_keys[i],
                    key,
                );
            let emitted = drop_relationship()(op.before.foreign_keys[i]);
            assert(emitted[2] == emission || emitted[5] == emission);
            lemma_gathered_has(op.before.foreign_keys, drop_relationship(), i, emission);
        }
        lemma_drop_has(op, emission);
        lemma_freed(space, all, key, emission);
    }
}

/// The drop of a table deletes the table's name and the name of each of its
/// active indexes.
pub proof fn dropping_a_table_deletes_its_names(op: DropTableOperationView, i: int)
    ensures
        mutations_of(drop_table_emissions(op)).contains(
            MutationView::Delete { key: object_name_path(op.source_table) },
        ),
        0 <= i < op.before.indexes.len() && op.before.indexes[i].active ==> mutations_of(
            drop_table_emissions(op),
        ).contains(MutationView::Delete { key: object_name_path(op.before.indexes[i].name) }),
{
    let all = drop_table_emissions(op);
    let name = Emission::Delete(object_name_path(op.source_table));
    assert(drop_head(op)[4] == name);
    lemma_drop_has(op, name);
    lemma_delete_emitted(all, object_name_path(op.source_table));
    if 0 <= i < op.before.indexes.len() && op.before.indexes[i].active {
        let key = object_name_path(op.before.indexes[i].name);
        let emission = Emission::Delete(key);
        assert(drop_index()(op.before.indexes[i])[1] == emission);
        lemma_gathered_has(op.before.indexes, drop_index(), i, emission);
        lemma_drop_has(op, emission);
        lemma_delete_emitted(all, key);
    }
}

} // verus!
