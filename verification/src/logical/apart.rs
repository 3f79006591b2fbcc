//! Laws on the durable layout: different targets have different keys.

use crate::digest::sha256_digest;
use crate::key::{below, Path};
use crate::logical::codes::{label, lemma_ascii_label};
use crate::logical::layout::{
    active_constraint_path, active_primary_index_path, active_schema_revision_path,
    column_check_path, column_dependency_path, column_index_path, column_name_path,
    column_view_path, constraint_reference_path, index_definition_path, object_name_path,
    reference_prefix_path, row_path, schema_log_path, table_root_path, table_schema_path,
    transaction_path, unique_path, view_path, view_prefix_path, write_revision_path,
};
use crate::logical::target::{
    name_part, HASH_MARK, NAME_MARK, OBJECT_NAME_HASH_DOMAIN, SHORT_NAME_LIMIT,
};
use crate::name::canonical_bytes;
use vstd::prelude::*;

verus! {

/// Whether two canonical names have one component: they are the same short name,
/// or long names with one digest.
pub open spec fn one_component(a: Seq<u8>, b: Seq<u8>) -> bool {
    if a.len() <= SHORT_NAME_LIMIT {
        a == b
    } else {
        b.len() > SHORT_NAME_LIMIT && sha256_digest(label(OBJECT_NAME_HASH_DOMAIN) + a)
            == sha256_digest(label(OBJECT_NAME_HASH_DOMAIN) + b)
    }
}

/// Short names have components of their own, which no long name has; a long name
/// shares its component only with a name of the same digest.
pub proof fn names_have_their_own_components(a: Seq<u8>, b: Seq<u8>)
    ensures
        name_part(a) == name_part(b) <==> one_component(a, b),
{
    reveal_strlit("name-");
    reveal_strlit("hash-");
    lemma_ascii_label(NAME_MARK);
    lemma_ascii_label(HASH_MARK);
    let x = name_part(a);
    let y = name_part(b);
    let n = label(NAME_MARK);
    let h = label(HASH_MARK);
    assert(n.len() == 5 && h.len() == 5);
    assert(n[0] != h[0]);
    assert(x[0] == (if a.len() <= SHORT_NAME_LIMIT {
        n[0]
    } else {
        h[0]
    }));
    assert(y[0] == (if b.len() <= SHORT_NAME_LIMIT {
        n[0]
    } else {
        h[0]
    }));
    if x == y {
        assert(x.subrange(5, x.len() as int) == y.subrange(5, y.len() as int));
        if a.len() <= SHORT_NAME_LIMIT {
            assert(x.subrange(5, x.len() as int) =~= a);
            assert(y.subrange(5, y.len() as int) =~= b);
        } else {
            assert(x.subrange(5, x.len() as int) =~= sha256_digest(
                label(OBJECT_NAME_HASH_DOMAIN) + a,
            ));
            assert(y.subrange(5, y.len() as int) =~= sha256_digest(
                label(OBJECT_NAME_HASH_DOMAIN) + b,
            ));
        }
    }
}

/// The names of schema objects share a key exactly where they bind alike, but
/// for long names of one digest; so do the names of one table's columns, and the
/// markers of views.
pub proof fn names_have_their_own_keys(
    a: Seq<char>,
    b: Seq<char>,
    s: Seq<u8>,
    t: Seq<u8>,
    c: Seq<u8>,
    d: Seq<u8>,
)
    ensures
        object_name_path(a) == object_name_path(b) <==> one_component(
            canonical_bytes(a),
            canonical_bytes(b),
        ),
        column_name_path(s, a) == column_name_path(t, b) <==> s == t && one_component(
            canonical_bytes(a),
            canonical_bytes(b),
        ),
        view_path(s, a) == view_path(t, b) <==> s == t && one_component(
            canonical_bytes(a),
            canonical_bytes(b),
        ),
        column_view_path(s, c, a) == column_view_path(t, d, b) <==> s == t && c == d
            && one_component(canonical_bytes(a), canonical_bytes(b)),
{
    names_have_their_own_components(canonical_bytes(a), canonical_bytes(b));
    let x = name_part(canonical_bytes(a));
    let y = name_part(canonical_bytes(b));
    assert(object_name_path(a)[4] == x && object_name_path(b)[4] == y);
    assert(x == y ==> object_name_path(a) =~= object_name_path(b));
    let p = column_name_path(s, a);
    let q = column_name_path(t, b);
    assert(p[2] == s && q[2] == t && p[5] == x && q[5] == y);
    assert(s == t && x == y ==> p =~= q);
    let p = view_path(s, a);
    let q = view_path(t, b);
    assert(p[2] == s && q[2] == t && p[4] == x && q[4] == y);
    assert(s == t && x == y ==> p =~= q);
    let p = column_view_path(s, c, a);
    let q = column_view_path(t, d, b);
    assert(p[2] == s && q[2] == t && p[4] == c && q[4] == d && p[6] == x && q[6] == y);
    assert(s == t && c == d && x == y ==> p =~= q);
}

/// Every key that is made of identities tells all of them: two such keys of one
/// kind are the same only where each of their parts is.
pub proof fn identities_have_their_own_keys(
    s: Seq<u8>,
    t: Seq<u8>,
    a: Seq<u8>,
    b: Seq<u8>,
    x: Seq<u8>,
    y: Seq<u8>,
)
    ensures
        schema_log_path(s) == schema_log_path(t) <==> s == t,
        transaction_path(s) == transaction_path(t) <==> s == t,
        table_root_path(s) == table_root_path(t) <==> s == t,
        table_schema_path(s, a) == table_schema_path(t, b) <==> s == t && a == b,
        active_primary_index_path(s) == active_primary_index_path(t) <==> s == t,
        active_schema_revision_path(s) == active_schema_revision_path(t) <==> s == t,
        write_revision_path(s) == write_revision_path(t) <==> s == t,
        view_prefix_path(s) == view_prefix_path(t) <==> s == t,
        index_definition_path(s, a) == index_definition_path(t, b) <==> s == t && a == b,
        active_constraint_path(s, a) == active_constraint_path(t, b) <==> s == t && a == b,
        constraint_reference_path(s, a, x) == constraint_reference_path(t, b, y) <==> s == t && a
            == b && x == y,
        column_dependency_path(s, a) == column_dependency_path(t, b) <==> s == t && a == b,
        column_check_path(s, a, x) == column_check_path(t, b, y) <==> s == t && a == b && x == y,
        column_index_path(s, a, x) == column_index_path(t, b, y) <==> s == t && a == b && x == y,
{
    assert(schema_log_path(s)[3] == s && schema_log_path(t)[3] == t);
    assert(transaction_path(s)[3] == s && transaction_path(t)[3] == t);
    assert(table_root_path(s)[2] == s && table_root_path(t)[2] == t);
    let p = table_schema_path(s, a);
    let q = table_schema_path(t, b);
    assert(p[2] == s && q[2] == t && p[4] == a && q[4] == b);
    assert(active_primary_index_path(s)[2] == s && active_primary_index_path(t)[2] == t);
    assert(active_schema_revision_path(s)[2] == s && active_schema_revision_path(t)[2] == t);
    assert(write_revision_path(s)[2] == s && write_revision_path(t)[2] == t);
    assert(view_prefix_path(s)[2] == s && view_prefix_path(t)[2] == t);
    let p = index_definition_path(s, a);
    let q = index_definition_path(t, b);
    assert(p[2] == s && q[2] == t && p[4] == a && q[4] == b);
    let p = active_constraint_path(s, a);
    let q = active_constraint_path(t, b);
    assert(p[2] == s && q[2] == t && p[4] == a && q[4] == b);
    let p = constraint_reference_path(s, a, x);
    let q = constraint_reference_path(t, b, y);
    assert(p[2] == s && q[2] == t && p[4] == a && q[4] == b && p[5] == x && q[5] == y);
    let p = column_dependency_path(s, a);
    let q = column_dependency_path(t, b);
    assert(p[2] == s && q[2] == t && p[4] == a && q[4] == b);
    let p = column_check_path(s, a, x);
    let q = column_check_path(t, b, y);
    assert(p[2] == s && q[2] == t && p[4] == a && q[4] == b && p[6] == x && q[6] == y);
    let p = column_index_path(s, a, x);
    let q = column_index_path(t, b, y);
    assert(p[2] == s && q[2] == t && p[4] == a && q[4] == b && p[6] == x && q[6] == y);
}

/// Everything that belongs to a table lies below its root: its revisions, names,
/// pointers, constraints, indexes, markers, rows, owners, and the references to
/// its rows. No other table's root lies above any of it.
pub proof fn tables_lie_below_their_roots(
    table: Seq<u8>,
    a: Seq<u8>,
    b: Seq<u8>,
    name: Seq<char>,
    images: Path,
    other: Seq<u8>,
)
    ensures
        forall|key: Path| #[trigger]
            below(key, table_root_path(table)) && below(key, table_root_path(other)) ==> table
                == other,
        below(table_schema_path(table, a), table_root_path(table)),
        below(column_name_path(table, name), table_root_path(table)),
        below(active_primary_index_path(table), table_root_path(table)),
        below(active_schema_revision_path(table), table_root_path(table)),
        below(write_revision_path(table), table_root_path(table)),
        below(active_constraint_path(table, a), table_root_path(table)),
        below(index_definition_path(table, a), table_root_path(table)),
        below(constraint_reference_path(table, a, b), table_root_path(table)),
        below(column_check_path(table, a, b), column_dependency_path(table, a)),
        below(column_index_path(table, a, b), column_dependency_path(table, a)),
        below(column_view_path(table, a, name), column_dependency_path(table, a)),
        below(column_dependency_path(table, a), table_root_path(table)),
        below(view_path(table, name), view_prefix_path(table)),
        below(view_prefix_path(table), table_root_path(table)),
        below(row_path(table, a, images), table_root_path(table)),
        below(unique_path(table, a, images), table_root_path(table)),
        below(reference_prefix_path(table, a, b, images), table_root_path(table)),
{
    let root = table_root_path(table);
    assert forall|key: Path| #[trigger] below(key, root) && below(
        key,
        table_root_path(other),
    ) implies table == other by {
        assert(key.subrange(0, 3)[2] == root[2]);
        assert(key.subrange(0, 3)[2] == table_root_path(other)[2]);
    }
    assert(table_schema_path(table, a).subrange(0, 3) =~= root);
    assert(column_name_path(table, name).subrange(0, 3) =~= root);
    assert(active_primary_index_path(table).subrange(0, 3) =~= root);
    assert(active_schema_revision_path(table).subrange(0, 3) =~= root);
    assert(write_revision_path(table).subrange(0, 3) =~= root);
    assert(active_constraint_path(table, a).subrange(0, 3) =~= root);
    assert(index_definition_path(table, a).subrange(0, 3) =~= root);
    assert(constraint_reference_path(table, a, b).subrange(0, 3) =~= root);
    let column = column_dependency_path(table, a);
    assert(column_check_path(table, a, b).subrange(0, 5) =~= column);
    assert(column_index_path(table, a, b).subrange(0, 5) =~= column);
    assert(column_view_path(table, a, name).subrange(0, 5) =~= column);
    assert(column.subrange(0, 3) =~= root);
    assert(view_path(table, name).subrange(0, 4) =~= view_prefix_path(table));
    assert(view_prefix_path(table).subrange(0, 3) =~= root);
    assert(row_path(table, a, images).subrange(0, 3) =~= root);
    assert(unique_path(table, a, images).subrange(0, 3) =~= root);
    assert(reference_prefix_path(table, a, b, images).subrange(0, 3) =~= root);
}

} // verus!
