//! Laws on the agreement of tables and indexes: what SQLite and the catalog
//! must have in common.

use crate::catalog::{table_by_id, CatalogEntryView};
use crate::each::alike;
use crate::logical::schema::statement::{
    CreateCheckView, CreateColumnView, CreateForeignKeyView, CreateIndexView, CreateTableView,
    CreateUniqueView, IndexTermView, ParsedTexts,
};
use crate::logical::types::{ForeignKeyAction, SortOrder, TypeDeclaration};
use crate::name::canonical_bytes;
use crate::physical::{
    checks_alike, columns_alike, foreign_keys_alike, index_parsed, index_present, indexes_alike,
    indexes_match, lists_alike, names_alike, table_fault, table_parsed, tables_alike, terms_alike,
    uniques_alike, IndexTextView, TableTextView,
};
use vstd::prelude::*;
use vstd::set_lib::lemma_subset_equality;

verus! {

/// A name that may be missing, in the form in which it binds.
pub open spec fn bound_name(name: Option<Seq<char>>) -> Option<Seq<u8>> {
    match name {
        Some(name) => Some(canonical_bytes(name)),
        None => None,
    }
}

/// Names in the form in which they bind.
pub open spec fn bound_names(names: Seq<Seq<char>>) -> Seq<Seq<u8>> {
    Seq::new(names.len(), |i: int| canonical_bytes(names[i]))
}

/// What a column is, whatever case its names are in.
#[verifier::ext_equal]
pub struct ColumnCore {
    pub name: Seq<u8>,
    pub declared_type: TypeDeclaration,
    pub not_null: bool,
    pub not_null_name: Option<Seq<u8>>,
    pub default_name: Option<Option<Seq<u8>>>,
    pub default_expression: Option<Seq<char>>,
    pub primary_key: Option<u32>,
}

/// What a column is.
pub open spec fn column_core(column: CreateColumnView) -> ColumnCore {
    ColumnCore {
        name: canonical_bytes(column.name),
        declared_type: column.declared_type,
        not_null: column.not_null,
        not_null_name: bound_name(column.not_null_name),
        default_name: match column.default {
            Some(default) => Some(bound_name(default.name)),
            None => None,
        },
        default_expression: match column.default {
            Some(default) => Some(default.expression),
            None => None,
        },
        primary_key: column.primary_key,
    }
}

/// What a foreign key is, whatever case its names are in.
#[verifier::ext_equal]
pub struct ForeignKeyCore {
    pub name: Option<Seq<u8>>,
    pub columns: Seq<Seq<u8>>,
    pub referenced_table: Seq<u8>,
    pub referenced_columns: Option<Seq<Seq<u8>>>,
    pub on_delete: ForeignKeyAction,
}

/// What a foreign key is.
pub open spec fn foreign_key_core(foreign_key: CreateForeignKeyView) -> ForeignKeyCore {
    ForeignKeyCore {
        name: bound_name(foreign_key.name),
        columns: bound_names(foreign_key.columns),
        referenced_table: canonical_bytes(foreign_key.referenced_table),
        referenced_columns: match foreign_key.referenced_columns {
            Some(columns) => Some(bound_names(columns)),
            None => None,
        },
        on_delete: foreign_key.on_delete,
    }
}

/// What an index is, whatever case its names are in.
#[verifier::ext_equal]
pub struct IndexCore {
    pub unique: bool,
    pub name: Seq<u8>,
    pub table: Seq<u8>,
    pub terms: Seq<TermCore>,
    pub predicate: Option<Seq<char>>,
}

/// What an index term is, whatever case its names are in.
#[verifier::ext_equal]
pub enum TermCore {
    Column { name: Seq<u8>, collation: Option<Seq<u8>>, order: SortOrder },
    Expression { expression: Seq<char>, order: SortOrder },
}

/// What an index term is.
pub open spec fn term_core(term: IndexTermView) -> TermCore {
    match term {
        IndexTermView::Column { name, collation, order } => TermCore::Column {
            name: canonical_bytes(name),
            collation: bound_name(collation),
            order,
        },
        IndexTermView::Expression { expression, order } => TermCore::Expression {
            expression,
            order,
        },
    }
}

/// What an index is.
pub open spec fn index_core(index: CreateIndexView) -> IndexCore {
    IndexCore {
        unique: index.unique,
        name: canonical_bytes(index.name),
        table: canonical_bytes(index.table),
        terms: Seq::new(index.terms.len(), |i: int| term_core(index.terms[i])),
        predicate: index.predicate,
    }
}

/// Lists of names are alike exactly where they bind the same objects in order.
proof fn lemma_lists(a: Seq<Seq<char>>, b: Seq<Seq<char>>)
    ensures
        lists_alike(a, b) <==> bound_names(a) == bound_names(b),
{
    let x = bound_names(a);
    let y = bound_names(b);
    if x == y {
        assert(x.len() == y.len());
        assert forall|i: int| 0 <= i < a.len() implies names_alike(#[trigger] a[i], b[i]) by {
            assert(x[i] == y[i]);
        }
    }
    if lists_alike(a, b) {
        assert forall|i: int| 0 <= i < x.len() implies x[i] == y[i] by {
            assert(names_alike(a[i], b[i]));
        }
        assert(x =~= y);
    }
}

/// Two columns are alike exactly where they bind the same name and have the same
/// declared type, the same NOT NULL, the same default and the same place in the
/// primary key, under the same constraint names.
pub proof fn alike_columns_agree(a: CreateColumnView, b: CreateColumnView)
    ensures
        columns_alike(a, b) <==> column_core(a) == column_core(b),
{
}

/// Two foreign keys are alike exactly where they lead from the same columns to
/// the same columns of the same table, with the same action.
pub proof fn alike_foreign_keys_agree(a: CreateForeignKeyView, b: CreateForeignKeyView)
    ensures
        foreign_keys_alike(a, b) <==> foreign_key_core(a) == foreign_key_core(b),
{
    lemma_lists(a.columns, b.columns);
    if let (Some(x), Some(y)) = (a.referenced_columns, b.referenced_columns) {
        lemma_lists(x, y);
    }
}

/// Two tables are alike exactly where they bind the same name, have the same
/// mode, the same storage and the same name of the primary key, and, one by one
/// and in order, the same columns, the same UNIQUE constraints, the same foreign
/// keys and the same CHECK expressions. Tables that differ in one of these are
/// not alike.
pub proof fn alike_tables_agree(a: CreateTableView, b: CreateTableView)
    ensures
        tables_alike(a, b) <==> {
            &&& canonical_bytes(a.name) == canonical_bytes(b.name)
            &&& a.mode == b.mode
            &&& a.storage == b.storage
            &&& bound_name(a.primary_key_name) == bound_name(b.primary_key_name)
            &&& a.columns.len() == b.columns.len()
            &&& forall|i: int|
                0 <= i < a.columns.len() ==> column_core(#[trigger] a.columns[i]) == column_core(
                    b.columns[i],
                )
            &&& a.unique_constraints.len() == b.unique_constraints.len()
            &&& forall|i: int|
                0 <= i < a.unique_constraints.len() ==> bound_name(
                    (#[trigger] a.unique_constraints[i]).name,
                ) == bound_name(b.unique_constraints[i].name) && bound_names(
                    a.unique_constraints[i].columns,
                ) == bound_names(b.unique_constraints[i].columns)
            &&& a.foreign_keys.len() == b.foreign_keys.len()
            &&& forall|i: int|
                0 <= i < a.foreign_keys.len() ==> foreign_key_core(#[trigger] a.foreign_keys[i])
                    == foreign_key_core(b.foreign_keys[i])
            &&& a.checks.len() == b.checks.len()
            &&& forall|i: int|
                0 <= i < a.checks.len() ==> bound_name((#[trigger] a.checks[i]).name) == bound_name(
                    b.checks[i].name,
                ) && a.checks[i].expression == b.checks[i].expression
        },
{
    assert forall|x: CreateColumnView, y: CreateColumnView| #[trigger]
        columns_alike(x, y) == (column_core(x) == column_core(y)) by {
        alike_columns_agree(x, y);
    }
    assert forall|x: CreateForeignKeyView, y: CreateForeignKeyView| #[trigger]
        foreign_keys_alike(x, y) == (foreign_key_core(x) == foreign_key_core(y)) by {
        alike_foreign_keys_agree(x, y);
    }
    assert forall|x: CreateUniqueView, y: CreateUniqueView| #[trigger]
        uniques_alike(x, y) == (bound_name(x.name) == bound_name(y.name) && bound_names(x.columns)
            == bound_names(y.columns)) by {
        lemma_lists(x.columns, y.columns);
    }
    assert forall|x: CreateCheckView, y: CreateCheckView| #[trigger]
        checks_alike(x, y) == (bound_name(x.name) == bound_name(y.name) && x.expression
            == y.expression) by {
    }
    assert(a.columns.len() == b.columns.len() && (forall|i: int|
        0 <= i < a.columns.len() ==> column_core(#[trigger] a.columns[i]) == column_core(
            b.columns[i],
        )) ==> alike(
        a.columns,
        b.columns,
        |a: CreateColumnView, b: CreateColumnView| columns_alike(a, b),
    ));
}

/// Two indexes are alike exactly where they bind the same name on the same
/// table, are both unique or both not, have the same terms in the same order,
/// each with its collation and its sort order, and the same predicate.
pub proof fn alike_indexes_agree(a: CreateIndexView, b: CreateIndexView)
    ensures
        indexes_alike(a, b) <==> index_core(a) == index_core(b),
{
    let x = index_core(a).terms;
    let y = index_core(b).terms;
    assert forall|p: IndexTermView, q: IndexTermView| #[trigger]
        terms_alike(p, q) == (term_core(p) == term_core(q)) by {
    }
    if index_core(a) == index_core(b) {
        assert(x.len() == y.len());
        assert forall|i: int| 0 <= i < a.terms.len() implies terms_alike(
            #[trigger] a.terms[i],
            b.terms[i],
        ) by {
            assert(x[i] == y[i]);
        }
    }
    if indexes_alike(a, b) {
        assert forall|i: int| 0 <= i < x.len() implies x[i] == y[i] by {
            assert(terms_alike(a.terms[i], b.terms[i]));
        }
        assert(x =~= y);
    }
}

/// Whether two texts create the same index under the same name.
pub open spec fn same_index_text(
    parsed: ParsedTexts,
    a: IndexTextView,
    b: IndexTextView,
) -> bool {
    &&& canonical_bytes(a.name) == canonical_bytes(b.name)
    &&& index_parsed(parsed, a.sql) is Some
    &&& index_parsed(parsed, b.sql) is Some
    &&& index_core(index_parsed(parsed, a.sql)->Some_0) == index_core(
        index_parsed(parsed, b.sql)->Some_0,
    )
}

/// Whether one of some texts creates an index that a text creates.
pub open spec fn text_among(
    parsed: ParsedTexts,
    texts: Seq<IndexTextView>,
    text: IndexTextView,
) -> bool {
    exists|k: int|
        0 <= k < texts.len() && same_index_text(parsed, #[trigger] texts[k], text)
}

/// The names of indexes as they bind.
spec fn index_names(indexes: Seq<IndexTextView>) -> Seq<Seq<u8>> {
    Seq::new(indexes.len(), |i: int| canonical_bytes(indexes[i].name))
}

/// Indexes that match are the same ones: every expected index is there, and
/// every index that is there is expected.
pub proof fn matching_indexes_agree(
    parsed: ParsedTexts,
    actual: Seq<IndexTextView>,
    expected: Seq<IndexTextView>,
)
    requires
        indexes_match(parsed, actual, expected),
    ensures
        forall|i: int|
            0 <= i < expected.len() ==> text_among(
                parsed,
                actual,
                #[trigger] expected[i],
            ),
        forall|j: int|
            0 <= j < actual.len() ==> text_among(
                parsed,
                expected,
                #[trigger] actual[j],
            ),
{
    let have = index_names(actual);
    let want = index_names(expected);
    assert forall|i: int| 0 <= i < expected.len() implies text_among(
        parsed,
        actual,
        #[trigger] expected[i],
    ) by {
        assert(index_present(parsed, expected[i], actual));
        let j = choose|j: int|
            0 <= j < actual.len() && names_alike((#[trigger] actual[j]).name, expected[i].name)
                && match (
                index_parsed(parsed, actual[j].sql),
                index_parsed(parsed, expected[i].sql),
            ) {
                (Some(x), Some(y)) => indexes_alike(x, y),
                _ => false,
            };
        alike_indexes_agree(
            index_parsed(parsed, actual[j].sql)->Some_0,
            index_parsed(parsed, expected[i].sql)->Some_0,
        );
        assert(same_index_text(parsed, actual[j], expected[i]));
    }
    assert(have.no_duplicates()) by {
        assert forall|i: int, j: int| 0 <= i < j < have.len() implies have[i] != have[j] by {
            assert(!names_alike(actual[i].name, actual[j].name));
        }
    }
    assert(want.no_duplicates()) by {
        assert forall|i: int, j: int| 0 <= i < j < want.len() implies want[i] != want[j] by {
            assert(!names_alike(expected[i].name, expected[j].name));
        }
    }
    have.unique_seq_to_set();
    want.unique_seq_to_set();
    assert(want.to_set().subset_of(have.to_set())) by {
        assert forall|name: Seq<u8>| want.to_set().contains(name) implies have.to_set().contains(
            name,
        ) by {
            let i = choose|i: int| 0 <= i < want.len() && want[i] == name;
            assert(text_among(parsed, actual, expected[i]));
            let j = choose|j: int|
                0 <= j < actual.len() && same_index_text(
                    parsed,
                    #[trigger] actual[j],
                    expected[i],
                );
            assert(have[j] == name);
        }
    }
    lemma_subset_equality(want.to_set(), have.to_set());
    assert forall|j: int| 0 <= j < actual.len() implies text_among(
        parsed,
        expected,
        #[trigger] actual[j],
    ) by {
        assert(have.contains(have[j]));
        assert(have.to_set().contains(have[j]));
        assert(want.to_set().contains(have[j]));
        let i = choose|i: int| 0 <= i < want.len() && want[i] == have[j];
        assert(text_among(parsed, actual, expected[i]));
        let k = choose|k: int|
            0 <= k < actual.len() && same_index_text(parsed, #[trigger] actual[k], expected[i]);
        assert(have[k] == have[j]);
        assert(same_index_text(parsed, expected[i], actual[j]));
    }
}

/// A table is accepted only where the catalog knows it, SQLite holds it, both
/// texts create tables that are alike, and the indexes are the same ones.
pub proof fn accepted_tables_agree(
    tables: Seq<CatalogEntryView>,
    table: Seq<u8>,
    parsed: ParsedTexts,
    actual: Option<TableTextView>,
    expected: TableTextView,
)
    requires
        table_fault(tables, table, parsed, actual, expected) is None,
    ensures
        table_by_id(tables, table) is Some,
        actual is Some,
        table_parsed(parsed, actual->Some_0.sql) matches Some(found) && table_parsed(
            parsed,
            expected.sql,
        ) matches Some(wanted) && tables_alike(found, wanted),
        actual->Some_0.indexes.len() == expected.indexes.len(),
        forall|i: int|
            0 <= i < expected.indexes.len() ==> text_among(
                parsed,
                actual->Some_0.indexes,
                #[trigger] expected.indexes[i],
            ),
        forall|j: int|
            0 <= j < actual->Some_0.indexes.len() ==> text_among(
                parsed,
                expected.indexes,
                #[trigger] actual->Some_0.indexes[j],
            ),
{
    matching_indexes_agree(parsed, actual->Some_0.indexes, expected.indexes);
}

} // verus!
