//! Whether SQLite's tables and indexes are those of the schema catalog.

use crate::catalog::{current_name, table_by_id, CatalogEntryView, CatalogSnapshot};
use crate::codec::{view_of, views};
use crate::each::{alike, are_alike};
use crate::error::{refusal, Error, ErrorView, Result};
use crate::identity::TableId;
use crate::logical::schema::statement::{
    statement_of, CreateCheckConstraint, CreateCheckView, CreateColumn, CreateColumnView,
    CreateForeignKey, CreateForeignKeyView, CreateIndexSpec, CreateIndexTerm, CreateIndexView,
    CreateTableSpec, CreateTableView, CreateUnique, CreateUniqueView, DefaultDefinition,
    DefaultView, IndexTermView, ParsedTexts, StatementView, Statements, ValidatedExecute,
};
use crate::name::{canonical_bytes, same_text, SqlName};
use vstd::prelude::*;

verus! {

/// Why a table is refused.
pub const TABLE_MISMATCH: &'static str =
    "canonical SQLite table diverges from the schema catalog";

/// Why the indexes of a table are refused.
pub const INDEX_MISMATCH: &'static str =
    "canonical SQLite indexes diverge from the schema catalog";

/// Whether two names bind the same object.
pub open spec fn names_alike(a: Seq<char>, b: Seq<char>) -> bool {
    canonical_bytes(a) == canonical_bytes(b)
}

/// Whether two lists name the same objects.
pub open spec fn lists_alike(a: Seq<Seq<char>>, b: Seq<Seq<char>>) -> bool {
    alike(a, b, |a: Seq<char>, b: Seq<char>| names_alike(a, b))
}

/// Whether two names bind the same object, or both are missing.
pub open spec fn optional_names_alike(a: Option<Seq<char>>, b: Option<Seq<char>>) -> bool {
    match (a, b) {
        (None, None) => true,
        (Some(a), Some(b)) => names_alike(a, b),
        _ => false,
    }
}

/// Whether two defaults are alike.
pub open spec fn defaults_alike(a: Option<DefaultView>, b: Option<DefaultView>) -> bool {
    match (a, b) {
        (None, None) => true,
        (Some(a), Some(b)) => optional_names_alike(a.name, b.name) && a.expression == b.expression,
        _ => false,
    }
}

/// Whether two columns are alike.
pub open spec fn columns_alike(a: CreateColumnView, b: CreateColumnView) -> bool {
    &&& names_alike(a.name, b.name)
    &&& a.declared_type == b.declared_type
    &&& a.not_null == b.not_null
    &&& optional_names_alike(a.not_null_name, b.not_null_name)
    &&& defaults_alike(a.default, b.default)
    &&& a.primary_key == b.primary_key
}

/// Whether two UNIQUE constraints are alike.
pub open spec fn uniques_alike(a: CreateUniqueView, b: CreateUniqueView) -> bool {
    optional_names_alike(a.name, b.name) && lists_alike(a.columns, b.columns)
}

/// Whether two foreign keys are alike.
pub open spec fn foreign_keys_alike(a: CreateForeignKeyView, b: CreateForeignKeyView) -> bool {
    &&& optional_names_alike(a.name, b.name)
    &&& lists_alike(a.columns, b.columns)
    &&& names_alike(a.referenced_table, b.referenced_table)
    &&& a.on_delete == b.on_delete
    &&& match (a.referenced_columns, b.referenced_columns) {
        (None, None) => true,
        (Some(a), Some(b)) => lists_alike(a, b),
        _ => false,
    }
}

/// Whether two CHECK constraints are alike. Where they stand does not matter:
/// SQLite may keep one beside a column that the catalog keeps with the table.
pub open spec fn checks_alike(a: CreateCheckView, b: CreateCheckView) -> bool {
    optional_names_alike(a.name, b.name) && a.expression == b.expression
}

/// Whether two tables are alike.
pub open spec fn tables_alike(a: CreateTableView, b: CreateTableView) -> bool {
    &&& names_alike(a.name, b.name)
    &&& a.mode == b.mode
    &&& a.storage == b.storage
    &&& optional_names_alike(a.primary_key_name, b.primary_key_name)
    &&& alike(a.columns, b.columns, |a: CreateColumnView, b: CreateColumnView| columns_alike(a, b))
    &&& alike(
        a.unique_constraints,
        b.unique_constraints,
        |a: CreateUniqueView, b: CreateUniqueView| uniques_alike(a, b),
    )
    &&& alike(
        a.foreign_keys,
        b.foreign_keys,
        |a: CreateForeignKeyView, b: CreateForeignKeyView| foreign_keys_alike(a, b),
    )
    &&& alike(a.checks, b.checks, |a: CreateCheckView, b: CreateCheckView| checks_alike(a, b))
}

/// Whether two index terms are alike.
pub open spec fn terms_alike(a: IndexTermView, b: IndexTermView) -> bool {
    match (a, b) {
        (
            IndexTermView::Column { name, collation, order },
            IndexTermView::Column { name: other, collation: along, order: way },
        ) => names_alike(name, other) && optional_names_alike(collation, along) && order == way,
        (
            IndexTermView::Expression { expression, order },
            IndexTermView::Expression { expression: other, order: way },
        ) => expression == other && order == way,
        _ => false,
    }
}

/// Whether two indexes are alike.
pub open spec fn indexes_alike(a: CreateIndexView, b: CreateIndexView) -> bool {
    &&& a.unique == b.unique
    &&& names_alike(a.name, b.name)
    &&& names_alike(a.table, b.table)
    &&& alike(a.terms, b.terms, |a: IndexTermView, b: IndexTermView| terms_alike(a, b))
    &&& a.predicate == b.predicate
}

/// Whether two names bind the same object.
fn same_name(actual: &SqlName, expected: &SqlName) -> (r: bool)
    ensures
        r == names_alike(actual@, expected@),
{
    actual.same_canonical(expected)
}

/// Whether two names bind the same object, or both are missing.
fn same_optional_name(actual: &Option<SqlName>, expected: &Option<SqlName>) -> (r: bool)
    ensures
        r == optional_names_alike(view_of(*actual), view_of(*expected)),
{
    match (actual, expected) {
        (None, None) => true,
        (Some(actual), Some(expected)) => same_name(actual, expected),
        _ => false,
    }
}

/// Whether two lists name the same objects.
fn same_names(actual: &[SqlName], expected: &[SqlName]) -> (r: bool)
    ensures
        r == lists_alike(views(actual@), views(expected@)),
{
    are_alike(
        actual,
        expected,
        same_name,
        Ghost(|a: Seq<char>, b: Seq<char>| names_alike(a, b)),
    )
}

/// Whether two defaults are alike.
fn same_default(actual: &Option<DefaultDefinition>, expected: &Option<DefaultDefinition>) -> (r:
    bool)
    ensures
        r == defaults_alike(view_of(*actual), view_of(*expected)),
{
    match (actual, expected) {
        (None, None) => true,
        (Some(actual), Some(expected)) => same_optional_name(&actual.name, &expected.name)
            && same_text(actual.expression.as_str(), expected.expression.as_str()),
        _ => false,
    }
}

/// Whether two places in a primary key are the same.
fn same_place(actual: Option<u32>, expected: Option<u32>) -> (r: bool)
    ensures
        r == (actual == expected),
{
    match (actual, expected) {
        (None, None) => true,
        (Some(actual), Some(expected)) => actual == expected,
        _ => false,
    }
}

/// Whether two columns are alike.
pub fn same_column(actual: &CreateColumn, expected: &CreateColumn) -> (r: bool)
    ensures
        r == columns_alike(actual@, expected@),
{
    same_name(&actual.name, &expected.name) && actual.declared_type == expected.declared_type
        && actual.not_null == expected.not_null && same_optional_name(
        &actual.not_null_name,
        &expected.not_null_name,
    ) && same_default(&actual.default, &expected.default) && same_place(
        actual.primary_key,
        expected.primary_key,
    )
}

/// Whether two UNIQUE constraints are alike.
pub fn same_unique(actual: &CreateUnique, expected: &CreateUnique) -> (r: bool)
    ensures
        r == uniques_alike(actual@, expected@),
{
    same_optional_name(&actual.name, &expected.name) && same_names(
        actual.columns.as_slice(),
        expected.columns.as_slice(),
    )
}

/// Whether two foreign keys are alike.
pub fn same_foreign_key(actual: &CreateForeignKey, expected: &CreateForeignKey) -> (r: bool)
    ensures
        r == foreign_keys_alike(actual@, expected@),
{
    same_optional_name(&actual.name, &expected.name) && same_names(
        actual.columns.as_slice(),
        expected.columns.as_slice(),
    ) && same_name(&actual.referenced_table, &expected.referenced_table) && actual.on_delete
        == expected.on_delete && match (&actual.referenced_columns, &expected.referenced_columns) {
        (None, None) => true,
        (Some(actual), Some(expected)) => same_names(actual.as_slice(), expected.as_slice()),
        _ => false,
    }
}

/// Whether two CHECK constraints are alike.
pub fn same_check(actual: &CreateCheckConstraint, expected: &CreateCheckConstraint) -> (r: bool)
    ensures
        r == checks_alike(actual@, expected@),
{
    same_optional_name(&actual.name, &expected.name) && same_text(
        actual.expression.as_str(),
        expected.expression.as_str(),
    )
}

/// Whether two tables are alike.
pub fn same_table(actual: &CreateTableSpec, expected: &CreateTableSpec) -> (r: bool)
    ensures
        r == tables_alike(actual@, expected@),
{
    same_name(&actual.name, &expected.name) && actual.mode == expected.mode && actual.storage
        == expected.storage && same_optional_name(
        &actual.primary_key_name,
        &expected.primary_key_name,
    ) && are_alike(
        actual.columns.as_slice(),
        expected.columns.as_slice(),
        same_column,
        Ghost(|a: CreateColumnView, b: CreateColumnView| columns_alike(a, b)),
    ) && are_alike(
        actual.unique_constraints.as_slice(),
        expected.unique_constraints.as_slice(),
        same_unique,
        Ghost(|a: CreateUniqueView, b: CreateUniqueView| uniques_alike(a, b)),
    ) && are_alike(
        actual.foreign_keys.as_slice(),
        expected.foreign_keys.as_slice(),
        same_foreign_key,
        Ghost(|a: CreateForeignKeyView, b: CreateForeignKeyView| foreign_keys_alike(a, b)),
    ) && are_alike(
        actual.checks.as_slice(),
        expected.checks.as_slice(),
        same_check,
        Ghost(|a: CreateCheckView, b: CreateCheckView| checks_alike(a, b)),
    )
}

/// Whether two index terms are alike.
pub fn same_index_term(actual: &CreateIndexTerm, expected: &CreateIndexTerm) -> (r: bool)
    ensures
        r == terms_alike(actual@, expected@),
{
    match (actual, expected) {
        (
            CreateIndexTerm::Column { name, collation, order },
            CreateIndexTerm::Column { name: other, collation: along, order: way },
        ) => same_name(name, other) && same_optional_name(collation, along) && *order == *way,
        (
            CreateIndexTerm::Expression { expression, order },
            CreateIndexTerm::Expression { expression: other, order: way },
        ) => same_text(expression.as_str(), other.as_str()) && *order == *way,
        _ => false,
    }
}

/// Whether two indexes are alike.
pub fn same_index(actual: &CreateIndexSpec, expected: &CreateIndexSpec) -> (r: bool)
    ensures
        r == indexes_alike(actual@, expected@),
{
    actual.unique == expected.unique && same_name(&actual.name, &expected.name) && same_name(
        &actual.table,
        &expected.table,
    ) && are_alike(
        actual.terms.as_slice(),
        expected.terms.as_slice(),
        same_index_term,
        Ghost(|a: IndexTermView, b: IndexTermView| terms_alike(a, b)),
    ) && match (&actual.predicate, &expected.predicate) {
        (None, None) => true,
        (Some(actual), Some(expected)) => same_text(actual.as_str(), expected.as_str()),
        _ => false,
    }
}

/// An index and the text of its statement.
#[derive(Debug, PartialEq, Eq)]
pub struct IndexText {
    pub name: SqlName,
    pub sql: String,
}

/// An index and its text as a mathematical value.
#[verifier::ext_equal]
pub struct IndexTextView {
    pub name: Seq<char>,
    pub sql: Seq<char>,
}

impl View for IndexText {
    type V = IndexTextView;

    open spec fn view(&self) -> IndexTextView {
        IndexTextView { name: self.name@, sql: self.sql@ }
    }
}

/// The texts of a table's statement and of those of its explicit indexes.
#[derive(Debug, PartialEq, Eq)]
pub struct TableText {
    pub sql: String,
    pub indexes: Vec<IndexText>,
}

/// A table's texts as a mathematical value.
#[verifier::ext_equal]
pub struct TableTextView {
    pub sql: Seq<char>,
    pub indexes: Seq<IndexTextView>,
}

impl View for TableText {
    type V = TableTextView;

    open spec fn view(&self) -> TableTextView {
        TableTextView { sql: self.sql@, indexes: views(self.indexes@) }
    }
}

/// The table that a text creates.
pub open spec fn table_parsed(
    parsed: ParsedTexts,
    sql: Seq<char>,
) -> Option<CreateTableView> {
    match statement_of(parsed, sql) {
        Some(StatementView::CreateTable(spec)) => Some(spec),
        Some(StatementView::CreateTableIfNotExists(spec)) => Some(spec),
        _ => None,
    }
}

/// The index that a text creates.
pub open spec fn index_parsed(
    parsed: ParsedTexts,
    sql: Seq<char>,
) -> Option<CreateIndexView> {
    match statement_of(parsed, sql) {
        Some(StatementView::CreateIndex(spec)) => Some(spec),
        Some(StatementView::CreateIndexIfNotExists(spec)) => Some(spec),
        _ => None,
    }
}

/// Whether every text creates an index, and no two of them share a name.
pub open spec fn indexes_readable(
    parsed: ParsedTexts,
    indexes: Seq<IndexTextView>,
) -> bool {
    &&& forall|i: int|
        0 <= i < indexes.len() ==> index_parsed(parsed, (#[trigger] indexes[i]).sql) is Some
    &&& forall|i: int, j: int|
        0 <= i < j < indexes.len() ==> !names_alike(
            (#[trigger] indexes[i]).name,
            (#[trigger] indexes[j]).name,
        )
}

/// Whether an index stands among others.
pub open spec fn index_present(
    parsed: ParsedTexts,
    index: IndexTextView,
    among: Seq<IndexTextView>,
) -> bool {
    exists|j: int|
        0 <= j < among.len() && names_alike((#[trigger] among[j]).name, index.name) && match (
            index_parsed(parsed, among[j].sql),
            index_parsed(parsed, index.sql),
        ) {
            (Some(actual), Some(expected)) => indexes_alike(actual, expected),
            _ => false,
        }
}

/// Whether indexes are the expected ones.
pub open spec fn indexes_match(
    parsed: ParsedTexts,
    actual: Seq<IndexTextView>,
    expected: Seq<IndexTextView>,
) -> bool {
    &&& indexes_readable(parsed, expected)
    &&& indexes_readable(parsed, actual)
    &&& expected.len() == actual.len()
    &&& forall|i: int|
        0 <= i < expected.len() ==> index_present(parsed, #[trigger] expected[i], actual)
}

/// Why a table of the catalog is refused, given SQLite's texts for it and those
/// that the catalog gives.
pub open spec fn table_fault(
    tables: Seq<CatalogEntryView>,
    table: Seq<u8>,
    parsed: ParsedTexts,
    actual: Option<TableTextView>,
    expected: TableTextView,
) -> Option<ErrorView> {
    if table_by_id(tables, table) is None || current_name(tables, table) is None {
        Some(ErrorView::InvalidDatabase(TABLE_MISMATCH@))
    } else {
        match actual {
            None => Some(ErrorView::InvalidDatabase(TABLE_MISMATCH@)),
            Some(actual) => match (
                table_parsed(parsed, actual.sql),
                table_parsed(parsed, expected.sql),
            ) {
                (Some(found), Some(wanted)) => if !tables_alike(found, wanted) {
                    Some(ErrorView::InvalidDatabase(TABLE_MISMATCH@))
                } else if !indexes_match(parsed, actual.indexes, expected.indexes) {
                    Some(ErrorView::InvalidDatabase(INDEX_MISMATCH@))
                } else {
                    None
                },
                _ => Some(ErrorView::InvalidDatabase(TABLE_MISMATCH@)),
            },
        }
    }
}

/// The table that a text creates.
fn parse_table<'a>(statements: &'a Statements, sql: &str) -> (r: Option<&'a CreateTableSpec>)
    ensures
        match r {
            Some(spec) => table_parsed(statements@, sql@) == Some(spec@),
            None => table_parsed(statements@, sql@) is None,
        },
{
    match statements.validate_execute(sql) {
        Ok(ValidatedExecute::CreateTable(spec)) => Some(spec),
        Ok(ValidatedExecute::CreateTableIfNotExists(spec)) => Some(spec),
        _ => None,
    }
}

/// The index that a text creates.
fn parse_index<'a>(statements: &'a Statements, sql: &str) -> (r: Option<&'a CreateIndexSpec>)
    ensures
        match r {
            Some(spec) => index_parsed(statements@, sql@) == Some(spec@),
            None => index_parsed(statements@, sql@) is None,
        },
{
    match statements.validate_execute(sql) {
        Ok(ValidatedExecute::CreateIndex(spec)) => Some(spec),
        Ok(ValidatedExecute::CreateIndexIfNotExists(spec)) => Some(spec),
        _ => None,
    }
}

/// Whether every text creates an index, and no two of them share a name.
fn are_readable(statements: &Statements, indexes: &[IndexText]) -> (r: bool)
    ensures
        r == indexes_readable(statements@, views(indexes@)),
{
    let ghost all = views(indexes@);
    let mut i: usize = 0;
    while i < indexes.len()
        invariant
            i <= indexes@.len(),
            all == views(indexes@),
            forall|k: int|
                0 <= k < i ==> index_parsed(statements@, (#[trigger] all[k]).sql) is Some,
            forall|k: int, j: int|
                0 <= k < j < i ==> !names_alike((#[trigger] all[k]).name, (#[trigger] all[j]).name),
        decreases indexes.len() - i,
    {
        assert(all[i as int] == indexes@[i as int]@);
        if parse_index(statements, indexes[i].sql.as_str()).is_none() {
            return false;
        }
        let mut k: usize = 0;
        while k < i
            invariant
                k <= i < indexes@.len(),
                all == views(indexes@),
                forall|l: int|
                    0 <= l < k ==> !names_alike((#[trigger] all[l]).name, all[i as int].name),
            decreases i - k,
        {
            assert(all[k as int] == indexes@[k as int]@);
            assert(all[i as int] == indexes@[i as int]@);
            if same_name(&indexes[k].name, &indexes[i].name) {
                return false;
            }
            k += 1;
        }
        i += 1;
    }
    true
}

/// Whether an index stands among others.
fn is_present(statements: &Statements, index: &IndexText, among: &[IndexText]) -> (r: bool)
    ensures
        r == index_present(statements@, index@, views(among@)),
{
    let ghost all = views(among@);
    let expected = parse_index(statements, index.sql.as_str());
    let mut j: usize = 0;
    while j < among.len()
        invariant
            j <= among@.len(),
            all == views(among@),
            match expected {
                Some(spec) => index_parsed(statements@, index.sql@) == Some(spec@),
                None => index_parsed(statements@, index.sql@) is None,
            },
            forall|k: int|
                0 <= k < j ==> !(names_alike((#[trigger] all[k]).name, index@.name) && match (
                    index_parsed(statements@, all[k].sql),
                    index_parsed(statements@, index@.sql),
                ) {
                    (Some(actual), Some(expected)) => indexes_alike(actual, expected),
                    _ => false,
                }),
        decreases among.len() - j,
    {
        assert(all[j as int] == among@[j as int]@);
        let actual = parse_index(statements, among[j].sql.as_str());
        if same_name(&among[j].name, &index.name) {
            match (actual, expected) {
                (Some(actual), Some(expected)) => if same_index(actual, expected) {
                    return true;
                },
                _ => {},
            }
        }
        j += 1;
    }
    false
}

/// Whether indexes are the expected ones.
fn do_match(statements: &Statements, actual: &[IndexText], expected: &[IndexText]) -> (r: bool)
    ensures
        r == indexes_match(statements@, views(actual@), views(expected@)),
{
    if !are_readable(statements, expected) || !are_readable(statements, actual) {
        return false;
    }
    if expected.len() != actual.len() {
        return false;
    }
    let ghost all = views(expected@);
    let mut i: usize = 0;
    while i < expected.len()
        invariant
            i <= expected@.len(),
            all == views(expected@),
            forall|k: int|
                0 <= k < i ==> index_present(statements@, #[trigger] all[k], views(actual@)),
        decreases expected.len() - i,
    {
        assert(all[i as int] == expected@[i as int]@);
        if !is_present(statements, &expected[i], actual) {
            return false;
        }
        i += 1;
    }
    true
}

/// Refuse a table that SQLite holds otherwise than the catalog. The texts are
/// SQLite's for the table and its explicit indexes, and those that the catalog
/// gives for the table and its active indexes.
pub fn verify_table(
    catalog: &CatalogSnapshot,
    table: TableId,
    statements: &Statements,
    actual: &Option<TableText>,
    expected: &TableText,
) -> (r: Result<()>)
    ensures
        refusal(r) == table_fault(
            catalog@,
            table@,
            statements@,
            view_of(*actual),
            expected@,
        ),
{
    if catalog.by_id(table).is_none() || catalog.name_by_id(table).is_none() {
        return Err(Error::InvalidDatabase(TABLE_MISMATCH));
    }
    let actual = match actual {
        None => {
            return Err(Error::InvalidDatabase(TABLE_MISMATCH));
        },
        Some(actual) => actual,
    };
    let found = parse_table(statements, actual.sql.as_str());
    let wanted = parse_table(statements, expected.sql.as_str());
    match (found, wanted) {
        (Some(found), Some(wanted)) => {
            if !same_table(found, wanted) {
                return Err(Error::InvalidDatabase(TABLE_MISMATCH));
            }
            if !do_match(statements, actual.indexes.as_slice(), expected.indexes.as_slice()) {
                return Err(Error::InvalidDatabase(INDEX_MISMATCH));
            }
            Ok(())
        },
        _ => Err(Error::InvalidDatabase(TABLE_MISMATCH)),
    }
}

/// Every table is alike itself.
pub proof fn tables_are_like_themselves(table: CreateTableView)
    ensures
        tables_alike(table, table),
{
}

/// A table that is accepted against the texts of the catalog is accepted again
/// with both exchanged: agreement goes both ways.
pub proof fn agreement_is_symmetric(a: CreateTableView, b: CreateTableView)
    requires
        tables_alike(a, b),
    ensures
        tables_alike(b, a),
{
    assert forall|i: int| 0 <= i < b.columns.len() implies columns_alike(
        #[trigger] b.columns[i],
        a.columns[i],
    ) by {
        assert(columns_alike(a.columns[i], b.columns[i]));
    }
    assert forall|i: int| 0 <= i < b.unique_constraints.len() implies uniques_alike(
        #[trigger] b.unique_constraints[i],
        a.unique_constraints[i],
    ) by {
        let x = a.unique_constraints[i];
        let y = b.unique_constraints[i];
        assert(uniques_alike(x, y));
        lemma_lists_symmetric(x.columns, y.columns);
    }
    assert forall|i: int| 0 <= i < b.foreign_keys.len() implies foreign_keys_alike(
        #[trigger] b.foreign_keys[i],
        a.foreign_keys[i],
    ) by {
        let x = a.foreign_keys[i];
        let y = b.foreign_keys[i];
        assert(foreign_keys_alike(x, y));
        lemma_lists_symmetric(x.columns, y.columns);
        if x.referenced_columns is Some {
            lemma_lists_symmetric(x.referenced_columns->0, y.referenced_columns->0);
        }
    }
    assert forall|i: int| 0 <= i < b.checks.len() implies checks_alike(
        #[trigger] b.checks[i],
        a.checks[i],
    ) by {
        assert(checks_alike(a.checks[i], b.checks[i]));
    }
}

/// Lists that name the same objects do so both ways.
proof fn lemma_lists_symmetric(a: Seq<Seq<char>>, b: Seq<Seq<char>>)
    requires
        lists_alike(a, b),
    ensures
        lists_alike(b, a),
{
    assert forall|i: int| 0 <= i < b.len() implies names_alike(#[trigger] b[i], a[i]) by {
        assert(names_alike(a[i], b[i]));
    }
}

} // verus!
