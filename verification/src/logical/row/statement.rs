//! The SQL that reads and writes rows.

use super::cells::{Row, RowView};
use super::rules::{KeyPartRules, KeyPartView, RowRules, RulesView};
use super::set::{RowSet, RowSetView};
use crate::attempt::try_map;
use crate::catalog::{current_column_name, current_name, CatalogEntryView, CatalogSnapshot};
use crate::codec::views;
use crate::each::{attempt_each, each, lemma_filter_push};
use crate::error::{list_verdict, verdict, Error, ErrorView, Result};
use crate::identity::{ColumnId, TableId};
use crate::logical::schema::definition::{
    column_ids, definition_sound, Column, ColumnView, CreateTable, TableView,
};
use crate::logical::schema::table::primary_ids;
use crate::sqlite::{list_texts, listed, quote_identifier, quoted};
use crate::text::joined;
use crate::value::{StoredValue, ValueView};
use vstd::prelude::*;
use vstd::string::*;

verus! {

/// The values bound in one execution of a statement.
#[derive(Debug, PartialEq, Eq)]
pub struct Values {
    pub values: Vec<StoredValue>,
}

impl View for Values {
    type V = Seq<ValueView>;

    open spec fn view(&self) -> Seq<ValueView> {
        views(self.values@)
    }
}

/// A statement and the values of each of its executions.
#[derive(Debug, PartialEq, Eq)]
pub struct RowStatement {
    pub sql: String,
    pub parameters: Vec<Values>,
}

/// A statement and its executions as mathematical values.
#[verifier::ext_equal]
pub struct RowStatementView {
    pub sql: Seq<char>,
    pub parameters: Seq<Seq<ValueView>>,
}

impl View for RowStatement {
    type V = RowStatementView;

    open spec fn view(&self) -> RowStatementView {
        RowStatementView { sql: self.sql@, parameters: views(self.parameters@) }
    }
}

/// The name of a table in a statement.
pub open spec fn table_text(tables: Seq<CatalogEntryView>, table: Seq<u8>) -> std::result::Result<
    Seq<char>,
    ErrorView,
> {
    match current_name(tables, table) {
        Some(name) => Ok(quoted(name)),
        None => Err(
            ErrorView::InvalidDatabase(
                "row operation references a table without a current name binding"@,
            ),
        ),
    }
}

/// The name of a column in a statement.
pub open spec fn column_text(tables: Seq<CatalogEntryView>, table: Seq<u8>) -> spec_fn(
    Seq<u8>,
) -> std::result::Result<Seq<char>, ErrorView> {
    |column: Seq<u8>|
        match current_column_name(tables, table, column) {
            Some(name) => Ok(quoted(name)),
            None => Err(
                ErrorView::InvalidDatabase(
                    "row operation references a column without a current name binding"@,
                ),
            ),
        }
}

/// The names of columns in a statement.
pub open spec fn column_texts(
    tables: Seq<CatalogEntryView>,
    table: Seq<u8>,
    columns: Seq<Seq<u8>>,
) -> std::result::Result<Seq<Seq<char>>, ErrorView> {
    try_map(columns, column_text(tables, table))
}

/// A column and the value that it has or gets.
pub open spec fn bound_column() -> spec_fn(Seq<char>) -> Seq<char> {
    |name: Seq<char>| name + " = ?"@
}

/// Columns and the values that they have or get.
pub open spec fn bound_columns(names: Seq<Seq<char>>) -> Seq<Seq<char>> {
    names.map_values(bound_column())
}

/// The condition that a row has a primary key.
pub open spec fn key_condition(tables: Seq<CatalogEntryView>, table: TableView) -> std::result::Result<
    Seq<char>,
    ErrorView,
> {
    match column_texts(tables, table.table, primary_ids(table.columns)) {
        Err(error) => Err(error),
        Ok(names) => Ok(listed(bound_columns(names), " AND "@)),
    }
}

/// One placeholder for each value.
pub open spec fn placeholders(count: nat) -> Seq<char> {
    listed(Seq::new(count, |i: int| "?"@), ", "@)
}

/// The value of a key's column.
pub open spec fn key_value(row: RowView) -> spec_fn(KeyPartView) -> std::result::Result<
    ValueView,
    ErrorView,
> {
    |part: KeyPartView|
        match row.value(part.column) {
            Some(value) => Ok(value),
            None => Err(
                ErrorView::InvalidDatabase("pending row is missing a primary-key value"@),
            ),
        }
}

/// The values of a row's primary key.
pub open spec fn key_values(rules: RulesView) -> spec_fn(RowView) -> std::result::Result<
    Seq<ValueView>,
    ErrorView,
> {
    |row: RowView| try_map(rules.key_parts, key_value(row))
}

/// The value of a column of a row.
pub open spec fn column_value(row: RowView) -> spec_fn(Seq<u8>) -> std::result::Result<
    ValueView,
    ErrorView,
> {
    |column: Seq<u8>|
        match row.value(column) {
            Some(value) => Ok(value),
            None => Err(ErrorView::InvalidMultiliteOp("row is missing a schema column"@)),
        }
}

/// The values of some columns of a row.
pub open spec fn column_values(columns: Seq<Seq<u8>>) -> spec_fn(RowView) -> std::result::Result<
    Seq<ValueView>,
    ErrorView,
> {
    |row: RowView| try_map(columns, column_value(row))
}

/// A statement over a table, with its executions.
pub open spec fn statement_of(
    sql: Seq<char>,
    parameters: std::result::Result<Seq<Seq<ValueView>>, ErrorView>,
) -> std::result::Result<RowStatementView, ErrorView> {
    match parameters {
        Err(error) => Err(error),
        Ok(parameters) => Ok(RowStatementView { sql, parameters }),
    }
}

/// The query that reads rows by their keys, the last row first.
pub open spec fn select_plan(
    tables: Seq<CatalogEntryView>,
    table: TableView,
    set: RowSetView,
) -> std::result::Result<RowStatementView, ErrorView> {
    match (
        table_text(tables, set.rules.table),
        key_condition(tables, table),
        column_texts(tables, table.table, column_ids(table.columns)),
    ) {
        (Err(error), _, _) => Err(error),
        (_, Err(error), _) => Err(error),
        (_, _, Err(error)) => Err(error),
        (Ok(name), Ok(condition), Ok(columns)) => statement_of(
            "SELECT "@ + listed(columns, ", "@) + " FROM "@ + name + " WHERE "@ + condition,
            try_map(set.rows.reverse(), key_values(set.rules)),
        ),
    }
}

/// The query that finds a row by its key, whatever its values are.
pub open spec fn absence_plan(
    tables: Seq<CatalogEntryView>,
    table: TableView,
    set: RowSetView,
) -> std::result::Result<RowStatementView, ErrorView> {
    match (table_text(tables, set.rules.table), key_condition(tables, table)) {
        (Err(error), _) => Err(error),
        (_, Err(error)) => Err(error),
        (Ok(name), Ok(condition)) => statement_of(
            "SELECT 1 FROM "@ + name + " WHERE "@ + condition,
            try_map(set.rows, key_values(set.rules)),
        ),
    }
}

/// The statement that deletes rows by their keys, the last row first.
pub open spec fn delete_plan(
    tables: Seq<CatalogEntryView>,
    table: TableView,
    set: RowSetView,
) -> std::result::Result<RowStatementView, ErrorView> {
    match (table_text(tables, set.rules.table), key_condition(tables, table)) {
        (Err(error), _) => Err(error),
        (_, Err(error)) => Err(error),
        (Ok(name), Ok(condition)) => statement_of(
            "DELETE FROM "@ + name + " WHERE "@ + condition,
            try_map(set.rows.reverse(), key_values(set.rules)),
        ),
    }
}

/// Whether a row has a value for a column.
pub open spec fn present(row: RowView) -> spec_fn(ColumnView) -> bool {
    |column: ColumnView| row.value(column.id) is Some
}

/// The columns of a table that pass a test.
pub open spec fn chosen(columns: Seq<ColumnView>, test: spec_fn(ColumnView) -> bool) -> Seq<
    Seq<u8>,
> {
    column_ids(columns.filter(test))
}

/// The statement that inserts rows: the columns are those that the first row has.
pub open spec fn insert_plan(
    tables: Seq<CatalogEntryView>,
    table: TableView,
    set: RowSetView,
) -> std::result::Result<RowStatementView, ErrorView> {
    let columns = chosen(table.columns, present(set.rows[0]));
    match (
        table_text(tables, set.rules.table),
        column_texts(tables, set.rules.table, columns),
    ) {
        (Err(error), _) => Err(error),
        (_, Err(error)) => Err(error),
        (Ok(name), Ok(names)) => statement_of(
            "INSERT INTO "@ + name + " ("@ + listed(names, ", "@) + ") VALUES ("@ + placeholders(
                columns.len(),
            ) + ")"@,
            try_map(set.rows, column_values(columns)),
        ),
    }
}

/// Add texts behind each other.
fn extended(text: String, more: &str) -> (r: String)
    ensures
        r@ == text@ + more@,
{
    let mut r = text;
    r.append(more);
    r
}

impl CatalogSnapshot {
    /// The name of a table in a statement.
    pub fn table_text(&self, table: TableId) -> (r: Result<String>)
        ensures
            verdict(r) == table_text(self@, table@),
    {
        match self.name_by_id(table) {
            Some(name) => Ok(quote_identifier(name.value())),
            None => Err(
                Error::InvalidDatabase(
                    "row operation references a table without a current name binding",
                ),
            ),
        }
    }

    /// The names of columns in a statement.
    pub fn column_texts(&self, table: TableId, columns: &[ColumnId]) -> (r: Result<Vec<String>>)
        ensures
            list_verdict(r) == column_texts(self@, table@, views(columns@)),
    {
        let name = |column: &ColumnId| -> (r: Result<String>)
            ensures
                verdict(r) == column_text(self@, table@)(column@),
            {
                match self.column_name_by_id(table, *column) {
                    Some(name) => Ok(quote_identifier(name.value())),
                    None => Err(
                        Error::InvalidDatabase(
                            "row operation references a column without a current name binding",
                        ),
                    ),
                }
            };
        attempt_each(columns, name, Ghost(column_text(self@, table@)))
    }

    /// The condition that a row has a primary key.
    pub fn key_condition(&self, created: &CreateTable) -> (r: Result<String>)
        requires
            definition_sound(created@),
        ensures
            verdict(r) == key_condition(self@, created@),
    {
        let primary = created.primary_column_ids();
        match self.column_texts(created.table, primary.as_slice()) {
            Err(error) => Err(error),
            Ok(names) => Ok(list_texts(bind_columns(names.as_slice()).as_slice(), " AND ")),
        }
    }
}

/// Columns and the values that they have or get.
pub fn bind_columns(names: &[String]) -> (r: Vec<String>)
    ensures
        views(r@) == bound_columns(views(names@)),
{
    let bind = |name: &String| -> (r: String)
        ensures
            r@ == bound_column()(name@),
        { joined(name.as_str(), " = ?") };
    each(names, bind, Ghost(bound_column()))
}

/// One placeholder for each value.
fn placeholder_text(count: usize) -> (r: String)
    ensures
        r@ == placeholders(count as nat),
{
    let mut marks: Vec<String> = Vec::new();
    let mut i: usize = 0;
    while i < count
        invariant
            i <= count,
            views(marks@) == Seq::new(i as nat, |i: int| "?"@),
        decreases count - i,
    {
        let ghost before = views(marks@);
        let mark = "?".to_owned();
        marks.push(mark);
        assert(views(marks@) =~= before.push(mark@));
        assert(views(marks@) =~= Seq::new(i as nat + 1, |i: int| "?"@));
        i += 1;
    }
    assert(views(marks@) =~= Seq::new(count as nat, |i: int| "?"@));
    list_texts(marks.as_slice(), ", ")
}

/// The columns of a table that pass a test.
pub fn choose_columns<F: Fn(&Column) -> bool>(
    columns: &[Column],
    f: F,
    Ghost(test): Ghost<spec_fn(ColumnView) -> bool>,
) -> (r: Vec<ColumnId>)
    requires
        forall|i: int| 0 <= i < columns@.len() ==> call_requires(f, (&#[trigger] columns@[i],)),
        forall|i: int, r: bool|
            0 <= i < columns@.len() && #[trigger] call_ensures(f, (&columns@[i],), r) ==> r
                == test(columns@[i]@),
    ensures
        views(r@) == chosen(views(columns@), test),
{
    let ghost all = views(columns@);
    let mut r: Vec<ColumnId> = Vec::new();
    let mut i: usize = 0;
    proof {
        reveal(Seq::filter);
        assert(all.subrange(0, 0) =~= Seq::<ColumnView>::empty());
        assert(views(r@) =~= chosen(all.subrange(0, 0), test));
    }
    while i < columns.len()
        invariant
            i <= columns@.len(),
            all == views(columns@),
            views(r@) == chosen(all.subrange(0, i as int), test),
            forall|i: int|
                0 <= i < columns@.len() ==> call_requires(f, (&#[trigger] columns@[i],)),
            forall|i: int, r: bool|
                0 <= i < columns@.len() && #[trigger] call_ensures(f, (&columns@[i],), r) ==> r
                    == test(columns@[i]@),
        decreases columns.len() - i,
    {
        let found = f(&columns[i]);
        let ghost before = views(r@);
        proof {
            assert(call_ensures(f, (&columns@[i as int],), found));
            lemma_filter_push(all.subrange(0, i as int), all[i as int], test);
            assert(all.subrange(0, i as int).push(all[i as int]) =~= all.subrange(
                0,
                i as int + 1,
            ));
            assert(all[i as int] == columns@[i as int]@);
        }
        if found {
            r.push(columns[i].id);
            assert(views(r@) =~= before.push(columns@[i as int]@.id));
            assert(views(r@) =~= chosen(all.subrange(0, i as int + 1), test));
        }
        i += 1;
    }
    assert(all.subrange(0, i as int) =~= all);
    r
}

impl CreateTable {
    /// The identities of the primary key's columns.
    pub fn primary_column_ids(&self) -> (r: Vec<ColumnId>)
        requires
            definition_sound(self@),
        ensures
            views(r@) == primary_ids(self@.columns),
    {
        let primary = self.primary_key_columns();
        let mut ids: Vec<ColumnId> = Vec::new();
        let mut i: usize = 0;
        while i < primary.len()
            invariant
                i <= primary@.len(),
                ids@.len() == i,
                forall|j: int| 0 <= j < i ==> (#[trigger] ids@[j])@ == primary@[j]@.id,
            decreases primary.len() - i,
        {
            ids.push(primary[i].id);
            i += 1;
        }
        assert(views(ids@) =~= primary_ids(self@.columns));
        ids
    }

    /// The identities of the columns.
    pub fn column_ids(&self) -> (r: Vec<ColumnId>)
        ensures
            views(r@) == column_ids(self@.columns),
    {
        assert(self@.columns == views(self.columns@));
        let mut ids: Vec<ColumnId> = Vec::new();
        let mut i: usize = 0;
        while i < self.columns.len()
            invariant
                i <= self.columns@.len(),
                ids@.len() == i,
                forall|j: int| 0 <= j < i ==> (#[trigger] ids@[j])@ == self.columns@[j]@.id,
            decreases self.columns.len() - i,
        {
            ids.push(self.columns[i].id);
            i += 1;
        }
        assert(views(ids@) =~= column_ids(self@.columns));
        ids
    }
}

impl Row {
    /// The values of some columns.
    pub fn column_values(&self, columns: &[ColumnId]) -> (r: Result<Values>)
        ensures
            verdict(r) == column_values(views(columns@))(self@),
    {
        let value = |column: &ColumnId| -> (r: Result<StoredValue>)
            ensures
                verdict(r) == column_value(self@)(column@),
            {
                match self.value(*column) {
                    Some(value) => Ok(value.clone()),
                    None => Err(
                        Error::InvalidMultiliteOp("row is missing a schema column".to_owned()),
                    ),
                }
            };
        match attempt_each(columns, value, Ghost(column_value(self@))) {
            Err(error) => Err(error),
            Ok(values) => Ok(Values { values }),
        }
    }
}

impl RowRules {
    /// The values of a row's primary key.
    pub fn key_values(&self, row: &Row) -> (r: Result<Values>)
        ensures
            verdict(r) == key_values(self@)(row@),
    {
        let value = |part: &KeyPartRules| -> (r: Result<StoredValue>)
            ensures
                verdict(r) == key_value(row@)(part@),
            {
                match row.value(part.column) {
                    Some(value) => Ok(value.clone()),
                    None => Err(
                        Error::InvalidDatabase("pending row is missing a primary-key value"),
                    ),
                }
            };
        match attempt_each(self.key_parts.as_slice(), value, Ghost(key_value(row@))) {
            Err(error) => Err(error),
            Ok(values) => Ok(Values { values }),
        }
    }
}

impl RowSet {
    /// The rows, the last one first.
    fn reversed(&self) -> (r: Vec<&Row>)
        ensures
            views(r@) == self@.rows.reverse(),
    {
        let mut r: Vec<&Row> = Vec::new();
        let mut i: usize = self.rows.len();
        while i > 0
            invariant
                i <= self.rows@.len(),
                r@.len() == self.rows@.len() - i,
                forall|j: int|
                    0 <= j < r@.len() ==> (#[trigger] r@[j])@ == self.rows@[self.rows@.len() - 1
                        - j]@,
            decreases i,
        {
            i -= 1;
            r.push(&self.rows[i]);
        }
        assert(views(r@) =~= self@.rows.reverse());
        r
    }

    /// The keys of the rows, the last one first.
    fn reversed_keys(&self) -> (r: Result<Vec<Values>>)
        ensures
            list_verdict(r) == try_map(self@.rows.reverse(), key_values(self@.rules)),
    {
        let rows = self.reversed();
        let key = |row: &&Row| -> (r: Result<Values>)
            ensures
                verdict(r) == key_values(self@.rules)(row@),
            { self.rules.key_values(*row) };
        attempt_each(rows.as_slice(), key, Ghost(key_values(self@.rules)))
    }

    /// The query that reads the rows by their keys, the last row first.
    pub fn select_plan(&self, catalog: &CatalogSnapshot, created: &CreateTable) -> (r: Result<
        RowStatement,
    >)
        requires
            definition_sound(created@),
        ensures
            verdict(r) == select_plan(catalog@, created@, self@),
    {
        let name = match catalog.table_text(self.rules.table) {
            Err(error) => {
                return Err(error);
            },
            Ok(name) => name,
        };
        let condition = match catalog.key_condition(created) {
            Err(error) => {
                return Err(error);
            },
            Ok(condition) => condition,
        };
        let columns = created.column_ids();
        let columns = match catalog.column_texts(created.table, columns.as_slice()) {
            Err(error) => {
                return Err(error);
            },
            Ok(names) => names,
        };
        let sql = joined("SELECT ", list_texts(columns.as_slice(), ", ").as_str());
        let sql = extended(sql, " FROM ");
        let sql = extended(sql, name.as_str());
        let sql = extended(sql, " WHERE ");
        let sql = extended(sql, condition.as_str());
        match self.reversed_keys() {
            Err(error) => Err(error),
            Ok(parameters) => Ok(RowStatement { sql, parameters }),
        }
    }

    /// The query that finds the rows by their keys, whatever their values are.
    pub fn absence_plan(&self, catalog: &CatalogSnapshot, created: &CreateTable) -> (r: Result<
        RowStatement,
    >)
        requires
            definition_sound(created@),
        ensures
            verdict(r) == absence_plan(catalog@, created@, self@),
    {
        let name = match catalog.table_text(self.rules.table) {
            Err(error) => {
                return Err(error);
            },
            Ok(name) => name,
        };
        let condition = match catalog.key_condition(created) {
            Err(error) => {
                return Err(error);
            },
            Ok(condition) => condition,
        };
        let sql = joined("SELECT 1 FROM ", name.as_str());
        let sql = extended(sql, " WHERE ");
        let sql = extended(sql, condition.as_str());
        let key = |row: &Row| -> (r: Result<Values>)
            ensures
                verdict(r) == key_values(self@.rules)(row@),
            { self.rules.key_values(row) };
        match attempt_each(self.rows.as_slice(), key, Ghost(key_values(self@.rules))) {
            Err(error) => Err(error),
            Ok(parameters) => Ok(RowStatement { sql, parameters }),
        }
    }

    /// The statement that deletes the rows by their keys, the last row first.
    pub fn delete_plan(&self, catalog: &CatalogSnapshot, created: &CreateTable) -> (r: Result<
        RowStatement,
    >)
        requires
            definition_sound(created@),
        ensures
            verdict(r) == delete_plan(catalog@, created@, self@),
    {
        let name = match catalog.table_text(self.rules.table) {
            Err(error) => {
                return Err(error);
            },
            Ok(name) => name,
        };
        let condition = match catalog.key_condition(created) {
            Err(error) => {
                return Err(error);
            },
            Ok(condition) => condition,
        };
        let sql = joined("DELETE FROM ", name.as_str());
        let sql = extended(sql, " WHERE ");
        let sql = extended(sql, condition.as_str());
        match self.reversed_keys() {
            Err(error) => Err(error),
            Ok(parameters) => Ok(RowStatement { sql, parameters }),
        }
    }

    /// The statement that inserts the rows.
    pub fn insert_plan(&self, catalog: &CatalogSnapshot, created: &CreateTable) -> (r: Result<
        RowStatement,
    >)
        requires
            self@.rows.len() > 0,
        ensures
            verdict(r) == insert_plan(catalog@, created@, self@),
    {
        let name = match catalog.table_text(self.rules.table) {
            Err(error) => {
                return Err(error);
            },
            Ok(name) => name,
        };
        let first = &self.rows[0];
        assert(first@ == self@.rows[0]);
        assert(created@.columns == views(created.columns@));
        let has = |column: &Column| -> (r: bool)
            ensures
                r == present(first@)(column@),
            { first.value(column.id).is_some() };
        let columns = choose_columns(created.columns.as_slice(), has, Ghost(present(first@)));
        let names = match catalog.column_texts(self.rules.table, columns.as_slice()) {
            Err(error) => {
                return Err(error);
            },
            Ok(names) => names,
        };
        let sql = joined("INSERT INTO ", name.as_str());
        let sql = extended(sql, " (");
        let sql = extended(sql, list_texts(names.as_slice(), ", ").as_str());
        let sql = extended(sql, ") VALUES (");
        let sql = extended(sql, placeholder_text(columns.len()).as_str());
        let sql = extended(sql, ")");
        let values = |row: &Row| -> (r: Result<Values>)
            ensures
                verdict(r) == column_values(views(columns@))(row@),
            { row.column_values(columns.as_slice()) };
        match attempt_each(
            self.rows.as_slice(),
            values,
            Ghost(column_values(views(columns@))),
        ) {
            Err(error) => Err(error),
            Ok(parameters) => Ok(RowStatement { sql, parameters }),
        }
    }
}

} // verus!
