//! Statements of the supported SQL, as far as the schema logic reads them.

use crate::codec::{view_of, views};
use crate::error::{verdict, Error, ErrorView, Result};
use crate::logical::types::{ForeignKeyAction, SortOrder, TableMode, TableStorage, TypeDeclaration};
use crate::name::{same_text, SqlName};
use vstd::prelude::*;

verus! {

/// The default of a column.
#[derive(Debug, PartialEq, Eq)]
pub struct DefaultDefinition {
    pub name: Option<SqlName>,
    pub expression: String,
}

/// A value of [`DefaultDefinition`] as a mathematical value.
#[verifier::ext_equal]
pub struct DefaultView {
    pub name: Option<Seq<char>>,
    pub expression: Seq<char>,
}

impl View for DefaultDefinition {
    type V = DefaultView;

    open spec fn view(&self) -> DefaultView {
        DefaultView {
            name: view_of(self.name),
            expression: self.expression@,
        }
    }
}

/// One column of a statement.
#[derive(Debug, PartialEq, Eq)]
pub struct CreateColumn {
    pub name: SqlName,
    pub declared_type: TypeDeclaration,
    pub not_null: bool,
    pub not_null_name: Option<SqlName>,
    pub default: Option<DefaultDefinition>,
    pub primary_key: Option<u32>,
}

/// A value of [`CreateColumn`] as a mathematical value.
#[verifier::ext_equal]
pub struct CreateColumnView {
    pub name: Seq<char>,
    pub declared_type: TypeDeclaration,
    pub not_null: bool,
    pub not_null_name: Option<Seq<char>>,
    pub default: Option<DefaultView>,
    pub primary_key: Option<u32>,
}

impl View for CreateColumn {
    type V = CreateColumnView;

    open spec fn view(&self) -> CreateColumnView {
        CreateColumnView {
            name: self.name@,
            declared_type: self.declared_type,
            not_null: self.not_null,
            not_null_name: view_of(self.not_null_name),
            default: view_of(self.default),
            primary_key: self.primary_key,
        }
    }
}

/// One UNIQUE constraint of a statement.
#[derive(Debug, PartialEq, Eq)]
pub struct CreateUnique {
    pub name: Option<SqlName>,
    pub columns: Vec<SqlName>,
}

/// A value of [`CreateUnique`] as a mathematical value.
#[verifier::ext_equal]
pub struct CreateUniqueView {
    pub name: Option<Seq<char>>,
    pub columns: Seq<Seq<char>>,
}

impl View for CreateUnique {
    type V = CreateUniqueView;

    open spec fn view(&self) -> CreateUniqueView {
        CreateUniqueView {
            name: view_of(self.name),
            columns: views(self.columns@),
        }
    }
}

/// One foreign key of a statement.
#[derive(Debug, PartialEq, Eq)]
pub struct CreateForeignKey {
    pub name: Option<SqlName>,
    pub columns: Vec<SqlName>,
    pub referenced_table: SqlName,
    pub referenced_columns: Option<Vec<SqlName>>,
    pub on_delete: ForeignKeyAction,
}

/// A value of [`CreateForeignKey`] as a mathematical value.
#[verifier::ext_equal]
pub struct CreateForeignKeyView {
    pub name: Option<Seq<char>>,
    pub columns: Seq<Seq<char>>,
    pub referenced_table: Seq<char>,
    pub referenced_columns: Option<Seq<Seq<char>>>,
    pub on_delete: ForeignKeyAction,
}

impl View for CreateForeignKey {
    type V = CreateForeignKeyView;

    open spec fn view(&self) -> CreateForeignKeyView {
        CreateForeignKeyView {
            name: view_of(self.name),
            columns: views(self.columns@),
            referenced_table: self.referenced_table@,
            referenced_columns: match self.referenced_columns {
                Some(items) => Some(views(items@)),
                None => None,
            },
            on_delete: self.on_delete,
        }
    }
}

/// One CHECK of a statement, with the column it is written at and the columns that it reads.
#[derive(Debug, PartialEq, Eq)]
pub struct CreateCheckConstraint {
    pub name: Option<SqlName>,
    pub column: Option<SqlName>,
    pub expression: String,
    pub columns: Vec<SqlName>,
}

/// A value of [`CreateCheckConstraint`] as a mathematical value.
#[verifier::ext_equal]
pub struct CreateCheckView {
    pub name: Option<Seq<char>>,
    pub column: Option<Seq<char>>,
    pub expression: Seq<char>,
    pub columns: Seq<Seq<char>>,
}

impl View for CreateCheckConstraint {
    type V = CreateCheckView;

    open spec fn view(&self) -> CreateCheckView {
        CreateCheckView {
            name: view_of(self.name),
            column: view_of(self.column),
            expression: self.expression@,
            columns: views(self.columns@),
        }
    }
}

/// CREATE TABLE.
#[derive(Debug, PartialEq, Eq)]
pub struct CreateTableSpec {
    pub name: SqlName,
    pub mode: TableMode,
    pub storage: TableStorage,
    pub primary_key_name: Option<SqlName>,
    pub columns: Vec<CreateColumn>,
    pub unique_constraints: Vec<CreateUnique>,
    pub foreign_keys: Vec<CreateForeignKey>,
    pub checks: Vec<CreateCheckConstraint>,
}

/// A value of [`CreateTableSpec`] as a mathematical value.
#[verifier::ext_equal]
pub struct CreateTableView {
    pub name: Seq<char>,
    pub mode: TableMode,
    pub storage: TableStorage,
    pub primary_key_name: Option<Seq<char>>,
    pub columns: Seq<CreateColumnView>,
    pub unique_constraints: Seq<CreateUniqueView>,
    pub foreign_keys: Seq<CreateForeignKeyView>,
    pub checks: Seq<CreateCheckView>,
}

impl View for CreateTableSpec {
    type V = CreateTableView;

    open spec fn view(&self) -> CreateTableView {
        CreateTableView {
            name: self.name@,
            mode: self.mode,
            storage: self.storage,
            primary_key_name: view_of(self.primary_key_name),
            columns: views(self.columns@),
            unique_constraints: views(self.unique_constraints@),
            foreign_keys: views(self.foreign_keys@),
            checks: views(self.checks@),
        }
    }
}

/// One term of an index.
#[derive(Debug, PartialEq, Eq)]
pub enum CreateIndexTerm {
    Column { name: SqlName, collation: Option<SqlName>, order: SortOrder },
    Expression { expression: String, order: SortOrder },
}

/// A value of [`CreateIndexTerm`] as a mathematical value.
pub enum IndexTermView {
    Column { name: Seq<char>, collation: Option<Seq<char>>, order: SortOrder },
    Expression { expression: Seq<char>, order: SortOrder },
}

impl View for CreateIndexTerm {
    type V = IndexTermView;

    open spec fn view(&self) -> IndexTermView {
        match self {
            CreateIndexTerm::Column { name, collation, order } => IndexTermView::Column {
                name: name@,
                collation: view_of(*collation),
                order: *order,
            },
            CreateIndexTerm::Expression { expression, order } => IndexTermView::Expression {
                expression: expression@,
                order: *order,
            },
        }
    }
}

/// CREATE INDEX.
#[derive(Debug, PartialEq, Eq)]
pub struct CreateIndexSpec {
    pub unique: bool,
    pub name: SqlName,
    pub table: SqlName,
    pub terms: Vec<CreateIndexTerm>,
    pub predicate: Option<String>,
}

/// A value of [`CreateIndexSpec`] as a mathematical value.
#[verifier::ext_equal]
pub struct CreateIndexView {
    pub unique: bool,
    pub name: Seq<char>,
    pub table: Seq<char>,
    pub terms: Seq<IndexTermView>,
    pub predicate: Option<Seq<char>>,
}

impl View for CreateIndexSpec {
    type V = CreateIndexView;

    open spec fn view(&self) -> CreateIndexView {
        CreateIndexView {
            unique: self.unique,
            name: self.name@,
            table: self.table@,
            terms: views(self.terms@),
            predicate: view_of(self.predicate),
        }
    }
}

/// ALTER TABLE RENAME TO.
#[derive(Debug, PartialEq, Eq)]
pub struct RenameTableSpec {
    pub table: SqlName,
    pub new_name: SqlName,
}

/// A value of [`RenameTableSpec`] as a mathematical value.
#[verifier::ext_equal]
pub struct RenameTableView {
    pub table: Seq<char>,
    pub new_name: Seq<char>,
}

impl View for RenameTableSpec {
    type V = RenameTableView;

    open spec fn view(&self) -> RenameTableView {
        RenameTableView {
            table: self.table@,
            new_name: self.new_name@,
        }
    }
}

/// ALTER TABLE RENAME COLUMN.
#[derive(Debug, PartialEq, Eq)]
pub struct RenameColumnSpec {
    pub table: SqlName,
    pub old_name: SqlName,
    pub new_name: SqlName,
}

/// A value of [`RenameColumnSpec`] as a mathematical value.
#[verifier::ext_equal]
pub struct RenameColumnView {
    pub table: Seq<char>,
    pub old_name: Seq<char>,
    pub new_name: Seq<char>,
}

impl View for RenameColumnSpec {
    type V = RenameColumnView;

    open spec fn view(&self) -> RenameColumnView {
        RenameColumnView {
            table: self.table@,
            old_name: self.old_name@,
            new_name: self.new_name@,
        }
    }
}

/// ALTER TABLE ADD COLUMN.
#[derive(Debug, PartialEq, Eq)]
pub struct AddColumnSpec {
    pub table: SqlName,
    pub column: CreateColumn,
    pub checks: Vec<CreateCheckConstraint>,
}

/// A value of [`AddColumnSpec`] as a mathematical value.
#[verifier::ext_equal]
pub struct AddColumnView {
    pub table: Seq<char>,
    pub column: CreateColumnView,
    pub checks: Seq<CreateCheckView>,
}

impl View for AddColumnSpec {
    type V = AddColumnView;

    open spec fn view(&self) -> AddColumnView {
        AddColumnView {
            table: self.table@,
            column: self.column@,
            checks: views(self.checks@),
        }
    }
}

/// ALTER TABLE DROP COLUMN.
#[derive(Debug, PartialEq, Eq)]
pub struct DropColumnSpec {
    pub table: SqlName,
    pub column: SqlName,
}

/// A value of [`DropColumnSpec`] as a mathematical value.
#[verifier::ext_equal]
pub struct DropColumnView {
    pub table: Seq<char>,
    pub column: Seq<char>,
}

impl View for DropColumnSpec {
    type V = DropColumnView;

    open spec fn view(&self) -> DropColumnView {
        DropColumnView {
            table: self.table@,
            column: self.column@,
        }
    }
}

/// DROP TABLE.
#[derive(Debug, PartialEq, Eq)]
pub struct DropTableSpec {
    pub name: SqlName,
}

/// A value of [`DropTableSpec`] as a mathematical value.
#[verifier::ext_equal]
pub struct DropTableView {
    pub name: Seq<char>,
}

impl View for DropTableSpec {
    type V = DropTableView;

    open spec fn view(&self) -> DropTableView {
        DropTableView {
            name: self.name@,
        }
    }
}

/// CREATE VIEW, with the tables that it reads.
#[derive(Debug, PartialEq, Eq)]
pub struct CreateViewSpec {
    pub name: SqlName,
    pub dependencies: Vec<SqlName>,
}

/// A value of [`CreateViewSpec`] as a mathematical value.
#[verifier::ext_equal]
pub struct CreateViewView {
    pub name: Seq<char>,
    pub dependencies: Seq<Seq<char>>,
}

impl View for CreateViewSpec {
    type V = CreateViewView;

    open spec fn view(&self) -> CreateViewView {
        CreateViewView {
            name: self.name@,
            dependencies: views(self.dependencies@),
        }
    }
}

/// DROP VIEW.
#[derive(Debug, PartialEq, Eq)]
pub struct DropViewSpec {
    pub name: SqlName,
}

/// A value of [`DropViewSpec`] as a mathematical value.
#[verifier::ext_equal]
pub struct DropViewView {
    pub name: Seq<char>,
}

impl View for DropViewSpec {
    type V = DropViewView;

    open spec fn view(&self) -> DropViewView {
        DropViewView {
            name: self.name@,
        }
    }
}

/// A statement inside the supported SQL.
#[derive(Debug, PartialEq, Eq)]
pub enum ValidatedExecute {
    CreateTable(CreateTableSpec),
    CreateTableIfNotExists(CreateTableSpec),
    CreateIndex(CreateIndexSpec),
    CreateIndexIfNotExists(CreateIndexSpec),
    RenameTable(RenameTableSpec),
    RenameColumn(RenameColumnSpec),
    AddColumn(AddColumnSpec),
    DropColumn(DropColumnSpec),
    DropTable(DropTableSpec),
    DropTableIfExists(DropTableSpec),
    CreateView(CreateViewSpec),
    DropView(DropViewSpec),
}

/// A statement as a mathematical value.
pub enum StatementView {
    CreateTable(CreateTableView),
    CreateTableIfNotExists(CreateTableView),
    CreateIndex(CreateIndexView),
    CreateIndexIfNotExists(CreateIndexView),
    RenameTable(RenameTableView),
    RenameColumn(RenameColumnView),
    AddColumn(AddColumnView),
    DropColumn(DropColumnView),
    DropTable(DropTableView),
    DropTableIfExists(DropTableView),
    CreateView(CreateViewView),
    DropView(DropViewView),
}

impl View for ValidatedExecute {
    type V = StatementView;

    open spec fn view(&self) -> StatementView {
        match self {
            ValidatedExecute::CreateTable(spec) => StatementView::CreateTable(spec@),
            ValidatedExecute::CreateTableIfNotExists(spec) => StatementView::CreateTableIfNotExists(spec@),
            ValidatedExecute::CreateIndex(spec) => StatementView::CreateIndex(spec@),
            ValidatedExecute::CreateIndexIfNotExists(spec) => StatementView::CreateIndexIfNotExists(spec@),
            ValidatedExecute::RenameTable(spec) => StatementView::RenameTable(spec@),
            ValidatedExecute::RenameColumn(spec) => StatementView::RenameColumn(spec@),
            ValidatedExecute::AddColumn(spec) => StatementView::AddColumn(spec@),
            ValidatedExecute::DropColumn(spec) => StatementView::DropColumn(spec@),
            ValidatedExecute::DropTable(spec) => StatementView::DropTable(spec@),
            ValidatedExecute::DropTableIfExists(spec) => StatementView::DropTableIfExists(spec@),
            ValidatedExecute::CreateView(spec) => StatementView::CreateView(spec@),
            ValidatedExecute::DropView(spec) => StatementView::DropView(spec@),
        }
    }
}

/// One text with what it was read as: a statement, or why it was refused.
#[derive(Debug, PartialEq, Eq)]
pub struct ParsedStatement {
    pub sql: String,
    pub outcome: Result<ValidatedExecute>,
}

impl View for ParsedStatement {
    type V = (Seq<char>, std::result::Result<StatementView, ErrorView>);

    open spec fn view(&self) -> (Seq<char>, std::result::Result<StatementView, ErrorView>) {
        (self.sql@, verdict(self.outcome))
    }
}

/// What texts were read as.
pub type ParsedTexts = Seq<(Seq<char>, std::result::Result<StatementView, ErrorView>)>;

/// What texts stand for. A text that is not listed is outside the supported SQL.
#[derive(Debug, PartialEq, Eq)]
pub struct Statements {
    pub parsed: Vec<ParsedStatement>,
}

impl View for Statements {
    type V = ParsedTexts;

    open spec fn view(&self) -> ParsedTexts {
        views(self.parsed@)
    }
}

/// The refusal of a text that is not listed.
pub const UNLISTED: &'static str = "statement is outside the supported SQL";

/// What a text was read as: a statement, or why it was refused.
pub open spec fn reading_of(parsed: ParsedTexts, sql: Seq<char>) -> std::result::Result<
    StatementView,
    ErrorView,
>
    decreases parsed.len(),
{
    if parsed.len() == 0 {
        Err(ErrorView::UnsupportedSql(UNLISTED@))
    } else if parsed[0].0 == sql {
        parsed[0].1
    } else {
        reading_of(parsed.drop_first(), sql)
    }
}

/// The statement that a text stands for, if it was not refused.
pub open spec fn statement_of(parsed: ParsedTexts, sql: Seq<char>) -> Option<StatementView> {
    match reading_of(parsed, sql) {
        Ok(statement) => Some(statement),
        Err(_) => None,
    }
}

impl Statements {
    /// No text stands for anything.
    pub fn new() -> (r: Statements)
        ensures
            r@ == ParsedTexts::empty(),
    {
        let parsed: Vec<ParsedStatement> = Vec::new();
        let r = Statements { parsed };
        assert(r@ =~= ParsedTexts::empty());
        r
    }

    /// Record what a text stands for.
    pub fn record(&mut self, sql: String, statement: ValidatedExecute)
        ensures
            final(self)@ == old(self)@.push((sql@, Ok(statement@))),
    {
        self.parsed.push(ParsedStatement { sql, outcome: Ok(statement) });
        assert(self@ =~= old(self)@.push((sql@, Ok(statement@))));
    }

    /// Record why a text is refused.
    pub fn refuse(&mut self, sql: String, error: Error)
        ensures
            final(self)@ == old(self)@.push((sql@, Err(error@))),
    {
        self.parsed.push(ParsedStatement { sql, outcome: Err(error) });
        assert(self@ =~= old(self)@.push((sql@, Err(error@))));
    }

    /// The statement that a text stands for, or why it is refused.
    pub fn validate_execute(&self, sql: &str) -> (r: Result<&ValidatedExecute>)
        ensures
            verdict(r) == reading_of(self@, sql@),
    {
        let ghost all = self@;
        let mut i: usize = 0;
        assert(all.subrange(0, all.len() as int) =~= all);
        while i < self.parsed.len()
            invariant
                i <= self.parsed@.len(),
                all == views(self.parsed@),
                all == self@,
                reading_of(all, sql@) == reading_of(
                    all.subrange(i as int, all.len() as int),
                    sql@,
                ),
            decreases self.parsed.len() - i,
        {
            let ghost rest = all.subrange(i as int, all.len() as int);
            assert(rest[0] == self.parsed@[i as int]@);
            if same_text(self.parsed[i].sql.as_str(), sql) {
                return match &self.parsed[i].outcome {
                    Ok(statement) => Ok(statement),
                    Err(error) => Err(error.clone()),
                };
            }
            assert(rest.drop_first() =~= all.subrange(i as int + 1, all.len() as int));
            i += 1;
        }
        Err(Error::UnsupportedSql(UNLISTED))
    }
}

/// A text stands for what was recorded of it first, whatever is recorded behind
/// it; a text of which nothing was recorded is refused.
pub proof fn texts_stand_for_what_was_recorded(
    parsed: ParsedTexts,
    sql: Seq<char>,
    outcome: std::result::Result<StatementView, ErrorView>,
    other: Seq<char>,
)
    ensures
        (forall|i: int| 0 <= i < parsed.len() ==> (#[trigger] parsed[i]).0 != sql) ==> reading_of(
            parsed.push((sql, outcome)),
            sql,
        ) == outcome && statement_of(parsed, sql) is None,
        (exists|i: int| 0 <= i < parsed.len() && (#[trigger] parsed[i]).0 == other) || other != sql
            ==> reading_of(parsed.push((sql, outcome)), other) == reading_of(parsed, other),
    decreases parsed.len(),
{
    reveal_with_fuel(reading_of, 2);
    let more = parsed.push((sql, outcome));
    if parsed.len() == 0 {
        assert(more[0] == (sql, outcome));
        assert(more.drop_first() =~= parsed);
    } else {
        let rest = parsed.drop_first();
        texts_stand_for_what_was_recorded(rest, sql, outcome, other);
        assert(more[0] == parsed[0]);
        assert(more.drop_first() =~= rest.push((sql, outcome)));
        if forall|i: int| 0 <= i < parsed.len() ==> (#[trigger] parsed[i]).0 != sql {
            assert(parsed[0].0 != sql);
            assert forall|i: int| 0 <= i < rest.len() implies (#[trigger] rest[i]).0 != sql by {
                assert(rest[i] == parsed[i + 1]);
            }
        }
        if exists|i: int| 0 <= i < parsed.len() && (#[trigger] parsed[i]).0 == other {
            let i = choose|i: int| 0 <= i < parsed.len() && (#[trigger] parsed[i]).0 == other;
            if i > 0 {
                assert(rest[i - 1] == parsed[i]);
            }
        }
    }
}

} // verus!
