//! The statement data model: one type per statement kind, the closed
//! variant over them, and the error types of the parser and the
//! executor. A parsed statement owns small copies of its tokens
//! rather than borrowing slices of the input, so its lifetime is not
//! tied to the input buffer.

use vstd::prelude::*;

verus! {

/// A CREATE TABLE statement: the table name and the ordered column
/// names.
#[derive(Clone, Debug, Eq, Hash, PartialEq)]
pub struct SqlCreate {
    pub table_name: String,
    pub columns: Vec<String>,
}

/// A DROP TABLE statement: the name of the table to delete.
#[derive(Clone, Debug, Eq, Hash, PartialEq)]
pub struct SqlDrop {
    pub table_name: String,
}

/// An INSERT INTO statement: the table name, the ordered column
/// names, and the ordered value literals. Values correspond to
/// columns by position, not by name.
#[derive(Clone, Debug, Eq, Hash, PartialEq)]
pub struct SqlInsert {
    pub table_name: String,
    pub columns: Vec<String>,
    pub values: Vec<String>,
}

/// A SELECT statement: either a wildcard (`all_columns` holds the
/// `*` marker) or an ordered list of requested column names; a
/// successful parse populates exactly one of the two.
#[derive(Clone, Debug, Eq, Hash, PartialEq)]
pub struct SqlSelect {
    pub columns: Option<Vec<String>>,
    pub table_name: String,
    pub all_columns: Option<String>,
}

/// One parsed statement of any kind.
#[derive(Clone, Debug, Eq, Hash, PartialEq)]
pub enum SqlQuery {
    CreateTable(SqlCreate),
    Drop(SqlDrop),
    Insert(SqlInsert),
    Selection(SqlSelect),
}

/// The expectation whose failure a syntax error reports: a fixed
/// keyword, a single delimiter, or a character class (whitespace or
/// an identifier character).
#[derive(Clone, Copy, Debug, Eq, PartialEq, Structural)]
pub enum Expectation {
    Keyword,
    Delimiter,
    CharClass,
}

/// A syntax error: the unconsumed remainder of the input and the
/// expectation that failed first.
#[derive(Clone, Debug, Eq, PartialEq)]
pub struct ParseError {
    pub remaining: String,
    pub expected: Expectation,
}

/// An execution failure: a CREATE TABLE with an empty or partly
/// empty column list, an INSERT whose column list differs from the
/// table's header, or a statement aimed at a table that is not
/// there.
#[derive(Clone, Copy, Debug, Eq, PartialEq, Structural)]
pub enum ExecError {
    InvalidSchema,
    SchemaMismatch,
    NotFound,
}

/// The mathematical value of a CREATE TABLE statement.
pub ghost struct SqlCreateV {
    pub table_name: Seq<char>,
    pub columns: Seq<Seq<char>>,
}

/// The mathematical value of a DROP TABLE statement.
pub ghost struct SqlDropV {
    pub table_name: Seq<char>,
}

/// The mathematical value of an INSERT INTO statement.
pub ghost struct SqlInsertV {
    pub table_name: Seq<char>,
    pub columns: Seq<Seq<char>>,
    pub values: Seq<Seq<char>>,
}

/// The mathematical value of a SELECT statement.
pub ghost struct SqlSelectV {
    pub columns: Option<Seq<Seq<char>>>,
    pub table_name: Seq<char>,
    pub all_columns: Option<Seq<char>>,
}

/// The mathematical value of a statement of any kind.
pub ghost enum SqlQueryV {
    CreateTable(SqlCreateV),
    Drop(SqlDropV),
    Insert(SqlInsertV),
    Selection(SqlSelectV),
}

/// The mathematical value of a syntax error.
pub ghost struct ParseErrorV {
    pub remaining: Seq<char>,
    pub expected: Expectation,
}

impl View for SqlCreate {
    type V = SqlCreateV;

    open spec fn view(&self) -> SqlCreateV {
        SqlCreateV { table_name: self.table_name@, columns: self.columns.deep_view() }
    }
}

impl View for SqlDrop {
    type V = SqlDropV;

    open spec fn view(&self) -> SqlDropV {
        SqlDropV { table_name: self.table_name@ }
    }
}

impl View for SqlInsert {
    type V = SqlInsertV;

    open spec fn view(&self) -> SqlInsertV {
        SqlInsertV {
            table_name: self.table_name@,
            columns: self.columns.deep_view(),
            values: self.values.deep_view(),
        }
    }
}

impl View for SqlSelect {
    type V = SqlSelectV;

    open spec fn view(&self) -> SqlSelectV {
        SqlSelectV {
            columns: match self.columns {
                Some(ref cs) => Some(cs.deep_view()),
                None => None,
            },
            table_name: self.table_name@,
            all_columns: match self.all_columns {
                Some(ref s) => Some(s@),
                None => None,
            },
        }
    }
}

impl View for SqlQuery {
    type V = SqlQueryV;

    open spec fn view(&self) -> SqlQueryV {
        match self {
            SqlQuery::CreateTable(q) => SqlQueryV::CreateTable(q@),
            SqlQuery::Drop(q) => SqlQueryV::Drop(q@),
            SqlQuery::Insert(q) => SqlQueryV::Insert(q@),
            SqlQuery::Selection(q) => SqlQueryV::Selection(q@),
        }
    }
}

impl View for ParseError {
    type V = ParseErrorV;

    open spec fn view(&self) -> ParseErrorV {
        ParseErrorV { remaining: self.remaining@, expected: self.expected }
    }
}

} // verus!
