//! The error taxonomy of the query core.
//!
//! Parser errors abort a whole query; execution errors stay inside the
//! `Response` of the statement that raised them, except inside an explicit
//! transaction, where the executor's sticky error rewrites the block.

use vstd::prelude::*;

verus! {

/// An error raised by the parser, the executor, or a statement computation.
#[derive(Debug, Clone, PartialEq, Eq)]
pub enum Error {
    /// The query string was empty, only whitespace, or held no statement.
    QueryEmpty,
    /// The query string could not be parsed; `line` is 1-based, `character`
    /// is the 0-based offset inside that line, and `sql` is the offending
    /// fragment truncated to at most 100 characters.
    InvalidQuery { line: usize, character: usize, sql: String },
    /// Parsing recursed past the configured depth cap.
    TooManySubqueries,
    /// The session is not allowed to switch to this namespace.
    NsNotAllowed { ns: String },
    /// The session is not allowed to switch to this database.
    DbNotAllowed { db: String },
    /// No namespace is selected but the statement needs one.
    NsEmpty,
    /// No database is selected but the statement needs one.
    DbEmpty,
    /// A transaction could not be started for this statement.
    TxFailure,
    /// The enclosing explicit transaction was cancelled.
    QueryCancelled,
    /// The statement was not executed because the enclosing explicit
    /// transaction already failed; `message` describes the first failure.
    QueryNotExecuted { message: String },
    /// The statement ran past its `TIMEOUT` clause.
    QueryTimedout,
    /// An attempt was made to `SET` a protected parameter.
    InvalidParam { name: String },
    /// A function was called with the wrong number of arguments.
    InvalidArguments { name: String, message: String },
    /// A record with this id already exists in the table.
    RecordExists { tb: String, id: String },
    /// A `CREATE` statement named a table but no record id.
    IdMissing { tb: String },
}

/// The mathematical shape of an [`Error`]: strings become `Seq<char>`.
pub enum SpecError {
    QueryEmpty,
    InvalidQuery { line: int, character: int, sql: Seq<char> },
    TooManySubqueries,
    NsNotAllowed { ns: Seq<char> },
    DbNotAllowed { db: Seq<char> },
    NsEmpty,
    DbEmpty,
    TxFailure,
    QueryCancelled,
    QueryNotExecuted { message: Seq<char> },
    QueryTimedout,
    InvalidParam { name: Seq<char> },
    InvalidArguments { name: Seq<char>, message: Seq<char> },
    RecordExists { tb: Seq<char>, id: Seq<char> },
    IdMissing { tb: Seq<char> },
}

impl DeepView for Error {
    type V = SpecError;

    open spec fn deep_view(&self) -> SpecError {
        match self {
            Error::QueryEmpty => SpecError::QueryEmpty,
            Error::InvalidQuery { line, character, sql } => SpecError::InvalidQuery {
                line: *line as int,
                character: *character as int,
                sql: sql@,
            },
            Error::TooManySubqueries => SpecError::TooManySubqueries,
            Error::NsNotAllowed { ns } => SpecError::NsNotAllowed { ns: ns@ },
            Error::DbNotAllowed { db } => SpecError::DbNotAllowed { db: db@ },
            Error::NsEmpty => SpecError::NsEmpty,
            Error::DbEmpty => SpecError::DbEmpty,
            Error::TxFailure => SpecError::TxFailure,
            Error::QueryCancelled => SpecError::QueryCancelled,
            Error::QueryNotExecuted { message } => SpecError::QueryNotExecuted {
                message: message@,
            },
            Error::QueryTimedout => SpecError::QueryTimedout,
            Error::InvalidParam { name } => SpecError::InvalidParam { name: name@ },
            Error::InvalidArguments { name, message } => SpecError::InvalidArguments {
                name: name@,
                message: message@,
            },
            Error::RecordExists { tb, id } => SpecError::RecordExists { tb: tb@, id: id@ },
            Error::IdMissing { tb } => SpecError::IdMissing { tb: tb@ },
        }
    }
}

/// The one-line description that [`Error::message`] returns.
pub open spec fn spec_message(e: SpecError) -> Seq<char> {
    match e {
        SpecError::QueryEmpty => "The query was empty"@,
        SpecError::InvalidQuery { .. } => "The query could not be parsed"@,
        SpecError::TooManySubqueries => "The query exceeded the subquery depth limit"@,
        SpecError::NsNotAllowed { .. } => "The namespace is not allowed"@,
        SpecError::DbNotAllowed { .. } => "The database is not allowed"@,
        SpecError::NsEmpty => "No namespace has been selected"@,
        SpecError::DbEmpty => "No database has been selected"@,
        SpecError::TxFailure => "The transaction could not be started"@,
        SpecError::QueryCancelled => "The query was cancelled"@,
        SpecError::QueryNotExecuted { .. } => "The query was not executed"@,
        SpecError::QueryTimedout => "The query exceeded its timeout"@,
        SpecError::InvalidParam { .. } => "The parameter is protected"@,
        SpecError::InvalidArguments { .. } => "The function arguments are invalid"@,
        SpecError::RecordExists { .. } => "The record already exists"@,
        SpecError::IdMissing { .. } => "The record id is missing"@,
    }
}

impl Error {
    /// A short human-readable description of the error kind, used by the
    /// executor when a sticky error rewrites a transaction block.
    pub fn message(&self) -> (r: String)
        ensures
            r@ == spec_message(self.deep_view()),
    {
        match self {
            Error::QueryEmpty => String::from_str("The query was empty"),
            Error::InvalidQuery { .. } => String::from_str("The query could not be parsed"),
            Error::TooManySubqueries => String::from_str(
                "The query exceeded the subquery depth limit",
            ),
            Error::NsNotAllowed { .. } => String::from_str("The namespace is not allowed"),
            Error::DbNotAllowed { .. } => String::from_str("The database is not allowed"),
            Error::NsEmpty => String::from_str("No namespace has been selected"),
            Error::DbEmpty => String::from_str("No database has been selected"),
            Error::TxFailure => String::from_str("The transaction could not be started"),
            Error::QueryCancelled => String::from_str("The query was cancelled"),
            Error::QueryNotExecuted { .. } => String::from_str("The query was not executed"),
            Error::QueryTimedout => String::from_str("The query exceeded its timeout"),
            Error::InvalidParam { .. } => String::from_str("The parameter is protected"),
            Error::InvalidArguments { .. } => String::from_str(
                "The function arguments are invalid",
            ),
            Error::RecordExists { .. } => String::from_str("The record already exists"),
            Error::IdMissing { .. } => String::from_str("The record id is missing"),
        }
    }

    /// A structural copy of the error, with the same mathematical value.
    pub fn dup(&self) -> (r: Error)
        ensures
            r.deep_view() == self.deep_view(),
    {
        match self {
            Error::QueryEmpty => Error::QueryEmpty,
            Error::InvalidQuery { line, character, sql } => Error::InvalidQuery {
                line: *line,
                character: *character,
                sql: sql.clone(),
            },
            Error::TooManySubqueries => Error::TooManySubqueries,
            Error::NsNotAllowed { ns } => Error::NsNotAllowed { ns: ns.clone() },
            Error::DbNotAllowed { db } => Error::DbNotAllowed { db: db.clone() },
            Error::NsEmpty => Error::NsEmpty,
            Error::DbEmpty => Error::DbEmpty,
            Error::TxFailure => Error::TxFailure,
            Error::QueryCancelled => Error::QueryCancelled,
            Error::QueryNotExecuted { message } => Error::QueryNotExecuted {
                message: message.clone(),
            },
            Error::QueryTimedout => Error::QueryTimedout,
            Error::InvalidParam { name } => Error::InvalidParam { name: name.clone() },
            Error::InvalidArguments { name, message } => Error::InvalidArguments {
                name: name.clone(),
                message: message.clone(),
            },
            Error::RecordExists { tb, id } => Error::RecordExists {
                tb: tb.clone(),
                id: id.clone(),
            },
            Error::IdMissing { tb } => Error::IdMissing { tb: tb.clone() },
        }
    }
}

} // verus!
