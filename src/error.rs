//! Errors of the engine.
use vstd::prelude::*;
use crate::expression::ExprError;

verus! {

/// Why a statement failed.
#[derive(Debug)]
pub enum Error {
    /// A table of that name exists already.
    TableExists(String),
    /// A CREATE declares a column twice.
    DuplicateColumn(String),
    /// A CREATE declares no primary key (the table's name is given).
    MissingPrimaryKey(String),
    /// A CREATE declares a primary key twice (the table's name is given).
    DuplicatePrimaryKey(String),
    /// No table has that name.
    UnknownTable(String),
    /// The target table has no column of that name.
    UnknownColumn(String),
    /// An INSERT names a column twice.
    ColumnTwice(String),
    /// An INSERT gives more values than columns (the table's name is given).
    TooManyValues(String),
    /// An INSERT gives fewer values than columns (the table's name is given).
    TooFewValues(String),
    /// An INSERT leaves out a column that has no default value.
    MissingValue(String),
    /// A number was given for a string column.
    StringExpected(String),
    /// A string was given for a column that is not a string column.
    NotAString(String),
    /// A value mixes a string literal and arithmetic.
    StringArithmetic,
    /// An expression could not be compiled or evaluated.
    Expression(ExprError),
    /// The lexer reported an error; its message is given.
    Lexical(String),
    /// A handler received a token of a kind it does not expect there.
    UnexpectedToken(String),
    /// A statement starts with a word that is no statement keyword.
    UnknownStatement(String),
    /// A keyword that the statement does not take.
    UnknownKeyword(String),
    /// A type keyword that names no type.
    UnknownType(String),
    /// A stored catalog or row file could not be understood.
    Storage,
}

/// The three kinds of failure: errors in a statement, errors reported by
/// the lexer, and breaches of the contract between lexer and engine.
#[derive(Clone, Copy, Debug, PartialEq, Eq, Structural)]
pub enum ErrorKind {
    Validation,
    Lexical,
    Internal,
}

pub open spec fn kind_of(e: Error) -> ErrorKind {
    match e {
        Error::Lexical(_) => ErrorKind::Lexical,
        Error::UnexpectedToken(_) | Error::UnknownStatement(_) | Error::UnknownKeyword(_)
        | Error::UnknownType(_) | Error::Storage => ErrorKind::Internal,
        Error::Expression(x) => match x {
            ExprError::UnknownOperator | ExprError::BadNumber | ExprError::Unbalanced
            | ExprError::Malformed => ErrorKind::Internal,
            _ => ErrorKind::Validation,
        },
        _ => ErrorKind::Validation,
    }
}

impl Error {
    /// The kind of the error.
    pub fn kind(&self) -> (r: ErrorKind)
        ensures
            r == kind_of(*self),
    {
        match self {
            Error::Lexical(_) => ErrorKind::Lexical,
            Error::UnexpectedToken(_) | Error::UnknownStatement(_) | Error::UnknownKeyword(_)
            | Error::UnknownType(_) | Error::Storage => ErrorKind::Internal,
            Error::Expression(x) => match x {
                ExprError::UnknownOperator | ExprError::BadNumber | ExprError::Unbalanced
                | ExprError::Malformed => ErrorKind::Internal,
                _ => ErrorKind::Validation,
            },
            _ => ErrorKind::Validation,
        }
    }
}

} // verus!
