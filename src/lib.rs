//! A small single-user SQL-like database engine: statements arrive as a
//! token stream, are validated against a schema catalog, and act on tables
//! whose rows are stored as JSON.
use vstd::prelude::*;

pub mod expression;
pub mod value;
pub mod decimal;
pub mod row;
pub mod error;
pub mod table;
pub mod json;
pub mod catalog;
pub mod token;
pub mod requests;
pub mod interpreter;
pub mod cli;
pub mod infix;

verus! {

} // verus!
