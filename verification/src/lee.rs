//! The filter-expression language: a small comparison/boolean DSL that
//! clients submit to narrow the pilot stream.  A textual predicate is
//! lexed, parsed into an expression tree, compiled against the allowed
//! pilot fields, and then evaluated per pilot.

pub mod condition;
pub mod error;
pub mod expression;
pub mod lexer;
pub mod parser;
pub mod string_reader;
