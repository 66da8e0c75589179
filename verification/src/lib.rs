//! Scripting front end for a visual-novel engine: a position-tracking
//! lookahead scanner, a tokenizer, operator tables, and a
//! precedence-climbing expression parser that builds a span-tagged
//! abstract syntax tree.

pub mod symbol;
pub mod span;
pub mod scan;
pub mod ops;
pub mod token;
pub mod lex;
pub mod parse;
pub mod graphics;
