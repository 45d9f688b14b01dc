//! A parser for textual mathematical expressions.
//!
//! [`lexer::tokenize`] scans raw text into lexical tokens, and
//! [`parser::parse`] reduces a token sequence into an abstract syntax
//! tree, honoring parenthetical grouping, function-call binding,
//! operator precedence and associativity, and unary negation. Both
//! carry contracts stating their result exactly, against spec-level
//! models of the scan and of the four parsing passes.

pub mod lexer;
pub mod number;
pub mod parser;

pub use number::Number;
pub use number::NumberError;
