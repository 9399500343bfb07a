//! Front end for a small C-like toy language: a character cursor, a lexer
//! that turns a source string into tokens, and a Pratt (operator-precedence)
//! parser that turns tokens into an abstract syntax tree.

pub mod ast;
pub mod chars;
pub mod cursor;
pub mod grammar;
pub mod laws;
pub mod lexer;
pub mod parser;
pub mod priority;
