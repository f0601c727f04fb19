//! Front end of a small scripting language: a symbol table that interns
//! identifier spellings to stable ids, a lexer that classifies
//! whitespace-separated words into tokens, and a statement/expression parser
//! that builds a precedence-correct abstract syntax tree.

pub mod ast;
pub mod hash;
pub mod lexer;
pub mod parser;
