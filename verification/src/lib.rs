//! Lexer and parser of the Helion scripting language, with the syntax tree
//! they build, and the variable scopes, errors and call binding of an evaluator.
pub mod token;
pub mod lexer;
pub mod ast;
pub mod grammar;
pub mod parser;
pub mod expression_laws;
pub mod statement_laws;
pub mod env;
pub mod runtime;
