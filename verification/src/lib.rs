//! A small scripting language front end and evaluator: source text is
//! tokenized, parsed into a syntax tree, and the tree is walked against a
//! stack of lexical scopes.

pub mod text;
pub mod token;
pub mod lexer;
pub mod node;
pub mod parser;
pub mod value;
pub mod interpreter;
