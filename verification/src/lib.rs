//! A scanner, parser and resolver for the Lox language, with a scope-chain
//! environment, each stated against a mathematical model and proved by Verus.

pub mod ast;
pub mod environment;
pub mod grammar_laws;
pub mod literal_eq;
pub mod lox;
pub mod parser;
pub mod parser_ids;
pub mod parser_spec;
pub mod printer;
pub mod resolver;
pub mod resolver_spec;
pub mod scanner;
pub mod semantics;
pub mod text;
pub mod token;
pub mod utility;
