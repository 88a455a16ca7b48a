//! The GRL rule language: AST, built-in functions, printing and the YAML converter.
pub mod ast;
pub mod converter;
pub mod functions;
pub mod printer;
pub mod registry;
