//! OWASP Core Rule Set (CRS) support: rule parsing, transformations,
//! operators, request targets and transaction scoring.
pub mod transform;
pub mod types;
pub mod tx;
pub mod evaluator;
pub mod operator;
pub mod parser;
pub mod plugin;
pub mod target;
