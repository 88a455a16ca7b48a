//! Verified request-classification core of a web application firewall:
//! OWASP CRS rule parsing and transformations, the GRL rule language and its
//! RETE evaluator, YAML rule conditions, and the small state machines around them.
pub mod context;
pub mod crs;
pub mod grl;
pub mod lists;
pub mod matcher;
pub mod net;
pub mod pattern;
pub mod proxy;
pub mod rete;
pub mod rule;
pub mod seed;
pub mod store;
pub mod ruleset;
pub mod text;
pub mod types;
