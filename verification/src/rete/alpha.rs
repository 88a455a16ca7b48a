//! Alpha layer: the single-fact tests that rule conditions are built from.
use vstd::prelude::*;

use crate::grl::ast::{Expr, Value};
use crate::pattern::{regex_compiles, CompiledRegex};
use crate::rete::terminal::AlphaId;

verus! {

/// A fast path known when the network is compiled.
#[derive(Debug)]
pub enum CompiledAlpha {
    /// `matches(haystack, "pattern")` with a literal pattern that compiles: the
    /// regex is compiled once; the haystack is the first argument of the node's
    /// expression.
    MatchesRegex { re: CompiledRegex },
}

/// One distinct condition leaf, shared by every rule that tests it.
#[derive(Debug)]
pub struct AlphaNode {
    pub id: AlphaId,
    pub expr: Expr,
    /// Canonical text of `expr`; identical texts share one node.
    pub key: String,
    pub compiled: Option<CompiledAlpha>,
}

/// The literal pattern of `matches(h, "pattern")`, when `e` has that form.
pub open spec fn matches_literal(e: Expr) -> Option<Seq<char>> {
    match e {
        Expr::Call(c) => if c.name@ == "matches"@ && c.args@.len() == 2 {
            match c.args@[1] {
                Expr::Literal(Value::Str(p)) => Some(p@),
                _ => None,
            }
        } else {
            None
        },
        _ => None,
    }
}

/// A fast path agrees with the node's expression: it is present only for a
/// `matches` call whose literal pattern compiles, and holds that pattern.
pub open spec fn alpha_wf(n: AlphaNode) -> bool {
    match n.compiled {
        Some(CompiledAlpha::MatchesRegex { re }) => matches_literal(n.expr) == Some(re@) && regex_compiles(
            re@,
        ),
        None => true,
    }
}

} // verus!
