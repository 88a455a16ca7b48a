//! RETE network for the GRL rule language, specialised to one request fact.
//!
//! Compiling a rule set turns every condition leaf into a shared alpha node and
//! the `&&` / `||` / `!` structure above the leaves into a guard over the alpha
//! results; each rule becomes a terminal, and terminals are kept by descending
//! salience.
use vstd::prelude::*;

use crate::grl::ast::{spec_as_bool, BinOp, Expr, RuleAst, Value};
use crate::grl::printer::{expr_text, print_expr};
use crate::pattern::compile_regex;
use crate::rete::alpha::{alpha_wf, matches_literal, AlphaNode, CompiledAlpha};
use crate::rete::engine::{spec_alpha_values, spec_eval, Env};
use crate::rete::terminal::{
    guard_bounded, lemma_guard_ext, merge_and, merge_or, spec_guard, AlphaId, Guard, Terminal,
};
use crate::rete::working_memory::SegView;
use crate::text::{chars_of, string_eq};
use crate::grl::ast::ValueView;

pub mod alpha;
pub mod engine;
pub mod terminal;
pub mod working_memory;

verus! {

broadcast use vstd::seq_lib::group_to_multiset_ensures;

/// A compiled rule network.
#[derive(Debug)]
pub struct Network {
    pub alphas: Vec<AlphaNode>,
    pub terminals: Vec<Terminal>,
}

impl Network {
    /// Every alpha node's fast path agrees with its expression.
    pub open spec fn wf(&self) -> bool {
        forall|i: int| 0 <= i < self.alphas@.len() ==> alpha_wf(#[trigger] self.alphas@[i])
    }

    /// A network with no rules.
    pub fn new() -> (r: Self)
        ensures
            r.wf(),
            r.alphas@.len() == 0,
            r.terminals@.len() == 0,
    {
        Network { alphas: Vec::new(), terminals: Vec::new() }
    }

    /// The number of distinct alpha nodes.
    pub fn alpha_count(&self) -> (r: usize)
        ensures
            r == self.alphas@.len(),
    {
        self.alphas.len()
    }

    /// The number of rules.
    pub fn rule_count(&self) -> (r: usize)
        ensures
            r == self.terminals@.len(),
    {
        self.terminals.len()
    }
}


// ─── meaning of compiled guards ─────────────────────────────────────────────

/// `x` is a condition leaf of `e`: a sub-expression below the `&&`, `||` and
/// `!` structure that is not a boolean literal.
pub open spec fn is_leaf_of(x: Expr, e: Expr) -> bool
    decreases e,
{
    match e {
        Expr::Binary { op, left, right } => if op == BinOp::And || op == BinOp::Or {
            is_leaf_of(x, *left) || is_leaf_of(x, *right)
        } else {
            x == e
        },
        Expr::Unary { op, expr } => is_leaf_of(x, *expr),
        Expr::Literal(Value::Bool(_)) => false,
        _ => x == e,
    }
}

/// Two expressions are true of the same requests and overlays.
pub open spec fn same_meaning(a: Expr, b: Expr) -> bool {
    forall|env: Env, s: Seq<(Seq<SegView>, ValueView)>|
        #![trigger spec_eval(a, env, s)]
        #![trigger spec_eval(b, env, s)]
        spec_as_bool(spec_eval(a, env, s)) == spec_as_bool(spec_eval(b, env, s))
}

/// Leaves of the conditions that print alike mean alike: sharing alpha nodes by
/// their canonical text then changes no rule's meaning.
pub open spec fn text_faithful(whens: Seq<Expr>) -> bool {
    forall|i: int, j: int, a: Expr, b: Expr|
        0 <= i < whens.len() && 0 <= j < whens.len() && #[trigger] is_leaf_of(a, whens[i])
            && #[trigger] is_leaf_of(b, whens[j]) && expr_text(a) == expr_text(b) ==> same_meaning(
            a,
            b,
        )
}

/// The guard is true exactly when the condition is, for every request and overlay.
pub open spec fn means(g: Guard, e: Expr, alphas: Seq<AlphaNode>) -> bool {
    forall|env: Env, s: Seq<(Seq<SegView>, ValueView)>|
        #![trigger spec_eval(e, env, s)]
        spec_guard(g, spec_alpha_values(alphas, env, s)) == spec_as_bool(spec_eval(e, env, s))
}

/// The conditions of a rule list.
pub open spec fn whens_of(rules: Seq<RuleAst>) -> Seq<Expr> {
    rules.map_values(|r: RuleAst| r.when)
}

/// The alpha nodes of a network built from rules with conditions `whens`: each
/// node's id is its position and its key the canonical text of its expression,
/// no two nodes share a key, and every node is a leaf of some condition.
pub open spec fn alphas_from(alphas: Seq<AlphaNode>, whens: Seq<Expr>) -> bool {
    &&& forall|k: int|
        0 <= k < alphas.len() ==> {
            &&& (#[trigger] alphas[k]).id == k
            &&& alphas[k].key@ == expr_text(alphas[k].expr)
            &&& alpha_wf(alphas[k])
            &&& exists|i: int| 0 <= i < whens.len() && #[trigger] is_leaf_of(alphas[k].expr, whens[i])
        }
    &&& forall|k1: int, k2: int|
        0 <= k1 < alphas.len() && 0 <= k2 < alphas.len() && k1 != k2 ==> (#[trigger] alphas[k1]).key@
            != (#[trigger] alphas[k2]).key@
}

/// Terminal `t` is rule `r` compiled over `alphas`: same name, salience and
/// actions, and (when leaves are text-faithful) a guard that means its condition.
pub open spec fn compiled_rule(t: Terminal, r: RuleAst, alphas: Seq<AlphaNode>, faithful: bool) -> bool {
    &&& t.rule_name == r.name
    &&& t.salience == r.salience
    &&& t.actions == rule_actions(r)
    &&& guard_bounded(t.guard, alphas.len() as int)
    &&& faithful ==> means(t.guard, r.when, alphas)
}

/// The `then` statements of a rule.
pub open spec fn rule_actions(r: RuleAst) -> Vec<crate::grl::ast::Stmt> {
    let RuleAst { then: acts, .. } = r;
    acts
}

/// Terminals in descending salience.
pub open spec fn by_salience(ts: Seq<Terminal>) -> bool {
    forall|i: int, j: int| 0 <= i < j < ts.len() ==> (#[trigger] ts[i]).salience >= (#[trigger] ts[j]).salience
}

proof fn lemma_means_ext(g: Guard, e: Expr, a1: Seq<AlphaNode>, a2: Seq<AlphaNode>)
    requires
        means(g, e, a1),
        guard_bounded(g, a1.len() as int),
        a1.len() <= a2.len(),
        forall|k: int| 0 <= k < a1.len() ==> a1[k] == a2[k],
    ensures
        means(g, e, a2),
{
    assert forall|env: Env, s: Seq<(Seq<SegView>, ValueView)>| #[trigger] spec_eval(e, env, s) == spec_eval(e, env, s) implies
        spec_guard(g, spec_alpha_values(a2, env, s)) == spec_as_bool(spec_eval(e, env, s)) by {
        let v1 = spec_alpha_values(a1, env, s);
        let v2 = spec_alpha_values(a2, env, s);
        assert forall|i: int| 0 <= i < v1.len() implies v1[i] == v2[i] by {
            assert(a1[i] == a2[i]);
        }
        lemma_guard_ext(g, v1, v2);
    }
}

fn is_name(name: &[char], l: &str) -> (r: bool)
    ensures
        r == (name@ == l@),
{
    let v = chars_of(l);
    crate::text::chars_eq(name, v.as_slice())
}

/// The fast path for `matches(h, "pattern")` when the pattern compiles.
fn compile_alpha(e: &Expr) -> (r: Option<CompiledAlpha>)
    ensures
        r is Some <==> (matches_literal(*e) matches Some(p) && crate::pattern::regex_compiles(p)),
        r matches Some(CompiledAlpha::MatchesRegex { re }) ==> matches_literal(*e) == Some(re@)
            && crate::pattern::regex_compiles(re@),
{
    match e {
        Expr::Call(c) => {
            let n = chars_of(c.name.as_str());
            if is_name(n.as_slice(), "matches") && c.args.len() == 2 {
                match &c.args[1] {
                    Expr::Literal(Value::Str(p)) => match compile_regex(p.as_str()) {
                        Some(re) => Some(CompiledAlpha::MatchesRegex { re }),
                        None => None,
                    },
                    _ => None,
                }
            } else {
                None
            }
        },
        _ => None,
    }
}

impl Network {
    /// The node for leaf `e`: an existing node with the same canonical text, or
    /// a new one.
    fn intern_alpha(&mut self, e: Expr, Ghost(whens): Ghost<Seq<Expr>>, Ghost(j): Ghost<int>) -> (id:
        AlphaId)
        requires
            alphas_from(old(self).alphas@, whens),
            0 <= j < whens.len(),
            is_leaf_of(e, whens[j]),
        ensures
            alphas_from(final(self).alphas@, whens),
            final(self).alphas@.len() >= old(self).alphas@.len(),
            forall|k: int| 0 <= k < old(self).alphas@.len() ==> final(self).alphas@[k] == old(self).alphas@[k],
            final(self).terminals == old(self).terminals,
            id < final(self).alphas@.len(),
            text_faithful(whens) ==> same_meaning(final(self).alphas@[id as int].expr, e),
    {
        let key = print_expr(&e);
        let mut i: usize = 0;
        while i < self.alphas.len()
            invariant
                i <= self.alphas@.len(),
                self.alphas@ == old(self).alphas@,
                self.terminals == old(self).terminals,
                alphas_from(self.alphas@, whens),
                0 <= j < whens.len(),
                is_leaf_of(e, whens[j]),
                key@ == expr_text(e),
                forall|k: int| 0 <= k < i ==> (#[trigger] self.alphas@[k]).key@ != key@,
            decreases self.alphas.len() - i,
        {
            if string_eq(&self.alphas[i].key, &key) {
                proof {
                    let n = self.alphas@[i as int];
                    assert(n.key@ == expr_text(n.expr));
                    let w = choose|w: int| 0 <= w < whens.len() && #[trigger] is_leaf_of(n.expr, whens[w]);
                    assert(is_leaf_of(n.expr, whens[w]));
                    assert(is_leaf_of(e, whens[j]));
                }
                return i;
            }
            i += 1;
        }
        let id = self.alphas.len();
        let compiled = compile_alpha(&e);
        let ghost old_alphas = self.alphas@;
        let ghost ee = e;
        self.alphas.push(AlphaNode { id, expr: e, key, compiled });
        proof {
            assert(self.alphas@[id as int].expr == ee);
            assert(is_leaf_of(self.alphas@[id as int].expr, whens[j]));
            assert forall|k: int| 0 <= k < self.alphas@.len() implies {
                &&& (#[trigger] self.alphas@[k]).id == k
                &&& self.alphas@[k].key@ == expr_text(self.alphas@[k].expr)
                &&& alpha_wf(self.alphas@[k])
                &&& exists|w: int| 0 <= w < whens.len() && #[trigger] is_leaf_of(self.alphas@[k].expr, whens[w])
            } by {
                if k < id {
                    assert(self.alphas@[k] == old_alphas[k]);
                } else {
                    assert(is_leaf_of(self.alphas@[k].expr, whens[j]));
                }
            }
        }
        id
    }

    /// The guard for condition `e`: `&&`, `||` and `!` become guard combinators
    /// (nested `&&` / `||` flattened), boolean literals constant guards, every
    /// other expression an alpha node.
    fn compile_guard(&mut self, e: Expr, Ghost(whens): Ghost<Seq<Expr>>, Ghost(j): Ghost<int>) -> (g:
        Guard)
        requires
            alphas_from(old(self).alphas@, whens),
            0 <= j < whens.len(),
            forall|x: Expr| #[trigger] is_leaf_of(x, e) ==> is_leaf_of(x, whens[j]),
        ensures
            alphas_from(final(self).alphas@, whens),
            final(self).alphas@.len() >= old(self).alphas@.len(),
            forall|k: int| 0 <= k < old(self).alphas@.len() ==> final(self).alphas@[k] == old(self).alphas@[k],
            final(self).terminals == old(self).terminals,
            guard_bounded(g, final(self).alphas@.len() as int),
            text_faithful(whens) ==> means(g, e, final(self).alphas@),
        decreases e,
    {
        let ghost e0 = e;
        match e {
            Expr::Binary { op: BinOp::And, left, right } => {
                let ghost lft = *left;
                let ghost rgt = *right;
                assert forall|x: Expr| #[trigger] is_leaf_of(x, lft) implies is_leaf_of(x, whens[j]) by {
                    assert(is_leaf_of(x, e0));
                }
                assert forall|x: Expr| #[trigger] is_leaf_of(x, rgt) implies is_leaf_of(x, whens[j]) by {
                    assert(is_leaf_of(x, e0));
                }
                let l = self.compile_guard(*left, Ghost(whens), Ghost(j));
                let ghost a1 = self.alphas@;
                let r = self.compile_guard(*right, Ghost(whens), Ghost(j));
                proof {
                    if text_faithful(whens) {
                        lemma_means_ext(l, lft, a1, self.alphas@);
                    }
                    lemma_bounded_grow(l, a1.len() as int, self.alphas@.len() as int);
                }
                let g = merge_and(l, r);
                proof {
                    assert(guard_bounded(g, self.alphas@.len() as int));
                    if text_faithful(whens) {
                        assert forall|env: Env, s: Seq<(Seq<SegView>, ValueView)>| #[trigger] spec_eval(e0, env, s) == spec_eval(e0, env, s) implies
                            spec_guard(g, spec_alpha_values(self.alphas@, env, s)) == spec_as_bool(spec_eval(e0, env, s)) by {
                            let v = spec_alpha_values(self.alphas@, env, s);
                            assert(spec_guard(g, v) == (spec_guard(l, v) && spec_guard(r, v)));
                            assert(spec_guard(l, v) == spec_as_bool(spec_eval(lft, env, s)));
                            assert(spec_guard(r, v) == spec_as_bool(spec_eval(rgt, env, s)));
                        }
                    }
                }
                g
            },
            Expr::Binary { op: BinOp::Or, left, right } => {
                let ghost lft = *left;
                let ghost rgt = *right;
                assert forall|x: Expr| #[trigger] is_leaf_of(x, lft) implies is_leaf_of(x, whens[j]) by {
                    assert(is_leaf_of(x, e0));
                }
                assert forall|x: Expr| #[trigger] is_leaf_of(x, rgt) implies is_leaf_of(x, whens[j]) by {
                    assert(is_leaf_of(x, e0));
                }
                let l = self.compile_guard(*left, Ghost(whens), Ghost(j));
                let ghost a1 = self.alphas@;
                let r = self.compile_guard(*right, Ghost(whens), Ghost(j));
                proof {
                    if text_faithful(whens) {
                        lemma_means_ext(l, lft, a1, self.alphas@);
                    }
                    lemma_bounded_grow(l, a1.len() as int, self.alphas@.len() as int);
                }
                let g = merge_or(l, r);
                proof {
                    assert(guard_bounded(g, self.alphas@.len() as int));
                    if text_faithful(whens) {
                        assert forall|env: Env, s: Seq<(Seq<SegView>, ValueView)>| #[trigger] spec_eval(e0, env, s) == spec_eval(e0, env, s) implies
                            spec_guard(g, spec_alpha_values(self.alphas@, env, s)) == spec_as_bool(spec_eval(e0, env, s)) by {
                            let v = spec_alpha_values(self.alphas@, env, s);
                            assert(spec_guard(g, v) == (spec_guard(l, v) || spec_guard(r, v)));
                            assert(spec_guard(l, v) == spec_as_bool(spec_eval(lft, env, s)));
                            assert(spec_guard(r, v) == spec_as_bool(spec_eval(rgt, env, s)));
                        }
                    }
                }
                g
            },
            Expr::Unary { op, expr } => {
                let ghost inner = *expr;
                assert forall|x: Expr| #[trigger] is_leaf_of(x, inner) implies is_leaf_of(x, whens[j]) by {
                    assert(is_leaf_of(x, e0));
                }
                let g1 = self.compile_guard(*expr, Ghost(whens), Ghost(j));
                let g = Guard::Not(Box::new(g1));
                proof {
                    if text_faithful(whens) {
                        assert forall|env: Env, s: Seq<(Seq<SegView>, ValueView)>| #[trigger] spec_eval(e0, env, s) == spec_eval(e0, env, s) implies
                            spec_guard(g, spec_alpha_values(self.alphas@, env, s)) == spec_as_bool(spec_eval(e0, env, s)) by {
                            let v = spec_alpha_values(self.alphas@, env, s);
                            assert(spec_guard(g1, v) == spec_as_bool(spec_eval(inner, env, s)));
                        }
                    }
                }
                g
            },
            Expr::Literal(Value::Bool(true)) => Guard::True,
            Expr::Literal(Value::Bool(false)) => Guard::False,
            other => {
                proof {
                    assert(is_leaf_of(e0, e0));
                }
                let id = self.intern_alpha(other, Ghost(whens), Ghost(j));
                let g = Guard::Alpha(id);
                proof {
                    if text_faithful(whens) {
                        let n = self.alphas@[id as int];
                        assert forall|env: Env, s: Seq<(Seq<SegView>, ValueView)>| #[trigger] spec_eval(e0, env, s) == spec_eval(e0, env, s) implies
                            spec_guard(g, spec_alpha_values(self.alphas@, env, s)) == spec_as_bool(spec_eval(e0, env, s)) by {
                            let v = spec_alpha_values(self.alphas@, env, s);
                            assert(v[id as int] == spec_as_bool(spec_eval(n.expr, env, s)));
                        }
                    }
                }
                g
            },
        }
    }
}

/// `r` is `v` reordered (`r[i]` is `v[idx[i]]`, each position of `v` used
/// once) with terminals of equal salience kept in their order in `v`.
pub open spec fn stable_by_salience(r: Seq<Terminal>, v: Seq<Terminal>, idx: Seq<int>) -> bool {
    &&& idx.len() == r.len() && r.len() == v.len()
    &&& forall|i: int| 0 <= i < idx.len() ==> 0 <= #[trigger] idx[i] < v.len() && r[i] == v[idx[i]]
    &&& forall|i: int, j: int| 0 <= i < j < idx.len() ==> #[trigger] idx[i] != #[trigger] idx[j]
    &&& forall|i: int, j: int|
        0 <= i < j < r.len() && (#[trigger] r[i]).salience == (#[trigger] r[j]).salience ==> idx[i] < idx[j]
}

/// Sort terminals by descending salience (equal saliences keep their order).
fn sort_by_salience(v: Vec<Terminal>) -> (r: Vec<Terminal>)
    ensures
        by_salience(r@),
        r@.to_multiset() == v@.to_multiset(),
        exists|idx: Seq<int>| stable_by_salience(r@, v@, idx),
{
    let ghost v0 = v@;
    let mut rest = v;
    let mut out: Vec<Terminal> = Vec::new();
    let ghost mut idx: Seq<int> = seq![];
    let ghost mut n: int = 0;
    assert(v0.skip(0) =~= v0);
    while rest.len() > 0
        invariant
            by_salience(out@),
            out@.to_multiset().add(rest@.to_multiset()) == v0.to_multiset(),
            0 <= n <= v0.len(),
            rest@ == v0.skip(n),
            idx.len() == out@.len() == n,
            forall|i: int| 0 <= i < idx.len() ==> 0 <= #[trigger] idx[i] < n && out@[i] == v0[idx[i]],
            forall|i: int, j: int| 0 <= i < j < idx.len() ==> #[trigger] idx[i] != #[trigger] idx[j],
            forall|i: int, j: int|
                0 <= i < j < out@.len() && (#[trigger] out@[i]).salience == (#[trigger] out@[j]).salience
                    ==> idx[i] < idx[j],
        decreases rest.len(),
    {
        let ghost r0 = rest@;
        let x = rest.remove(0);
        assert(r0.remove(0) == rest@);
        assert(x == v0[n]);
        assert(rest@ =~= v0.skip(n + 1));
        assert(r0.to_multiset() == rest@.to_multiset().insert(x)) by {
            vstd::seq_lib::to_multiset_remove(r0, 0);
        }
        let mut j: usize = 0;
        while j < out.len() && out[j].salience >= x.salience
            invariant
                j <= out@.len(),
                forall|k: int| 0 <= k < j ==> #[trigger] out@[k].salience >= x.salience,
            decreases out.len() - j,
        {
            j += 1;
        }
        let ghost o0 = out@;
        let ghost i0 = idx;
        proof {
            if j < out@.len() {
                assert forall|k: int| j <= k < o0.len() implies #[trigger] o0[k].salience < x.salience by {
                    assert(o0[j as int].salience < x.salience);
                    if k > j {
                        assert(o0[j as int].salience >= o0[k].salience);
                    }
                }
            }
        }
        out.insert(j, x);
        assert(out@ == o0.insert(j as int, x));
        proof {
            idx = i0.insert(j as int, n);
            vstd::seq_lib::to_multiset_insert(o0, j as int, x);
            assert forall|a: int, b: int| 0 <= a < b < out@.len() implies (#[trigger] out@[a]).salience
                >= (#[trigger] out@[b]).salience by {
                if b < j {
                    assert(out@[a] == o0[a] && out@[b] == o0[b]);
                } else if b == j {
                    assert(out@[a] == o0[a]);
                } else if a == j {
                    assert(out@[b] == o0[b - 1]);
                } else if a < j {
                    assert(out@[a] == o0[a] && out@[b] == o0[b - 1]);
                } else {
                    assert(out@[a] == o0[a - 1] && out@[b] == o0[b - 1]);
                }
            }
            assert forall|i: int| 0 <= i < idx.len() implies 0 <= #[trigger] idx[i] < n + 1 && out@[i] == v0[idx[i]] by {
                if i < j {
                    assert(idx[i] == i0[i]);
                } else if i > j {
                    assert(idx[i] == i0[i - 1]);
                }
            }
            assert forall|a: int, b: int| 0 <= a < b < idx.len() implies #[trigger] idx[a] != #[trigger] idx[b] by {
                if a < j && b < j {
                    assert(idx[a] == i0[a] && idx[b] == i0[b]);
                } else if a < j && b == j {
                    assert(idx[a] == i0[a]);
                } else if a < j {
                    assert(idx[a] == i0[a] && idx[b] == i0[b - 1]);
                } else if a == j {
                    assert(idx[b] == i0[b - 1]);
                } else {
                    assert(idx[a] == i0[a - 1] && idx[b] == i0[b - 1]);
                }
            }
            assert forall|a: int, b: int|
                0 <= a < b < out@.len() && (#[trigger] out@[a]).salience == (#[trigger] out@[b]).salience
                implies idx[a] < idx[b] by {
                if a < j && b < j {
                    assert(idx[a] == i0[a] && idx[b] == i0[b]);
                    assert(out@[a] == o0[a] && out@[b] == o0[b]);
                } else if a < j && b == j {
                    assert(idx[a] == i0[a]);
                } else if a < j {
                    assert(out@[b] == o0[b - 1]);
                    assert(o0[b - 1].salience < x.salience);
                    assert(out@[a] == o0[a]);
                    assert(o0[a].salience >= x.salience);
                } else if a == j {
                    assert(out@[b] == o0[b - 1]);
                    assert(o0[b - 1].salience < x.salience);
                } else {
                    assert(idx[a] == i0[a - 1] && idx[b] == i0[b - 1]);
                    assert(out@[a] == o0[a - 1] && out@[b] == o0[b - 1]);
                }
            }
            n = n + 1;
            assert(out@.to_multiset().add(rest@.to_multiset()) =~= v0.to_multiset());
        }
    }
    assert(rest@.to_multiset() =~= vstd::multiset::Multiset::<Terminal>::empty());
    assert(out@.to_multiset().add(rest@.to_multiset()) =~= out@.to_multiset());
    assert(stable_by_salience(out@, v0, idx));
    out
}

impl Network {
    /// Compile a batch of rules into one network: each rule's condition becomes a
    /// guard over shared alpha nodes (leaves with the same canonical text share
    /// a node), and the terminals are ordered by descending salience.  When
    /// leaves that print alike mean alike, every terminal's guard is true
    /// exactly when its rule's condition is.
    pub fn compile(rules: Vec<RuleAst>) -> (net: Network)
        ensures
            net.wf(),
            alphas_from(net.alphas@, whens_of(rules@)),
            by_salience(net.terminals@),
            exists|built: Seq<Terminal>|
                #![trigger built.to_multiset()]
                built.len() == rules@.len() && (forall|i: int|
                    0 <= i < rules@.len() ==> compiled_rule(
                        #[trigger] built[i],
                        rules@[i],
                        net.alphas@,
                        text_faithful(whens_of(rules@)),
                    )) && net.terminals@.to_multiset() == built.to_multiset() && exists|idx: Seq<int>|
                    stable_by_salience(net.terminals@, built, idx),
    {
        let ghost rs = rules@;
        let ghost whens = whens_of(rs);
        let ghost f = text_faithful(whens);
        let mut net = Network::new();
        let mut built: Vec<Terminal> = Vec::new();
        let total = rules.len();
        let mut rest = rules;
        let mut n: usize = 0;
        assert(rs.skip(0) =~= rs);
        while rest.len() > 0
            invariant
                n <= rs.len(),
                rest@ == rs.skip(n as int),
                rest@.len() == rs.len() - n,
                rs.len() == total,
                whens == whens_of(rs),
                f == text_faithful(whens),
                alphas_from(net.alphas@, whens),
                built@.len() == n,
                forall|i: int|
                    0 <= i < n ==> compiled_rule(#[trigger] built@[i], rs[i], net.alphas@, f),
            decreases rest.len(),
        {
            let ghost r0 = rest@;
            let r = rest.remove(0);
            assert(r0.remove(0) =~= rest@);
            assert(r == rs[n as int]);
            assert(rest@ =~= rs.skip(n + 1));
            let RuleAst { name, salience, when, then: acts } = r;
            let ghost a0 = net.alphas@;
            assert(whens[n as int] == when);
            let guard = net.compile_guard(when, Ghost(whens), Ghost(n as int));
            proof {
                assert forall|i: int| 0 <= i < n implies compiled_rule(#[trigger] built@[i], rs[i], net.alphas@, f) by {
                    let t = built@[i];
                    lemma_bounded_grow(t.guard, a0.len() as int, net.alphas@.len() as int);
                    if f {
                        lemma_means_ext(t.guard, rs[i].when, a0, net.alphas@);
                    }
                }
            }
            built.push(Terminal { rule_name: name, salience, guard, actions: acts });
            n += 1;
        }
        proof {
            assert(n == rs.len());
        }
        let ghost b = built@;
        net.terminals = sort_by_salience(built);
        proof {
            assert(net.wf());
            assert(net.terminals@.to_multiset() == b.to_multiset());
            assert(exists|idx: Seq<int>| stable_by_salience(net.terminals@, b, idx));
        }
        net
    }
}

proof fn lemma_bounded_grow(g: Guard, n: int, m: int)
    requires
        guard_bounded(g, n),
        n <= m,
    ensures
        guard_bounded(g, m),
    decreases g,
{
    match g {
        Guard::And(gs) => {
            assert(decreases_to!(g => gs));
            lemma_all_bounded_grow(gs@, n, m);
        },
        Guard::Or(gs) => {
            assert(decreases_to!(g => gs));
            lemma_all_bounded_grow(gs@, n, m);
        },
        Guard::Not(inner) => lemma_bounded_grow(*inner, n, m),
        _ => {},
    }
}

proof fn lemma_all_bounded_grow(gs: Seq<Guard>, n: int, m: int)
    requires
        crate::rete::terminal::all_bounded(gs, n),
        n <= m,
    ensures
        crate::rete::terminal::all_bounded(gs, m),
    decreases gs,
{
    if gs.len() > 0 {
        assert(decreases_to!(gs => gs[0]));
        lemma_bounded_grow(gs[0], n, m);
        assert(gs.drop_first() =~= gs.subrange(1, gs.len() as int));
        lemma_all_bounded_grow(gs.drop_first(), n, m);
    }
}

} // verus!
