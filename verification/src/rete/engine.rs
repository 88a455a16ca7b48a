//! Expression evaluation, rule actions, the firing loop, and the decision that
//! the accumulated outcome stands for.
use vstd::prelude::*;

use crate::context::RequestContext;
use crate::crs::types::CrsResult;
use crate::grl::ast::{
    spec_as_bool, spec_as_int, spec_as_str, values_view, BinOp, CallExpr, Expr, UnaryOp, Value,
    ValueView,
};
use crate::grl::functions::spec_arg_str;
use crate::grl::registry::{spec_call, FunctionRegistry};
use crate::context::spec_lookup;
use crate::crs::plugin::CrsPlugin;
use crate::crs::tx::{assoc_get, lemma_assoc_push, lemma_assoc_update, str_entries};
use crate::lists::{spec_blacklisted, BlacklistPlugin, IpListStore};
use crate::pattern::regex_is_match;
use crate::crs::evaluator::CrsRuleset;
use crate::grl::ast::Stmt;
use crate::rete::alpha::{alpha_wf, AlphaNode, CompiledAlpha};
use crate::rete::terminal::{spec_guard, Terminal};
use crate::rete::working_memory::{
    copy_value, empty_outcome, path_key, scratch_put, scratch_view, spec_read, texts, ChallengeReq,
    Outcome, OutcomeView, SegView, WorkingMemory,
};
use crate::rete::Network;
use crate::text::{chars_of, push_str, str_eq_chars, string_of};
use crate::types::{ChallengeKind, Decision};

verus! {

// ─── expression evaluation ──────────────────────────────────────────────────

/// What rule expressions are evaluated against: the request, the installed IP
/// lists and the request's CRS result.
pub struct Env {
    pub fact: RequestContext,
    pub lists: Option<IpListStore>,
    pub crs: Option<CrsResult>,
}

/// The environment of a working memory.
pub open spec fn env_of(wm: WorkingMemory) -> Env {
    Env { fact: *wm.fact, lists: wm.registry.lists(), crs: *wm.crs }
}

/// Equality of rule values: same-typed values compare directly, values of
/// different types by their text.
pub open spec fn spec_value_eq(a: ValueView, b: ValueView) -> bool {
    match (a, b) {
        (ValueView::Null, ValueView::Null) => true,
        (ValueView::Bool(x), ValueView::Bool(y)) => x == y,
        (ValueView::Int(x), ValueView::Int(y)) => x == y,
        (ValueView::Str(x), ValueView::Str(y)) => x == y,
        _ => spec_as_str(a) == spec_as_str(b),
    }
}

/// Integer division rounding toward zero, for a positive divisor.
pub open spec fn trunc_div(a: i64, b: i64) -> i64 {
    if a >= 0 {
        (a / b) as i64
    } else {
        (-((-(a as int)) / (b as int))) as i64
    }
}

/// A binary operator applied to two values: logic on truthiness, comparisons
/// on integers, `+` concatenates when either side is a string, arithmetic wraps
/// around, and division rounds toward zero by a divisor of at least 1.
pub open spec fn spec_binary(op: BinOp, l: ValueView, r: ValueView) -> ValueView {
    match op {
        BinOp::And => ValueView::Bool(spec_as_bool(l) && spec_as_bool(r)),
        BinOp::Or => ValueView::Bool(spec_as_bool(l) || spec_as_bool(r)),
        BinOp::Eq => ValueView::Bool(spec_value_eq(l, r)),
        BinOp::Neq => ValueView::Bool(!spec_value_eq(l, r)),
        BinOp::Lt => ValueView::Bool(spec_as_int(l) < spec_as_int(r)),
        BinOp::Lte => ValueView::Bool(spec_as_int(l) <= spec_as_int(r)),
        BinOp::Gt => ValueView::Bool(spec_as_int(l) > spec_as_int(r)),
        BinOp::Gte => ValueView::Bool(spec_as_int(l) >= spec_as_int(r)),
        BinOp::Add => match (l, r) {
            (ValueView::Str(a), b) => ValueView::Str(a + spec_as_str(b)),
            (a, ValueView::Str(b)) => ValueView::Str(spec_as_str(a) + b),
            _ => ValueView::Int(spec_as_int(l).wrapping_add(spec_as_int(r))),
        },
        BinOp::Sub => ValueView::Int(spec_as_int(l).wrapping_sub(spec_as_int(r))),
        BinOp::Mul => ValueView::Int(spec_as_int(l).wrapping_mul(spec_as_int(r))),
        BinOp::Div => ValueView::Int(
            trunc_div(
                spec_as_int(l),
                if spec_as_int(r) >= 1 {
                    spec_as_int(r)
                } else {
                    1
                },
            ),
        ),
    }
}

/// The value of an expression: literals as written, paths read through the
/// overlay, calls through the registry, operators by [`spec_binary`].
pub open spec fn spec_eval(e: Expr, env: Env, s: Seq<(Seq<SegView>, ValueView)>) -> ValueView
    decreases e,
{
    match e {
        Expr::Literal(v) => v@,
        Expr::Path(p) => spec_read(s, env.fact, path_key(p)),
        Expr::Call(c) => {
            proof {
                assert(decreases_to!(c => c.args));
                assert(decreases_to!(c.args => c.args@));
            }
            spec_call(c.name@, env.fact, spec_eval_args(c.args@, env, s), env.lists, env.crs)
        },
        Expr::Unary { op, expr } => ValueView::Bool(!spec_as_bool(spec_eval(*expr, env, s))),
        Expr::Binary { op, left, right } => spec_binary(
            op,
            spec_eval(*left, env, s),
            spec_eval(*right, env, s),
        ),
    }
}

/// The values of a list of arguments, in order.
pub open spec fn spec_eval_args(args: Seq<Expr>, env: Env, s: Seq<(Seq<SegView>, ValueView)>) -> Seq<
    ValueView,
>
    decreases args,
{
    if args.len() == 0 {
        seq![]
    } else {
        proof {
            assert(args.drop_last() =~= args.subrange(0, args.len() - 1));
        }
        spec_eval_args(args.drop_last(), env, s).push(spec_eval(args.last(), env, s))
    }
}

fn value_eq(a: &Value, b: &Value) -> (r: bool)
    ensures
        r == spec_value_eq(a@, b@),
{
    match (a, b) {
        (Value::Null, Value::Null) => true,
        (Value::Bool(x), Value::Bool(y)) => *x == *y,
        (Value::Int(x), Value::Int(y)) => *x == *y,
        (Value::Str(x), Value::Str(y)) => {
            let yc = chars_of(y.as_str());
            str_eq_chars(x.as_str(), yc.as_slice())
        },
        _ => {
            let x = a.as_str();
            let y = b.as_str();
            let yc = chars_of(y.as_str());
            str_eq_chars(x.as_str(), yc.as_slice())
        },
    }
}

fn div_toward_zero(a: i64, b: i64) -> (r: i64)
    requires
        b >= 1,
    ensures
        r == trunc_div(a, b),
{
    let d: u64 = b as u64;
    if a >= 0 {
        let n: u64 = a as u64;
        let q: u64 = n / d;
        assert(q <= n) by (nonlinear_arith)
            requires
                d >= 1,
                q == n / d,
        ;
        q as i64
    } else {
        let n: u64 = (0i128 - a as i128) as u64;
        let q: u64 = n / d;
        assert(q <= n) by (nonlinear_arith)
            requires
                d >= 1,
                q == n / d,
        ;
        (0i128 - q as i128) as i64
    }
}

fn concat(a: &String, b: &String) -> (r: String)
    ensures
        r@ == a@ + b@,
{
    let mut out = chars_of(a.as_str());
    push_str(&mut out, b.as_str());
    string_of(out.as_slice())
}

fn binary(op: BinOp, lv: Value, rv: Value) -> (r: Value)
    ensures
        r@ == spec_binary(op, lv@, rv@),
{
    match op {
        BinOp::And => Value::Bool(lv.as_bool() && rv.as_bool()),
        BinOp::Or => Value::Bool(lv.as_bool() || rv.as_bool()),
        BinOp::Eq => Value::Bool(value_eq(&lv, &rv)),
        BinOp::Neq => Value::Bool(!value_eq(&lv, &rv)),
        BinOp::Lt => Value::Bool(lv.as_int() < rv.as_int()),
        BinOp::Lte => Value::Bool(lv.as_int() <= rv.as_int()),
        BinOp::Gt => Value::Bool(lv.as_int() > rv.as_int()),
        BinOp::Gte => Value::Bool(lv.as_int() >= rv.as_int()),
        BinOp::Add => match (&lv, &rv) {
            (Value::Str(a), b) => {
                let bs = b.as_str();
                Value::Str(concat(a, &bs))
            },
            (a, Value::Str(b)) => {
                let a_s = a.as_str();
                Value::Str(concat(&a_s, b))
            },
            _ => Value::Int(lv.as_int().wrapping_add(rv.as_int())),
        },
        BinOp::Sub => Value::Int(lv.as_int().wrapping_sub(rv.as_int())),
        BinOp::Mul => Value::Int(lv.as_int().wrapping_mul(rv.as_int())),
        BinOp::Div => {
            let d = rv.as_int();
            let d1: i64 = if d >= 1 {
                d
            } else {
                1
            };
            Value::Int(div_toward_zero(lv.as_int(), d1))
        },
    }
}

/// The values of a call's arguments.
#[verifier::loop_isolation(false)]
fn eval_args(c: &CallExpr, wm: &WorkingMemory, Ghost(e): Ghost<Expr>) -> (r: Vec<Value>)
    requires
        wm.registry.wf(),
        e == Expr::Call(*c),
    ensures
        values_view(r@) == spec_eval_args(c.args@, env_of(*wm), scratch_view(wm.scratch@)),
    decreases e, 0nat,
{
    let ghost env = env_of(*wm);
    let ghost sv = scratch_view(wm.scratch@);
    let mut vals: Vec<Value> = Vec::new();
    let mut i: usize = 0;
    while i < c.args.len()
        invariant
            i <= c.args@.len(),
            values_view(vals@) == spec_eval_args(c.args@.take(i as int), env, sv),
        decreases c.args.len() - i,
    {
        proof {
            assert(e->Call_0 == *c);
            assert(decreases_to!(e => e->Call_0));
            assert(decreases_to!(*c => c.args));
            assert(decreases_to!(c.args => c.args@));
            assert(decreases_to!(c.args@ => c.args@[i as int]));
        }
        let v = eval_expr(&c.args[i], wm);
        let ghost before = values_view(vals@);
        vals.push(v);
        proof {
            let t = c.args@.take(i + 1);
            assert(t.drop_last() =~= c.args@.take(i as int));
            assert(t.last() == c.args@[i as int]);
            assert(values_view(vals@) =~= before.push(v@));
        }
        i += 1;
    }
    assert(c.args@.take(c.args@.len() as int) =~= c.args@);
    vals
}

/// Evaluate an expression in the working memory (see [`spec_eval`]).
pub fn eval_expr(e: &Expr, wm: &WorkingMemory) -> (r: Value)
    requires
        wm.registry.wf(),
    ensures
        r@ == spec_eval(*e, env_of(*wm), scratch_view(wm.scratch@)),
    decreases *e, 1nat,
{
    match e {
        Expr::Literal(v) => copy_value(v),
        Expr::Path(p) => wm.read_path(p),
        Expr::Call(c) => {
            let args = eval_args(c, wm, Ghost(*e));
            wm.registry.call(c.name.as_str(), wm.fact, args.as_slice(), wm.crs)
        },
        Expr::Unary { op, expr } => {
            let v = eval_expr(expr, wm);
            Value::Bool(!v.as_bool())
        },
        Expr::Binary { op, left, right } => {
            let lv = eval_expr(left, wm);
            let rv = eval_expr(right, wm);
            binary(*op, lv, rv)
        },
    }
}

/// Evaluate an alpha node, through its compiled regex when it has one.
pub fn eval_alpha(node: &AlphaNode, wm: &WorkingMemory) -> (r: bool)
    requires
        wm.registry.wf(),
        alpha_wf(*node),
    ensures
        r == spec_as_bool(spec_eval(node.expr, env_of(*wm), scratch_view(wm.scratch@))),
{
    match &node.compiled {
        Some(CompiledAlpha::MatchesRegex { re }) => {
            match &node.expr {
                Expr::Call(c) => {
                    let hay = eval_expr(&c.args[0], wm);
                    let hs = hay.as_str();
                    let r = regex_is_match(re, hs.as_str());
                    proof {
                        let env = env_of(*wm);
                        let sv = scratch_view(wm.scratch@);
                        reveal_with_fuel(spec_eval_args, 3);
                        assert(c.args@.drop_last().drop_last() =~= Seq::<Expr>::empty());
                        let vs = spec_eval_args(c.args@, env, sv);
                        assert(vs.len() == 2);
                        assert(vs[0] == spec_eval(c.args@[0], env, sv));
                        reveal_strlit("matches");
                        reveal_strlit("header_count");
                        reveal_strlit("has_header");
                        reveal_strlit("is_path_under");
                        reveal_strlit("ip_in_blacklist");
                        reveal_strlit("ip_in_whitelist");
                        reveal_strlit("crs_score");
                        reveal_strlit("crs_match");
                        assert(c.name@ == "matches"@);
                        assert(c.name@[0] != "header_count"@[0]);
                        assert(c.name@[0] != "has_header"@[0]);
                        assert(c.name@[0] != "is_path_under"@[0]);
                        assert(c.name@[0] != "ip_in_blacklist"@[0]);
                        assert(c.name@[0] != "ip_in_whitelist"@[0]);
                        assert(c.name@[0] != "crs_score"@[0]);
                        assert(c.name@[0] != "crs_match"@[0]);
                    }
                    r
                },
                _ => {
                    proof {
                        assert(false);
                    }
                    false
                },
            }
        },
        None => eval_expr(&node.expr, wm).as_bool(),
    }
}


// ─── rule actions ───────────────────────────────────────────────────────────

/// The state the firing loop threads through: the assignment overlay, the
/// outcome, and the names of the rules that fired or were retracted.
pub struct FireState {
    pub scratch: Seq<(Seq<SegView>, ValueView)>,
    pub outcome: OutcomeView,
    pub fired: Seq<Seq<char>>,
}

/// The loop state of a working memory and a fired-set.
pub open spec fn state_of(wm: WorkingMemory, fired: Seq<String>) -> FireState {
    FireState { scratch: scratch_view(wm.scratch@), outcome: wm.outcome@, fired: texts(fired) }
}

/// What an action call does: `block(reason)`, `allow()`, `challenge(kind)` (a
/// proof of work for `"pow"`, else a JavaScript challenge), `rate_limit(secs)`
/// (60 without an argument), `log(msg)`, `retract(rule)` (that rule will not
/// fire); any other name is logged as an unknown action.
pub open spec fn spec_run_action(name: Seq<char>, args: Seq<ValueView>, st: FireState) -> FireState {
    let a0 = spec_arg_str(args, 0);
    let o = st.outcome;
    if name == "block"@ {
        FireState { outcome: OutcomeView { block_reason: Some(a0), ..o }, ..st }
    } else if name == "allow"@ {
        FireState { outcome: OutcomeView { allow: true, ..o }, ..st }
    } else if name == "challenge"@ {
        FireState {
            outcome: OutcomeView {
                challenge: Some(
                    if a0 == "pow"@ {
                        ChallengeReq::Pow
                    } else {
                        ChallengeReq::Js
                    },
                ),
                ..o
            },
            ..st
        }
    } else if name == "rate_limit"@ {
        FireState {
            outcome: OutcomeView {
                rate_limit_secs: Some(
                    if args.len() > 0 {
                        spec_as_int(args[0]) as u64
                    } else {
                        60
                    },
                ),
                ..o
            },
            ..st
        }
    } else if name == "log"@ {
        FireState { outcome: OutcomeView { log_messages: o.log_messages.push(a0), ..o }, ..st }
    } else if name == "retract"@ {
        FireState { fired: st.fired.push(a0), ..st }
    } else {
        FireState {
            outcome: OutcomeView { log_messages: o.log_messages.push("unknown action: "@ + name), ..o },
            ..st
        }
    }
}

/// What one `then` statement does.
pub open spec fn spec_run_stmt(stmt: Stmt, env: Env, st: FireState) -> FireState {
    match stmt {
        Stmt::Assign { target, value } => FireState {
            scratch: scratch_put(st.scratch, path_key(target), spec_eval(value, env, st.scratch)),
            ..st
        },
        Stmt::Call(c) => spec_run_action(c.name@, spec_eval_args(c.args@, env, st.scratch), st),
    }
}

/// The statements of a rule, run in order.
pub open spec fn spec_run_stmts(stmts: Seq<Stmt>, env: Env, st: FireState) -> FireState
    decreases stmts.len(),
{
    if stmts.len() == 0 {
        st
    } else {
        spec_run_stmts(stmts.drop_first(), env, spec_run_stmt(stmts[0], env, st))
    }
}

fn is_name(name: &[char], l: &str) -> (r: bool)
    ensures
        r == (name@ == l@),
{
    let v = chars_of(l);
    crate::text::chars_eq(name, v.as_slice())
}

fn arg0(args: &Vec<Value>) -> (r: String)
    ensures
        r@ == spec_arg_str(values_view(args@), 0),
{
    if args.len() > 0 {
        args[0].as_str()
    } else {
        let e: Vec<char> = Vec::new();
        string_of(e.as_slice())
    }
}

proof fn lemma_texts_push(v: Seq<String>, s: String)
    ensures
        texts(v.push(s)) == texts(v).push(s@),
{
    assert(texts(v.push(s)) =~= texts(v).push(s@));
}

fn run_action(call: &CallExpr, wm: &mut WorkingMemory, fired: &mut Vec<String>)
    requires
        old(wm).registry.wf(),
    ensures
        env_of(*final(wm)) == env_of(*old(wm)),
        final(wm).registry == old(wm).registry,
        state_of(*final(wm), final(fired)@) == spec_run_action(
            call.name@,
            spec_eval_args(call.args@, env_of(*old(wm)), scratch_view(old(wm).scratch@)),
            state_of(*old(wm), old(fired)@),
        ),
{
    let args = eval_args(call, &*wm, Ghost(Expr::Call(*call)));
    let n = chars_of(call.name.as_str());
    let ns = n.as_slice();
    let ghost lm = wm.outcome.log_messages@;
    let ghost fv = fired@;
    if is_name(ns, "block") {
        wm.outcome.block_reason = Some(arg0(&args));
    } else if is_name(ns, "allow") {
        wm.outcome.allow = true;
    } else if is_name(ns, "challenge") {
        let kind = arg0(&args);
        let kc = chars_of(kind.as_str());
        let pow = is_name(kc.as_slice(), "pow");
        wm.outcome.challenge = Some(
            if pow {
                ChallengeReq::Pow
            } else {
                ChallengeReq::Js
            },
        );
    } else if is_name(ns, "rate_limit") {
        let secs: u64 = if args.len() > 0 {
            args[0].as_int() as u64
        } else {
            60
        };
        wm.outcome.rate_limit_secs = Some(secs);
    } else if is_name(ns, "log") {
        let m = arg0(&args);
        proof {
            lemma_texts_push(lm, m);
        }
        wm.outcome.log_messages.push(m);
    } else if is_name(ns, "retract") {
        let m = arg0(&args);
        proof {
            lemma_texts_push(fv, m);
        }
        fired.push(m);
    } else {
        let mut msg = chars_of("unknown action: ");
        push_str(&mut msg, call.name.as_str());
        let m = string_of(msg.as_slice());
        proof {
            lemma_texts_push(lm, m);
        }
        wm.outcome.log_messages.push(m);
    }
}

fn run_stmt(stmt: &Stmt, wm: &mut WorkingMemory, fired: &mut Vec<String>)
    requires
        old(wm).registry.wf(),
    ensures
        env_of(*final(wm)) == env_of(*old(wm)),
        final(wm).registry == old(wm).registry,
        state_of(*final(wm), final(fired)@) == spec_run_stmt(
            *stmt,
            env_of(*old(wm)),
            state_of(*old(wm), old(fired)@),
        ),
{
    match stmt {
        Stmt::Assign { target, value } => {
            let v = eval_expr(value, &*wm);
            wm.write_path(target, v);
        },
        Stmt::Call(c) => run_action(c, wm, fired),
    }
}

// ─── the firing loop ────────────────────────────────────────────────────────

/// Maximum number of fire cycles per request.
pub const MAX_CYCLES: u32 = 16;

/// The truth value of every alpha node in the current state.
pub open spec fn spec_alpha_values(
    alphas: Seq<AlphaNode>,
    env: Env,
    s: Seq<(Seq<SegView>, ValueView)>,
) -> Seq<bool> {
    Seq::new(alphas.len(), |i: int| spec_as_bool(spec_eval(alphas[i].expr, env, s)))
}

/// The first terminal from `i` on whose guard holds and that has not fired.
pub open spec fn first_ready(terms: Seq<Terminal>, a: Seq<bool>, fired: Seq<Seq<char>>, i: int) -> Option<int>
    decreases terms.len() - i,
{
    if i < 0 || i >= terms.len() {
        None
    } else if spec_guard(terms[i].guard, a) && !fired.contains(terms[i].rule_name@) {
        Some(i)
    } else {
        first_ready(terms, a, fired, i + 1)
    }
}

/// Up to `n` more cycles: each fires the first ready terminal in salience
/// order (recording it as fired and matched, then running its statements); the
/// loop stops when no terminal is ready or an outcome blocks or allows.
pub open spec fn spec_cycles(net: Network, env: Env, st: FireState, n: nat) -> FireState
    decreases n,
{
    if n == 0 {
        st
    } else {
        let a = spec_alpha_values(net.alphas@, env, st.scratch);
        match first_ready(net.terminals@, a, st.fired, 0) {
            None => st,
            Some(k) => {
                let name = net.terminals@[k].rule_name@;
                let st1 = FireState {
                    fired: st.fired.push(name),
                    outcome: OutcomeView {
                        matched_rules: st.outcome.matched_rules.push(name),
                        ..st.outcome
                    },
                    ..st
                };
                let st2 = spec_run_stmts(net.terminals@[k].actions@, env, st1);
                if st2.outcome.block_reason is Some || st2.outcome.allow {
                    st2
                } else {
                    spec_cycles(net, env, st2, (n - 1) as nat)
                }
            },
        }
    }
}

/// The outcome of firing the network against one request.
pub open spec fn spec_fire(net: Network, env: Env) -> OutcomeView {
    spec_cycles(
        net,
        env,
        FireState { scratch: seq![], outcome: empty_outcome(), fired: seq![] },
        MAX_CYCLES as nat,
    ).outcome
}

fn contains_name(fired: &Vec<String>, name: &String) -> (r: bool)
    ensures
        r == texts(fired@).contains(name@),
{
    let nc = chars_of(name.as_str());
    let mut i: usize = 0;
    while i < fired.len()
        invariant
            i <= fired@.len(),
            nc@ == name@,
            forall|j: int| 0 <= j < i ==> fired@[j]@ != name@,
        decreases fired.len() - i,
    {
        if str_eq_chars(fired[i].as_str(), nc.as_slice()) {
            assert(texts(fired@)[i as int] == name@);
            return true;
        }
        i += 1;
    }
    proof {
        if texts(fired@).contains(name@) {
            let k = choose|k: int| 0 <= k < texts(fired@).len() && texts(fired@)[k] == name@;
            assert(fired@[k]@ == name@);
        }
    }
    false
}

fn alpha_values(net: &Network, wm: &WorkingMemory) -> (r: Vec<bool>)
    requires
        net.wf(),
        wm.registry.wf(),
    ensures
        r@ == spec_alpha_values(net.alphas@, env_of(*wm), scratch_view(wm.scratch@)),
{
    let ghost want = spec_alpha_values(net.alphas@, env_of(*wm), scratch_view(wm.scratch@));
    let mut out: Vec<bool> = Vec::new();
    let mut i: usize = 0;
    while i < net.alphas.len()
        invariant
            i <= net.alphas@.len(),
            net.wf(),
            wm.registry.wf(),
            want == spec_alpha_values(net.alphas@, env_of(*wm), scratch_view(wm.scratch@)),
            out@ == want.take(i as int),
        decreases net.alphas.len() - i,
    {
        let b = eval_alpha(&net.alphas[i], wm);
        out.push(b);
        assert(out@ =~= want.take(i + 1));
        i += 1;
    }
    assert(want.take(i as int) =~= want);
    out
}

fn find_ready(terms: &Vec<Terminal>, a: &Vec<bool>, fired: &Vec<String>) -> (r: Option<usize>)
    ensures
        match r {
            Some(k) => k < terms@.len() && first_ready(terms@, a@, texts(fired@), 0) == Some(k as int),
            None => first_ready(terms@, a@, texts(fired@), 0) is None,
        },
{
    let mut k: usize = 0;
    while k < terms.len()
        invariant
            k <= terms@.len(),
            first_ready(terms@, a@, texts(fired@), 0) == first_ready(terms@, a@, texts(fired@), k as int),
        decreases terms.len() - k,
    {
        if terms[k].guard.eval(a.as_slice()) && !contains_name(fired, &terms[k].rule_name) {
            return Some(k);
        }
        k += 1;
    }
    None
}

fn run_stmts(stmts: &Vec<Stmt>, wm: &mut WorkingMemory, fired: &mut Vec<String>)
    requires
        old(wm).registry.wf(),
    ensures
        env_of(*final(wm)) == env_of(*old(wm)),
        final(wm).registry == old(wm).registry,
        state_of(*final(wm), final(fired)@) == spec_run_stmts(
            stmts@,
            env_of(*old(wm)),
            state_of(*old(wm), old(fired)@),
        ),
{
    let ghost env = env_of(*wm);
    let ghost want = spec_run_stmts(stmts@, env, state_of(*wm, fired@));
    let ghost reg0 = wm.registry;
    let mut i: usize = 0;
    assert(stmts@.skip(0) =~= stmts@);
    while i < stmts.len()
        invariant
            i <= stmts@.len(),
            env_of(*wm) == env,
            wm.registry == reg0,
            wm.registry.wf(),
            want == spec_run_stmts(stmts@.skip(i as int), env, state_of(*wm, fired@)),
        decreases stmts.len() - i,
    {
        assert(stmts@.skip(i as int).drop_first() =~= stmts@.skip(i + 1));
        assert(stmts@.skip(i as int)[0] == stmts@[i as int]);
        run_stmt(&stmts[i], wm, fired);
        i += 1;
    }
    assert(stmts@.skip(i as int) =~= Seq::<Stmt>::empty());
}

/// A plugin of the rule engine.
pub enum Plugin {
    Blacklist(BlacklistPlugin),
    Crs(CrsPlugin),
}

/// The extensions after setting `key` to `value`: an existing entry is replaced,
/// otherwise one is appended.
fn set_extension(exts: &mut Vec<(String, String)>, key: &str, value: &str)
    ensures
        forall|k: Seq<char>|
            #![trigger spec_lookup(final(exts)@, k)]
            spec_lookup(final(exts)@, k) == (if k == key@ {
                Some(value@)
            } else {
                spec_lookup(old(exts)@, k)
            }),
{
    let ghost s0 = str_entries(exts@);
    let ghost e0 = exts@;
    let kc = chars_of(key);
    let mut i: usize = 0;
    while i < exts.len()
        invariant
            i <= exts@.len(),
            kc@ == key@,
            exts@ == e0,
            old(exts)@ == e0,
            s0 == str_entries(e0),
            forall|j: int| 0 <= j < i ==> #[trigger] exts@[j].0@ != key@,
        decreases exts.len() - i,
    {
        if str_eq_chars(exts[i].0.as_str(), kc.as_slice()) {
            assert forall|j: int| 0 <= j < i implies s0[j].0 != key@ by {
                assert(s0[j].0 == e0[j].0@);
            }
            assert(s0[i as int].0 == key@);
            let kv = string_of(kc.as_slice());
            let vc = chars_of(value);
            let vv = string_of(vc.as_slice());
            exts.set(i, (kv, vv));
            proof {
                assert forall|k: Seq<char>| #[trigger]
                    spec_lookup(exts@, k) == (if k == key@ {
                        Some(value@)
                    } else {
                        spec_lookup(old(exts)@, k)
                    }) by {
                    assert(str_entries(exts@) =~= s0.update(i as int, (key@, value@)));
                    lemma_assoc_update(s0, key@, value@, i as int, k);
                }
            }
            return;
        }
        i += 1;
    }
    let kv = string_of(kc.as_slice());
    let vc = chars_of(value);
    let vv = string_of(vc.as_slice());
    exts.push((kv, vv));
    proof {
        assert forall|k: Seq<char>| #[trigger]
            spec_lookup(exts@, k) == (if k == key@ {
                Some(value@)
            } else {
                spec_lookup(old(exts)@, k)
            }) by {
            assert(str_entries(exts@) =~= s0.push((key@, value@)));
            assert forall|j: int| 0 <= j < s0.len() implies #[trigger] s0[j].0 != key@ by {
                assert(s0[j].0 == e0[j].0@);
            }
            lemma_no_key(s0, key@);
            lemma_assoc_push(s0, key@, value@, k);
        }
    }
}

proof fn lemma_no_key(s: Seq<(Seq<char>, Seq<char>)>, k: Seq<char>)
    requires
        forall|j: int| 0 <= j < s.len() ==> #[trigger] s[j].0 != k,
    ensures
        assoc_get(s, k) is None,
    decreases s.len(),
{
    if s.len() > 0 {
        assert(s[0].0 != k);
        assert forall|j: int| 0 <= j < s.drop_first().len() implies #[trigger] s.drop_first()[j].0 != k by {
            assert(s.drop_first()[j] == s[j + 1]);
        }
        lemma_no_key(s.drop_first(), k);
    }
}

/// A compiled network with its function registry.
pub struct Engine {
    pub network: Network,
    /// Context-aware functions callable from rules.
    pub registry: FunctionRegistry,
    /// The CRS rule set behind `crs_score()` and `crs_match(tag)`, once installed.
    pub crs: Option<CrsRuleset>,
}

impl Engine {
    /// The network is well formed and the installed lists are.
    pub open spec fn wf(&self) -> bool {
        self.network.wf() && self.registry.wf()
    }

    /// An engine over `network` with only the built-in functions.
    pub fn new(network: Network) -> (r: Self)
        requires
            network.wf(),
        ensures
            r.wf(),
            r.network == network,
            r.registry.lists() is None,
            r.crs is None,
    {
        Engine { network, registry: FunctionRegistry::new(), crs: None }
    }

    /// Install a plugin: the IP lists answer `ip_in_blacklist` / `ip_in_whitelist`
    /// and drive [`Engine::enrich`]; a CRS rule set answers `crs_score` /
    /// `crs_match`.
    pub fn install(&mut self, plugin: Plugin)
        requires
            old(self).wf(),
            plugin matches Plugin::Blacklist(p) ==> p.store.wf(),
        ensures
            final(self).wf(),
            final(self).network == old(self).network,
            match plugin {
                Plugin::Blacklist(p) => final(self).registry.lists() == Some(p.store) && final(self).crs
                    == old(self).crs,
                Plugin::Crs(p) => final(self).registry == old(self).registry && final(self).crs == Some(
                    p.ruleset,
                ),
            },
    {
        match plugin {
            Plugin::Blacklist(p) => self.registry.register_ip_lists(p.store),
            Plugin::Crs(p) => {
                self.crs = Some(p.ruleset);
            },
        }
    }

    /// Tag the request with what the installed plugins know of it: with IP
    /// lists installed, the extension `blacklisted` is set to `true` or `false`.
    pub fn enrich(&self, ctx: &mut RequestContext)
        requires
            self.wf(),
        ensures
            *final(ctx) == (RequestContext { extensions: final(ctx).extensions, ..*old(ctx) }),
            match self.registry.lists() {
                Some(s) => forall|k: Seq<char>|
                    #![trigger spec_lookup(final(ctx).extensions@, k)]
                    spec_lookup(final(ctx).extensions@, k) == (if k == "blacklisted"@ {
                        Some(
                            if spec_blacklisted(s.blacklist(), s.whitelist(), old(ctx).client_ip@) {
                                "true"@
                            } else {
                                "false"@
                            },
                        )
                    } else {
                        spec_lookup(old(ctx).extensions@, k)
                    }),
                None => final(ctx).extensions == old(ctx).extensions,
            },
    {
        match self.registry.lists_ref() {
            Some(store) => {
                let black = store.is_blacklisted(ctx.client_ip.as_str());
                let v = if black {
                    "true"
                } else {
                    "false"
                };
                set_extension(&mut ctx.extensions, "blacklisted", v);
            },
            None => {},
        }
    }

    /// Fire the network against `fact`: with the CRS installed, the CRS runs
    /// once on the request first and its result answers the CRS functions.
    pub fn fire(&self, fact: &RequestContext) -> (r: Outcome)
        requires
            self.wf(),
        ensures
            self.crs is None ==> r@ == spec_fire(
                self.network,
                Env { fact: *fact, lists: self.registry.lists(), crs: None },
            ),
            self.crs matches Some(rs) ==> exists|c: CrsResult|
                rs.evaluates_to(*fact, c) && r@ == #[trigger] spec_fire(
                    self.network,
                    Env { fact: *fact, lists: self.registry.lists(), crs: Some(c) },
                ),
    {
        let res = match &self.crs {
            Some(rs) => Some(rs.evaluate(fact)),
            None => None,
        };
        let r = self.fire_with(fact, &res);
        proof {
            if self.crs is Some {
                let c = res->Some_0;
                assert(self.crs->Some_0.evaluates_to(*fact, c));
                assert(r@ == spec_fire(
                    self.network,
                    Env { fact: *fact, lists: self.registry.lists(), crs: Some(c) },
                ));
            }
        }
        r
    }

    /// Fire the network against `fact` with the given CRS result (see
    /// [`spec_fire`]).
    pub fn fire_with(&self, fact: &RequestContext, crs: &Option<CrsResult>) -> (r: Outcome)
        requires
            self.wf(),
        ensures
            r@ == spec_fire(self.network, Env { fact: *fact, lists: self.registry.lists(), crs: *crs }),
    {
        let ghost env = Env { fact: *fact, lists: self.registry.lists(), crs: *crs };
        let ghost init = FireState { scratch: seq![], outcome: empty_outcome(), fired: seq![] };
        let ghost want = spec_cycles(self.network, env, init, MAX_CYCLES as nat);
        let mut wm = WorkingMemory::new(fact, &self.registry, crs);
        let mut fired: Vec<String> = Vec::new();
        assert(texts(fired@) =~= seq![]);
        assert(scratch_view(wm.scratch@) =~= seq![]);
        let mut cycle: u32 = 0;
        let mut done = false;
        while !done && cycle < MAX_CYCLES
            invariant
                cycle <= MAX_CYCLES,
                self.wf(),
                env_of(wm) == env,
                wm.registry == &self.registry,
                done ==> want == state_of(wm, fired@),
                !done ==> want == spec_cycles(
                    self.network,
                    env,
                    state_of(wm, fired@),
                    (MAX_CYCLES - cycle) as nat,
                ),
            decreases MAX_CYCLES - cycle,
        {
            let alphas = alpha_values(&self.network, &wm);
            match find_ready(&self.network.terminals, &alphas, &fired) {
                None => {
                    done = true;
                },
                Some(k) => {
                    let term = &self.network.terminals[k];
                    let ghost name = term.rule_name@;
                    let ghost f0 = fired@;
                    let ghost m0 = wm.outcome.matched_rules@;
                    proof {
                        lemma_texts_push(f0, term.rule_name);
                        lemma_texts_push(m0, term.rule_name);
                    }
                    fired.push(term.rule_name.clone());
                    wm.outcome.matched_rules.push(term.rule_name.clone());
                    run_stmts(&term.actions, &mut wm, &mut fired);
                    if wm.outcome.block_reason.is_some() || wm.outcome.allow {
                        done = true;
                    }
                },
            }
            cycle += 1;
        }
        wm.outcome
    }
}

// ─── laws of the firing loop ────────────────────────────────────────────────

/// No name occurs twice.
pub open spec fn no_dups(s: Seq<Seq<char>>) -> bool {
    forall|i: int, j: int| 0 <= i < j < s.len() ==> s[i] != s[j]
}

/// Whether terminal `i` can fire: its guard holds and it has not fired.
pub open spec fn ready(terms: Seq<Terminal>, a: Seq<bool>, fired: Seq<Seq<char>>, i: int) -> bool {
    spec_guard(terms[i].guard, a) && !fired.contains(terms[i].rule_name@)
}

proof fn lemma_first_ready(terms: Seq<Terminal>, a: Seq<bool>, fired: Seq<Seq<char>>, start: int)
    requires
        0 <= start,
    ensures
        match first_ready(terms, a, fired, start) {
            Some(k) => start <= k < terms.len() && ready(terms, a, fired, k) && forall|i: int|
                start <= i < k ==> !ready(terms, a, fired, i),
            None => forall|i: int| start <= i < terms.len() ==> !ready(terms, a, fired, i),
        },
    decreases terms.len() - start,
{
    if start < terms.len() {
        lemma_first_ready(terms, a, fired, start + 1);
    }
}

proof fn lemma_stmt_keeps_matched(stmt: Stmt, env: Env, st: FireState)
    ensures
        spec_run_stmt(stmt, env, st).outcome.matched_rules == st.outcome.matched_rules,
        st.fired.is_prefix_of(spec_run_stmt(stmt, env, st).fired),
{
    let r = spec_run_stmt(stmt, env, st);
    assert(st.fired.is_prefix_of(r.fired)) by {
        if r.fired != st.fired {
            assert(r.fired.len() == st.fired.len() + 1);
            assert forall|i: int| 0 <= i < st.fired.len() implies r.fired[i] == st.fired[i] by {}
        }
    }
}

proof fn lemma_stmts_keep_matched(stmts: Seq<Stmt>, env: Env, st: FireState)
    ensures
        spec_run_stmts(stmts, env, st).outcome.matched_rules == st.outcome.matched_rules,
        st.fired.is_prefix_of(spec_run_stmts(stmts, env, st).fired),
    decreases stmts.len(),
{
    if stmts.len() > 0 {
        let st1 = spec_run_stmt(stmts[0], env, st);
        lemma_stmt_keeps_matched(stmts[0], env, st);
        lemma_stmts_keep_matched(stmts.drop_first(), env, st1);
    }
}

/// Every matched rule is recorded as fired, and no rule is matched twice.
pub open spec fn fire_consistent(st: FireState) -> bool {
    &&& no_dups(st.outcome.matched_rules)
    &&& forall|i: int| 0 <= i < st.outcome.matched_rules.len() ==> st.fired.contains(
        #[trigger] st.outcome.matched_rules[i],
    )
}

/// Once a rule has fired or been retracted, later cycles never fire it; the
/// rules matched so far stay matched, and no rule is matched twice.
pub proof fn lemma_cycles(net: Network, env: Env, st: FireState, n: nat)
    requires
        fire_consistent(st),
    ensures
        fire_consistent(spec_cycles(net, env, st, n)),
        st.outcome.matched_rules.is_prefix_of(spec_cycles(net, env, st, n).outcome.matched_rules),
        forall|x: Seq<char>|
            #![trigger st.fired.contains(x)]
            st.fired.contains(x) ==> forall|i: int|
                st.outcome.matched_rules.len() <= i < spec_cycles(net, env, st, n).outcome.matched_rules.len()
                    ==> spec_cycles(net, env, st, n).outcome.matched_rules[i] != x,
    decreases n,
{
    if n > 0 {
        let a = spec_alpha_values(net.alphas@, env, st.scratch);
        match first_ready(net.terminals@, a, st.fired, 0) {
            None => {},
            Some(k) => {
                lemma_first_ready(net.terminals@, a, st.fired, 0);
                let name = net.terminals@[k].rule_name@;
                let st1 = FireState {
                    fired: st.fired.push(name),
                    outcome: OutcomeView {
                        matched_rules: st.outcome.matched_rules.push(name),
                        ..st.outcome
                    },
                    ..st
                };
                let st2 = spec_run_stmts(net.terminals@[k].actions@, env, st1);
                lemma_stmts_keep_matched(net.terminals@[k].actions@, env, st1);
                let m = st.outcome.matched_rules;
                assert(!m.contains(name)) by {
                    if m.contains(name) {
                        let i = choose|i: int| 0 <= i < m.len() && m[i] == name;
                        assert(st.fired.contains(m[i]));
                    }
                }
                assert(fire_consistent(st2)) by {
                    assert forall|i: int| 0 <= i < st2.outcome.matched_rules.len() implies st2.fired.contains(
                        #[trigger] st2.outcome.matched_rules[i],
                    ) by {
                        let w = st2.outcome.matched_rules[i];
                        if i < m.len() {
                            assert(st.fired.contains(w));
                            let p = choose|p: int| 0 <= p < st.fired.len() && st.fired[p] == w;
                            assert(st1.fired[p] == w);
                            assert(st2.fired[p] == w);
                        } else {
                            assert(st1.fired[st.fired.len() as int] == name);
                            assert(st2.fired[st.fired.len() as int] == name);
                        }
                    }
                    assert forall|i: int, j: int| 0 <= i < j < st2.outcome.matched_rules.len() implies
                        st2.outcome.matched_rules[i] != st2.outcome.matched_rules[j] by {
                        if j == m.len() {
                            assert(m[i] == st2.outcome.matched_rules[i]);
                        }
                    }
                }
                if !(st2.outcome.block_reason is Some || st2.outcome.allow) {
                    lemma_cycles(net, env, st2, (n - 1) as nat);
                    let fin = spec_cycles(net, env, st2, (n - 1) as nat);
                    assert forall|x: Seq<char>| #![trigger st.fired.contains(x)] st.fired.contains(x) implies
                        forall|i: int| st.outcome.matched_rules.len() <= i < fin.outcome.matched_rules.len() ==> fin.outcome.matched_rules[i] != x by {
                        let p = choose|p: int| 0 <= p < st.fired.len() && st.fired[p] == x;
                        assert(st1.fired[p] == x);
                        assert(st1.fired =~= st2.fired.subrange(0, st1.fired.len() as int));
                        assert(st2.fired.subrange(0, st1.fired.len() as int)[p] == st2.fired[p]);
                        assert(st2.fired[p] == x);
                        assert(st2.fired.contains(x));
                        assert(x != name);
                        assert forall|i: int| st.outcome.matched_rules.len() <= i < fin.outcome.matched_rules.len() implies fin.outcome.matched_rules[i] != x by {
                            if i == m.len() {
                                assert(fin.outcome.matched_rules[i] == st2.outcome.matched_rules[i]);
                            }
                        }
                    }
                    assert(m.is_prefix_of(fin.outcome.matched_rules)) by {
                        assert forall|i: int| 0 <= i < m.len() implies fin.outcome.matched_rules[i] == m[i] by {
                            assert(st2.outcome.matched_rules[i] == m[i]);
                        }
                    }
                } else {
                    assert(m.is_prefix_of(st2.outcome.matched_rules));
                }
            },
        }
    }
}

/// A rule fires at most once per request: the matched rules of an outcome are
/// distinct.
pub proof fn law_rule_fires_at_most_once(net: Network, env: Env)
    ensures
        no_dups(spec_fire(net, env).matched_rules),
{
    let init = FireState { scratch: seq![], outcome: empty_outcome(), fired: seq![] };
    lemma_cycles(net, env, init, MAX_CYCLES as nat);
}

/// A rule that has fired or was retracted by an action never fires in a later
/// cycle.
pub proof fn law_retracted_rule_never_fires(net: Network, env: Env, st: FireState, n: nat, x: Seq<char>)
    requires
        fire_consistent(st),
        st.fired.contains(x),
    ensures
        forall|i: int|
            st.outcome.matched_rules.len() <= i < spec_cycles(net, env, st, n).outcome.matched_rules.len()
                ==> #[trigger] spec_cycles(net, env, st, n).outcome.matched_rules[i] != x,
{
    lemma_cycles(net, env, st, n);
}

/// `x` is the rule name of a terminal of the network.
pub open spec fn is_rule_name(net: Network, x: Seq<char>) -> bool {
    exists|k: int| 0 <= k < net.terminals@.len() && #[trigger] net.terminals@[k].rule_name@ == x
}

proof fn lemma_cycles_names(net: Network, env: Env, st: FireState, n: nat)
    ensures
        ({
            let fin = spec_cycles(net, env, st, n).outcome;
            &&& fin.matched_rules.len() <= st.outcome.matched_rules.len() + n
            &&& st.outcome.matched_rules.is_prefix_of(fin.matched_rules)
            &&& forall|i: int|
                st.outcome.matched_rules.len() <= i < fin.matched_rules.len() ==> is_rule_name(
                    net,
                    #[trigger] fin.matched_rules[i],
                )
            &&& (fin.block_reason is Some || fin.allow) && !(st.outcome.block_reason is Some
                || st.outcome.allow) ==> fin.matched_rules.len() > st.outcome.matched_rules.len()
        }),
    decreases n,
{
    if n > 0 {
        let a = spec_alpha_values(net.alphas@, env, st.scratch);
        match first_ready(net.terminals@, a, st.fired, 0) {
            None => {},
            Some(k) => {
                lemma_first_ready(net.terminals@, a, st.fired, 0);
                let name = net.terminals@[k].rule_name@;
                let st1 = FireState {
                    fired: st.fired.push(name),
                    outcome: OutcomeView {
                        matched_rules: st.outcome.matched_rules.push(name),
                        ..st.outcome
                    },
                    ..st
                };
                let st2 = spec_run_stmts(net.terminals@[k].actions@, env, st1);
                lemma_stmts_keep_matched(net.terminals@[k].actions@, env, st1);
                let m = st.outcome.matched_rules;
                assert(is_rule_name(net, name));
                if !(st2.outcome.block_reason is Some || st2.outcome.allow) {
                    lemma_cycles_names(net, env, st2, (n - 1) as nat);
                    let fin = spec_cycles(net, env, st2, (n - 1) as nat).outcome;
                    assert(fin.matched_rules[m.len() as int] == st2.outcome.matched_rules[m.len() as int]);
                    assert forall|i: int| 0 <= i < m.len() implies fin.matched_rules[i] == m[i] by {
                        assert(fin.matched_rules[i] == st2.outcome.matched_rules[i]);
                    }
                } else {
                    assert(m.is_prefix_of(st2.outcome.matched_rules));
                }
            },
        }
    }
}

/// An outcome matches at most one rule per cycle, so at most `MAX_CYCLES`;
/// each matched name is the rule name of a terminal of the network; and a block
/// or an allow comes with at least one matched rule.
pub proof fn law_matched_rules_bounded(net: Network, env: Env)
    ensures
        spec_fire(net, env).matched_rules.len() <= MAX_CYCLES,
        forall|i: int|
            0 <= i < spec_fire(net, env).matched_rules.len() ==> is_rule_name(
                net,
                #[trigger] spec_fire(net, env).matched_rules[i],
            ),
        spec_fire(net, env).block_reason is Some || spec_fire(net, env).allow ==> spec_fire(
            net,
            env,
        ).matched_rules.len() > 0,
{
    let init = FireState { scratch: seq![], outcome: empty_outcome(), fired: seq![] };
    lemma_cycles_names(net, env, init, MAX_CYCLES as nat);
}

/// The state after terminal `k` fires in state `st`: its name is recorded as
/// fired and matched, then its actions run.
pub open spec fn fire_rule(net: Network, env: Env, st: FireState, k: int) -> FireState {
    let name = net.terminals@[k].rule_name@;
    spec_run_stmts(
        net.terminals@[k].actions@,
        env,
        FireState {
            fired: st.fired.push(name),
            outcome: OutcomeView { matched_rules: st.outcome.matched_rules.push(name), ..st.outcome },
            ..st
        },
    )
}

/// Neither a block nor an allow is set.
pub open spec fn undecided(o: OutcomeView) -> bool {
    !(o.block_reason is Some || o.allow)
}

proof fn lemma_cycles_decisive(net: Network, env: Env, st: FireState, n: nat)
    requires
        undecided(st.outcome),
    ensures
        !undecided(spec_cycles(net, env, st, n).outcome) ==> exists|s: FireState, k: int|
            0 <= k < net.terminals@.len() && undecided(s.outcome) && #[trigger] fire_rule(net, env, s, k).outcome
                == spec_cycles(net, env, st, n).outcome,
    decreases n,
{
    if n > 0 {
        let a = spec_alpha_values(net.alphas@, env, st.scratch);
        match first_ready(net.terminals@, a, st.fired, 0) {
            None => {},
            Some(k) => {
                lemma_first_ready(net.terminals@, a, st.fired, 0);
                let st2 = fire_rule(net, env, st, k);
                if undecided(st2.outcome) {
                    lemma_cycles_decisive(net, env, st2, (n - 1) as nat);
                } else {
                    assert(spec_cycles(net, env, st, n).outcome == fire_rule(net, env, st, k).outcome);
                }
            },
        }
    }
}

/// A block or an allow ends the firing: it was set by the actions of the last
/// matched rule, run in a state where neither was set.
pub proof fn law_decisive_rule_is_last(net: Network, env: Env)
    ensures
        !undecided(spec_fire(net, env)) ==> exists|s: FireState, k: int|
            0 <= k < net.terminals@.len() && undecided(s.outcome) && #[trigger] fire_rule(net, env, s, k).outcome
                == spec_fire(net, env) && spec_fire(net, env).matched_rules.last()
                == net.terminals@[k].rule_name@,
{
    let init = FireState { scratch: seq![], outcome: empty_outcome(), fired: seq![] };
    lemma_cycles_decisive(net, env, init, MAX_CYCLES as nat);
    if !undecided(spec_fire(net, env)) {
        let (s, k) = choose|s: FireState, k: int|
            0 <= k < net.terminals@.len() && undecided(s.outcome) && #[trigger] fire_rule(net, env, s, k).outcome
                == spec_fire(net, env);
        let name = net.terminals@[k].rule_name@;
        let s1 = FireState {
            fired: s.fired.push(name),
            outcome: OutcomeView { matched_rules: s.outcome.matched_rules.push(name), ..s.outcome },
            ..s
        };
        lemma_stmts_keep_matched(net.terminals@[k].actions@, env, s1);
        assert(spec_fire(net, env).matched_rules == s.outcome.matched_rules.push(name));
    }
}

/// Among the rules that can fire in a cycle, the one that fires has the highest
/// salience (terminals are kept in descending salience).
pub proof fn law_highest_salience_fires_first(
    terms: Seq<Terminal>,
    a: Seq<bool>,
    fired: Seq<Seq<char>>,
    k: int,
    i: int,
)
    requires
        crate::rete::by_salience(terms),
        first_ready(terms, a, fired, 0) == Some(k),
        0 <= i < terms.len(),
        ready(terms, a, fired, i),
    ensures
        terms[k].salience >= terms[i].salience,
{
    lemma_first_ready(terms, a, fired, 0);
    if i < k {
        assert(!ready(terms, a, fired, i));
    }
}

/// `!=` is the negation of `==`: for any two values both comparisons give a
/// boolean and exactly one of them is true; a value equals itself, and two
/// different texts are unequal (so `"POST" != "GET"` holds).
pub proof fn law_neq_negates_eq(l: ValueView, r: ValueView)
    ensures
        spec_binary(BinOp::Eq, l, r) is Bool,
        spec_binary(BinOp::Neq, l, r) is Bool,
        spec_binary(BinOp::Neq, l, r)->Bool_0 == !(spec_binary(BinOp::Eq, l, r)->Bool_0),
        spec_binary(BinOp::Eq, l, l) == ValueView::Bool(true),
        spec_binary(BinOp::Neq, l, l) == ValueView::Bool(false),
        forall|a: Seq<char>, b: Seq<char>|
            a != b ==> #[trigger] spec_binary(BinOp::Neq, ValueView::Str(a), ValueView::Str(b))
                == ValueView::Bool(true),
{
}

/// A network without rules leaves the outcome empty: the request is allowed.
pub proof fn law_no_rules_no_outcome(net: Network, env: Env)
    requires
        net.terminals@.len() == 0,
    ensures
        spec_fire(net, env) == empty_outcome(),
{
    let init = FireState { scratch: seq![], outcome: empty_outcome(), fired: seq![] };
    let a = spec_alpha_values(net.alphas@, env, init.scratch);
    lemma_first_ready(net.terminals@, a, init.fired, 0);
}

/// The decision for an outcome: a block wins, then a challenge, then a rate
/// limit; otherwise the request is allowed.
pub open spec fn spec_decision(o: Outcome) -> Decision {
    match o.block_reason {
        Some(reason) => Decision::Block { reason },
        None => match o.challenge {
            Some(ChallengeReq::Js) => Decision::Challenge(ChallengeKind::JsChallenge),
            Some(ChallengeReq::Pow) => Decision::Challenge(ChallengeKind::ProofOfWork),
            None => match o.rate_limit_secs {
                Some(secs) => Decision::RateLimit { retry_after_secs: secs },
                None => Decision::Allow,
            },
        },
    }
}

/// Convert an `Outcome` into the final `Decision`.
pub fn outcome_to_decision(o: &Outcome) -> (d: Decision)
    ensures
        match (d, spec_decision(*o)) {
            (Decision::Block { reason: a }, Decision::Block { reason: b }) => a@ == b@,
            (x, y) => x == y,
        },
{
    match &o.block_reason {
        Some(reason) => {
            return Decision::Block { reason: reason.clone() };
        },
        None => {},
    }
    match o.challenge {
        Some(c) => {
            return Decision::Challenge(
                match c {
                    ChallengeReq::Js => ChallengeKind::JsChallenge,
                    ChallengeReq::Pow => ChallengeKind::ProofOfWork,
                },
            );
        },
        None => {},
    }
    match o.rate_limit_secs {
        Some(secs) => Decision::RateLimit { retry_after_secs: secs },
        None => Decision::Allow,
    }
}

/// A block outranks every other request: whatever else the rules asked for, an
/// outcome with a block reason is decided as a block with that reason.
pub proof fn law_block_wins(o: Outcome)
    requires
        o.block_reason is Some,
    ensures
        spec_decision(o) == (Decision::Block { reason: o.block_reason->Some_0 }),
{
}

/// Without a block, a challenge outranks a rate limit.
pub proof fn law_challenge_before_rate_limit(o: Outcome)
    requires
        o.block_reason is None,
        o.challenge is Some,
    ensures
        spec_decision(o) is Challenge,
{
}

/// An outcome that requests nothing is allowed, whatever it logged or matched.
pub proof fn law_quiet_outcome_allows(o: Outcome)
    requires
        o.block_reason is None,
        o.challenge is None,
        o.rate_limit_secs is None,
    ensures
        spec_decision(o) == Decision::Allow,
{
}

} // verus!
