use waf_rules::context::RequestContext;
use waf_rules::grl::ast::{BinOp, CallExpr, Expr, Path, PathSeg, RuleAst, Stmt, UnaryOp, Value};
use waf_rules::lists::{BlacklistPlugin, IpListStore};
use waf_rules::rete::engine::{outcome_to_decision, Engine, Plugin};
use waf_rules::rete::terminal::Guard;
use waf_rules::rete::Network;
use waf_rules::rule::{Condition, Rule, RuleAction, RuleScope};
use waf_rules::store::RuleStore;
use waf_rules::types::{Decision, RiskScore, Tier};

fn ctx(method: &str, path: &str, body: &str) -> RequestContext {
    RequestContext {
        request_id: "test".into(),
        arrived_at_ms: 0,
        method: method.into(),
        path: path.into(),
        query: None,
        tier: Tier::CatchAll,
        client_ip: "127.0.0.1".into(),
        xff_header: None,
        headers: Vec::new(),
        body: Some(body.as_bytes().to_vec()),
        session_id: None,
        device_fp: None,
        risk_score: RiskScore::zero(),
        matched_rule_id: None,
        extensions: Vec::new(),
    }
}

fn req(field: &str) -> Expr {
    Expr::Path(Path {
        segments: vec![PathSeg::Field("Request".into()), PathSeg::Field(field.into())],
    })
}

fn s(v: &str) -> Expr {
    Expr::Literal(Value::Str(v.into()))
}

fn bin(op: BinOp, l: Expr, r: Expr) -> Expr {
    Expr::Binary { op, left: Box::new(l), right: Box::new(r) }
}

fn call(name: &str, args: Vec<Expr>) -> CallExpr {
    CallExpr { name: name.into(), args }
}

fn rule(name: &str, salience: i32, when: Expr, then: Vec<Stmt>) -> RuleAst {
    RuleAst { name: name.into(), salience, when, then }
}

fn truth() -> Expr {
    Expr::Literal(Value::Bool(true))
}

#[test]
fn literal_block_rule_fires() {
    let r = rule(
        "BlockPostX",
        10,
        bin(BinOp::And, bin(BinOp::Eq, req("Method"), s("POST")), bin(BinOp::Eq, req("Path"), s("/x"))),
        vec![Stmt::Call(call("block", vec![s("matched")]))],
    );
    let eng = Engine::new(Network::compile(vec![r]));
    let outcome = eng.fire(&ctx("POST", "/x", ""));
    assert_eq!(outcome.block_reason.as_deref(), Some("matched"));
    assert_eq!(outcome.matched_rules, vec!["BlockPostX".to_string()]);
    let miss = eng.fire(&ctx("GET", "/x", ""));
    assert!(miss.block_reason.is_none());
    assert_eq!(outcome_to_decision(&miss), Decision::Allow);
}

#[test]
fn salience_orders_rules() {
    let rules = vec![
        rule("Allow", 1, truth(), vec![Stmt::Call(call("allow", vec![]))]),
        rule("BlockA", 50, truth(), vec![Stmt::Call(call("block", vec![s("a")]))]),
        rule("BlockB", 99, truth(), vec![Stmt::Call(call("block", vec![s("b")]))]),
    ];
    let eng = Engine::new(Network::compile(rules));
    let outcome = eng.fire(&ctx("GET", "/", ""));
    assert_eq!(outcome.block_reason.as_deref(), Some("b"));
    assert_eq!(eng.network.terminals[0].rule_name, "BlockB");
    assert_eq!(eng.network.terminals[2].rule_name, "Allow");
}

#[test]
fn assignment_and_dependency_chain() {
    let score = Path {
        segments: vec![PathSeg::Field("Request".into()), PathSeg::Field("RiskScore".into())],
    };
    let rules = vec![
        rule(
            "Score",
            50,
            bin(BinOp::Eq, req("Method"), s("POST")),
            vec![Stmt::Assign { target: score, value: Expr::Literal(Value::Int(90)) }],
        ),
        rule(
            "BlockHighRisk",
            10,
            bin(BinOp::Gte, req("RiskScore"), Expr::Literal(Value::Int(80))),
            vec![Stmt::Call(call("block", vec![s("high risk")]))],
        ),
    ];
    let eng = Engine::new(Network::compile(rules));
    let outcome = eng.fire(&ctx("POST", "/", ""));
    assert_eq!(outcome.block_reason.as_deref(), Some("high risk"));
    let quiet = eng.fire(&ctx("GET", "/", ""));
    assert!(quiet.block_reason.is_none());
}

#[test]
fn retract_prevents_rule_from_firing() {
    let rules = vec![
        rule("Blocker", 99, truth(), vec![Stmt::Call(call("retract", vec![s("Target")]))]),
        rule("Target", 1, truth(), vec![Stmt::Call(call("block", vec![s("should not reach")]))]),
    ];
    let eng = Engine::new(Network::compile(rules));
    let outcome = eng.fire(&ctx("GET", "/", ""));
    assert!(outcome.block_reason.is_none(), "retracted rule must not fire");
    assert_eq!(outcome.matched_rules, vec!["Blocker".to_string()]);
}

#[test]
fn shares_identical_alpha_nodes() {
    let sqli = || Expr::Call(call("contains_sqli", vec![req("Body")]));
    let rules = vec![
        rule(
            "A",
            10,
            bin(BinOp::And, sqli(), bin(BinOp::Eq, req("Method"), s("POST"))),
            vec![Stmt::Call(call("block", vec![s("a")]))],
        ),
        rule(
            "B",
            5,
            bin(BinOp::Or, sqli(), bin(BinOp::Eq, req("Path"), s("/x"))),
            vec![Stmt::Call(call("block", vec![s("b")]))],
        ),
    ];
    let net = Network::compile(rules);
    assert_eq!(net.alpha_count(), 3);
    assert_eq!(net.rule_count(), 2);
    assert_eq!(net.terminals[0].rule_name, "A");
}

#[test]
fn flattens_nested_and_or() {
    let leaf = |n: &str| Expr::Call(call(n, vec![]));
    let when = bin(
        BinOp::And,
        bin(BinOp::And, leaf("a"), leaf("b")),
        bin(BinOp::And, leaf("c"), leaf("d")),
    );
    let net = Network::compile(vec![rule("X", 0, when, vec![Stmt::Call(call("allow", vec![]))])]);
    match &net.terminals[0].guard {
        Guard::And(parts) => assert_eq!(parts.len(), 4),
        other => panic!("expected flat AND, got {:?}", other),
    }
}

#[test]
fn actions_and_builtins() {
    let rules = vec![rule(
        "Everything",
        5,
        Expr::Unary {
            op: UnaryOp::Not,
            expr: Box::new(Expr::Call(call("is_path_under", vec![s("/static")]))),
        },
        vec![
            Stmt::Call(call("log", vec![bin(BinOp::Add, s("n="), Expr::Call(call("header_count", vec![])))])),
            Stmt::Call(call("challenge", vec![s("pow")])),
            Stmt::Call(call("rate_limit", vec![])),
            Stmt::Call(call("frobnicate", vec![])),
        ],
    )];
    let eng = Engine::new(Network::compile(rules));
    let o = eng.fire(&ctx("GET", "/api", ""));
    assert_eq!(o.log_messages, vec!["n=0".to_string(), "unknown action: frobnicate".to_string()]);
    assert_eq!(o.rate_limit_secs, Some(60));
    assert!(o.challenge.is_some());
    assert!(eng.fire(&ctx("GET", "/static/app.js", "")).matched_rules.is_empty());
}

#[test]
fn matches_uses_decoded_path() {
    let when = Expr::Call(call("matches", vec![req("Path"), s("^/admin/")]));
    let eng = Engine::new(Network::compile(vec![rule(
        "Admin",
        1,
        when,
        vec![Stmt::Call(call("block", vec![s("admin")]))],
    )]));
    assert!(eng.network.alphas[0].compiled.is_some());
    assert_eq!(eng.fire(&ctx("GET", "/%61dmin/x", "")).block_reason.as_deref(), Some("admin"));
    assert!(eng.fire(&ctx("GET", "/public", "")).block_reason.is_none());
}

fn blacklist_rule(name: &str, reason: &str) -> RuleAst {
    rule(
        name,
        100,
        Expr::Call(call("ip_in_blacklist", vec![req("ClientIp")])),
        vec![Stmt::Call(call("block", vec![s(reason)]))],
    )
}

#[test]
fn test_blacklist_plugin_blocks_listed_ip() {
    let mut store = IpListStore::new();
    store.add_to_blacklist("10.0.0.1");
    let mut engine = Engine::new(Network::compile(vec![blacklist_rule("BlockBlacklisted", "blacklisted")]));
    engine.install(Plugin::Blacklist(BlacklistPlugin::new(store)));

    let mut c = ctx("GET", "/", "");
    c.client_ip = "10.0.0.1".into();
    engine.enrich(&mut c);
    let outcome = engine.fire(&c);
    assert!(outcome.block_reason.is_some(), "blacklisted IP should be blocked");
    assert_eq!(c.extensions, vec![("blacklisted".to_string(), "true".to_string())]);
}

#[test]
fn test_blacklist_plugin_allows_clean_ip() {
    let mut store = IpListStore::new();
    store.add_to_blacklist("10.0.0.1");
    let mut engine = Engine::new(Network::compile(vec![blacklist_rule("BlockBlacklisted", "blacklisted")]));
    engine.install(Plugin::Blacklist(BlacklistPlugin::new(store)));

    let mut c = ctx("GET", "/", "");
    c.client_ip = "9.9.9.9".into();
    engine.enrich(&mut c);
    let outcome = engine.fire(&c);
    assert!(outcome.block_reason.is_none(), "clean IP should not be blocked");
    assert_eq!(c.extensions, vec![("blacklisted".to_string(), "false".to_string())]);
}

#[test]
fn test_blacklist_plugin_cidr_match() {
    let mut store = IpListStore::new();
    store.add_to_blacklist("192.168.1.0/24");
    let mut engine = Engine::new(Network::compile(vec![blacklist_rule("BlockCidr", "cidr-blacklisted")]));
    engine.install(Plugin::Blacklist(BlacklistPlugin::new(store)));

    let mut ctx_in = ctx("GET", "/", "");
    ctx_in.client_ip = "192.168.1.42".into();
    let mut ctx_out = ctx("GET", "/", "");
    ctx_out.client_ip = "192.168.2.1".into();
    engine.enrich(&mut ctx_in);
    engine.enrich(&mut ctx_out);
    assert!(engine.fire(&ctx_in).block_reason.is_some(), "IP inside CIDR should be blocked");
    assert!(engine.fire(&ctx_out).block_reason.is_none(), "IP outside CIDR should pass");
}

#[test]
fn without_lists_blacklist_calls_are_null() {
    let engine = Engine::new(Network::compile(vec![blacklist_rule("B", "x")]));
    let mut c = ctx("GET", "/", "");
    engine.enrich(&mut c);
    assert!(c.extensions.is_empty());
    assert!(engine.fire(&c).block_reason.is_none());
}

fn path_rule(id: &str, path: &str, action: RuleAction) -> Rule {
    Rule {
        id: id.to_string(),
        priority: 1,
        scope: RuleScope::Global,
        condition: Condition::PathExact { value: path.to_string() },
        action,
        risk_score_delta: 0,
        upstream_backend: None,
    }
}

#[test]
fn test_hot_reload_replaces_rules() {
    let mut store = RuleStore::new(vec![path_rule("old-rule", "/old", RuleAction::Block)]);
    assert_eq!(store.snapshot()[0].id, "old-rule");
    store.reload(vec![path_rule("new-rule", "/new", RuleAction::Allow)]);
    let snapshot = store.snapshot();
    assert_eq!(snapshot.len(), 1);
    assert_eq!(snapshot[0].id, "new-rule");
    assert_eq!(store.engine().network.rule_count(), 0);
}

#[test]
fn rules_sort_by_priority() {
    let mut a = path_rule("a", "/", RuleAction::Log);
    a.priority = 30;
    let mut b = path_rule("b", "/", RuleAction::Log);
    b.priority = 10;
    let mut c = path_rule("c", "/", RuleAction::Log);
    c.priority = 30;
    let sorted = waf_rules::rule::sort_by_priority(vec![a, b, c]);
    let ids: Vec<&str> = sorted.iter().map(|r| r.id.as_str()).collect();
    assert_eq!(ids, vec!["b", "a", "c"]);
}

#[test]
fn at_most_one_rule_per_cycle() {
    let mut rules = Vec::new();
    for i in 0..20 {
        rules.push(rule(&format!("Log{}", i), i, truth(), vec![Stmt::Call(call("log", vec![s("x")]))]));
    }
    let eng = Engine::new(Network::compile(rules));
    let outcome = eng.fire(&ctx("GET", "/", ""));
    assert_eq!(outcome.matched_rules.len(), 16);
    assert_eq!(outcome.matched_rules[0], "Log19");
    assert_eq!(outcome.matched_rules[15], "Log4");
    assert!(outcome.block_reason.is_none());
}

#[test]
fn decisive_rule_is_matched_last() {
    let rules = vec![
        rule("Note", 90, truth(), vec![Stmt::Call(call("log", vec![s("seen")]))]),
        rule("Stop", 50, truth(), vec![Stmt::Call(call("block", vec![s("stop")]))]),
        rule("Later", 1, truth(), vec![Stmt::Call(call("allow", vec![]))]),
    ];
    let eng = Engine::new(Network::compile(rules));
    let outcome = eng.fire(&ctx("GET", "/", ""));
    assert_eq!(outcome.block_reason.as_deref(), Some("stop"));
    assert_eq!(outcome.matched_rules, vec!["Note".to_string(), "Stop".to_string()]);
    assert!(!outcome.allow);
}
