use waf_rules::context::RequestContext;
use waf_rules::crs::evaluator::{data_path, rewrite_pm_from_file_paths, CrsRuleset};
use waf_rules::crs::plugin::CrsPlugin;
use waf_rules::grl::ast::{BinOp, CallExpr, Expr, RuleAst, Stmt, Value};
use waf_rules::rete::engine::{Engine, Plugin};
use waf_rules::rete::Network;
use waf_rules::types::{RiskScore, Tier};

fn ctx(path: &str) -> RequestContext {
    RequestContext {
        request_id: "r".into(),
        arrived_at_ms: 0,
        method: "GET".into(),
        path: path.into(),
        query: None,
        tier: Tier::CatchAll,
        client_ip: "127.0.0.1".into(),
        xff_header: None,
        headers: vec![("host".to_string(), "example.com".to_string())],
        body: None,
        session_id: None,
        device_fp: None,
        risk_score: RiskScore::zero(),
        matched_rule_id: None,
        extensions: Vec::new(),
    }
}

fn ruleset() -> CrsRuleset {
    let conf = "SecRuleEngine DetectionOnly\nSecRule REQUEST_URI \"@contains attack\" \"id:1001,phase:1,pass,tag:'attack-test'\"\n"
        .to_string();
    CrsRuleset::from_sources(&vec![conf], "").expect("rules load")
}

#[test]
fn crs_rules_report_ids_and_tags() {
    let rs = ruleset();
    assert_eq!(rs.len(), 1);
    let hit = rs.evaluate(&ctx("/attack"));
    assert_eq!(hit.matched_rule_ids, vec![1001]);
    assert_eq!(hit.matched_tags, vec!["attack-test".to_string()]);
    let clean = rs.evaluate(&ctx("/home"));
    assert!(clean.matched_rule_ids.is_empty());
    assert!(clean.matched_tags.is_empty());
}

#[test]
fn crs_plugin_answers_crs_match() {
    let when = Expr::Call(CallExpr {
        name: "crs_match".into(),
        args: vec![Expr::Literal(Value::Str("attack-test".into()))],
    });
    let rule = RuleAst {
        name: "CrsTag".into(),
        salience: 10,
        when: Expr::Binary {
            op: BinOp::Or,
            left: Box::new(when),
            right: Box::new(Expr::Binary {
                op: BinOp::Gte,
                left: Box::new(Expr::Call(CallExpr { name: "crs_score".into(), args: vec![] })),
                right: Box::new(Expr::Literal(Value::Int(1000))),
            }),
        },
        then: vec![Stmt::Call(CallExpr {
            name: "block".into(),
            args: vec![Expr::Literal(Value::Str("crs".into()))],
        })],
    };
    let mut engine = Engine::new(Network::compile(vec![rule]));
    engine.install(Plugin::Crs(CrsPlugin::new(ruleset())));
    assert_eq!(engine.fire(&ctx("/attack")).block_reason.as_deref(), Some("crs"));
    assert!(engine.fire(&ctx("/home")).block_reason.is_none());
}

#[test]
fn data_paths_join_with_one_slash() {
    assert_eq!(data_path("rules/data", "a.data"), "rules/data/a.data");
    assert_eq!(data_path("rules/data/", "a.data"), "rules/data/a.data");
    assert_eq!(data_path("", "a.data"), "a.data");
    assert_eq!(data_path("rules/data", "/etc/a.data"), "/etc/a.data");
}

#[test]
fn pm_from_file_names_resolve_inside_data_dir() {
    let src = "SecRule ARGS \"@pmFromFile  sql.data\" \"id:1\"\nSecRule ARGS \"@pmFromFile\tsub/x.data\" \"id:2\"\n";
    assert_eq!(
        rewrite_pm_from_file_paths(src, "/crs/data").unwrap(),
        "SecRule ARGS \"@pmFromFile /crs/data/sql.data\" \"id:1\"\nSecRule ARGS \"@pmFromFile /crs/data/sub/x.data\" \"id:2\"\n"
    );
    assert_eq!(
        rewrite_pm_from_file_paths("@pmFromFile /abs/a.data", "d").unwrap(),
        "@pmFromFile /abs/a.data"
    );
    assert_eq!(rewrite_pm_from_file_paths("@pm foo bar", "d").unwrap(), "@pm foo bar");
}

#[test]
fn result_accounts_for_engine_report() {
    let rs = ruleset();
    let r = rs.result_from(
        7,
        Some(vec!["5".to_string(), "9".to_string()]),
        Some(vec!["x".to_string()]),
        None,
        Some(vec![]),
        &vec!["1001".to_string(), "abc".to_string(), "1001".to_string(), "42".to_string()],
    );
    assert_eq!(r.inbound_score, 7);
    assert_eq!(r.sql_injection_score, 5);
    assert_eq!(r.xss_score, 0);
    assert_eq!(r.lfi_score, 0);
    assert_eq!(r.rce_score, 0);
    assert_eq!(r.matched_rule_ids, vec![1001, 1001, 42]);
    assert_eq!(r.matched_tags, vec!["attack-test".to_string()]);
}

#[test]
fn crs_sees_query_and_headers() {
    let conf = "SecRuleEngine DetectionOnly\nSecRule REQUEST_URI \"@contains q=evil\" \"id:2001,phase:1,pass,tag:'q'\"\nSecRule REQUEST_HEADERS:X-Probe \"@streq yes\" \"id:2002,phase:1,pass,tag:'h'\"\n"
        .to_string();
    let rs = CrsRuleset::from_sources(&vec![conf], "").expect("rules load");
    let mut c = ctx("/p");
    c.query = Some("q=evil".to_string());
    c.headers.push(("X-Probe".to_string(), "yes".to_string()));
    let r = rs.evaluate(&c);
    assert_eq!(r.matched_rule_ids, vec![2001, 2002]);
}

#[test]
fn ruleset_compiles_the_joined_sources() {
    let a = "SecRuleEngine DetectionOnly".to_string();
    let b = "SecRule REQUEST_URI \"@contains attack\" \"id:1001,phase:1,pass,tag:'a'\"\n".to_string();
    let rs = CrsRuleset::from_sources(&vec![a.clone(), b.clone()], "").expect("rules load");
    assert_eq!(rs.source_text(), format!("{}\n{}", a, b));
    assert_eq!(rs.len(), 1);
    let empty = CrsRuleset::from_sources(&Vec::new(), "/data").expect("empty rules load");
    assert_eq!(empty.source_text(), "");
    assert_eq!(empty.len(), 0);
}

#[test]
fn fired_rule_reports_each_tag_once() {
    let a = "SecRuleEngine DetectionOnly\nSecRule REQUEST_URI \"@contains attack\" \"id:7,phase:1,pass,tag:'x',tag:'y',tag:'x'\"\n".to_string();
    let rs = CrsRuleset::from_sources(&vec![a], "").expect("rules load");
    let hit = rs.evaluate(&ctx("/attack"));
    assert_eq!(hit.matched_rule_ids, vec![7]);
    assert_eq!(hit.matched_tags, vec!["x".to_string(), "y".to_string()]);
}
