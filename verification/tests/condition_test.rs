use waf_rules::pattern::CompiledRegex;
use waf_rules::ruleset::loader::RuleLoader;
use waf_rules::ruleset::types::RuleRaw;
use waf_rules::ruleset::condition::{cidr_contains, eval_node, ConditionEvaluator};
use waf_rules::ruleset::types::{
    Action, ConditionLeaf, ConditionNode, Field, MatchType, Rule, RuleSet,
};
use waf_rules::ruleset::{RequestContext, RuleEvaluator};
use waf_rules::types::Tier;

fn ctx(ip: &str, path: &str, method: &str, payload: &[u8]) -> RequestContext {
    RequestContext {
        ip: ip.to_string(),
        path: path.to_string(),
        method: method.to_string(),
        headers: Vec::new(),
        payload: payload.to_vec(),
        cookies: Vec::new(),
        tier: Tier::CatchAll,
        session_id: "sess".to_string(),
        device_fp: "fp".to_string(),
        content_type: None,
    }
}

fn empty_regexes() -> Vec<(String, CompiledRegex)> {
    Vec::new()
}

fn leaf(field: Field, match_type: MatchType, value: &str, case_sensitive: bool, negate: bool) -> ConditionNode {
    ConditionNode::Leaf(ConditionLeaf {
        field,
        match_type,
        value: value.to_string(),
        header_name: None,
        cookie_name: None,
        case_sensitive,
        negate,
        compiled_regex_key: None,
    })
}

#[test]
fn condition_exact_match_path() {
    let node = leaf(Field::Path, MatchType::Exact, "/login", false, false);
    let ctx = ctx("1.2.3.4", "/login", "GET", b"");
    assert!(eval_node(&node, &ctx, &empty_regexes()));
}

/// A regex cache holding `pattern` under `regex_0`, as the loader builds it.
fn compiled_cache(pattern: &str) -> Vec<(String, CompiledRegex)> {
    let raw = RuleRaw {
        id: "r".to_string(),
        description: String::new(),
        enabled: true,
        priority: 1,
        condition: ConditionNode::Leaf(ConditionLeaf {
            field: Field::Payload,
            match_type: MatchType::Regex,
            value: pattern.to_string(),
            header_name: None,
            cookie_name: None,
            case_sensitive: false,
            negate: false,
            compiled_regex_key: None,
        }),
        action: Action::Block,
        risk_score_delta: 0,
        response: None,
        rate_limit: None,
        challenge: None,
        tier: None,
        source: None,
    };
    RuleLoader::compile(vec![raw]).unwrap().compiled_regexes
}

#[test]
fn condition_regex_match_payload() {
    let regex_key = "regex_0".to_string();
    let regexes = compiled_cache(r"(?i)union\s+select");
    assert_eq!(regexes[0].0, regex_key);
    let node = ConditionNode::Leaf(ConditionLeaf {
        field: Field::Payload,
        match_type: MatchType::Regex,
        value: r"(?i)union\s+select".to_string(),
        header_name: None,
        cookie_name: None,
        case_sensitive: false,
        negate: false,
        compiled_regex_key: Some(regex_key),
    });
    let ctx = ctx("1.2.3.4", "/", "POST", b"' UNION SELECT 1--");
    assert!(eval_node(&node, &ctx, &regexes));
}

#[test]
fn condition_negate_works() {
    let node = leaf(Field::Method, MatchType::Exact, "GET", true, true);
    let ctx = ctx("1.2.3.4", "/", "POST", b"");
    assert!(eval_node(&node, &ctx, &empty_regexes()));
}

#[test]
fn condition_and_node_requires_all() {
    let node = ConditionNode::And(vec![
        leaf(Field::Method, MatchType::Exact, "POST", true, false),
        leaf(Field::Path, MatchType::Exact, "/login", false, false),
    ]);
    let ctx1 = ctx("1.2.3.4", "/login", "POST", b"");
    assert!(eval_node(&node, &ctx1, &empty_regexes()));
    let ctx2 = ctx("1.2.3.4", "/other", "POST", b"");
    assert!(!eval_node(&node, &ctx2, &empty_regexes()));
}

#[test]
fn condition_or_node_requires_any() {
    let node = ConditionNode::Or(vec![
        leaf(Field::Path, MatchType::Exact, "/admin", false, false),
        leaf(Field::Path, MatchType::Exact, "/login", false, false),
    ]);
    let ctx1 = ctx("1.2.3.4", "/login", "GET", b"");
    assert!(eval_node(&node, &ctx1, &empty_regexes()));
    let ctx2 = ctx("1.2.3.4", "/public", "GET", b"");
    assert!(!eval_node(&node, &ctx2, &empty_regexes()));
}

fn rule(id: &str, priority: u32, action: Action, delta: i8) -> Rule {
    Rule {
        id: id.to_string(),
        source: "system".to_string(),
        description: format!("rule {}", id),
        enabled: true,
        priority,
        condition: leaf(Field::Path, MatchType::Exact, "/api/data", false, false),
        action,
        risk_score_delta: delta,
        response: None,
        rate_limit: None,
        challenge: None,
        tier: None,
    }
}

#[test]
fn test_rule_evaluator_skips_matched_rules() {
    let ruleset = RuleSet {
        rules: vec![rule("rule-1", 10, Action::RateLimit, 5), rule("rule-2", 20, Action::Block, 10)],
        compiled_regexes: Vec::new(),
    };
    let evaluator = RuleEvaluator::new(ruleset);
    let mut ctx = ctx("127.0.0.1", "/api/data", "GET", b"");
    ctx.session_id = "session".to_string();

    let m1 = evaluator.evaluate(&ctx, &[]);
    assert!(m1.is_some());
    assert_eq!(m1.unwrap().rule_id, "rule-1");

    let m2 = evaluator.evaluate(&ctx, &["rule-1".to_string()]);
    assert!(m2.is_some());
    assert_eq!(m2.unwrap().rule_id, "rule-2");

    let m3 = evaluator.evaluate(&ctx, &["rule-1".to_string(), "rule-2".to_string()]);
    assert!(m3.is_none());
}

#[test]
fn log_rules_do_not_decide() {
    let ruleset = RuleSet {
        rules: vec![rule("log-1", 1, Action::Log, 0), rule("block-1", 2, Action::Block, 10)],
        compiled_regexes: Vec::new(),
    };
    let evaluator = RuleEvaluator::new(ruleset);
    let c = ctx("127.0.0.1", "/api/data", "GET", b"");
    let m = evaluator.evaluate(&c, &[]).unwrap();
    assert_eq!(m.rule_id, "block-1");
    assert_eq!(m.action, Action::Block);
    assert_eq!(m.risk_score_delta, 10);
}

#[test]
fn tier_filter_and_disabled_rules() {
    let mut r1 = rule("critical-only", 1, Action::Block, 1);
    r1.tier = Some("critical".to_string());
    let mut r2 = rule("disabled", 2, Action::Block, 1);
    r2.enabled = false;
    let mut r3 = rule("global", 3, Action::Challenge, 1);
    r3.tier = Some("GLOBAL".to_string());
    let evaluator = RuleEvaluator::new(RuleSet { rules: vec![r1, r2, r3], compiled_regexes: Vec::new() });
    let mut c = ctx("127.0.0.1", "/api/data", "GET", b"");
    assert_eq!(evaluator.evaluate(&c, &[]).unwrap().rule_id, "global");
    c.tier = Tier::Critical;
    assert_eq!(evaluator.evaluate(&c, &[]).unwrap().rule_id, "critical-only");
}

#[test]
fn cidr_and_presence_leaves() {
    assert!(cidr_contains("10.0.0.0/8", "10.1.2.3"));
    assert!(!cidr_contains("10.0.0.0/8", "11.1.2.3"));
    assert!(cidr_contains("1.2.3.4", "1.2.3.4"));
    assert!(!cidr_contains("garbage", "1.2.3.4"));
    let node = leaf(Field::Ip, MatchType::Cidr, "192.168.0.0/16", false, false);
    assert!(eval_node(&node, &ctx("192.168.5.5", "/", "GET", b""), &empty_regexes()));
    assert!(!eval_node(&node, &ctx("172.16.0.1", "/", "GET", b""), &empty_regexes()));

    let mut c = ctx("1.2.3.4", "/", "GET", b"");
    c.headers.push(("x-token".to_string(), "t".to_string()));
    let present = ConditionNode::Leaf(ConditionLeaf {
        field: Field::Header,
        match_type: MatchType::Presence,
        value: String::new(),
        header_name: Some("X-Token".to_string()),
        cookie_name: None,
        case_sensitive: false,
        negate: false,
        compiled_regex_key: None,
    });
    let evaluator_regexes = empty_regexes();
    let ev = ConditionEvaluator::new(&present, &evaluator_regexes);
    assert!(ev.evaluate(&c));
    assert!(!ev.evaluate(&ctx("1.2.3.4", "/", "GET", b"")));
}

#[test]
fn wildcard_leaf_case_insensitive() {
    let node = leaf(Field::Path, MatchType::Wildcard, "/API/*", false, false);
    assert!(eval_node(&node, &ctx("1.2.3.4", "/api/users", "GET", b""), &empty_regexes()));
    let strict = leaf(Field::Path, MatchType::Wildcard, "/API/*", true, false);
    assert!(!eval_node(&strict, &ctx("1.2.3.4", "/api/users", "GET", b""), &empty_regexes()));
}
