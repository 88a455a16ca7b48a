use waf_rules::context::RequestContext;
use waf_rules::lists::IpListStore;
use waf_rules::matcher::evaluate;
use waf_rules::rule::{Condition, Rule, RuleAction, RuleScope};
use waf_rules::types::{RiskScore, Tier};

fn make_ctx(ip: &str, path: &str) -> RequestContext {
    RequestContext {
        request_id: "test-id".to_string(),
        arrived_at_ms: 0,
        method: "GET".to_string(),
        path: path.to_string(),
        query: None,
        tier: Tier::Medium,
        client_ip: ip.to_string(),
        xff_header: None,
        headers: Vec::new(),
        body: None,
        session_id: None,
        device_fp: None,
        risk_score: RiskScore::zero(),
        matched_rule_id: None,
        extensions: Vec::new(),
    }
}

#[test]
fn test_rule_matches_exact_ip() {
    let cond = Condition::IpExact { value: "1.2.3.4".to_string() };
    assert!(evaluate(&cond, &make_ctx("1.2.3.4", "/")));
    assert!(!evaluate(&cond, &make_ctx("9.9.9.9", "/")));
}

#[test]
fn test_rule_matches_path_wildcard() {
    let cond = Condition::PathWildcard { pattern: "/api/*".to_string() };
    assert!(evaluate(&cond, &make_ctx("1.2.3.4", "/api/users")));
    assert!(evaluate(&cond, &make_ctx("1.2.3.4", "/api/")));
    assert!(!evaluate(&cond, &make_ctx("1.2.3.4", "/other/path")));
}

#[test]
fn test_rule_matches_path_regex() {
    let cond = Condition::PathRegex { pattern: r"^/admin/.*$".to_string() };
    assert!(evaluate(&cond, &make_ctx("1.2.3.4", "/admin/dashboard")));
    assert!(!evaluate(&cond, &make_ctx("1.2.3.4", "/public/about")));
}

#[test]
fn test_and_condition_requires_all() {
    let cond = Condition::And(vec![
        Condition::IpExact { value: "1.2.3.4".to_string() },
        Condition::PathExact { value: "/secret".to_string() },
    ]);
    assert!(evaluate(&cond, &make_ctx("1.2.3.4", "/secret")));
    assert!(!evaluate(&cond, &make_ctx("1.2.3.4", "/other")));
    assert!(!evaluate(&cond, &make_ctx("9.9.9.9", "/secret")));
    assert!(!evaluate(&cond, &make_ctx("9.9.9.9", "/other")));
}

#[test]
fn test_or_condition_requires_one() {
    let cond = Condition::Or(vec![
        Condition::IpExact { value: "1.2.3.4".to_string() },
        Condition::PathExact { value: "/public".to_string() },
    ]);
    assert!(evaluate(&cond, &make_ctx("9.9.9.9", "/public")));
    assert!(evaluate(&cond, &make_ctx("1.2.3.4", "/other")));
    assert!(evaluate(&cond, &make_ctx("1.2.3.4", "/public")));
    assert!(!evaluate(&cond, &make_ctx("9.9.9.9", "/other")));
}

#[test]
fn test_not_condition_inverts() {
    let cond = Condition::Not(Box::new(Condition::IpExact { value: "1.2.3.4".to_string() }));
    assert!(!evaluate(&cond, &make_ctx("1.2.3.4", "/")));
    assert!(evaluate(&cond, &make_ctx("9.9.9.9", "/")));
}

#[test]
fn test_rule_priority_ordering() {
    let mut rules = vec![
        Rule {
            id: "low-priority".to_string(),
            priority: 100,
            scope: RuleScope::Global,
            condition: Condition::PathExact { value: "/".to_string() },
            action: RuleAction::Log,
            risk_score_delta: 0,
            upstream_backend: None,
        },
        Rule {
            id: "high-priority".to_string(),
            priority: 1,
            scope: RuleScope::Global,
            condition: Condition::PathExact { value: "/".to_string() },
            action: RuleAction::Block,
            risk_score_delta: 50,
            upstream_backend: None,
        },
    ];
    rules.sort_by_key(|r| r.priority);
    assert_eq!(rules[0].id, "high-priority");
    assert_eq!(rules[1].id, "low-priority");
}

#[test]
fn test_whitelist_overrides_blacklist() {
    let mut store = IpListStore::new();
    store.add_to_blacklist("10.0.0.0/8");
    store.add_to_whitelist("10.0.0.5");

    assert!(!store.is_blacklisted("10.0.0.5"), "whitelisted IP should not appear blacklisted");
    assert!(store.is_blacklisted("10.0.0.6"), "non-whitelisted IP in range should be blacklisted");
}

#[test]
fn blacklist_cidr_and_exact_entries() {
    let mut store = IpListStore::new();
    assert!(store.add_to_blacklist("192.168.1.0/24"));
    assert!(store.add_to_blacklist("10.0.0.1"));
    assert!(!store.add_to_blacklist("not-an-ip"));
    assert!(store.is_blacklisted("192.168.1.42"));
    assert!(!store.is_blacklisted("192.168.2.1"));
    assert!(store.is_blacklisted("10.0.0.1"));
    assert!(!store.is_blacklisted("9.9.9.9"));
    assert!(!store.is_whitelisted("10.0.0.1"));
}

#[test]
fn header_cookie_and_payload_conditions() {
    let mut ctx = make_ctx("1.2.3.4", "/");
    ctx.headers.push(("x-api-key".to_string(), "secret".to_string()));
    ctx.headers.push(("cookie".to_string(), "session=abc; theme=dark".to_string()));
    ctx.body = Some(b"hello payload".to_vec());
    assert!(evaluate(
        &Condition::HeaderExact { name: "x-api-key".to_string(), value: "secret".to_string() },
        &ctx
    ));
    assert!(!evaluate(
        &Condition::HeaderExact { name: "x-api-key".to_string(), value: "other".to_string() },
        &ctx
    ));
    assert!(evaluate(
        &Condition::HeaderRegex { name: "x-api-key".to_string(), pattern: "^sec".to_string() },
        &ctx
    ));
    assert!(evaluate(
        &Condition::CookieExact { name: "theme".to_string(), value: "dark".to_string() },
        &ctx
    ));
    assert!(!evaluate(
        &Condition::CookieExact { name: "theme".to_string(), value: "light".to_string() },
        &ctx
    ));
    assert!(evaluate(&Condition::PayloadRegex { pattern: "pay".to_string() }, &ctx));
    assert!(!evaluate(&Condition::PayloadRegex { pattern: "(".to_string() }, &ctx));
}
