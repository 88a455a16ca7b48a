use waf_rules::proxy::{
    path_condition_matches, refusal_for, resolve_upstream, upstream_target, CircuitBreaker,
    CircuitState,
};
use waf_rules::rule::{Condition, Rule, RuleAction, RuleScope};
use waf_rules::types::{ChallengeKind, Decision, FailMode, RiskScore, Tier, TierRoute};

#[test]
fn breaker_opens_at_threshold() {
    let mut cb = CircuitBreaker::new(3, 30);
    assert_eq!(cb.state(0), CircuitState::Closed);
    cb.record_failure(1);
    cb.record_failure(2);
    assert_eq!(cb.state(2), CircuitState::Closed);
    cb.record_failure(3);
    assert_eq!(cb.state(3), CircuitState::Open);
    assert_eq!(cb.state(32), CircuitState::Open);
    assert_eq!(cb.state(33), CircuitState::HalfOpen);
}

#[test]
fn breaker_half_open_probe() {
    let mut cb = CircuitBreaker::new(1, 10);
    cb.record_failure(100);
    assert_eq!(cb.state(105), CircuitState::Open);
    assert_eq!(cb.state(110), CircuitState::HalfOpen);
    cb.record_failure(111);
    assert_eq!(cb.state(111), CircuitState::Open);
    assert_eq!(cb.state(121), CircuitState::HalfOpen);
    cb.record_success();
    assert_eq!(cb.state(121), CircuitState::Closed);
}

#[test]
fn breaker_success_resets_counter() {
    let mut cb = CircuitBreaker::new(2, 5);
    cb.record_failure(0);
    cb.record_success();
    cb.record_failure(1);
    assert_eq!(cb.state(1), CircuitState::Closed);
    cb.record_failure(2);
    assert_eq!(cb.state(2), CircuitState::Open);
}

fn route_rule(id: &str, cond: Condition, backend: Option<&str>) -> Rule {
    Rule {
        id: id.to_string(),
        priority: 10,
        scope: RuleScope::Global,
        condition: cond,
        action: RuleAction::Allow,
        risk_score_delta: 0,
        upstream_backend: backend.map(|s| s.to_string()),
    }
}

#[test]
fn upstream_routing_picks_first_matching_backend() {
    let rules = vec![
        route_rule("no-backend", Condition::PathWildcard { pattern: "/*".to_string() }, None),
        route_rule("unknown", Condition::PathWildcard { pattern: "/api/*".to_string() }, Some("ghost")),
        route_rule("api", Condition::PathWildcard { pattern: "/api/*".to_string() }, Some("python")),
        route_rule("exact", Condition::PathExact { value: "/health".to_string() }, Some("go")),
    ];
    let backends = vec![
        ("python".to_string(), "http://py:8000".to_string()),
        ("go".to_string(), "http://go:8080".to_string()),
    ];
    let default = "http://default:80".to_string();
    assert_eq!(resolve_upstream("/api/users", &rules, &backends, &default), "http://py:8000");
    assert_eq!(resolve_upstream("/api", &rules, &backends, &default), "http://py:8000");
    assert_eq!(resolve_upstream("/health", &rules, &backends, &default), "http://go:8080");
    assert_eq!(resolve_upstream("/other", &rules, &backends, &default), "http://default:80");
}

#[test]
fn routing_conditions() {
    let c = Condition::Or(vec![
        Condition::PathExact { value: "/a".to_string() },
        Condition::And(vec![
            Condition::PathWildcard { pattern: "/b/*".to_string() },
            Condition::PathWildcard { pattern: "/b/*".to_string() },
        ]),
    ]);
    assert!(path_condition_matches(&c, "/a"));
    assert!(path_condition_matches(&c, "/b/x"));
    assert!(!path_condition_matches(
        &Condition::Not(Box::new(Condition::PathExact { value: "/b/secret".to_string() })),
        "/a"
    ));
    assert!(!path_condition_matches(&c, "/c"));
    assert!(!path_condition_matches(&Condition::SqliPattern, "/a"));
}

#[test]
fn upstream_target_joins_parts() {
    assert_eq!(upstream_target("http://up:1", "/x", Some("a=1")), "http://up:1/x?a=1");
    assert_eq!(upstream_target("http://up:1", "/x", None), "http://up:1/x");
}

#[test]
fn refusals_per_decision() {
    assert!(refusal_for(&Decision::Allow).is_none());
    let b = refusal_for(&Decision::Block { reason: "sqli".to_string() }).unwrap();
    assert_eq!(b.status, 403);
    assert_eq!(b.message, "blocked: sqli");
    assert_eq!(b.retry_after_secs, None);
    let c = refusal_for(&Decision::Challenge(ChallengeKind::ProofOfWork)).unwrap();
    assert_eq!(c.status, 403);
    assert_eq!(c.message, "challenge required");
    let r = refusal_for(&Decision::RateLimit { retry_after_secs: 60 }).unwrap();
    assert_eq!(r.status, 429);
    assert_eq!(r.message, "rate limit exceeded");
    assert_eq!(r.retry_after_secs, Some(60));
}

#[test]
fn tiers_from_routes() {
    let routes = vec![
        TierRoute { pattern: "/login".to_string(), tier: Tier::Critical },
        TierRoute { pattern: "/api/*".to_string(), tier: Tier::High },
        TierRoute { pattern: "/**".to_string(), tier: Tier::Medium },
    ];
    assert_eq!(Tier::from_path("/login", &routes), Tier::Critical);
    assert_eq!(Tier::from_path("/api", &routes), Tier::High);
    assert_eq!(Tier::from_path("/api/v1", &routes), Tier::High);
    assert_eq!(Tier::from_path("/x", &routes), Tier::Medium);
    assert_eq!(Tier::from_path("/x", &[]), Tier::CatchAll);
    assert_eq!(Tier::Critical.default_fail_mode(), FailMode::Close);
    assert_eq!(Tier::High.default_fail_mode(), FailMode::Close);
    assert_eq!(Tier::Medium.default_fail_mode(), FailMode::Open);
    assert_eq!(Tier::CatchAll.config_key(), "catch_all");
    assert_eq!(Tier::CatchAll.name(), "catchall");
}

#[test]
fn risk_score_bounds() {
    assert_eq!(RiskScore::max().value(), 100);
    assert_eq!(RiskScore::zero().value(), 0);
    assert!(RiskScore::max().is_max());
    assert!(!RiskScore(99).is_max());
}

#[test]
fn breaker_stays_open_past_threshold() {
    let mut cb = CircuitBreaker::new(2, 60);
    cb.record_failure(1);
    assert_eq!(cb.state(1), CircuitState::Closed);
    cb.record_failure(2);
    cb.record_failure(3);
    cb.record_failure(4);
    assert_eq!(cb.state(4), CircuitState::Open);
}
