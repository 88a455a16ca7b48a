use waf_rules::ruleset::consul::decode_rule_files;
use waf_rules::ruleset::loader::RuleLoader;
use waf_rules::ruleset::types::{Action, ConditionLeaf, ConditionNode, Field, MatchType, RuleRaw};
use waf_rules::ruleset::{RequestContext, RuleError, RuleEvaluator};
use waf_rules::types::Tier;

fn leaf(field: Field, match_type: MatchType, value: &str, case_sensitive: bool) -> ConditionNode {
    ConditionNode::Leaf(ConditionLeaf {
        field,
        match_type,
        value: value.to_string(),
        header_name: None,
        cookie_name: None,
        case_sensitive,
        negate: false,
        compiled_regex_key: None,
    })
}

fn raw(id: &str, priority: u32, condition: ConditionNode, action: Action, delta: i8) -> RuleRaw {
    RuleRaw {
        id: id.to_string(),
        description: String::new(),
        enabled: true,
        priority,
        condition,
        action,
        risk_score_delta: delta,
        response: None,
        rate_limit: None,
        challenge: None,
        tier: None,
        source: None,
    }
}

fn ctx(path: &str, payload: &[u8]) -> RequestContext {
    RequestContext {
        ip: "1.2.3.4".to_string(),
        path: path.to_string(),
        method: "POST".to_string(),
        headers: Vec::new(),
        payload: payload.to_vec(),
        cookies: Vec::new(),
        tier: Tier::Medium,
        session_id: String::new(),
        device_fp: String::new(),
        content_type: None,
    }
}

#[test]
fn compile_sorts_by_priority_and_keys_regexes() {
    let rules = vec![
        raw("late", 50, leaf(Field::Path, MatchType::Exact, "/x", false), Action::Block, 10),
        raw("early", 5, leaf(Field::Payload, MatchType::Regex, r"union\s+select", false), Action::Block, 20),
    ];
    let set = RuleLoader::compile(rules).unwrap();
    assert_eq!(set.rules.len(), 2);
    assert_eq!(set.rules[0].id, "early");
    assert_eq!(set.rules[1].id, "late");
    assert_eq!(set.rules[0].source, "system");
    assert_eq!(set.compiled_regexes.len(), 1);
    assert_eq!(set.compiled_regexes[0].0, "regex_0");
    assert_eq!(set.compiled_regexes[0].1.pattern(), r"(?i)union\s+select");
    match &set.rules[0].condition {
        ConditionNode::Leaf(l) => assert_eq!(l.compiled_regex_key.as_deref(), Some("regex_0")),
        _ => panic!("expected leaf"),
    }
    let ev = RuleEvaluator::new(set);
    let m = ev.evaluate(&ctx("/x", b"1 UNION  SELECT 2"), &[]).unwrap();
    assert_eq!(m.rule_id, "early");
    let m2 = ev.evaluate(&ctx("/x", b"hello"), &[]).unwrap();
    assert_eq!(m2.rule_id, "late");
    assert!(ev.evaluate(&ctx("/y", b"hello"), &[]).is_none());
}

#[test]
fn compile_rejects_bad_regex() {
    let rules = vec![raw("bad", 1, leaf(Field::Path, MatchType::Regex, "(", true), Action::Block, 0)];
    match RuleLoader::compile(rules) {
        Err(RuleError::RegexError { id, pattern }) => {
            assert_eq!(id, "bad");
            assert_eq!(pattern, "(");
        }
        other => panic!("expected regex error, got {:?}", other),
    }
}

#[test]
fn compile_rejects_duplicate_ids() {
    let rules = vec![
        raw("a", 1, leaf(Field::Path, MatchType::Exact, "/", false), Action::Allow, 0),
        raw("a", 2, leaf(Field::Path, MatchType::Exact, "/", false), Action::Allow, 0),
    ];
    match RuleLoader::compile(rules) {
        Err(RuleError::DuplicateId(id)) => assert_eq!(id, "a"),
        other => panic!("expected duplicate id, got {:?}", other),
    }
}

#[test]
fn compile_rejects_out_of_range_delta_and_zero_priority() {
    let rules = vec![raw("d", 1, leaf(Field::Path, MatchType::Exact, "/", false), Action::Allow, 101)];
    match RuleLoader::compile(rules) {
        Err(RuleError::ValidationError { id, reason }) => {
            assert_eq!(id, "d");
            assert_eq!(reason, "risk_score_delta 101 out of range [-100, 100]");
        }
        other => panic!("expected validation error, got {:?}", other),
    }
    let rules = vec![raw("p", 0, leaf(Field::Path, MatchType::Exact, "/", false), Action::Allow, 0)];
    match RuleLoader::compile(rules) {
        Err(RuleError::ValidationError { id, reason }) => {
            assert_eq!(id, "p");
            assert_eq!(reason, "priority must be >= 1");
        }
        other => panic!("expected validation error, got {:?}", other),
    }
}

#[test]
fn consul_values_are_base64_decoded() {
    let kvs = vec![
        ("waf/rules/a.yaml".to_string(), Some("aGVsbG8=".to_string())),
        ("waf/rules/readme.txt".to_string(), Some("!!!".to_string())),
        ("waf/rules/empty.yaml".to_string(), None),
    ];
    let files = decode_rule_files(&kvs).unwrap();
    assert_eq!(files, vec![("waf/rules/a.yaml".to_string(), "hello".to_string())]);
    let bad = vec![("waf/rules/b.yaml".to_string(), Some("!!!".to_string()))];
    match decode_rule_files(&bad) {
        Err(RuleError::IoError { file, .. }) => assert_eq!(file, "waf/rules/b.yaml"),
        other => panic!("expected io error, got {:?}", other),
    }
}

#[test]
fn rules_for_context_lists_every_rule_in_order() {
    let rules = vec![
        raw("b", 9, leaf(Field::Path, MatchType::Exact, "/b", false), Action::Block, 1),
        raw("a", 1, leaf(Field::Path, MatchType::Exact, "/a", false), Action::Log, 1),
    ];
    let set = RuleLoader::compile(rules).unwrap();
    let ids: Vec<&str> = set.rules_for_context(&ctx("/zzz", b"")).iter().map(|r| r.id.as_str()).collect();
    assert_eq!(ids, vec!["a", "b"]);
}
