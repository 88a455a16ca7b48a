use waf_rules::crs::parser::{join_continuations, parse_conf, parse_setvar};
use waf_rules::crs::types::{DefaultAction, RuleItem, SetVarRhs, VarOp};

#[test]
fn join_continuation_lines() {
    let src = "SecRule ARGS \\\n    \"@rx foo\" \\\n    \"id:1,phase:2,pass\"";
    let lines = join_continuations(src);
    assert_eq!(lines.len(), 1);
    assert!(lines[0].contains("@rx foo"));
}

#[test]
fn parse_simple_detect_sqli_rule() {
    let src = r#"SecRule ARGS "@detectSQLi" "id:9001,phase:2,block,tag:'attack-sqli',setvar:'tx.sql_injection_score=+%{tx.critical_anomaly_score}',setvar:'tx.inbound_anomaly_score_pl1=+%{tx.critical_anomaly_score}'""#;
    let items = parse_conf(src);
    assert_eq!(items.len(), 1);
    let rule = match &items[0] {
        RuleItem::Rule(r) => r,
        _ => panic!("expected rule"),
    };
    assert_eq!(rule.id, 9001);
    assert_eq!(rule.phase, 2);
    assert!(!rule.actions.setvars.is_empty());
    assert!(rule.actions.tags.contains(&"attack-sqli".to_owned()));
}

#[test]
fn parse_skip_after_rule() {
    let src = r#"SecRule TX:DETECTION_PARANOIA_LEVEL "@lt 1" "id:942011,phase:1,pass,nolog,tag:'OWASP_CRS',skipAfter:END-CRS""#;
    let items = parse_conf(src);
    let rule = match &items[0] {
        RuleItem::Rule(r) => r,
        _ => panic!(),
    };
    assert_eq!(rule.actions.skip_after.as_deref(), Some("END-CRS"));
}

#[test]
fn parse_marker() {
    let items = parse_conf(r#"SecMarker "END-REQUEST-942-APPLICATION-ATTACK-SQLI""#);
    match &items[0] {
        RuleItem::Marker(n) => assert_eq!(n, "END-REQUEST-942-APPLICATION-ATTACK-SQLI"),
        _ => panic!("expected marker"),
    }
}

#[test]
fn setvar_tx_ref() {
    let sv = parse_setvar("tx.inbound_anomaly_score_pl1=+%{tx.critical_anomaly_score}").unwrap();
    assert_eq!(sv.var, "inbound_anomaly_score_pl1");
    assert_eq!(sv.op, VarOp::IncrBy);
    assert!(matches!(sv.rhs, SetVarRhs::TxRef(ref r) if r == "critical_anomaly_score"));
}

#[test]
fn setvar_literal_values() {
    let sv = parse_setvar("tx.blocking_paranoia_level=2").unwrap();
    assert_eq!(sv.var, "blocking_paranoia_level");
    assert_eq!(sv.op, VarOp::Assign);
    assert_eq!(sv.rhs, SetVarRhs::Int(2));
    let dec = parse_setvar("tx.score=-5").unwrap();
    assert_eq!(dec.op, VarOp::DecrBy);
    assert_eq!(dec.rhs, SetVarRhs::Int(5));
    assert!(parse_setvar("tx.flag=abc").is_none());
    assert!(parse_setvar("=5").is_none());
    assert!(parse_setvar("tx.flag").is_none());
}

#[test]
fn parse_pass_rule_actions() {
    let src = r#"SecRule REQUEST_URI "@contains /admin" "id:100,phase:1,pass,nolog""#;
    let items = parse_conf(src);
    assert_eq!(items.len(), 1);
    match &items[0] {
        RuleItem::Rule(r) => {
            assert_eq!(r.id, 100);
            assert_eq!(r.phase, 1);
            assert_eq!(r.actions.default_action, DefaultAction::Pass);
            assert!(r.actions.is_nolog);
        }
        _ => panic!("expected rule"),
    }
}

#[test]
fn comments_and_blank_lines_are_skipped() {
    let src = "# a comment\n\nSecMarker END\n";
    let items = parse_conf(src);
    assert_eq!(items.len(), 1);
}
