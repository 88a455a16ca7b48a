use waf_rules::grl::converter::{
    cond_to_grl, grl_string_literal, path_match_grl, regex_escape, rule_to_grl, yaml_to_grl,
    YamlValue,
};

fn s(x: &str) -> YamlValue {
    YamlValue::Str(x.to_string())
}

fn map(entries: Vec<(&str, YamlValue)>) -> YamlValue {
    YamlValue::Mapping(entries.into_iter().map(|(k, v)| (s(k), v)).collect())
}

#[test]
fn converts_sqli_block_rule() {
    let rule = map(vec![
        ("id", s("critical-sqli")),
        ("priority", YamlValue::Int(90)),
        ("scope", map(vec![("type", s("tier")), ("tier", s("critical"))])),
        ("condition", map(vec![("type", s("sqli_pattern"))])),
        ("action", s("block")),
        ("risk_score_delta", YamlValue::Int(80)),
    ]);
    let grl = yaml_to_grl(&YamlValue::List(vec![rule])).unwrap();
    let expected = "rule \"critical-sqli\" salience 910 {\n    when (Request.Tier == \"critical\") && ((contains_sqli(Request.Query) || contains_sqli(Request.Body)))\n    then\n    Request.RiskScore = Request.RiskScore + 80;\n    block(\"critical-sqli\");\n}\n\n";
    assert_eq!(grl, expected);
}

#[test]
fn converts_path_wildcard_routing() {
    let rule = map(vec![
        ("id", s("route-api")),
        ("priority", YamlValue::Int(60)),
        ("scope", s("global")),
        ("condition", map(vec![("type", s("path_wildcard")), ("pattern", s("/api/*"))])),
        ("action", s("allow")),
        ("upstream_backend", s("python")),
        ("risk_score_delta", YamlValue::Int(0)),
    ]);
    let grl = rule_to_grl(&rule).unwrap();
    let expected = "rule \"route-api\" salience 150 {\n    when matches(Request.Path, \"^/api/[^/]+$\")\n    then\n    log(\"route:python\");\n    allow();\n}\n";
    assert_eq!(grl, expected);
}

#[test]
fn handles_and_or_combinator() {
    let rule = map(vec![
        ("id", s("combo")),
        ("priority", YamlValue::Int(100)),
        ("scope", s("global")),
        (
            "condition",
            map(vec![
                ("type", s("and")),
                (
                    "conditions",
                    YamlValue::List(vec![
                        map(vec![("type", s("path_exact")), ("value", s("/x"))]),
                        map(vec![
                            ("type", s("or")),
                            (
                                "conditions",
                                YamlValue::List(vec![
                                    map(vec![("type", s("sqli_pattern"))]),
                                    map(vec![("type", s("xss_pattern"))]),
                                ]),
                            ),
                        ]),
                    ]),
                ),
            ]),
        ),
        ("action", s("block")),
        ("risk_score_delta", YamlValue::Int(50)),
    ]);
    let grl = yaml_to_grl(&YamlValue::List(vec![rule])).unwrap();
    let expected = "rule \"combo\" salience 900 {\n    when (Request.Path == \"/x\" && ((contains_sqli(Request.Query) || contains_sqli(Request.Body)) || (contains_xss(Request.Query) || contains_xss(Request.Body))))\n    then\n    Request.RiskScore = Request.RiskScore + 50;\n    block(\"combo\");\n}\n\n";
    assert_eq!(grl, expected);
}

#[test]
fn and_or_combinators_nest() {
    let cond = map(vec![
        ("type", s("and")),
        (
            "conditions",
            YamlValue::List(vec![
                map(vec![("type", s("path_exact")), ("value", s("/x"))]),
                map(vec![
                    ("type", s("or")),
                    (
                        "conditions",
                        YamlValue::List(vec![
                            map(vec![("type", s("path_traversal_pattern"))]),
                            map(vec![("type", s("ip_in_blacklist"))]),
                        ]),
                    ),
                ]),
            ]),
        ),
    ]);
    assert_eq!(
        cond_to_grl(&cond).unwrap(),
        "(Request.Path == \"/x\" && (contains_path_traversal(Request.Path) || ip_in_blacklist(Request.ClientIp)))"
    );
}

#[test]
fn new_format_conditions() {
    let c = map(vec![("field", s("header")), ("match", s("exact")), ("value", s("X-Key: abc"))]);
    assert_eq!(cond_to_grl(&c).unwrap(), "Request.Headers[\"X-Key\"] == \"abc\"");
    let c = map(vec![("field", s("cookie")), ("match", s("exact")), ("value", s(" a = b "))]);
    assert_eq!(cond_to_grl(&c).unwrap(), "contains(Request.Headers[\"Cookie\"], \"a=b\")");
    let c = map(vec![("field", s("path")), ("match", s("regex")), ("value", s("^/a\"b"))]);
    assert_eq!(cond_to_grl(&c).unwrap(), "matches(Request.Path, \"^/a\\\"b\")");
}

#[test]
fn rules_without_id_are_skipped() {
    let good = map(vec![("id", s("a")), ("condition", map(vec![("type", s("ip_in_whitelist"))]))]);
    let bad = map(vec![("priority", YamlValue::Int(1))]);
    let grl = yaml_to_grl(&YamlValue::List(vec![bad, good])).unwrap();
    assert_eq!(
        grl,
        "rule \"a\" salience 500 {\n    when ip_in_whitelist(Request.ClientIp)\n    then\n    log(\"a\");\n}\n\n"
    );
    assert_eq!(yaml_to_grl(&s("not a list")).unwrap_err(), "yaml rules: top-level must be a sequence");
}

#[test]
fn path_helpers() {
    assert_eq!(path_match_grl("/**"), "true");
    assert_eq!(path_match_grl("/static/**"), "starts_with(Request.Path, \"/static/\")");
    assert_eq!(path_match_grl("/a.b/*"), "matches(Request.Path, \"^/a\\.b/[^/]+$\")");
    assert_eq!(path_match_grl("/exact"), "Request.Path == \"/exact\"");
    assert_eq!(regex_escape("a.b*c"), "a\\.b\\*c");
    assert_eq!(grl_string_literal("say \"hi\""), "\"say \\\"hi\\\"\"");
}
