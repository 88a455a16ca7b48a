use waf_rules::context::RequestContext;
use waf_rules::crs::operator::{match_operator, DataAutomata};
use waf_rules::crs::target::{build_uri, extract_values, pct_decode};
use waf_rules::crs::transform::{apply_transforms, url_decode_uni};
use waf_rules::crs::tx::TxState;
use waf_rules::crs::types::{CrsOperator, CrsTarget, CrsTransform, SetVarOp, SetVarRhs, VarOp};
use waf_rules::crs::parser::parse_operator;
use waf_rules::types::{RiskScore, Tier};

fn ctx(path: &str, query: Option<&str>, body: Option<&[u8]>, headers: Vec<(&str, &str)>) -> RequestContext {
    RequestContext {
        request_id: "r".to_string(),
        arrived_at_ms: 0,
        method: "POST".to_string(),
        path: path.to_string(),
        query: query.map(|s| s.to_string()),
        tier: Tier::High,
        client_ip: "10.1.2.3".to_string(),
        xff_header: None,
        headers: headers.into_iter().map(|(k, v)| (k.to_string(), v.to_string())).collect(),
        body: body.map(|b| b.to_vec()),
        session_id: None,
        device_fp: None,
        risk_score: RiskScore::zero(),
        matched_rule_id: None,
        extensions: Vec::new(),
    }
}

#[test]
fn tx_defaults_and_setvars() {
    let mut tx = TxState::new();
    assert_eq!(tx.get("critical_anomaly_score"), 5);
    assert_eq!(tx.get("CRITICAL_ANOMALY_SCORE"), 5);
    assert_eq!(tx.get("unknown"), 0);
    assert_eq!(tx.get_str("allowed_methods"), "GET HEAD POST OPTIONS");
    assert_eq!(tx.inbound_score(), 0);
    tx.apply(&SetVarOp {
        var: "inbound_anomaly_score_pl1".to_string(),
        op: VarOp::IncrBy,
        rhs: SetVarRhs::TxRef("critical_anomaly_score".to_string()),
    });
    tx.apply(&SetVarOp {
        var: "inbound_anomaly_score_pl2".to_string(),
        op: VarOp::IncrBy,
        rhs: SetVarRhs::Int(3),
    });
    assert_eq!(tx.inbound_score(), 8);
    tx.apply(&SetVarOp { var: "inbound_anomaly_score_pl2".to_string(), op: VarOp::DecrBy, rhs: SetVarRhs::Int(1) });
    tx.apply(&SetVarOp { var: "fresh".to_string(), op: VarOp::Assign, rhs: SetVarRhs::Int(42) });
    assert_eq!(tx.inbound_score(), 7);
    assert_eq!(tx.get("fresh"), 42);
}

#[test]
fn transforms_apply_in_order() {
    let t = [CrsTransform::UrlDecodeUni, CrsTransform::Lowercase];
    assert_eq!(apply_transforms("%41B%2Fc", &t), "ab/c");
    assert_eq!(apply_transforms("  a \t\n b  ", &[CrsTransform::CompressWhitespace]), " a b ");
    assert_eq!(apply_transforms("  a b  ", &[CrsTransform::Trim]), "a b");
    assert_eq!(apply_transforms("a\0b", &[CrsTransform::RemoveNulls]), "ab");
    assert_eq!(apply_transforms("héllo", &[CrsTransform::Length]), "5");
    assert_eq!(apply_transforms("a b\tc", &[CrsTransform::RemoveWhitespace]), "abc");
    assert_eq!(apply_transforms("&lt;script&gt;", &[CrsTransform::HtmlEntityDecode]), "<script>");
    assert_eq!(apply_transforms("/a/../b//c", &[CrsTransform::NormalizePath]), "/a/b/c");
    assert_eq!(apply_transforms("a\\nb\\x41", &[CrsTransform::EscapeSeqDecode]), "a\nbA");
    assert_eq!(apply_transforms("unchanged", &[]), "unchanged");
    assert_eq!(url_decode_uni("%zz%4"), "%zz%4");
}

#[test]
fn operators_match() {
    let data = DataAutomata::new();
    let tx = TxState::new();
    let op = |text: &str| parse_operator(&text.chars().collect::<Vec<char>>()).unwrap().1;
    let rx = op("@rx ^ab+c$");
    assert!(matches!(rx, CrsOperator::Rx(_)));
    assert!(match_operator(&rx, "abbc", &data, &tx));
    assert!(!match_operator(&rx, "ac", &data, &tx));
    let pm = op("@pm select union");
    assert!(matches!(pm, CrsOperator::Pm(_)));
    assert!(match_operator(&pm, "x UNION y", &data, &tx));
    assert!(!match_operator(&pm, "", &data, &tx));
    assert!(!match_operator(&CrsOperator::PmFromFile("missing.data".to_string()), "union", &data, &tx));
    assert!(match_operator(&CrsOperator::Lt(5), "4", &data, &tx));
    assert!(!match_operator(&CrsOperator::Lt(5), "x", &data, &tx));
    assert!(match_operator(&CrsOperator::Ge(5), "5", &data, &tx));
    assert!(match_operator(&CrsOperator::GtTxRef("arg_length".to_string()), "401", &data, &tx));
    assert!(match_operator(&CrsOperator::Contains("abc".to_string()), "xxABCxx", &data, &tx));
    assert!(match_operator(&CrsOperator::Streq("GET".to_string()), "GET", &data, &tx));
    assert!(match_operator(&CrsOperator::Within(vec!["%{tx.allowed_methods}".to_string()]), "HEAD", &data, &tx));
    assert!(!match_operator(&CrsOperator::Within(vec!["%{tx.allowed_methods}".to_string()]), "PUT", &data, &tx));
    assert!(match_operator(&CrsOperator::BeginsWith("/ad".to_string()), "/admin", &data, &tx));
    assert!(match_operator(&CrsOperator::EndsWith(".php".to_string()), "/x.php", &data, &tx));
    assert!(!match_operator(&CrsOperator::ValidateUrlEncoding, "%zz", &data, &tx));
    assert!(match_operator(&CrsOperator::ValidateUtf8Encoding, "a\u{FFFD}", &data, &tx));
    assert!(match_operator(&CrsOperator::DetectSQLi, "1 UNION SELECT 2", &data, &tx));
}

#[test]
fn data_files_feed_pm_from_file() {
    let mut data = DataAutomata::new();
    data.insert("words.data".to_string(), vec!["passwd".to_string()]);
    let tx = TxState::new();
    let op = CrsOperator::PmFromFile("words.data".to_string());
    assert!(match_operator(&op, "/etc/PASSWD", &data, &tx));
    assert!(!match_operator(&op, "/etc/hosts", &data, &tx));
}

#[test]
fn targets_extract_request_values() {
    let tx = TxState::new();
    let c = ctx(
        "/dir/file.php",
        Some("a=1&b=x%20y+z"),
        Some(b"c=3"),
        vec![("content-type", "application/x-www-form-urlencoded"), ("cookie", "s=abc; t = d ")],
    );
    assert_eq!(extract_values(&CrsTarget::Args, &c, &tx), vec!["1", "x y z", "3"]);
    assert_eq!(extract_values(&CrsTarget::ArgsNames, &c, &tx), vec!["a", "b", "c"]);
    assert_eq!(extract_values(&CrsTarget::ArgsCount, &c, &tx), vec!["3"]);
    assert_eq!(extract_values(&CrsTarget::RequestCookies, &c, &tx), vec!["abc", "d"]);
    assert_eq!(extract_values(&CrsTarget::RequestCookiesNames, &c, &tx), vec!["s", "t"]);
    assert_eq!(extract_values(&CrsTarget::RequestBasename, &c, &tx), vec!["file.php"]);
    assert_eq!(
        extract_values(&CrsTarget::RequestLine, &c, &tx),
        vec!["POST /dir/file.php?a=1&b=x%20y+z HTTP/1.1"]
    );
    assert_eq!(extract_values(&CrsTarget::RemoteAddr, &c, &tx), vec!["10.1.2.3"]);
    assert_eq!(extract_values(&CrsTarget::Tx("arg_length".to_string()), &c, &tx), vec!["400"]);
    assert!(extract_values(&CrsTarget::Tx("/score/".to_string()), &c, &tx).is_empty());
    assert_eq!(extract_values(&CrsTarget::TxCount("rbl_score".to_string()), &c, &tx), vec!["0"]);
    assert_eq!(
        extract_values(&CrsTarget::RequestHeadersCount("Cookie".to_string()), &c, &tx),
        vec!["1"]
    );
    assert_eq!(
        extract_values(&CrsTarget::RequestHeaders(Some("COOKIE".to_string())), &c, &tx),
        vec!["s=abc; t = d "]
    );
    assert_eq!(build_uri(&c), "/dir/file.php?a=1&b=x%20y+z");
    let plain = ctx("/p", Some(""), Some(b"c=3"), vec![]);
    assert_eq!(build_uri(&plain), "/p");
    assert!(extract_values(&CrsTarget::Args, &plain, &tx).is_empty());
    assert_eq!(pct_decode("%41+b%"), "A b%");
}

#[test]
fn header_count_is_presence_not_multiplicity() {
    let tx = TxState::new();
    let c = ctx("/", None, None, vec![("Cookie", "a=1"), ("cookie", "b=2"), ("Host", "h")]);
    assert_eq!(
        extract_values(&CrsTarget::RequestHeadersCount("COOKIE".to_string()), &c, &tx),
        vec!["1"]
    );
    assert_eq!(
        extract_values(&CrsTarget::RequestHeadersCount("X-Missing".to_string()), &c, &tx),
        vec!["0"]
    );
}

#[test]
fn url_decode_undoes_percent_encoding() {
    let s = "a/é+?";
    let upper: String = s.bytes().map(|b| format!("%{:02X}", b)).collect();
    let lower: String = s.bytes().map(|b| format!("%{:02x}", b)).collect();
    assert_eq!(url_decode_uni(&upper), s);
    assert_eq!(url_decode_uni(&lower), s);
    assert_eq!(url_decode_uni("plain+text é"), "plain+text é");
}

#[test]
fn setvar_reads_rhs_before_update() {
    let mut tx = TxState::new();
    tx.apply(&SetVarOp { var: "X".to_string(), op: VarOp::Assign, rhs: SetVarRhs::Int(3) });
    tx.apply(&SetVarOp { var: "x".to_string(), op: VarOp::IncrBy, rhs: SetVarRhs::TxRef("X".to_string()) });
    assert_eq!(tx.get("x"), 6);
    tx.apply(&SetVarOp { var: "x".to_string(), op: VarOp::DecrBy, rhs: SetVarRhs::Int(10) });
    assert_eq!(tx.get("X"), -4);
}

#[test]
fn setvar_touches_only_its_own_variable() {
    let mut tx = TxState::new();
    tx.apply(&SetVarOp {
        var: "Rce_Score".to_string(),
        op: VarOp::IncrBy,
        rhs: SetVarRhs::TxRef("rce_score".to_string()),
    });
    assert_eq!(tx.get("rce_score"), 0);
    tx.apply(&SetVarOp { var: "RCE_SCORE".to_string(), op: VarOp::Assign, rhs: SetVarRhs::Int(4) });
    tx.apply(&SetVarOp {
        var: "rce_score".to_string(),
        op: VarOp::IncrBy,
        rhs: SetVarRhs::TxRef("Rce_Score".to_string()),
    });
    assert_eq!(tx.get("rce_score"), 8);
    assert_eq!(tx.get("xss_score"), 0);
    assert_eq!(tx.get("critical_anomaly_score"), 5);
    assert_eq!(tx.get_str("allowed_methods"), "GET HEAD POST OPTIONS");
}
