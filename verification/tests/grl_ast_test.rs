use waf_rules::grl::ast::{BinOp, CallExpr, Expr, Path, PathSeg, UnaryOp, Value};
use waf_rules::grl::functions::dispatch;
use waf_rules::grl::printer::{path_to_string, print_expr};
use waf_rules::rete::engine::outcome_to_decision;
use waf_rules::rete::terminal::{merge_and, merge_or, Guard};
use waf_rules::rete::working_memory::{ChallengeReq, Outcome};
use waf_rules::types::{ChallengeKind, Decision};

fn path(fields: &[&str]) -> Path {
    Path { segments: fields.iter().map(|f| PathSeg::Field(f.to_string())).collect() }
}

#[test]
fn values_convert() {
    assert_eq!(Value::Str("42".to_string()).as_int(), 42);
    assert_eq!(Value::Str("x".to_string()).as_int(), 0);
    assert_eq!(Value::Bool(true).as_int(), 1);
    assert_eq!(Value::Int(-7).as_str(), "-7");
    assert_eq!(Value::Bool(false).as_str(), "false");
    assert_eq!(Value::Null.as_str(), "");
    assert!(Value::Str("x".to_string()).as_bool());
    assert!(!Value::Str(String::new()).as_bool());
    assert!(!Value::Int(0).as_bool());
}

#[test]
fn printer_is_canonical() {
    let mut p = path(&["Request", "Headers"]);
    p.segments.push(PathSeg::Index("X-Forwarded-For".to_string()));
    assert_eq!(path_to_string(&p), "Request.Headers[\"X-Forwarded-For\"]");
    let e = Expr::Binary {
        op: BinOp::And,
        left: Box::new(Expr::Binary {
            op: BinOp::Eq,
            left: Box::new(Expr::Path(path(&["Request", "Method"]))),
            right: Box::new(Expr::Literal(Value::Str("POST".to_string()))),
        }),
        right: Box::new(Expr::Unary {
            op: UnaryOp::Not,
            expr: Box::new(Expr::Call(CallExpr {
                name: "contains".to_string(),
                args: vec![
                    Expr::Path(path(&["Request", "Path"])),
                    Expr::Literal(Value::Int(5)),
                ],
            })),
        }),
    };
    assert_eq!(
        print_expr(&e),
        "((Request.Method == \"POST\") && (!contains(Request.Path,5)))"
    );
    assert_eq!(print_expr(&Expr::Literal(Value::Null)), "null");
    assert_eq!(print_expr(&Expr::Literal(Value::Str("a\"b".to_string()))), "\"a\\\"b\"");
}

#[test]
fn dispatch_builtins() {
    let s = |x: &str| Value::Str(x.to_string());
    assert!(dispatch("matches", &[s("abc"), s("^a.c$")]).as_bool());
    assert!(!dispatch("matches", &[s("abc"), s("(")]).as_bool());
    assert!(dispatch("contains", &[s("hello"), s("ell")]).as_bool());
    assert!(dispatch("starts_with", &[s("hello"), s("he")]).as_bool());
    assert!(dispatch("ends_with", &[s("hello"), s("lo")]).as_bool());
    assert_eq!(dispatch("lower", &[s("AbC")]).as_str(), "abc");
    assert_eq!(dispatch("upper", &[s("AbC")]).as_str(), "ABC");
    assert_eq!(dispatch("len", &[s("héllo")]).as_int(), 5);
    assert_eq!(dispatch("len", &[]).as_int(), 0);
    assert!(dispatch("contains_sqli", &[s("1 UNION SELECT 2")]).as_bool());
    assert!(matches!(dispatch("no_such_fn", &[]), Value::Null));
}

#[test]
fn guards_merge_and_evaluate() {
    let alphas = [true, false, true];
    let g = merge_and(Guard::Alpha(0), merge_and(Guard::Alpha(2), Guard::True));
    assert!(g.eval(&alphas));
    let h = merge_or(Guard::Alpha(1), Guard::Not(Box::new(Guard::Alpha(0))));
    assert!(!h.eval(&alphas));
    assert!(!Guard::Alpha(9).eval(&alphas));
    assert!(Guard::Or(vec![Guard::False, Guard::Alpha(2)]).eval(&alphas));
}

#[test]
fn outcome_decisions() {
    let mut o = Outcome::new();
    assert_eq!(outcome_to_decision(&o), Decision::Allow);
    o.rate_limit_secs = Some(60);
    assert_eq!(outcome_to_decision(&o), Decision::RateLimit { retry_after_secs: 60 });
    o.challenge = Some(ChallengeReq::Pow);
    assert_eq!(outcome_to_decision(&o), Decision::Challenge(ChallengeKind::ProofOfWork));
    o.block_reason = Some("bad".to_string());
    assert_eq!(outcome_to_decision(&o), Decision::Block { reason: "bad".to_string() });
}
