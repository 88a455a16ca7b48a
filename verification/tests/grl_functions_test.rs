use waf_rules::grl::functions::{
    detect_cmd_injection, detect_header_injection, detect_path_traversal, detect_sqli, detect_xss,
};

#[test]
fn sqli_detects_classics() {
    assert!(detect_sqli("' OR '1'='1"));
    assert!(detect_sqli("1; DROP TABLE users--"));
    assert!(detect_sqli("UNION SELECT password FROM users"));
    assert!(!detect_sqli("hello world"));
}

#[test]
fn xss_detects_classics() {
    assert!(detect_xss("<script>alert(1)</script>"));
    assert!(detect_xss("<img src=x onerror=alert(1)>"));
    assert!(detect_xss("javascript:alert(1)"));
    assert!(!detect_xss("normal text"));
}

#[test]
fn traversal_detects() {
    assert!(detect_path_traversal("../../etc/passwd"));
    assert!(detect_path_traversal("%2e%2e%2fetc"));
    assert!(!detect_path_traversal("/api/v1/users"));
}

#[test]
fn header_injection_and_cmd_injection() {
    assert!(detect_header_injection("value\r\nX-Injected: evil"));
    assert!(!detect_header_injection("plain value"));
    assert!(detect_cmd_injection("; cat /etc/passwd"));
    assert!(!detect_cmd_injection("hello"));
}
