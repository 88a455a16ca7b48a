//! Built-in functions of GRL `when`/`then` expressions.
//!
//! All entries are pure and dispatched by name.
use vstd::prelude::*;

use crate::grl::ast::{Value, ValueView, spec_as_str, values_view};
use crate::pattern::{pattern_matches, regex_match_str};
use crate::text::{
    chars_of, contains_chars, ends_with_chars, seq_contains, starts_with_chars, string_of,
    to_lowercase, to_uppercase, unicode_lowercase, unicode_uppercase,
};

verus! {

/// Conservative SQL-injection pattern.
pub const SQLI_PATTERN: &'static str = r"(?ix)
          (?:'\s*or\s*'?\d+'?\s*=\s*'?\d+)
        | (?:--\s)
        | (?:\bunion\b\s+\bselect\b)
        | (?:\bdrop\s+table\b)
        | (?:\bselect\b\s+\*\s+\bfrom\b)
        | (?:\bor\b\s+\d+\s*=\s*\d+)
        | (?:;\s*--)
        | (?:\bxp_cmdshell\b)
        | (?:\bsleep\s*\(\s*\d+\s*\))
        ";

/// Conservative cross-site-scripting pattern.
pub const XSS_PATTERN: &'static str = r"(?ix)
          <\s*script[^>]*>
        | javascript\s*:
        | on(?:error|load|click|mouseover)\s*=
        | <\s*img[^>]*\bonerror\b
        | <\s*svg[^>]*on\w+
        | document\.cookie
        ";

/// Path-traversal pattern (plain and percent-encoded `../`).
pub const PATH_TRAVERSAL_PATTERN: &'static str = r"(?:\.\./|\.\.\\|%2e%2e%2f|%2e%2e/|\.\.%2f)";

/// Shell command-injection pattern.
pub const CMD_INJECTION_PATTERN: &'static str = r"(?ix)
          (?:[;&|`]\s*(?:cat|ls|whoami|id|uname|wget|curl|nc|bash|sh)\b)
        | (?:\$\([^)]*\))
        | (?:`[^`]*`)
        ";

/// Header-injection pattern (any CR or LF).
pub const HEADER_INJECTION_PATTERN: &'static str = r"(?:\r\n|\n\r|\r|\n)";

pub fn detect_sqli(s: &str) -> (r: bool)
    ensures
        r == pattern_matches(SQLI_PATTERN@, s@),
{
    regex_match_str(SQLI_PATTERN, s)
}

pub fn detect_xss(s: &str) -> (r: bool)
    ensures
        r == pattern_matches(XSS_PATTERN@, s@),
{
    regex_match_str(XSS_PATTERN, s)
}

pub fn detect_path_traversal(s: &str) -> (r: bool)
    ensures
        r == pattern_matches(PATH_TRAVERSAL_PATTERN@, s@),
{
    regex_match_str(PATH_TRAVERSAL_PATTERN, s)
}

pub fn detect_cmd_injection(s: &str) -> (r: bool)
    ensures
        r == pattern_matches(CMD_INJECTION_PATTERN@, s@),
{
    regex_match_str(CMD_INJECTION_PATTERN, s)
}

pub fn detect_header_injection(s: &str) -> (r: bool)
    ensures
        r == pattern_matches(HEADER_INJECTION_PATTERN@, s@),
{
    regex_match_str(HEADER_INJECTION_PATTERN, s)
}

/// The text of argument `i` (empty when absent).
pub open spec fn spec_arg_str(args: Seq<ValueView>, i: int) -> Seq<char> {
    if 0 <= i < args.len() {
        spec_as_str(args[i])
    } else {
        seq![]
    }
}

fn arg_str(args: &[Value], i: usize) -> (r: String)
    ensures
        r@ == spec_arg_str(values_view(args@), i as int),
{
    if i < args.len() {
        args[i].as_str()
    } else {
        let e: Vec<char> = Vec::new();
        string_of(e.as_slice())
    }
}

/// What a named built-in returns for the given arguments (`Null` for an unknown name).
pub open spec fn spec_dispatch(name: Seq<char>, args: Seq<ValueView>) -> ValueView {
    let a0 = spec_arg_str(args, 0);
    let a1 = spec_arg_str(args, 1);
    if name == "matches"@ {
        ValueView::Bool(pattern_matches(a1, a0))
    } else if name == "contains"@ {
        ValueView::Bool(seq_contains(a0, a1))
    } else if name == "starts_with"@ {
        ValueView::Bool(a1.is_prefix_of(a0))
    } else if name == "ends_with"@ {
        ValueView::Bool(a1.is_suffix_of(a0))
    } else if name == "lower"@ {
        ValueView::Str(unicode_lowercase(a0))
    } else if name == "upper"@ {
        ValueView::Str(unicode_uppercase(a0))
    } else if name == "len"@ {
        ValueView::Int(a0.len() as i64)
    } else if name == "contains_sqli"@ {
        ValueView::Bool(pattern_matches(SQLI_PATTERN@, a0))
    } else if name == "contains_xss"@ {
        ValueView::Bool(pattern_matches(XSS_PATTERN@, a0))
    } else if name == "contains_path_traversal"@ {
        ValueView::Bool(pattern_matches(PATH_TRAVERSAL_PATTERN@, a0))
    } else if name == "contains_cmd_injection"@ {
        ValueView::Bool(pattern_matches(CMD_INJECTION_PATTERN@, a0))
    } else if name == "contains_header_injection"@ {
        ValueView::Bool(pattern_matches(HEADER_INJECTION_PATTERN@, a0))
    } else {
        ValueView::Null
    }
}

fn name_is(name: &[char], l: &str) -> (r: bool)
    ensures
        r == (name@ == l@),
{
    let v = chars_of(l);
    crate::text::chars_eq(name, v.as_slice())
}

/// Dispatch a named built-in with already-evaluated arguments.
pub fn dispatch(name: &str, args: &[Value]) -> (r: Value)
    ensures
        r@ == spec_dispatch(name@, values_view(args@)),
{
    let n = chars_of(name);
    let a0 = arg_str(args, 0);
    if name_is(n.as_slice(), "matches") {
        let a1 = arg_str(args, 1);
        Value::Bool(regex_match_str(a1.as_str(), a0.as_str()))
    } else if name_is(n.as_slice(), "contains") {
        let a1 = arg_str(args, 1);
        let x = chars_of(a0.as_str());
        let y = chars_of(a1.as_str());
        Value::Bool(contains_chars(x.as_slice(), y.as_slice()))
    } else if name_is(n.as_slice(), "starts_with") {
        let a1 = arg_str(args, 1);
        let x = chars_of(a0.as_str());
        let y = chars_of(a1.as_str());
        Value::Bool(starts_with_chars(x.as_slice(), y.as_slice()))
    } else if name_is(n.as_slice(), "ends_with") {
        let a1 = arg_str(args, 1);
        let x = chars_of(a0.as_str());
        let y = chars_of(a1.as_str());
        Value::Bool(ends_with_chars(x.as_slice(), y.as_slice()))
    } else if name_is(n.as_slice(), "lower") {
        let x = chars_of(a0.as_str());
        let l = to_lowercase(x.as_slice());
        Value::Str(string_of(l.as_slice()))
    } else if name_is(n.as_slice(), "upper") {
        let x = chars_of(a0.as_str());
        let u = to_uppercase(x.as_slice());
        Value::Str(string_of(u.as_slice()))
    } else if name_is(n.as_slice(), "len") {
        let x = chars_of(a0.as_str());
        Value::Int(x.len() as i64)
    } else if name_is(n.as_slice(), "contains_sqli") {
        Value::Bool(detect_sqli(a0.as_str()))
    } else if name_is(n.as_slice(), "contains_xss") {
        Value::Bool(detect_xss(a0.as_str()))
    } else if name_is(n.as_slice(), "contains_path_traversal") {
        Value::Bool(detect_path_traversal(a0.as_str()))
    } else if name_is(n.as_slice(), "contains_cmd_injection") {
        Value::Bool(detect_cmd_injection(a0.as_str()))
    } else if name_is(n.as_slice(), "contains_header_injection") {
        Value::Bool(detect_header_injection(a0.as_str()))
    } else {
        Value::Null
    }
}

} // verus!
