//! Evaluation of YAML rule conditions against a request.
use vstd::prelude::*;

use crate::context::{lookup, spec_lookup, RequestContext};
use crate::pattern::{pattern_matches, regex_match_str};
use crate::rule::Condition;
use crate::text::{
    chars_of, find_char, find_char_from, lemma_find_char_from, lower_string, push_chars, push_str,
    slice_chars, split_char, split_chars, str_eq_chars, str_from_utf8, string_of, trim,
    trim_chars, unicode_lowercase, vecs_view,
};

verus! {

/// SQL-injection signature of the condition matcher.
pub const SQLI_SIGNATURE: &'static str = r"(?i)(\b(union\s+select|select\s+\S+\s+from|insert\s+into|update\s+\S+\s+set|delete\s+from|drop\s+(table|database)|exec(ute)?\s*\(|cast\s*\(|convert\s*\(|declare\s+@)\b|'(\s*(or|and)\s+'?\d|--)|/\*.*\*/|;\s*(drop|select|insert|update|delete|create)\b)";

/// Cross-site-scripting signature of the condition matcher.
pub const XSS_SIGNATURE: &'static str = r#"(?i)(<\s*script[\s>]|javascript\s*:|on\w+\s*=\s*['"\w]|<\s*(iframe|object|embed|svg|math)[\s/>]|expression\s*\(|vbscript\s*:)"#;

/// Path-traversal signature (applied to the lowercased path).
pub const PATH_TRAVERSAL_SIGNATURE: &'static str = r"(\.\./|\.\.\\|%2e%2e%2f|%2e%2e/|\.\.%2f|%252e%252e|%c0%ae|%c1%9c)";

/// Server-side request forgery signature: URLs to internal hosts and local schemes.
pub const SSRF_SIGNATURE: &'static str = r"(?i)https?://(localhost|127\.\d+\.\d+\.\d+|0\.0\.0\.0|10\.\d+\.\d+\.\d+|172\.(1[6-9]|2\d|3[01])\.\d+\.\d+|192\.168\.\d+\.\d+|169\.254\.\d+\.\d+|::1)|file://|dict://|gopher://|sftp://";

/// Header-injection signature: a CR or LF.
pub const HEADER_INJECTION_SIGNATURE: &'static str = r"[\r\n]";

// ─── wildcards ──────────────────────────────────────────────────────────────

/// Characters that a wildcard pattern escapes before handing it to the regex engine.
pub open spec fn is_regex_special(c: char) -> bool {
    c == '.' || c == '+' || c == '(' || c == ')' || c == '[' || c == ']' || c == '{' || c == '}'
        || c == '^' || c == '$' || c == '|' || c == '\\'
}

/// The regex text that one wildcard character stands for: `*` any run, `?` one
/// character, a regex metacharacter itself (escaped), anything else itself.
pub open spec fn wildcard_piece(c: char) -> Seq<char> {
    if c == '*' {
        seq!['.', '*']
    } else if c == '?' {
        seq!['.']
    } else if is_regex_special(c) {
        seq!['\\', c]
    } else {
        seq![c]
    }
}

pub open spec fn wildcard_body(p: Seq<char>) -> Seq<char>
    decreases p.len(),
{
    if p.len() == 0 {
        seq![]
    } else {
        wildcard_body(p.drop_last()) + wildcard_piece(p.last())
    }
}

/// The anchored regex that a wildcard pattern stands for.
pub open spec fn wildcard_regex(p: Seq<char>) -> Seq<char> {
    seq!['^'] + wildcard_body(p) + seq!['$']
}

fn regex_special(c: char) -> (r: bool)
    ensures
        r == is_regex_special(c),
{
    c == '.' || c == '+' || c == '(' || c == ')' || c == '[' || c == ']' || c == '{' || c == '}'
        || c == '^' || c == '$' || c == '|' || c == '\\'
}

/// Turn a wildcard pattern into its anchored regex.
pub fn wildcard_to_regex(pattern: &str) -> (r: String)
    ensures
        r@ == wildcard_regex(pattern@),
{
    let cs = chars_of(pattern);
    let mut out: Vec<char> = Vec::new();
    out.push('^');
    let mut i: usize = 0;
    assert(cs@.take(0) =~= Seq::<char>::empty());
    while i < cs.len()
        invariant
            i <= cs@.len(),
            cs@ == pattern@,
            out@ == seq!['^'] + wildcard_body(cs@.take(i as int)),
        decreases cs.len() - i,
    {
        let c = cs[i];
        let ghost before = out@;
        if c == '*' {
            out.push('.');
            out.push('*');
        } else if c == '?' {
            out.push('.');
        } else if regex_special(c) {
            out.push('\\');
            out.push(c);
        } else {
            out.push(c);
        }
        assert(out@ =~= before + wildcard_piece(c));
        assert(cs@.take(i + 1).drop_last() =~= cs@.take(i as int));
        i += 1;
    }
    out.push('$');
    assert(cs@.take(cs@.len() as int) =~= cs@);
    assert(out@ =~= wildcard_regex(pattern@));
    string_of(out.as_slice())
}

/// Glob-style match: `*` matches any run of characters, `?` exactly one.
pub fn wildcard_match(pattern: &str, value: &str) -> (r: bool)
    ensures
        r == pattern_matches(wildcard_regex(pattern@), value@),
{
    let re = wildcard_to_regex(pattern);
    regex_match_str(re.as_str(), value)
}

// ─── cookies ────────────────────────────────────────────────────────────────

/// Whether one `;`-separated piece of a `Cookie` header is `name=value`
/// (each side trimmed, split at the first `=`).
pub open spec fn cookie_part_matches(part: Seq<char>, name: Seq<char>, value: Seq<char>) -> bool {
    let t = trim(part);
    match find_char_from(t, '=', 0) {
        Some(k) => trim(t.subrange(0, k)) == name && trim(t.subrange(k + 1, t.len() as int))
            == value,
        None => false,
    }
}

/// Whether the `cookie` header holds the pair `name=value`.
pub open spec fn spec_check_cookie(
    headers: Seq<(String, String)>,
    name: Seq<char>,
    value: Seq<char>,
) -> bool {
    spec_lookup(headers, "cookie"@) matches Some(c) && cookie_in(c, name, value)
}

/// Whether a `Cookie` header value holds the pair `name=value`.
pub open spec fn cookie_in(c: Seq<char>, name: Seq<char>, value: Seq<char>) -> bool {
    exists|i: int|
        0 <= i < split_char(c, ';').len() && cookie_part_matches(
            #[trigger] split_char(c, ';')[i],
            name,
            value,
        )
}

fn cookie_part_check(part: &[char], name: &str, value: &str) -> (r: bool)
    ensures
        r == cookie_part_matches(part@, name@, value@),
{
    let t = trim_chars(part);
    proof {
        lemma_find_char_from(t@, '=', 0);
    }
    match find_char(t.as_slice(), '=', 0) {
        Some(k) => {
            let a = slice_chars(t.as_slice(), 0, k);
            let b = slice_chars(t.as_slice(), k + 1, t.len());
            let ka = trim_chars(a.as_slice());
            let vb = trim_chars(b.as_slice());
            str_eq_chars(name, ka.as_slice()) && str_eq_chars(value, vb.as_slice())
        },
        None => false,
    }
}

/// `name=value` appears in the `cookie` header.
#[verifier::loop_isolation(false)]
pub fn check_cookie(headers: &Vec<(String, String)>, name: &str, value: &str) -> (r: bool)
    ensures
        r == spec_check_cookie(headers@, name@, value@),
{
    match lookup(headers, "cookie") {
        Some(c) => {
            assert(spec_lookup(headers@, "cookie"@) == Some(c@));
            let cs = chars_of(c.as_str());
            let parts = split_chars(cs.as_slice(), ';');
            let ghost ps = split_char(c@, ';');
            assert(vecs_view(parts@) == ps);
            let mut i: usize = 0;
            let mut found = false;
            while !found && i < parts.len()
                invariant
                    i <= parts@.len(),
                    vecs_view(parts@) == ps,
                    !found ==> forall|j: int|
                        0 <= j < i ==> !cookie_part_matches(#[trigger] ps[j], name@, value@),
                    found ==> exists|j: int|
                        0 <= j < i && cookie_part_matches(#[trigger] ps[j], name@, value@),
                decreases parts.len() - i,
            {
                assert(ps[i as int] == parts@[i as int]@);
                if cookie_part_check(parts[i].as_slice(), name, value) {
                    found = true;
                }
                i += 1;
            }
            assert(found ==> exists|j: int| 0 <= j < split_char(c@, ';').len() && cookie_part_matches(#[trigger] split_char(c@, ';')[j], name@, value@));
            assert(!found ==> forall|j: int| 0 <= j < split_char(c@, ';').len() ==> !cookie_part_matches(#[trigger] split_char(c@, ';')[j], name@, value@));
            assert(found == spec_check_cookie(headers@, name@, value@));
            found
        },
        None => false,
    }
}

// ─── haystack ───────────────────────────────────────────────────────────────

/// The header values, each preceded by a space.
pub open spec fn header_values_joined(hs: Seq<(String, String)>) -> Seq<char>
    decreases hs.len(),
{
    if hs.len() == 0 {
        seq![]
    } else {
        header_values_joined(hs.drop_last()) + seq![' '] + hs.last().1@
    }
}

/// The text scanned for payload signatures: path, query, header values and the
/// body (when it is UTF-8), joined by single spaces.
pub open spec fn spec_haystack(ctx: RequestContext) -> Seq<char> {
    ctx.path@ + (match ctx.query {
        Some(q) => seq![' '] + q@,
        None => seq![],
    }) + header_values_joined(ctx.headers@) + (match ctx.body {
        Some(b) => if vstd::utf8::valid_utf8(b@) {
            seq![' '] + vstd::utf8::decode_utf8(b@)
        } else {
            seq![]
        },
        None => seq![],
    })
}

pub fn build_haystack(ctx: &RequestContext) -> (r: String)
    ensures
        r@ == spec_haystack(*ctx),
{
    let mut out = chars_of(ctx.path.as_str());
    match &ctx.query {
        Some(q) => {
            out.push(' ');
            push_str(&mut out, q.as_str());
        },
        None => {},
    }
    let ghost base = out@;
    let mut i: usize = 0;
    assert(ctx.headers@.take(0) =~= Seq::<(String, String)>::empty());
    while i < ctx.headers.len()
        invariant
            i <= ctx.headers@.len(),
            out@ == base + header_values_joined(ctx.headers@.take(i as int)),
        decreases ctx.headers.len() - i,
    {
        out.push(' ');
        push_str(&mut out, ctx.headers[i].1.as_str());
        assert(ctx.headers@.take(i + 1).drop_last() =~= ctx.headers@.take(i as int));
        i += 1;
        assert(out@ =~= base + header_values_joined(ctx.headers@.take(i as int)));
    }
    assert(ctx.headers@.take(ctx.headers@.len() as int) =~= ctx.headers@);
    match &ctx.body {
        Some(b) => match str_from_utf8(b.as_slice()) {
            Some(s) => {
                out.push(' ');
                push_str(&mut out, s.as_str());
            },
            None => {},
        },
        None => {},
    }
    assert(out@ =~= spec_haystack(*ctx));
    string_of(out.as_slice())
}

// ─── evaluation ─────────────────────────────────────────────────────────────

/// Every condition of the list holds.
pub open spec fn spec_all(cs: Seq<Condition>, ctx: RequestContext) -> bool
    decreases cs,
{
    if cs.len() == 0 {
        true
    } else {
        proof {
            assert(cs.drop_first() =~= cs.subrange(1, cs.len() as int));
        }
        spec_evaluate(cs[0], ctx) && spec_all(cs.drop_first(), ctx)
    }
}

/// Some condition of the list holds.
pub open spec fn spec_any(cs: Seq<Condition>, ctx: RequestContext) -> bool
    decreases cs,
{
    if cs.len() == 0 {
        false
    } else {
        proof {
            assert(cs.drop_first() =~= cs.subrange(1, cs.len() as int));
        }
        spec_evaluate(cs[0], ctx) || spec_any(cs.drop_first(), ctx)
    }
}

/// Whether some header value contains a CR or LF.
pub open spec fn spec_any_header_injected(hs: Seq<(String, String)>) -> bool {
    exists|i: int|
        0 <= i < hs.len() && pattern_matches(HEADER_INJECTION_SIGNATURE@, #[trigger] hs[i].1@)
}

/// What a condition evaluates to on a request.
pub open spec fn spec_evaluate(c: Condition, ctx: RequestContext) -> bool
    decreases c,
{
    match c {
        Condition::IpExact { value } => ctx.client_ip@ == value@,
        Condition::IpInBlacklist => false,
        Condition::IpInWhitelist => false,
        Condition::PathExact { value } => ctx.path@ == value@,
        Condition::PathWildcard { pattern } => pattern_matches(wildcard_regex(pattern@), ctx.path@),
        Condition::PathRegex { pattern } => pattern_matches(pattern@, ctx.path@),
        Condition::HeaderExact { name, value } => match spec_lookup(
            ctx.headers@,
            unicode_lowercase(name@),
        ) {
            Some(v) => v == value@,
            None => false,
        },
        Condition::HeaderRegex { name, pattern } => match spec_lookup(
            ctx.headers@,
            unicode_lowercase(name@),
        ) {
            Some(v) => pattern_matches(pattern@, v),
            None => false,
        },
        Condition::PayloadRegex { pattern } => match ctx.body {
            Some(b) => vstd::utf8::valid_utf8(b@) && pattern_matches(
                pattern@,
                vstd::utf8::decode_utf8(b@),
            ),
            None => false,
        },
        Condition::CookieExact { name, value } => spec_check_cookie(ctx.headers@, name@, value@),
        Condition::RateLimitExceeded => false,
        Condition::SqliPattern => pattern_matches(SQLI_SIGNATURE@, spec_haystack(ctx)),
        Condition::XssPattern => pattern_matches(XSS_SIGNATURE@, spec_haystack(ctx)),
        Condition::PathTraversalPattern => pattern_matches(
            PATH_TRAVERSAL_SIGNATURE@,
            unicode_lowercase(ctx.path@),
        ),
        Condition::SsrfPattern => pattern_matches(SSRF_SIGNATURE@, spec_haystack(ctx)),
        Condition::HeaderInjectionPattern => spec_any_header_injected(ctx.headers@),
        Condition::And(cs) => {
            proof {
                assert(decreases_to!(cs => cs@));
            }
            spec_all(cs@, ctx)
        },
        Condition::Or(cs) => {
            proof {
                assert(decreases_to!(cs => cs@));
            }
            spec_any(cs@, ctx)
        },
        Condition::Not(inner) => !spec_evaluate(*inner, ctx),
    }
}

fn any_header_injected(hs: &Vec<(String, String)>) -> (r: bool)
    ensures
        r == spec_any_header_injected(hs@),
{
    let mut i: usize = 0;
    while i < hs.len()
        invariant
            i <= hs@.len(),
            forall|j: int|
                0 <= j < i ==> !pattern_matches(HEADER_INJECTION_SIGNATURE@, #[trigger] hs@[j].1@),
        decreases hs.len() - i,
    {
        if regex_match_str(HEADER_INJECTION_SIGNATURE, hs[i].1.as_str()) {
            return true;
        }
        i += 1;
    }
    false
}

/// Evaluate a condition against the request.
#[verifier::loop_isolation(false)]
pub fn evaluate(condition: &Condition, ctx: &RequestContext) -> (r: bool)
    ensures
        r == spec_evaluate(*condition, *ctx),
    decreases condition,
{
    match condition {
        Condition::IpExact { value } => {
            let v = chars_of(value.as_str());
            str_eq_chars(ctx.client_ip.as_str(), v.as_slice())
        },
        Condition::IpInBlacklist => false,
        Condition::IpInWhitelist => false,
        Condition::PathExact { value } => {
            let v = chars_of(value.as_str());
            str_eq_chars(ctx.path.as_str(), v.as_slice())
        },
        Condition::PathWildcard { pattern } => wildcard_match(pattern.as_str(), ctx.path.as_str()),
        Condition::PathRegex { pattern } => regex_match_str(pattern.as_str(), ctx.path.as_str()),
        Condition::HeaderExact { name, value } => {
            let lower = lower_string(name.as_str());
            match lookup(&ctx.headers, lower.as_str()) {
                Some(v) => {
                    let vc = chars_of(value.as_str());
                    str_eq_chars(v.as_str(), vc.as_slice())
                },
                None => false,
            }
        },
        Condition::HeaderRegex { name, pattern } => {
            let lower = lower_string(name.as_str());
            match lookup(&ctx.headers, lower.as_str()) {
                Some(v) => regex_match_str(pattern.as_str(), v.as_str()),
                None => false,
            }
        },
        Condition::PayloadRegex { pattern } => match &ctx.body {
            Some(b) => match str_from_utf8(b.as_slice()) {
                Some(s) => regex_match_str(pattern.as_str(), s.as_str()),
                None => false,
            },
            None => false,
        },
        Condition::CookieExact { name, value } => check_cookie(
            &ctx.headers,
            name.as_str(),
            value.as_str(),
        ),
        Condition::RateLimitExceeded => false,
        Condition::SqliPattern => {
            let h = build_haystack(ctx);
            regex_match_str(SQLI_SIGNATURE, h.as_str())
        },
        Condition::XssPattern => {
            let h = build_haystack(ctx);
            regex_match_str(XSS_SIGNATURE, h.as_str())
        },
        Condition::PathTraversalPattern => {
            let p = lower_string(ctx.path.as_str());
            regex_match_str(PATH_TRAVERSAL_SIGNATURE, p.as_str())
        },
        Condition::SsrfPattern => {
            let h = build_haystack(ctx);
            regex_match_str(SSRF_SIGNATURE, h.as_str())
        },
        Condition::HeaderInjectionPattern => any_header_injected(&ctx.headers),
        Condition::And(cs) => {
            let mut i: usize = 0;
            let mut all = true;
            assert(cs@.skip(0) =~= cs@);
            while all && i < cs.len()
                invariant
                    i <= cs@.len(),
                    all ==> spec_all(cs@, *ctx) == spec_all(cs@.skip(i as int), *ctx),
                    !all ==> !spec_all(cs@, *ctx),
                decreases cs.len() - i,
            {
                proof {
                    assert(decreases_to!(*condition => *cs));
                    assert(decreases_to!(*cs => cs@));
                    assert(decreases_to!(cs@ => cs@[i as int]));
                    assert(cs@.skip(i as int).drop_first() =~= cs@.skip(i + 1));
                }
                if !evaluate(&cs[i], ctx) {
                    all = false;
                }
                i += 1;
            }
            proof {
                if all {
                    assert(cs@.skip(i as int).len() == 0);
                }
            }
            all
        },
        Condition::Or(cs) => {
            let mut i: usize = 0;
            let mut any = false;
            assert(cs@.skip(0) =~= cs@);
            while !any && i < cs.len()
                invariant
                    i <= cs@.len(),
                    !any ==> spec_any(cs@, *ctx) == spec_any(cs@.skip(i as int), *ctx),
                    any ==> spec_any(cs@, *ctx),
                decreases cs.len() - i,
            {
                proof {
                    assert(decreases_to!(*condition => *cs));
                    assert(decreases_to!(*cs => cs@));
                    assert(decreases_to!(cs@ => cs@[i as int]));
                    assert(cs@.skip(i as int).drop_first() =~= cs@.skip(i + 1));
                }
                if evaluate(&cs[i], ctx) {
                    any = true;
                }
                i += 1;
            }
            proof {
                if !any {
                    assert(cs@.skip(i as int).len() == 0);
                }
            }
            any
        },
        Condition::Not(inner) => !evaluate(inner, ctx),
    }
}

} // verus!
